use vstd::prelude::*;

use crate::editor::files::FilePickerState;
use crate::editor::modes::EditorMode;
use crate::editor::picking::SpawnPickerState;
use crate::editor::switching::EditorViewMode;
use crate::tunnel::TunnelsModeState;

verus! {

/// Everything the editor keeps between frames: the view, the files, the play-test spawn
/// picker and the tunnel editing state (`D` file payloads, `P` positions, `T` drag starts).
pub struct EditorState<D, P, T> {
    pub view: EditorViewMode,
    pub files: FilePickerState<D>,
    pub spawn: SpawnPickerState<P>,
    pub tunnels_mode: TunnelsModeState<T>,
}

impl<D: Clone, P: Copy, T> EditorState<D, P, T> {
    /// The editor view over the files found in a directory: the editor view, no file open,
    /// no play test, tunnel editing state fresh.
    pub fn new(files: FilePickerState<D>) -> (r: Self)
        ensures
            r.view == EditorViewMode::Editor,
            r.files == files,
            r.spawn.mode == crate::editor::picking::SpawnPickerMode::Inactive,
            r.spawn.position is None,
            r.tunnels_mode.mirror,
            r.tunnels_mode.selected_point is None,
            r.tunnels_mode.drag_start is None,
    {
        EditorState {
            view: EditorViewMode::Editor,
            files,
            spawn: SpawnPickerState::new(),
            tunnels_mode: TunnelsModeState::new(),
        }
    }

    /// The mode of the open file; tunnels when no file is open.
    pub fn mode(&self) -> (r: EditorMode)
        ensures
            r == match self.files.spec_current_file() {
                Some(f) => f.mode,
                None => EditorMode::Tunnels,
            },
    {
        self.files.current_mode()
    }
}

} // verus!
