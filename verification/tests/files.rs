use mines::editor::state::EditorState;
use mines::editor::files::{
    file_ext_for_mode, file_name_for_mode, new_file_name, FileError, FilePickerState, FileState,
    ModePayload, SaveAs,
};
use mines::editor::modes::EditorMode;

#[derive(Clone, Debug, PartialEq)]
enum Payload {
    Tunnel(u32),
    Room(u32),
}

impl ModePayload for Payload {
    fn spec_default_for_mode(mode: EditorMode) -> Self {
        Self::default_for_mode(mode)
    }

    fn default_for_mode(mode: EditorMode) -> Self {
        match mode {
            EditorMode::Tunnels => Payload::Tunnel(0),
            EditorMode::Rooms => Payload::Room(0),
        }
    }
}

fn listed(name: &str, dir: &str) -> FileState<Payload> {
    FileState::from_listing(name.to_string(), format!("{dir}/{name}"), 10).unwrap()
}

fn picker() -> FilePickerState<Payload> {
    FilePickerState::new(
        "assets".to_string(),
        vec![listed("a.room.ron", "assets"), listed("b.tunnel.ron", "assets")],
    )
}

#[test]
fn suffixes_and_placeholder_names() {
    assert_eq!(file_ext_for_mode(&EditorMode::Rooms), ".room.ron");
    assert_eq!(file_ext_for_mode(&EditorMode::Tunnels), ".tunnel.ron");
    assert_eq!(file_name_for_mode("cave".to_string(), &EditorMode::Rooms), "cave.room.ron");
    assert_eq!(new_file_name(0, &EditorMode::Tunnels), "*tunnel0*");
    assert_eq!(new_file_name(12, &EditorMode::Rooms), "*room12*");
}

#[test]
fn listing_keeps_editor_files_only() {
    let f: FileState<Payload> = listed("a.room.ron", "dir");
    assert_eq!(f.mode, EditorMode::Rooms);
    assert_eq!(f.path, Some("dir/a.room.ron".to_string()));
    assert!(f.data.is_none() && !f.changed);
    assert!(FileState::<Payload>::from_listing(".a.room.ron".into(), "d/.a.room.ron".into(), 0)
        .is_none());
    assert!(FileState::<Payload>::from_listing("a.txt".into(), "d/a.txt".into(), 0).is_none());
}

#[test]
fn read_only_once() {
    let mut f = listed("a.room.ron", "dir");
    assert_eq!(f.read(Payload::Room(3)), Ok(()));
    assert_eq!(f.data, Some(Payload::Room(3)));
    assert_eq!(f.last_saved_data, Some(Payload::Room(3)));
    assert_eq!(f.read(Payload::Room(4)), Err(FileError::AlreadyLoaded));
    assert_eq!(f.data, Some(Payload::Room(3)));
}

#[test]
fn writable_needs_data_and_path() {
    let mut f = listed("a.room.ron", "dir");
    assert_eq!(f.check_writable(), Err(FileError::EmptyFile));
    f.read(Payload::Room(1)).unwrap();
    assert_eq!(f.check_writable(), Ok(()));
    f.path = None;
    assert_eq!(f.check_writable(), Err(FileError::NoPath));
}

#[test]
fn written_data_becomes_saved() {
    let mut f = listed("a.room.ron", "dir");
    f.read(Payload::Room(1)).unwrap();
    f.data = Some(Payload::Room(2));
    f.mark_written(99);
    assert_eq!(f.last_saved_data, Some(Payload::Room(2)));
    assert_eq!(f.modified_time, 99);
}

#[test]
fn switching_files_unloads_unchanged_ones() {
    let mut p = picker();
    assert_eq!(p.switch_to_file(0), Ok(Some("assets/a.room.ron".to_string())));
    p.files[0].read(Payload::Room(5)).unwrap();
    assert_eq!(p.current_mode(), EditorMode::Rooms);
    assert_eq!(p.current_data(), Some(&Payload::Room(5)));
    assert_eq!(p.switch_to_file(1), Ok(Some("assets/b.tunnel.ron".to_string())));
    assert!(p.files[0].data.is_none());
    assert_eq!(p.current, Some(1));
    assert_eq!(p.switch_to_file(5), Err(FileError::DoesNotExist));
    assert_eq!(p.current, Some(1));
}

#[test]
fn changed_files_stay_loaded() {
    let mut p = picker();
    p.switch_to_file(0).unwrap();
    p.files[0].read(Payload::Room(5)).unwrap();
    p.files[0].changed = true;
    p.switch_to_file(1).unwrap();
    assert_eq!(p.files[0].data, Some(Payload::Room(5)));
    assert_eq!(p.switch_to_file(0), Ok(None));
}

#[test]
fn no_file_open() {
    let p = picker();
    assert!(p.current_file().is_none());
    assert_eq!(p.current_mode(), EditorMode::Tunnels);
    assert_eq!(p.save_current_file(), Err(FileError::NoCurrentFile));
}

#[test]
fn new_files_are_numbered() {
    let mut p = picker();
    p.create_new_file(EditorMode::Rooms, 7);
    assert_eq!(p.files[0].name, "*room0*");
    assert_eq!(p.files[0].data, Some(Payload::Room(0)));
    assert!(p.files[0].changed && p.files[0].path.is_none());
    assert_eq!(p.current, Some(0));
    p.create_new_file(EditorMode::Tunnels, 8);
    assert_eq!(p.files[0].name, "*tunnel1*");
    assert_eq!(p.files.len(), 4);
    assert_eq!(p.save_current_file(), Ok(false));
    assert_eq!(p.save_file(3), Ok(true));
    assert_eq!(p.save_file(4), Err(FileError::DoesNotExist));
}

#[test]
fn revert_restores_saved_data() {
    let mut p = picker();
    p.files[0].read(Payload::Room(1)).unwrap();
    p.files[0].data = Some(Payload::Room(9));
    assert_eq!(p.revert_file(0), Ok(()));
    assert_eq!(p.files[0].data, Some(Payload::Room(1)));
    assert_eq!(p.revert_file(2), Err(FileError::DoesNotExist));
}

#[test]
fn rename_moves_file_to_front() {
    let mut p = picker();
    let (old_path, new_path) = p.rename_file(1, "deep".to_string()).unwrap();
    assert_eq!(old_path, "assets/b.tunnel.ron");
    let expected = std::path::Path::new("assets").join("deep.tunnel.ron");
    assert_eq!(new_path, expected.to_string_lossy());
    assert_eq!(p.files[0].name, "deep.tunnel.ron");
    assert_eq!(p.files.len(), 2);
    assert_eq!(p.files[1].name, "a.room.ron");
    assert_eq!(p.current, Some(0));
}

#[test]
fn rename_errors() {
    let mut p = picker();
    assert_eq!(p.rename_file(9, "x".into()), Err(FileError::DoesNotExist));
    p.create_new_file(EditorMode::Rooms, 0);
    assert_eq!(p.rename_file(0, "x".into()), Err(FileError::NoPath));
}

#[test]
fn save_as_for_a_new_file() {
    let mut p = picker();
    p.create_new_file(EditorMode::Rooms, 0);
    let file = match p.save_file_with_name(0, "hall".to_string()) {
        Ok(SaveAs::Ready(f)) => f,
        _ => panic!("expected a file to write"),
    };
    assert_eq!(file.name, "hall.room.ron");
    assert_eq!(p.files.len(), 2);
    p.finish_save_with_name(file);
    assert_eq!(p.files.len(), 3);
    assert_eq!(p.files[0].name, "hall.room.ron");
    assert_eq!(p.current, Some(0));
}

#[test]
fn save_as_reads_unloaded_files_first() {
    let mut p = picker();
    match p.save_file_with_name(0, "copy".to_string()) {
        Ok(SaveAs::NeedsRead(path)) => assert_eq!(path, "assets/a.room.ron"),
        _ => panic!("expected a read first"),
    }
    p.files[0].read(Payload::Room(4)).unwrap();
    let file = match p.save_file_with_name(0, "copy".to_string()) {
        Ok(SaveAs::Ready(f)) => f,
        _ => panic!("expected a file to write"),
    };
    assert_eq!(file.data, Some(Payload::Room(4)));
    assert_eq!(p.files.len(), 2);
    assert!(matches!(p.save_file_with_name(5, "x".into()), Err(FileError::DoesNotExist)));
}

#[test]
fn finishing_save_as_replaces_same_name() {
    let mut p = picker();
    let f = listed("a.room.ron", "elsewhere");
    p.finish_save_with_name(f);
    assert_eq!(p.files.len(), 2);
    assert_eq!(p.files[0].path, Some("elsewhere/a.room.ron".to_string()));
    assert_eq!(p.files[1].name, "b.tunnel.ron");
}

#[test]
fn delete_clears_current() {
    let mut p = picker();
    p.switch_to_file(1).unwrap();
    assert_eq!(p.delete_file(1), Ok(()));
    assert_eq!(p.current, None);
    assert_eq!(p.files.len(), 1);
    assert_eq!(p.delete_file(3), Err(FileError::DoesNotExist));
}

#[test]
fn saved_names_are_recognised_again() {
    for name in ["cave", "my.cave", "", "a.room"] {
        for mode in [EditorMode::Rooms, EditorMode::Tunnels] {
            let file = file_name_for_mode(name.to_string(), &mode);
            assert_eq!(EditorMode::from_path(&file), Ok(mode));
        }
    }
}

#[test]
fn changed_status_follows_comparison() {
    let mut p = picker();
    p.files[0].changed = true;
    p.update_files_changed_status(&vec![false, true]);
    assert!(!p.files[0].changed);
    assert!(p.files[1].changed);
}

#[test]
fn editor_state_mode_follows_open_file() {
    let mut state: EditorState<Payload, (i32, i32), u8> = EditorState::new(picker());
    assert_eq!(state.mode(), EditorMode::Tunnels);
    state.files.switch_to_file(0).unwrap();
    assert_eq!(state.mode(), EditorMode::Rooms);
    assert!(state.tunnels_mode.mirror);
}

#[test]
fn editing_the_open_file() {
    let mut p = picker();
    assert!(p.current_file_mut().is_none());
    assert!(p.current_data_mut().is_none());
    p.switch_to_file(1).unwrap();
    assert!(p.current_data_mut().is_none());
    p.files[1].read(Payload::Tunnel(1)).unwrap();
    if let Some(d) = p.current_data_mut() {
        *d = Payload::Tunnel(8);
    }
    assert_eq!(p.files[1].data, Some(Payload::Tunnel(8)));
    if let Some(f) = p.current_file_mut() {
        f.changed = true;
    }
    assert!(p.files[1].changed);
    assert!(!p.files[0].changed);
}

#[test]
fn new_files_hold_their_modes_default() {
    let mut p = picker();
    p.create_new_file(EditorMode::Tunnels, 1);
    assert_eq!(p.files[0].data, Some(Payload::Tunnel(0)));
    assert_eq!(p.files[0].last_saved_data, p.files[0].data);
    p.create_new_file(EditorMode::Rooms, 2);
    assert_eq!(p.files[0].data, Some(Payload::Room(0)));
    assert_eq!(p.files[0].last_saved_data, p.files[0].data);
}
