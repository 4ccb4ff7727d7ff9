use vstd::prelude::*;

use crate::editor::modes::EditorMode;

verus! {

/// Whether the editor shows the asset being edited or a preview of it in the world.
#[derive(Clone, Copy, Debug, PartialEq, Eq, Structural, Hash)]
pub enum EditorViewMode {
    Editor,
    Preview,
}

impl Default for EditorViewMode {
    fn default() -> (r: EditorViewMode)
        ensures
            r == EditorViewMode::Editor,
    {
        EditorViewMode::Editor
    }
}

/// The systems (of type `S`) that run when a mode is left, entered, entered in a given view,
/// and on every update while it is active.
pub struct ModeSystems<S> {
    pub exit: Option<S>,
    pub enter: Option<S>,
    pub enter_view: Vec<(EditorViewMode, S)>,
    pub update: Vec<S>,
}

/// What the editor last switched to, and the systems to run on changes.
pub struct ModeSwitcher<S> {
    pub prev_file: Option<usize>,
    pub prev_mode: Option<EditorMode>,
    pub prev_view: Option<EditorViewMode>,
    pub mode_systems: Vec<(EditorMode, ModeSystems<S>)>,
    pub cleanup_mode_specific_entities: S,
    pub cleanup_terrain: S,
    pub cancel_placement_and_playtest: S,
    pub camera_on_change_mode: S,
    pub update_files_changed_status: S,
    pub playtest: S,
}

/// The systems registered for `mode` (the first entry for it).
pub open spec fn find_mode<S>(entries: Seq<(EditorMode, ModeSystems<S>)>, mode: EditorMode) -> Option<
    ModeSystems<S>,
>
    decreases entries.len(),
{
    if entries.len() == 0 {
        None
    } else if entries[0].0 == mode {
        Some(entries[0].1)
    } else {
        find_mode(entries.skip(1), mode)
    }
}

/// The system registered for entering `view` (the first entry for it).
pub open spec fn find_view<S>(entries: Seq<(EditorViewMode, S)>, view: EditorViewMode) -> Option<S>
    decreases entries.len(),
{
    if entries.len() == 0 {
        None
    } else if entries[0].0 == view {
        Some(entries[0].1)
    } else {
        find_view(entries.skip(1), view)
    }
}

pub open spec fn opt_seq<S>(o: Option<S>) -> Seq<S> {
    match o {
        Some(s) => seq![s],
        None => seq![],
    }
}

pub open spec fn exit_of<S>(entries: Seq<(EditorMode, ModeSystems<S>)>, mode: Option<EditorMode>) -> Option<S> {
    match mode {
        Some(m) => match find_mode(entries, m) {
            Some(ms) => ms.exit,
            None => None,
        },
        None => None,
    }
}

pub open spec fn enter_of<S>(entries: Seq<(EditorMode, ModeSystems<S>)>, mode: Option<EditorMode>) -> Option<S> {
    match mode {
        Some(m) => match find_mode(entries, m) {
            Some(ms) => ms.enter,
            None => None,
        },
        None => None,
    }
}

pub open spec fn enter_view_of<S>(
    entries: Seq<(EditorMode, ModeSystems<S>)>,
    mode: Option<EditorMode>,
    view: EditorViewMode,
) -> Option<S> {
    match mode {
        Some(m) => match find_mode(entries, m) {
            Some(ms) => find_view(ms.enter_view@, view),
            None => None,
        },
        None => None,
    }
}

fn find_mode_index<S>(entries: &Vec<(EditorMode, ModeSystems<S>)>, mode: EditorMode) -> (r: Option<usize>)
    ensures
        match r {
            Some(i) => i < entries@.len() && find_mode(entries@, mode) == Some(entries@[i as int].1),
            None => find_mode(entries@, mode) is None,
        },
{
    let mut i: usize = 0;
    proof {
        assert(entries@.skip(0) =~= entries@);
    }
    while i < entries.len()
        invariant
            i <= entries@.len(),
            find_mode(entries@, mode) == find_mode(entries@.skip(i as int), mode),
        decreases entries@.len() - i,
    {
        proof {
            assert(entries@.skip(i as int).skip(1) =~= entries@.skip(i + 1));
        }
        if entries[i].0 == mode {
            return Some(i);
        }
        i = i + 1;
    }
    None
}

fn find_view_entry<S: Copy>(entries: &Vec<(EditorViewMode, S)>, view: EditorViewMode) -> (r: Option<S>)
    ensures
        r == find_view(entries@, view),
{
    let mut i: usize = 0;
    proof {
        assert(entries@.skip(0) =~= entries@);
    }
    while i < entries.len()
        invariant
            i <= entries@.len(),
            find_view(entries@, view) == find_view(entries@.skip(i as int), view),
        decreases entries@.len() - i,
    {
        proof {
            assert(entries@.skip(i as int).skip(1) =~= entries@.skip(i + 1));
        }
        if entries[i].0 == view {
            return Some(entries[i].1);
        }
        i = i + 1;
    }
    None
}

fn push_some<S: Copy>(v: &mut Vec<S>, o: Option<S>)
    ensures
        final(v)@ == old(v)@ + opt_seq(o),
{
    match o {
        Some(s) => {
            v.push(s);
            proof {
                assert(final(v)@ =~= old(v)@ + opt_seq(o));
            }
        },
        None => {
            proof {
                assert(old(v)@ + opt_seq(o) =~= old(v)@);
            }
        },
    }
}

/// Each view has at most one entry among `entries`, as keys of a map.
pub open spec fn views_distinct<S>(entries: Seq<(EditorViewMode, S)>) -> bool {
    forall|a: int, b: int| 0 <= a < b < entries.len() ==> (#[trigger] entries[a]).0 != (#[trigger] entries[b]).0
}

impl<S> ModeSwitcher<S> {
    /// Each mode has one entry of systems, and each mode one enter system per view: the
    /// entries are the keys of maps.
    pub open spec fn wf(&self) -> bool {
        &&& forall|a: int, b: int|
            0 <= a < b < self.mode_systems@.len() ==> (#[trigger] self.mode_systems@[a]).0 != (
            #[trigger] self.mode_systems@[b]).0
        &&& forall|a: int|
            0 <= a < self.mode_systems@.len() ==> views_distinct(
                (#[trigger] self.mode_systems@[a]).1.enter_view@,
            )
    }

    /// Checks that no mode, and no view of a mode, is registered twice.
    pub fn entries_distinct(&self) -> (r: bool)
        ensures
            r == self.wf(),
    {
        let n = self.mode_systems.len();
        let mut a: usize = 0;
        while a < n
            invariant
                n == self.mode_systems@.len(),
                a <= n,
                forall|x: int, y: int|
                    0 <= x < y < self.mode_systems@.len() && x < a ==> (#[trigger] self.mode_systems@[x]).0
                        != (#[trigger] self.mode_systems@[y]).0,
                forall|x: int|
                    0 <= x < a ==> views_distinct((#[trigger] self.mode_systems@[x]).1.enter_view@),
            decreases n - a,
        {
            let mut b: usize = a + 1;
            while b < n
                invariant
                    n == self.mode_systems@.len(),
                    a < n,
                    a < b <= n,
                    forall|y: int| a < y < b ==> self.mode_systems@[a as int].0 != (#[trigger] self.mode_systems@[y]).0,
                decreases n - b,
            {
                if self.mode_systems[a].0 == self.mode_systems[b].0 {
                    return false;
                }
                b = b + 1;
            }
            let views = &self.mode_systems[a].1.enter_view;
            let m = views.len();
            let mut c: usize = 0;
            while c < m
                invariant
                    n == self.mode_systems@.len(),
                    a < n,
                    *views == self.mode_systems@[a as int].1.enter_view,
                    m == views@.len(),
                    c <= m,
                    forall|x: int, y: int| 0 <= x < y < m && x < c ==> (#[trigger] views@[x]).0 != (#[trigger] views@[y]).0,
                decreases m - c,
            {
                let mut d: usize = c + 1;
                while d < m
                    invariant
                        n == self.mode_systems@.len(),
                        a < n,
                        *views == self.mode_systems@[a as int].1.enter_view,
                        m == views@.len(),
                        c < m,
                        c < d <= m,
                        forall|y: int| c < y < d ==> views@[c as int].0 != (#[trigger] views@[y]).0,
                    decreases m - d,
                {
                    if views[c].0 == views[d].0 {
                        proof {
                            let e = self.mode_systems@[a as int].1.enter_view@;
                            assert(e[c as int].0 == e[d as int].0);
                            assert(!views_distinct(e));
                        }
                        return false;
                    }
                    d = d + 1;
                }
                c = c + 1;
            }
            a = a + 1;
        }
        true
    }
}

impl<S: Copy> ModeSwitcher<S> {
    /// The systems one editor update runs, in order, when the open file, the mode and the
    /// view are `file`, `mode` and `view` and the switcher last saw its `prev_*` values.
    pub open spec fn planned(
        &self,
        file: Option<usize>,
        mode: Option<EditorMode>,
        view: EditorViewMode,
    ) -> Seq<S> {
        let changed_file = self.prev_file != file;
        let changed_mode = self.prev_mode != mode;
        let changed_view = self.prev_view != Some(view);
        let entries = self.mode_systems@;
        (if changed_file {
            seq![self.cleanup_terrain]
        } else {
            seq![]
        }) + (if changed_mode {
            opt_seq(exit_of(entries, self.prev_mode)) + opt_seq(enter_of(entries, mode))
        } else {
            seq![]
        }) + (if changed_view {
            opt_seq(enter_view_of(entries, mode, view))
        } else {
            seq![]
        }) + (if changed_mode || changed_view {
            seq![self.camera_on_change_mode, self.cleanup_mode_specific_entities]
        } else {
            seq![]
        }) + (if changed_file || changed_mode || changed_view {
            seq![self.cancel_placement_and_playtest]
        } else {
            seq![]
        }) + seq![self.update_files_changed_status, self.playtest]
    }

    pub fn mode_entry_exit(&self, mode: Option<EditorMode>) -> (r: Option<S>)
        requires
            self.wf(),
        ensures
            r == exit_of(self.mode_systems@, mode),
    {
        match mode {
            Some(m) => match find_mode_index(&self.mode_systems, m) {
                Some(i) => self.mode_systems[i].1.exit,
                None => None,
            },
            None => None,
        }
    }

    pub fn mode_entry_enter(&self, mode: Option<EditorMode>) -> (r: Option<S>)
        requires
            self.wf(),
        ensures
            r == enter_of(self.mode_systems@, mode),
    {
        match mode {
            Some(m) => match find_mode_index(&self.mode_systems, m) {
                Some(i) => self.mode_systems[i].1.enter,
                None => None,
            },
            None => None,
        }
    }

    pub fn mode_entry_enter_view(&self, mode: Option<EditorMode>, view: EditorViewMode) -> (r:
        Option<S>)
        requires
            self.wf(),
        ensures
            r == enter_view_of(self.mode_systems@, mode, view),
    {
        match mode {
            Some(m) => match find_mode_index(&self.mode_systems, m) {
                Some(i) => find_view_entry(&self.mode_systems[i].1.enter_view, view),
                None => None,
            },
            None => None,
        }
    }

    /// Decides which systems run this update and remembers the file, mode and view.
    #[verifier::rlimit(80)]
    #[verifier::spinoff_prover]
    pub fn switch_modes(
        &mut self,
        file: Option<usize>,
        mode: Option<EditorMode>,
        view: EditorViewMode,
    ) -> (r: Vec<S>)
        requires
            old(self).wf(),
        ensures
            r@ == old(self).planned(file, mode, view),
            old(self).prev_file != file ==> r@.len() > 0 && r@[0] == old(self).cleanup_terrain,
            final(self).prev_file == file,
            final(self).prev_mode == mode,
            final(self).prev_view == Some(view),
            final(self).mode_systems@ == old(self).mode_systems@,
            final(self).cleanup_mode_specific_entities == old(self).cleanup_mode_specific_entities,
            final(self).cleanup_terrain == old(self).cleanup_terrain,
            final(self).cancel_placement_and_playtest == old(self).cancel_placement_and_playtest,
            final(self).camera_on_change_mode == old(self).camera_on_change_mode,
            final(self).update_files_changed_status == old(self).update_files_changed_status,
            final(self).playtest == old(self).playtest,
    {
        let mut systems: Vec<S> = Vec::new();
        let prev_mode = self.prev_mode;
        let changed_file = self.prev_file != file;
        let changed_mode = self.prev_mode != mode;
        let changed_view = self.prev_view != Some(view);
        let ghost entries = self.mode_systems@;
        let ghost s0 = if changed_file {
            seq![self.cleanup_terrain]
        } else {
            seq![]
        };
        if changed_file {
            systems.push(self.cleanup_terrain);
            self.prev_file = file;
        }
        proof {
            assert(systems@ =~= s0);
        }
        let ghost s1 = if changed_mode {
            opt_seq(exit_of(entries, prev_mode)) + opt_seq(enter_of(entries, mode))
        } else {
            seq![]
        };
        if changed_mode {
            let x = self.mode_entry_exit(prev_mode);
            push_some(&mut systems, x);
            let e = self.mode_entry_enter(mode);
            push_some(&mut systems, e);
            self.prev_mode = mode;
        }
        proof {
            assert(systems@ =~= s0 + s1);
        }
        let ghost s2 = if changed_view {
            opt_seq(enter_view_of(entries, mode, view))
        } else {
            seq![]
        };
        if changed_view {
            let v = self.mode_entry_enter_view(mode, view);
            push_some(&mut systems, v);
            self.prev_view = Some(view);
        }
        proof {
            assert(systems@ =~= s0 + s1 + s2);
        }
        let ghost s3 = if changed_mode || changed_view {
            seq![self.camera_on_change_mode, self.cleanup_mode_specific_entities]
        } else {
            seq![]
        };
        if changed_mode || changed_view {
            systems.push(self.camera_on_change_mode);
            systems.push(self.cleanup_mode_specific_entities);
        }
        proof {
            assert(systems@ =~= s0 + s1 + s2 + s3);
        }
        let ghost s4 = if changed_file || changed_mode || changed_view {
            seq![self.cancel_placement_and_playtest]
        } else {
            seq![]
        };
        if changed_file || changed_mode || changed_view {
            systems.push(self.cancel_placement_and_playtest);
        }
        proof {
            assert(systems@ =~= s0 + s1 + s2 + s3 + s4);
        }
        systems.push(self.update_files_changed_status);
        systems.push(self.playtest);
        proof {
            if old(self).prev_file != file {
                law_file_change_cleans_terrain(*old(self), file, mode, view);
            }
            assert(systems@ =~= s0 + s1 + s2 + s3 + s4 + seq![self.update_files_changed_status, self.playtest]);
            assert(old(self).planned(file, mode, view) == s0 + s1 + s2 + s3 + s4 + seq![self.update_files_changed_status, self.playtest]);
        }
        systems
    }

    /// The update systems of the active mode.
    pub fn update_curr_mode(&self, mode: Option<EditorMode>) -> (r: Vec<S>)
        requires
            self.wf(),
        ensures
            r@ == match mode {
                Some(m) => match find_mode(self.mode_systems@, m) {
                    Some(ms) => ms.update@,
                    None => seq![],
                },
                None => seq![],
            },
    {
        let mut r: Vec<S> = Vec::new();
        match mode {
            Some(m) => match find_mode_index(&self.mode_systems, m) {
                Some(i) => {
                    let n = self.mode_systems[i].1.update.len();
                    let mut k: usize = 0;
                    while k < n
                        invariant
                            i < self.mode_systems@.len(),
                            n == self.mode_systems@[i as int].1.update@.len(),
                            k <= n,
                            r@ == self.mode_systems@[i as int].1.update@.take(k as int),
                        decreases n - k,
                    {
                        r.push(self.mode_systems[i].1.update[k]);
                        proof {
                            assert(r@ =~= self.mode_systems@[i as int].1.update@.take(k + 1));
                        }
                        k = k + 1;
                    }
                    proof {
                        assert(r@ =~= self.mode_systems@[i as int].1.update@);
                    }
                },
                None => {},
            },
            None => {},
        }
        r
    }

    /// The systems that reset the view of a reverted file: the mode's exit, enter and
    /// enter-view systems, those that are registered.
    pub fn revert_systems(&self, mode: Option<EditorMode>, view: EditorViewMode) -> (r: Vec<S>)
        requires
            self.wf(),
        ensures
            r@ == match mode {
                Some(m) => match find_mode(self.mode_systems@, m) {
                    Some(ms) => opt_seq(ms.exit) + opt_seq(ms.enter) + opt_seq(
                        find_view(ms.enter_view@, view),
                    ),
                    None => seq![],
                },
                None => seq![],
            },
    {
        let mut r: Vec<S> = Vec::new();
        match mode {
            Some(m) => match find_mode_index(&self.mode_systems, m) {
                Some(i) => {
                    push_some(&mut r, self.mode_systems[i].1.exit);
                    push_some(&mut r, self.mode_systems[i].1.enter);
                    let v = find_view_entry(&self.mode_systems[i].1.enter_view, view);
                    push_some(&mut r, v);
                    proof {
                        assert(r@ =~= seq![] + opt_seq(self.mode_systems@[i as int].1.exit) + opt_seq(
                            self.mode_systems@[i as int].1.enter,
                        ) + opt_seq(find_view(self.mode_systems@[i as int].1.enter_view@, view)));
                    }
                },
                None => {},
            },
            None => {},
        }
        r
    }
}

/// A second update with the same file, mode and view as the one before runs only the two
/// systems that run on every update.
pub proof fn law_switch_modes_settles<S: Copy>(
    s: ModeSwitcher<S>,
    file: Option<usize>,
    mode: Option<EditorMode>,
    view: EditorViewMode,
)
    requires
        s.prev_file == file,
        s.prev_mode == mode,
        s.prev_view == Some(view),
    ensures
        s.planned(file, mode, view) == seq![s.update_files_changed_status, s.playtest],
{
    assert(s.planned(file, mode, view) =~= seq![s.update_files_changed_status, s.playtest]);
}

/// Whenever the open file changes, the terrain of the previous one is cleaned up first,
/// whatever happens to the mode and view; when only the file changes, the terrain cleanup,
/// the placement and play-test cancelling and the two per-update systems run, nothing else.
pub proof fn law_file_change_cleans_terrain<S: Copy>(
    s: ModeSwitcher<S>,
    file: Option<usize>,
    mode: Option<EditorMode>,
    view: EditorViewMode,
)
    requires
        s.prev_file != file,
    ensures
        s.planned(file, mode, view).len() >= 4,
        s.planned(file, mode, view)[0] == s.cleanup_terrain,
        s.prev_mode == mode && s.prev_view == Some(view) ==> s.planned(file, mode, view) == seq![
            s.cleanup_terrain,
            s.cancel_placement_and_playtest,
            s.update_files_changed_status,
            s.playtest,
        ],
{
    let p = s.planned(file, mode, view);
    if s.prev_mode == mode && s.prev_view == Some(view) {
        assert(p =~= seq![
            s.cleanup_terrain,
            s.cancel_placement_and_playtest,
            s.update_files_changed_status,
            s.playtest,
        ]);
    }
}

/// Whether an entity that belongs to `entity_mode` (and, if given, `entity_view`) is removed
/// when the editor shows `mode` in `view`.
pub fn should_remove_mode_specific(
    entity_mode: EditorMode,
    entity_view: Option<EditorViewMode>,
    mode: Option<EditorMode>,
    view: EditorViewMode,
) -> (r: bool)
    ensures
        r == (Some(entity_mode) != mode || (entity_view is Some && entity_view.unwrap() != view)),
{
    if Some(entity_mode) != mode {
        true
    } else {
        match entity_view {
            Some(v) => v != view,
            None => false,
        }
    }
}

/// The camera of the tunnel editor looks straight down and cannot orbit.
pub fn blocks_orbit(mode: EditorMode, view: EditorViewMode) -> (r: bool)
    ensures
        r == (mode == EditorMode::Tunnels && view == EditorViewMode::Editor),
{
    mode == EditorMode::Tunnels && view == EditorViewMode::Editor
}

} // verus!
