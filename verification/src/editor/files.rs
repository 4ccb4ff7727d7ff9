use vstd::prelude::*;

use crate::editor::modes::{spec_mode_from_path, EditorMode};
use crate::text::{decimal, lemma_split_on_last, lemma_split_on_nonempty, push_decimal, split_on, starts_with_char};

verus! {

/// What the editor does with the files of a directory that goes wrong.
#[derive(Clone, Copy, Debug, PartialEq, Eq, Structural)]
pub enum FileError {
    /// No file at the given index.
    DoesNotExist,
    /// The file has no path on disk yet.
    NoPath,
    /// No file is open.
    NoCurrentFile,
    /// The file's data is loaded already.
    AlreadyLoaded,
    /// The file's data is not loaded.
    EmptyFile,
}

/// A payload that every editor mode has a fresh default of.
pub trait ModePayload: Sized {
    /// The fresh payload of a new file of `mode`.
    spec fn spec_default_for_mode(mode: EditorMode) -> Self;

    fn default_for_mode(mode: EditorMode) -> (r: Self)
        ensures
            r == Self::spec_default_for_mode(mode),
    ;
}

/// The name std's `Path::join` gives `base` joined with `name`.
pub uninterp spec fn spec_path_join(base: Seq<char>, name: Seq<char>) -> Seq<char>;

/// Calls `std::path::Path::join` on `base` and `name` and returns the path as text.
/// Claimed: the result is the same for the same arguments (the separator is fixed when
/// the crate is built). What the joined path looks like is not stated.
#[verifier::external_body]
fn path_join(base: &str, name: &str) -> (r: String)
    ensures
        r@ == spec_path_join(base@, name@),
{
    std::path::Path::new(base).join(name).to_string_lossy().into_owned()
}

/// `b` is a clone of `a`: both absent, or both present with a cloned payload.
pub open spec fn clone_of<D: Clone>(a: Option<D>, b: Option<D>) -> bool {
    &&& (a is None <==> b is None)
    &&& (a is Some ==> vstd::pervasive::cloned(a.unwrap(), b.unwrap()))
}

/// The suffix that files of `mode` carry: `.<extension>.ron`.
pub open spec fn spec_file_ext_for_mode(mode: EditorMode) -> Seq<char> {
    "."@ + mode.spec_file_ext() + ".ron"@
}

/// The placeholder name of the `index`-th unsaved file of `mode`: `*<extension><index>*`.
pub open spec fn spec_new_file_name(index: nat, mode: EditorMode) -> Seq<char> {
    "*"@ + mode.spec_file_ext() + decimal(index) + "*"@
}

/// A file saved under any name with the suffix of `mode` is recognised as a file of
/// `mode` again when the directory is listed or the assets are built.
pub proof fn law_file_name_for_mode_roundtrip(name: Seq<char>, mode: EditorMode)
    ensures
        spec_mode_from_path(name + spec_file_ext_for_mode(mode)) == Ok::<
            EditorMode,
            crate::editor::modes::ModePathError,
        >(mode),
{
    reveal_strlit(".");
    reveal_strlit(".ron");
    reveal_strlit("ron");
    reveal_strlit("room");
    reveal_strlit("tunnel");
    let ext = mode.spec_file_ext();
    let full = name + spec_file_ext_for_mode(mode);
    let head = name + seq!['.'] + ext;
    assert(full =~= head + seq!['.'] + "ron"@);
    assert forall|k: int| 0 <= k < "ron"@.len() implies "ron"@[k] != '.' by {}
    assert forall|k: int| 0 <= k < ext.len() implies ext[k] != '.' by {}
    lemma_split_on_last(head, '.', "ron"@);
    lemma_split_on_last(name, '.', ext);
    lemma_split_on_nonempty(name, '.');
    let parts = split_on(full, '.');
    assert(parts == split_on(name, '.').push(ext).push("ron"@));
    assert(parts[parts.len() - 1] == "ron"@);
    assert(parts[parts.len() - 2] == ext);
    assert(EditorMode::Tunnels.spec_file_ext() != EditorMode::Rooms.spec_file_ext()) by {
        assert(EditorMode::Tunnels.spec_file_ext().len() != EditorMode::Rooms.spec_file_ext().len());
    }
}

/// What reading `data` into `before` gives: refused, changing nothing, when data is loaded
/// already; otherwise the data, and a clone of it as the last saved data, with the rest of
/// the file unchanged.
pub open spec fn after_read<D: Clone>(before: FileState<D>, data: D, r: Result<(), FileError>, after: FileState<D>) -> bool {
    &&& before.data is Some ==> r == Err::<(), FileError>(FileError::AlreadyLoaded) && after == before
    &&& before.data is None ==> {
        &&& r is Ok
        &&& after.data == Some(data)
        &&& clone_of(after.data, after.last_saved_data)
        &&& after.name == before.name
        &&& after.path == before.path
        &&& after.mode == before.mode
        &&& after.changed == before.changed
        &&& after.modified_time == before.modified_time
    }
}

/// Reading into an unloaded file stores what was read as both its data and its last saved
/// data (for payloads whose clones equal the original), and reading again is refused and
/// changes nothing.
pub proof fn law_read_then_read<D: Clone>(
    f0: FileState<D>,
    d1: D,
    r1: Result<(), FileError>,
    f1: FileState<D>,
    d2: D,
    r2: Result<(), FileError>,
    f2: FileState<D>,
)
    requires
        f0.data is None,
        after_read(f0, d1, r1, f1),
        after_read(f1, d2, r2, f2),
        forall|a: D, b: D| #[trigger] vstd::pervasive::cloned(a, b) ==> a == b,
    ensures
        r1 is Ok,
        f1.data == Some(d1),
        f1.last_saved_data == Some(d1),
        r2 == Err::<(), FileError>(FileError::AlreadyLoaded),
        f2 == f1,
{
    assert(vstd::pervasive::cloned(f1.data.unwrap(), f1.last_saved_data.unwrap()));
}

/// One file of the editor's file list.
pub struct FileState<D> {
    pub name: String,
    pub path: Option<String>,
    /// `None` when the file is not loaded, not when it is empty.
    pub data: Option<D>,
    pub last_saved_data: Option<D>,
    pub mode: EditorMode,
    pub changed: bool,
    /// Modification time from the file's metadata, in seconds.
    pub modified_time: u64,
}

/// The files of `s` whose names differ from both `a` and `b`, in order.
pub open spec fn without_names<D>(s: Seq<FileState<D>>, a: Seq<char>, b: Seq<char>) -> Seq<FileState<D>>
    decreases s.len(),
{
    if s.len() == 0 {
        seq![]
    } else {
        without_names(s.drop_last(), a, b) + if s.last().name@ != a && s.last().name@ != b {
            seq![s.last()]
        } else {
            seq![]
        }
    }
}

/// Dropping the files named `a` or `b` leaves exactly the other files: none named `a` or
/// `b`, and every other file of `s`.
pub proof fn law_without_names<D>(s: Seq<FileState<D>>, a: Seq<char>, b: Seq<char>)
    ensures
        forall|k: int|
            0 <= k < without_names(s, a, b).len() ==> (#[trigger] without_names(s, a, b)[k]).name@ != a
                && without_names(s, a, b)[k].name@ != b,
        forall|f: FileState<D>|
            #[trigger] without_names(s, a, b).contains(f) <==> (s.contains(f) && f.name@ != a && f.name@ != b),
    decreases s.len(),
{
    if s.len() > 0 {
        let init = s.drop_last();
        law_without_names(init, a, b);
        let w0 = without_names(init, a, b);
        let keep = s.last().name@ != a && s.last().name@ != b;
        let tail = if keep { seq![s.last()] } else { Seq::<FileState<D>>::empty() };
        let w = without_names(s, a, b);
        assert(w == w0 + tail);
        assert(s =~= init.push(s.last()));
        assert forall|k: int| 0 <= k < w.len() implies (#[trigger] w[k]).name@ != a && w[k].name@ != b by {
            if k < w0.len() {
                assert(w[k] == w0[k]);
            } else {
                assert(w[k] == tail[k - w0.len()]);
            }
        }
        assert forall|f: FileState<D>| #[trigger] w.contains(f) <==> (s.contains(f) && f.name@ != a && f.name@ != b) by {
            if w.contains(f) {
                let k = choose|k: int| 0 <= k < w.len() && w[k] == f;
                if k < w0.len() {
                    assert(w0[k] == f);
                    assert(w0.contains(f));
                    assert(init.contains(f));
                    let m = choose|m: int| 0 <= m < init.len() && init[m] == f;
                    assert(s[m] == init[m]);
                    assert(s.contains(f));
                } else {
                    assert(tail[k - w0.len()] == f);
                    assert(s[s.len() - 1] == f);
                    assert(s.contains(f));
                }
                assert(f.name@ != a && f.name@ != b);
            }
            if s.contains(f) && f.name@ != a && f.name@ != b {
                let m = choose|m: int| 0 <= m < s.len() && s[m] == f;
                if m < init.len() {
                    assert(init[m] == f);
                    assert(init.contains(f));
                    assert(w0.contains(f));
                    let k = choose|k: int| 0 <= k < w0.len() && w0[k] == f;
                    assert(w[k] == w0[k]);
                    assert(w.contains(f));
                } else {
                    assert(s.last() == f);
                    assert(keep);
                    assert(w[w0.len() as int] == f);
                    assert(w.contains(f));
                }
            }
        }
    }
}

/// Number of files in `s` that have no path yet.
pub open spec fn count_unsaved<D>(s: Seq<FileState<D>>) -> nat
    decreases s.len(),
{
    if s.len() == 0 {
        0
    } else {
        count_unsaved(s.drop_last()) + if s.last().path is None {
            1nat
        } else {
            0nat
        }
    }
}

/// The editor's list of files in a directory, with the one that is open.
pub struct FilePickerState<D> {
    pub directory: String,
    pub files: Vec<FileState<D>>,
    pub filter: String,
    pub filter_mode: Option<EditorMode>,
    pub current: Option<usize>,
}

/// What a "save as" needs next.
pub enum SaveAs<D> {
    /// The file's data must first be read from this path (see `FileState::read`).
    NeedsRead(String),
    /// This file, with its new name and path, must now be written and then handed to
    /// `FilePickerState::finish_save_with_name`.
    Ready(FileState<D>),
}

pub fn file_ext_for_mode(mode: &EditorMode) -> (r: String)
    ensures
        r@ == spec_file_ext_for_mode(*mode),
{
    let mut s = String::from_str(".");
    s.append(mode.file_ext());
    s.append(".ron");
    proof {
        reveal_strlit(".");
    }
    s
}

/// `name` followed by the suffix of `mode`.
pub fn file_name_for_mode(name: String, mode: &EditorMode) -> (r: String)
    ensures
        r@ == name@ + spec_file_ext_for_mode(*mode),
{
    let ext = file_ext_for_mode(mode);
    let mut s = name;
    s.append(ext.as_str());
    s
}

/// The placeholder name of the `index`-th unsaved file of `mode`.
pub fn new_file_name(index: usize, mode: &EditorMode) -> (r: String)
    ensures
        r@ == spec_new_file_name(index as nat, *mode),
{
    let mut s = String::from_str("*");
    s.append(mode.file_ext());
    push_decimal(&mut s, index);
    s.append("*");
    s
}

impl<D: Clone> FileState<D> {
    /// A file found in the directory listing: kept unless hidden or not an editor file.
    pub fn from_listing(name: String, path: String, modified_time: u64) -> (r: Option<FileState<D>>)
        ensures
            match r {
                Some(f) => !(name@.len() > 0 && name@[0] == '.') && spec_mode_from_path(path@)
                    == Ok::<EditorMode, crate::editor::modes::ModePathError>(f.mode) && f.name@
                    == name@ && f.path == Some(path) && f.data is None && f.last_saved_data is None
                    && !f.changed && f.modified_time == modified_time,
                None => (name@.len() > 0 && name@[0] == '.') || spec_mode_from_path(path@) is Err,
            },
    {
        let mode = EditorMode::from_path(path.as_str());
        let hidden = starts_with_char(name.as_str(), '.');
        if hidden {
            return None;
        }
        match mode {
            Ok(mode) => Some(
                FileState {
                    name,
                    mode,
                    path: Some(path),
                    changed: false,
                    data: None,
                    last_saved_data: None,
                    modified_time,
                },
            ),
            Err(_) => None,
        }
    }

    /// Stores the data just read from disk as both the data and the last saved data.
    /// Fails, changing nothing, when the data is loaded already.
    pub fn read(&mut self, data: D) -> (r: Result<(), FileError>)
        ensures
            after_read(*old(self), data, r, *final(self)),
    {
        if self.data.is_some() {
            return Err(FileError::AlreadyLoaded);
        }
        self.data = Some(data);
        self.last_saved_data = self.data.clone();
        Ok(())
    }

    /// Checks that the file can be written: its data is loaded and it has a path.
    pub fn check_writable(&self) -> (r: Result<(), FileError>)
        ensures
            r == if self.data is None {
                Err(FileError::EmptyFile)
            } else if self.path is None {
                Err(FileError::NoPath)
            } else {
                Ok::<(), FileError>(())
            },
    {
        if self.data.is_none() {
            return Err(FileError::EmptyFile);
        }
        if self.path.is_none() {
            return Err(FileError::NoPath);
        }
        Ok(())
    }

    /// Records a successful write at time `now`: the data written is now the saved data.
    pub fn mark_written(&mut self, now: u64)
        ensures
            final(self).modified_time == now,
            clone_of(final(self).data, final(self).last_saved_data),
            final(self).data == old(self).data,
            final(self).name == old(self).name,
            final(self).path == old(self).path,
            final(self).mode == old(self).mode,
            final(self).changed == old(self).changed,
    {
        self.modified_time = now;
        self.last_saved_data = self.data.clone();
    }

    /// A copy of the file: the same name, path, mode and flags, cloned payloads.
    pub fn duplicate(&self) -> (r: FileState<D>)
        ensures
            r.name == self.name,
            r.path == self.path,
            clone_of(self.data, r.data),
            clone_of(self.last_saved_data, r.last_saved_data),
            r.mode == self.mode,
            r.changed == self.changed,
            r.modified_time == self.modified_time,
    {
        let path = match &self.path {
            Some(p) => Some(p.clone()),
            None => None,
        };
        FileState {
            name: self.name.clone(),
            path,
            data: self.data.clone(),
            last_saved_data: self.last_saved_data.clone(),
            mode: self.mode,
            changed: self.changed,
            modified_time: self.modified_time,
        }
    }
}

/// Removes the files named `a` or `b`, keeping the others in order.
fn retain_other_names<D>(files: Vec<FileState<D>>, a: &String, b: &String) -> (r: Vec<FileState<D>>)
    ensures
        r@ == without_names(files@, a@, b@),
{
    let ghost orig = files@;
    let mut src = files;
    let mut out: Vec<FileState<D>> = Vec::new();
    let mut consumed: usize = 0;
    let total = src.len();
    while src.len() > 0
        invariant
            total == orig.len(),
            consumed <= orig.len(),
            consumed + src@.len() == orig.len(),
            src@ == orig.skip(consumed as int),
            out@ == without_names(orig.take(consumed as int), a@, b@),
        decreases src@.len(),
    {
        let f = src.remove(0);
        proof {
            assert(orig.take(consumed + 1).drop_last() =~= orig.take(consumed as int));
            assert(orig.take(consumed + 1).last() == f);
            assert(src@ =~= orig.skip(consumed + 1));
        }
        let keep = !(f.name == *a) && !(f.name == *b);
        if keep {
            out.push(f);
        }
        proof {
            assert(out@ =~= without_names(orig.take(consumed + 1), a@, b@));
        }
        consumed = consumed + 1;
    }
    proof {
        assert(orig.take(consumed as int) =~= orig);
    }
    out
}

impl<D: Clone> FilePickerState<D> {
    /// An empty list of files in `directory`.
    pub fn new(directory: String, files: Vec<FileState<D>>) -> (r: Self)
        ensures
            r.directory == directory,
            r.files == files,
            r.filter@.len() == 0,
            r.filter_mode is None,
            r.current is None,
    {
        FilePickerState { directory, files, filter: String::new(), filter_mode: None, current: None }
    }

    /// The placeholder name for a new unsaved file of `mode`, numbered by how many files
    /// have no path yet.
    pub fn next_new_file_name(&self, mode: &EditorMode) -> (r: String)
        ensures
            r@ == spec_new_file_name(count_unsaved(self.files@), *mode),
    {
        let mut count: usize = 0;
        let mut i: usize = 0;
        while i < self.files.len()
            invariant
                i <= self.files@.len(),
                count == count_unsaved(self.files@.take(i as int)),
                count <= i,
            decreases self.files@.len() - i,
        {
            proof {
                assert(self.files@.take(i + 1).drop_last() =~= self.files@.take(i as int));
                assert(self.files@.take(i + 1).last() == self.files@[i as int]);
            }
            if self.files[i].path.is_none() {
                count = count + 1;
            }
            i = i + 1;
        }
        proof {
            assert(self.files@.take(i as int) =~= self.files@);
        }
        new_file_name(count, mode)
    }

    pub open spec fn spec_current_file(&self) -> Option<FileState<D>> {
        match self.current {
            Some(i) => if i < self.files@.len() {
                Some(self.files@[i as int])
            } else {
                None
            },
            None => None,
        }
    }

    /// The open file, if the current index names one.
    pub fn current_file(&self) -> (r: Option<&FileState<D>>)
        ensures
            r == match self.spec_current_file() {
                Some(f) => Some(&f),
                None => None,
            },
    {
        match self.current {
            Some(i) => if i < self.files.len() {
                Some(&self.files[i])
            } else {
                None
            },
            None => None,
        }
    }

    /// The open file, for editing.
    pub fn current_file_mut(&mut self) -> (r: Option<&mut FileState<D>>)
        ensures
            final(self).directory == old(self).directory,
            final(self).filter == old(self).filter,
            final(self).filter_mode == old(self).filter_mode,
            final(self).current == old(self).current,
            match old(self).current {
                Some(i) => if i < old(self).files@.len() {
                    &&& r is Some
                    &&& *r->0 == old(self).files@[i as int]
                    &&& final(self).files@ == old(self).files@.update(i as int, *final(r->0))
                } else {
                    r is None && final(self).files@ == old(self).files@
                },
                None => r is None && final(self).files@ == old(self).files@,
            },
    {
        match self.current {
            Some(i) => if i < self.files.len() {
                Some(&mut self.files[i])
            } else {
                None
            },
            None => None,
        }
    }

    /// The loaded data of the open file, for editing.
    pub fn current_data_mut(&mut self) -> (r: Option<&mut D>)
        ensures
            final(self).directory == old(self).directory,
            final(self).filter == old(self).filter,
            final(self).filter_mode == old(self).filter_mode,
            final(self).current == old(self).current,
            match old(self).spec_current_file() {
                Some(f) => match f.data {
                    Some(d) => {
                        let i = old(self).current->0 as int;
                        &&& r is Some
                        &&& *r->0 == d
                        &&& final(self).files@ == old(self).files@.update(
                            i,
                            FileState { data: Some(*final(r->0)), ..f },
                        )
                    },
                    None => r is None && final(self).files@ == old(self).files@,
                },
                None => r is None && final(self).files@ == old(self).files@,
            },
    {
        match self.current_file_mut() {
            Some(f) => match &mut f.data {
                Some(d) => Some(d),
                None => None,
            },
            None => None,
        }
    }

    /// The loaded data of the open file.
    pub fn current_data(&self) -> (r: Option<&D>)
        ensures
            r == match self.spec_current_file() {
                Some(f) => match f.data {
                    Some(d) => Some(&d),
                    None => None,
                },
                None => None,
            },
    {
        match self.current_file() {
            Some(f) => match &f.data {
                Some(d) => Some(d),
                None => None,
            },
            None => None,
        }
    }

    /// The mode of the open file; tunnels when no file is open.
    pub fn current_mode(&self) -> (r: EditorMode)
        ensures
            r == match self.spec_current_file() {
                Some(f) => f.mode,
                None => EditorMode::Tunnels,
            },
    {
        match self.current_file() {
            Some(f) => f.mode,
            None => EditorMode::Tunnels,
        }
    }

    /// Opens file `index`. An unchanged file with a path that is open now is unloaded first
    /// (even when `index` is out of range). Returns the path to read the new file from when
    /// its data is not loaded and it has a path; the caller reads it and hands the data to
    /// `FileState::read`.
    pub fn switch_to_file(&mut self, index: usize) -> (r: Result<Option<String>, FileError>)
        ensures
            final(self).directory == old(self).directory,
            final(self).filter == old(self).filter,
            final(self).filter_mode == old(self).filter_mode,
            final(self).files@.len() == old(self).files@.len(),
            forall|k: int|
                0 <= k < old(self).files@.len() ==> {
                    let f0 = old(self).files@[k];
                    let f1 = #[trigger] final(self).files@[k];
                    let unloads = old(self).current == Some(k as usize) && !f0.changed
                        && f0.path is Some;
                    &&& f1.name == f0.name
                    &&& f1.path == f0.path
                    &&& f1.mode == f0.mode
                    &&& f1.changed == f0.changed
                    &&& f1.modified_time == f0.modified_time
                    &&& f1.data == if unloads {
                        None
                    } else {
                        f0.data
                    }
                    &&& f1.last_saved_data == if unloads {
                        None
                    } else {
                        f0.last_saved_data
                    }
                },
            index >= old(self).files@.len() ==> r == Err::<Option<String>, FileError>(
                FileError::DoesNotExist,
            ) && final(self).current == old(self).current,
            index < old(self).files@.len() ==> final(self).current == Some(index) && r == Ok::<
                Option<String>,
                FileError,
            >(
                if final(self).files@[index as int].data is Some {
                    None
                } else {
                    final(self).files@[index as int].path
                },
            ),
    {
        match self.current {
            Some(c) => {
                if c < self.files.len() {
                    if !self.files[c].changed && self.files[c].path.is_some() {
                        let ghost before = self.files@;
                        let mut f = self.files.remove(c);
                        f.data = None;
                        f.last_saved_data = None;
                        self.files.insert(c, f);
                        proof {
                            assert forall|k: int| 0 <= k < before.len() && k != c implies self.files@[k]
                                == before[k] by {
                                if k < c {
                                } else {
                                }
                            }
                        }
                    }
                }
            },
            None => {},
        }
        if index >= self.files.len() {
            return Err(FileError::DoesNotExist);
        }
        self.current = Some(index);
        if self.files[index].data.is_some() {
            return Ok(None);
        }
        match &self.files[index].path {
            Some(p) => Ok(Some(p.clone())),
            None => Ok(None),
        }
    }

    /// Puts the last saved data of file `index` back as its data.
    pub fn revert_file(&mut self, index: usize) -> (r: Result<(), FileError>)
        ensures
            final(self).directory == old(self).directory,
            final(self).filter == old(self).filter,
            final(self).filter_mode == old(self).filter_mode,
            final(self).current == old(self).current,
            final(self).files@.len() == old(self).files@.len(),
            index >= old(self).files@.len() ==> r == Err::<(), FileError>(FileError::DoesNotExist)
                && final(self).files@ == old(self).files@,
            index < old(self).files@.len() ==> r is Ok && {
                let f0 = old(self).files@[index as int];
                let f1 = final(self).files@[index as int];
                &&& clone_of(f0.last_saved_data, f1.data)
                &&& f1.last_saved_data == f0.last_saved_data
                &&& f1.name == f0.name
                &&& f1.path == f0.path
                &&& f1.mode == f0.mode
                &&& f1.changed == f0.changed
                &&& f1.modified_time == f0.modified_time
            },
            forall|k: int|
                0 <= k < old(self).files@.len() && k != index ==> #[trigger] final(self).files@[k]
                    == old(self).files@[k],
    {
        if index >= self.files.len() {
            return Err(FileError::DoesNotExist);
        }
        let ghost before = self.files@;
        let mut f = self.files.remove(index);
        f.data = f.last_saved_data.clone();
        self.files.insert(index, f);
        proof {
            assert forall|k: int| 0 <= k < before.len() && k != index implies self.files@[k]
                == before[k] by {
                if k < index {
                } else {
                }
            }
        }
        Ok(())
    }

    /// Renames file `index` to `name` (with the suffix of its mode): the file moves to the
    /// front of the list with its new name and path, other files with its old or new name
    /// are dropped, and it becomes the open file. Returns the old and new paths, for the
    /// caller to rename the file on disk.
    pub fn rename_file(&mut self, index: usize, name: String) -> (r: Result<(String, String), FileError>)
        ensures
            final(self).directory == old(self).directory,
            final(self).filter == old(self).filter,
            final(self).filter_mode == old(self).filter_mode,
            index >= old(self).files@.len() ==> r == Err::<(String, String), FileError>(
                FileError::DoesNotExist,
            ) && *final(self) == *old(self),
            index < old(self).files@.len() && old(self).files@[index as int].path is None ==> r
                == Err::<(String, String), FileError>(FileError::NoPath) && *final(self) == *old(self),
            index < old(self).files@.len() && old(self).files@[index as int].path is Some ==> {
                let f0 = old(self).files@[index as int];
                let new_name = name@ + spec_file_ext_for_mode(f0.mode);
                let new_path = spec_path_join(old(self).directory@, new_name);
                &&& r matches Ok((op, np)) && op == f0.path.unwrap() && np@ == new_path
                &&& final(self).current == Some(0usize)
                &&& final(self).files@.len() >= 1
                &&& final(self).files@[0].name@ == new_name
                &&& final(self).files@[0].path matches Some(p) && p@ == new_path
                &&& final(self).files@[0].data == f0.data
                &&& final(self).files@[0].last_saved_data == f0.last_saved_data
                &&& final(self).files@[0].mode == f0.mode
                &&& final(self).files@[0].changed == f0.changed
                &&& final(self).files@.skip(1) == without_names(
                    old(self).files@.remove(index as int),
                    new_name,
                    f0.name@,
                )
                &&& forall|k: int|
                    1 <= k < final(self).files@.len() ==> (#[trigger] final(self).files@[k]).name@
                        != new_name && final(self).files@[k].name@ != f0.name@
            },
    {
        if index >= self.files.len() {
            return Err(FileError::DoesNotExist);
        }
        if self.files[index].path.is_none() {
            return Err(FileError::NoPath);
        }
        let new_name = file_name_for_mode(name, &self.files[index].mode);
        let new_path = path_join(self.directory.as_str(), new_name.as_str());
        let old_name = self.files[index].name.clone();
        let old_path = match &self.files[index].path {
            Some(p) => p.clone(),
            None => {
                return Err(FileError::NoPath);
            },
        };
        let mut file = self.files.remove(index);
        file.path = Some(new_path.clone());
        file.name = new_name;
        let mut files: Vec<FileState<D>> = Vec::new();
        std::mem::swap(&mut files, &mut self.files);
        let mut kept = retain_other_names(files, &file.name, &old_name);
        kept.insert(0, file);
        self.files = kept;
        self.current = Some(0);
        proof {
            let w = without_names(old(self).files@.remove(index as int), self.files@[0].name@, old_name@);
            assert(self.files@.skip(1) =~= w);
            law_without_names(old(self).files@.remove(index as int), self.files@[0].name@, old_name@);
            assert forall|k: int| 1 <= k < self.files@.len() implies (#[trigger] self.files@[k]).name@
                != self.files@[0].name@ && self.files@[k].name@ != old_name@ by {
                assert(self.files@[k] == w[k - 1]);
            }
        }
        Ok((old_path, new_path))
    }

    /// Adds a new unsaved file of `mode` with default data at the front of the list and
    /// opens it.
    pub fn create_new_file(&mut self, mode: EditorMode, now: u64) where D: ModePayload
        ensures
            final(self).directory == old(self).directory,
            final(self).filter == old(self).filter,
            final(self).filter_mode == old(self).filter_mode,
            final(self).current == Some(0usize),
            final(self).files@.len() == old(self).files@.len() + 1,
            final(self).files@.skip(1) == old(self).files@,
            final(self).files@[0].name@ == spec_new_file_name(count_unsaved(old(self).files@), mode),
            final(self).files@[0].path is None,
            final(self).files@[0].mode == mode,
            final(self).files@[0].changed,
            final(self).files@[0].data == Some(D::spec_default_for_mode(mode)),
            final(self).files@[0].last_saved_data == final(self).files@[0].data,
            final(self).files@[0].modified_time == now,
    {
        let name = self.next_new_file_name(&mode);
        let file = FileState {
            name,
            path: None,
            mode,
            changed: true,
            data: Some(D::default_for_mode(mode)),
            last_saved_data: Some(D::default_for_mode(mode)),
            modified_time: now,
        };
        self.files.insert(0, file);
        self.current = Some(0);
        proof {
            assert(self.files@.skip(1) =~= old(self).files@);
        }
    }

    /// Whether file `index` can be saved where it is: `Ok(false)` when it needs a path first
    /// (the UI then asks for a name), `Ok(true)` when the caller is to write it now
    /// (`FileState::check_writable`, then `FileState::mark_written`).
    pub fn save_file(&self, index: usize) -> (r: Result<bool, FileError>)
        ensures
            index >= self.files@.len() ==> r == Err::<bool, FileError>(FileError::DoesNotExist),
            index < self.files@.len() ==> r == Ok::<bool, FileError>(
                self.files@[index as int].path is Some,
            ),
    {
        if index >= self.files.len() {
            return Err(FileError::DoesNotExist);
        }
        Ok(self.files[index].path.is_some())
    }

    /// `save_file` for the open file.
    pub fn save_current_file(&self) -> (r: Result<bool, FileError>)
        ensures
            self.current is None ==> r == Err::<bool, FileError>(FileError::NoCurrentFile),
            self.current matches Some(i) ==> (i >= self.files@.len() ==> r == Err::<
                bool,
                FileError,
            >(FileError::DoesNotExist)) && (i < self.files@.len() ==> r == Ok::<bool, FileError>(
                self.files@[i as int].path is Some,
            )),
    {
        match self.current {
            None => Err(FileError::NoCurrentFile),
            Some(i) => self.save_file(i),
        }
    }

    /// First half of "save as" for file `index` under `name` (with the suffix of its mode).
    /// A file with a path whose data is not loaded must be read first. Otherwise the file to
    /// write is returned with its new name and path: an unsaved file is taken out of the
    /// list, a saved one is copied.
    pub fn save_file_with_name(&mut self, index: usize, name: String) -> (r: Result<
        SaveAs<D>,
        FileError,
    >)
        ensures
            final(self).directory == old(self).directory,
            final(self).filter == old(self).filter,
            final(self).filter_mode == old(self).filter_mode,
            final(self).current == old(self).current,
            index >= old(self).files@.len() ==> (match r {
                Err(e) => e == FileError::DoesNotExist,
                Ok(_) => false,
            }) && final(self).files@ == old(self).files@,
            index < old(self).files@.len() ==> {
                let f0 = old(self).files@[index as int];
                let new_name = name@ + spec_file_ext_for_mode(f0.mode);
                let new_path = spec_path_join(old(self).directory@, new_name);
                match r {
                    Err(_) => false,
                    Ok(SaveAs::NeedsRead(p)) => f0.path == Some(p) && f0.data is None
                        && final(self).files@ == old(self).files@,
                    Ok(SaveAs::Ready(f)) => {
                        &&& f.name@ == new_name
                        &&& f.path is Some
                        &&& f.path.unwrap()@ == new_path
                        &&& f.mode == f0.mode
                        &&& f.changed == f0.changed
                        &&& f0.path is None ==> final(self).files@ == old(self).files@.remove(
                            index as int,
                        ) && f.data == f0.data && f.last_saved_data == f0.last_saved_data
                        &&& f0.path is Some ==> f0.data is Some && final(self).files@ == old(
                            self).files@ && clone_of(f0.data, f.data) && clone_of(
                            f0.last_saved_data,
                            f.last_saved_data,
                        )
                    },
                }
            },
    {
        if index >= self.files.len() {
            return Err(FileError::DoesNotExist);
        }
        let new_name = file_name_for_mode(name, &self.files[index].mode);
        let new_path = path_join(self.directory.as_str(), new_name.as_str());
        let is_new = self.files[index].path.is_none();
        let mut file = if is_new {
            self.files.remove(index)
        } else {
            if self.files[index].data.is_none() {
                match &self.files[index].path {
                    Some(p) => {
                        return Ok(SaveAs::NeedsRead(p.clone()));
                    },
                    None => {
                        return Err(FileError::NoPath);
                    },
                }
            }
            self.files[index].duplicate()
        };
        file.path = Some(new_path);
        file.name = new_name;
        Ok(SaveAs::Ready(file))
    }

    /// Second half of "save as", once `file` is written: other files with its name are
    /// dropped, it goes to the front of the list and becomes the open file.
    pub fn finish_save_with_name(&mut self, file: FileState<D>)
        ensures
            final(self).directory == old(self).directory,
            final(self).filter == old(self).filter,
            final(self).filter_mode == old(self).filter_mode,
            final(self).current == Some(0usize),
            final(self).files@.len() >= 1,
            final(self).files@[0] == file,
            final(self).files@.skip(1) == without_names(old(self).files@, file.name@, file.name@),
            forall|k: int| 1 <= k < final(self).files@.len() ==> (#[trigger] final(self).files@[k]).name@ != file.name@,
    {
        let mut files: Vec<FileState<D>> = Vec::new();
        std::mem::swap(&mut files, &mut self.files);
        let mut kept = retain_other_names(files, &file.name, &file.name);
        kept.insert(0, file);
        self.files = kept;
        self.current = Some(0);
        proof {
            let w = without_names(old(self).files@, self.files@[0].name@, self.files@[0].name@);
            assert(self.files@.skip(1) =~= w);
            law_without_names(old(self).files@, self.files@[0].name@, self.files@[0].name@);
            assert forall|k: int| 1 <= k < self.files@.len() implies (#[trigger] self.files@[k]).name@
                != self.files@[0].name@ by {
                assert(self.files@[k] == w[k - 1]);
            }
        }
    }

    /// Marks each file as changed exactly when its data differs from its last saved data;
    /// `differs[k]` tells whether that holds of file `k` (the payloads are compared by the
    /// caller).
    pub fn update_files_changed_status(&mut self, differs: &Vec<bool>)
        requires
            differs@.len() == old(self).files@.len(),
        ensures
            final(self).directory == old(self).directory,
            final(self).filter == old(self).filter,
            final(self).filter_mode == old(self).filter_mode,
            final(self).current == old(self).current,
            final(self).files@.len() == old(self).files@.len(),
            forall|k: int|
                0 <= k < old(self).files@.len() ==> {
                    let f0 = old(self).files@[k];
                    let f1 = #[trigger] final(self).files@[k];
                    &&& f1.changed == differs@[k]
                    &&& f1.name == f0.name
                    &&& f1.path == f0.path
                    &&& f1.data == f0.data
                    &&& f1.last_saved_data == f0.last_saved_data
                    &&& f1.mode == f0.mode
                    &&& f1.modified_time == f0.modified_time
                },
    {
        let mut files: Vec<FileState<D>> = Vec::new();
        std::mem::swap(&mut files, &mut self.files);
        let ghost orig = files@;
        let mut out: Vec<FileState<D>> = Vec::new();
        let n = differs.len();
        let mut k: usize = 0;
        while files.len() > 0
            invariant
                n == orig.len(),
                differs@.len() == orig.len(),
                k + files@.len() == orig.len(),
                files@ == orig.skip(k as int),
                out@.len() == k,
                forall|q: int|
                    0 <= q < k ==> {
                        let f0 = orig[q];
                        let f1 = #[trigger] out@[q];
                        &&& f1.changed == differs@[q]
                        &&& f1.name == f0.name
                        &&& f1.path == f0.path
                        &&& f1.data == f0.data
                        &&& f1.last_saved_data == f0.last_saved_data
                        &&& f1.mode == f0.mode
                        &&& f1.modified_time == f0.modified_time
                    },
            decreases files@.len(),
        {
            let mut f = files.remove(0);
            proof {
                assert(f == orig[k as int]);
                assert(files@ =~= orig.skip(k + 1));
            }
            f.changed = differs[k];
            out.push(f);
            k = k + 1;
        }
        self.files = out;
    }

    /// Removes file `index` from the list (after the caller removed it from disk); the
    /// current index is cleared when it named this file.
    pub fn delete_file(&mut self, index: usize) -> (r: Result<(), FileError>)
        ensures
            final(self).directory == old(self).directory,
            final(self).filter == old(self).filter,
            final(self).filter_mode == old(self).filter_mode,
            index >= old(self).files@.len() ==> r == Err::<(), FileError>(FileError::DoesNotExist)
                && *final(self) == *old(self),
            index < old(self).files@.len() ==> r is Ok && final(self).files@ == old(self).files@.remove(index as int) && final(self).current == if old(self).current == Some(
                index,
            ) {
                None
            } else {
                old(self).current
            },
    {
        if index >= self.files.len() {
            return Err(FileError::DoesNotExist);
        }
        self.files.remove(index);
        if self.current == Some(index) {
            self.current = None;
        }
        Ok(())
    }
}

} // verus!
