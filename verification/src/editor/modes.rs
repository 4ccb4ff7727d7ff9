use vstd::prelude::*;

use crate::text::{
    chars_of, last_index_before, lemma_last_index_of_bounds, lemma_split_on_nonempty, segment_equals,
    split_on,
};

verus! {

/// What kind of asset an editor file holds.
#[derive(Clone, Copy, Debug, PartialEq, Eq, Structural, Hash)]
pub enum EditorMode {
    Tunnels,
    Rooms,
}

impl EditorMode {
    /// The file extension (before `.ron`) used by files of this mode.
    pub open spec fn spec_file_ext(self) -> Seq<char> {
        match self {
            EditorMode::Tunnels => "tunnel"@,
            EditorMode::Rooms => "room"@,
        }
    }

    pub fn file_ext(&self) -> (r: &'static str)
        ensures
            r@ == self.spec_file_ext(),
    {
        match self {
            EditorMode::Tunnels => "tunnel",
            EditorMode::Rooms => "room",
        }
    }
}

/// Why a path is not recognised as an editor file.
#[derive(Clone, Copy, Debug, PartialEq, Eq, Structural)]
pub enum ModePathError {
    /// Fewer than three `.`-separated parts.
    NotEnoughParts,
    /// The last part is not `ron`.
    NotRon,
    /// The part before `ron` names no editor mode.
    UnrecognizedExtension,
}

/// The mode a file path selects: `<name>.<mode extension>.ron`.
/// Uppercase extensions are not recognised.
pub open spec fn spec_mode_from_path(path: Seq<char>) -> Result<EditorMode, ModePathError> {
    let parts = split_on(path, '.');
    let len = parts.len();
    if len < 3 {
        Err(ModePathError::NotEnoughParts)
    } else if parts[len - 1] != "ron"@ {
        Err(ModePathError::NotRon)
    } else if parts[len - 2] == EditorMode::Tunnels.spec_file_ext() {
        Ok(EditorMode::Tunnels)
    } else if parts[len - 2] == EditorMode::Rooms.spec_file_ext() {
        Ok(EditorMode::Rooms)
    } else {
        Err(ModePathError::UnrecognizedExtension)
    }
}

impl EditorMode {
    /// Determines what mode a file should use from its path.
    pub fn from_path(path: &str) -> (r: Result<EditorMode, ModePathError>)
        ensures
            r == spec_mode_from_path(path@),
    {
        let chars = chars_of(path);
        let ghost s = chars@;
        let n = chars.len();
        let last = last_index_before(&chars, n, '.');
        proof {
            assert(s.take(n as int) =~= s);
            lemma_last_index_of_bounds(s, '.');
        }
        let i1 = match last {
            None => {
                return Err(ModePathError::NotEnoughParts);
            },
            Some(i) => i,
        };
        let second = last_index_before(&chars, i1, '.');
        let ghost t = s.take(i1 as int);
        proof {
            lemma_last_index_of_bounds(t, '.');
        }
        let i2 = match second {
            None => {
                proof {
                    assert(split_on(s, '.') =~= split_on(t, '.').push(s.skip(i1 + 1)));
                    assert(split_on(s, '.').len() == 2);
                }
                return Err(ModePathError::NotEnoughParts);
            },
            Some(i) => i,
        };
        proof {
            lemma_split_on_nonempty(t.take(i2 as int), '.');
            let parts = split_on(s, '.');
            assert(parts == split_on(t, '.').push(s.skip(i1 + 1)));
            assert(split_on(t, '.') == split_on(t.take(i2 as int), '.').push(t.skip(i2 + 1)));
            assert(parts.len() >= 3);
            assert(parts[parts.len() - 1] == s.skip(i1 + 1));
            assert(parts[parts.len() - 2] == t.skip(i2 + 1));
            assert(s.skip(i1 + 1) =~= s.subrange(i1 + 1, n as int));
            assert(t.skip(i2 + 1) =~= s.subrange(i2 + 1, i1 as int));
        }
        if !segment_equals(&chars, i1 + 1, n, "ron") {
            return Err(ModePathError::NotRon);
        }
        if segment_equals(&chars, i2 + 1, i1, EditorMode::Tunnels.file_ext()) {
            return Ok(EditorMode::Tunnels);
        }
        if segment_equals(&chars, i2 + 1, i1, EditorMode::Rooms.file_ext()) {
            return Ok(EditorMode::Rooms);
        }
        Err(ModePathError::UnrecognizedExtension)
    }
}

impl Default for EditorMode {
    fn default() -> (r: EditorMode)
        ensures
            r == EditorMode::Tunnels,
    {
        EditorMode::Tunnels
    }
}

} // verus!
