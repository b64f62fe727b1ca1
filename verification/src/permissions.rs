//! The symbolic permission decoder: a 10-character mode string such as
//! `-rwxr-xr--` becomes an entity kind and a numeric permission value with
//! one decimal digit per triad (owner, group, other).

use vstd::prelude::*;

use crate::errors::FsError;

verus! {

/// What a filesystem entity is.  Character 0 of a mode string determines the
/// kind: `-` a file, `d` a directory, `l` a symbolic link.
#[derive(Clone, Copy, Debug, PartialEq, Eq, Structural)]
pub enum EntityKind {
    File,
    Directory,
    Symlink,
}

impl EntityKind {
    /// The conventional lower-case noun for this kind.
    pub fn text(&self) -> (r: &'static str)
        ensures
            self is File ==> r@ == "file"@,
            self is Directory ==> r@ == "folder"@,
            self is Symlink ==> r@ == "symlink"@,
    {
        match self {
            EntityKind::File => "file",
            EntityKind::Directory => "folder",
            EntityKind::Symlink => "symlink",
        }
    }
}

/// The decoder's result: the kind read from character 0, and the numeric
/// permission value read from characters 1 through 9.
#[derive(Clone, Copy, Debug, PartialEq, Eq, Structural)]
pub struct Permissions {
    pub entity_type: EntityKind,
    pub permission: u16,
}

/// The kind encoded by the first character of a mode string, if any.
pub open spec fn kind_of_char(c: char) -> Option<EntityKind> {
    if c == '-' {
        Some(EntityKind::File)
    } else if c == 'd' {
        Some(EntityKind::Directory)
    } else if c == 'l' {
        Some(EntityKind::Symlink)
    } else {
        None
    }
}

/// The value of one read/write/execute triad starting at `base`: `r` at the
/// first position contributes 4, `w` at the second 2, `x` at the third 1.
/// Special bits such as `s` or `t` contribute nothing.
pub open spec fn spec_triad_value(s: Seq<char>, base: int) -> int {
    (if s[base] == 'r' { 4int } else { 0int })
    + (if s[base + 1] == 'w' { 2int } else { 0int })
    + (if s[base + 2] == 'x' { 1int } else { 0int })
}

/// The combined permission value of characters 1 through 9: the owner triad
/// in the hundreds place, the group triad in the tens, the other triad in
/// the units — `rw-r--r--` gives 644.
pub open spec fn spec_mode_value(s: Seq<char>) -> int {
    spec_triad_value(s, 1) * 100 + spec_triad_value(s, 4) * 10 + spec_triad_value(s, 7)
}

/// What decoding a mode string yields: rejected outright when shorter than
/// ten characters or when the first character names no kind; otherwise the
/// kind and the numeric value.  Characters beyond the tenth are ignored.
pub open spec fn spec_decode(s: Seq<char>) -> Result<Permissions, FsError> {
    if s.len() < 10 {
        Err(FsError::MalformedModeString)
    } else {
        match kind_of_char(s[0]) {
            Some(k) => Ok(
                Permissions { entity_type: k, permission: spec_mode_value(s) as u16 },
            ),
            None => Err(FsError::MalformedModeString),
        }
    }
}

/// The value of the triad at `base`, as executable code.
fn triad_value(s: &str, base: usize) -> (v: u16)
    requires
        base + 3 <= s@.len(),
        base + 3 <= usize::MAX,
    ensures
        v == spec_triad_value(s@, base as int),
        v <= 7,
{
    let mut v: u16 = 0;
    if s.get_char(base) == 'r' {
        v = v + 4;
    }
    if s.get_char(base + 1) == 'w' {
        v = v + 2;
    }
    if s.get_char(base + 2) == 'x' {
        v = v + 1;
    }
    v
}

/// Decode a symbolic mode string.
///
/// Total over every input: a string shorter than ten characters, or one
/// whose first character is none of `-`, `d`, `l`, yields
/// `FsError::MalformedModeString`; anything else yields the kind and the
/// triad-per-decimal-digit permission value.
pub fn decode_permission_string(perm_string: &str) -> (r: Result<Permissions, FsError>)
    ensures
        r == spec_decode(perm_string@),
{
    let n: usize = perm_string.unicode_len();
    if n < 10 {
        return Err(FsError::MalformedModeString);
    }
    let c0 = perm_string.get_char(0);
    let entity_type = if c0 == '-' {
        EntityKind::File
    } else if c0 == 'd' {
        EntityKind::Directory
    } else if c0 == 'l' {
        EntityKind::Symlink
    } else {
        return Err(FsError::MalformedModeString);
    };
    let owner = triad_value(perm_string, 1);
    let group = triad_value(perm_string, 4);
    let other = triad_value(perm_string, 7);
    let permission: u16 = owner * 100 + group * 10 + other;
    Ok(Permissions { entity_type, permission })
}

/// Each triad is independently between 0 and 7, so every decoded
/// permission value lies between 0 and 777.
pub proof fn lemma_mode_value_bounds(s: Seq<char>)
    ensures
        0 <= spec_triad_value(s, 1) <= 7,
        0 <= spec_triad_value(s, 4) <= 7,
        0 <= spec_triad_value(s, 7) <= 7,
        0 <= spec_mode_value(s) <= 777,
{
}

/// Decoding is deterministic: two mode strings with the same characters
/// decode to the same kind and the same permission value.  Together with
/// `decode_permission_string`'s contract, two calls on equal inputs return
/// equal results.
pub proof fn lemma_decode_deterministic(s1: Seq<char>, s2: Seq<char>)
    requires
        s1 == s2,
    ensures
        spec_decode(s1) == spec_decode(s2),
{
}

} // verus!
