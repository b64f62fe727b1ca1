//! The metadata record for one filesystem entity, and the name extraction
//! that reduces a path-like string to its final segment.

use vstd::prelude::*;

use crate::permissions::EntityKind;

verus! {

/// The mathematical value of a [`LinuxEntity`]: every text field abstracted
/// to its character sequence.
pub struct LinuxEntityView {
    pub entity_name: Seq<char>,
    pub entity_type: EntityKind,
    pub owner: Seq<char>,
    pub group: Seq<char>,
    pub hardlink: u8,
    pub permission: u16,
    pub size: i32,
    pub last_change_date: Seq<char>,
}

/// One filesystem entity's metadata: a fresh, immutable snapshot of what
/// the underlying metadata source reported at query time.
///
/// `entity_name` is the base name only (no separators); `permission` is the
/// decoder's triad-per-decimal-digit value, e.g. 644.
#[derive(Debug)]
pub struct LinuxEntity {
    pub entity_name: String,
    pub entity_type: EntityKind,
    pub owner: String,
    pub group: String,
    pub hardlink: u8,
    pub permission: u16,
    pub size: i32,
    pub last_change_date: String,
}

impl View for LinuxEntity {
    type V = LinuxEntityView;

    open spec fn view(&self) -> LinuxEntityView {
        LinuxEntityView {
            entity_name: self.entity_name@,
            entity_type: self.entity_type,
            owner: self.owner@,
            group: self.group@,
            hardlink: self.hardlink,
            permission: self.permission,
            size: self.size,
            last_change_date: self.last_change_date@,
        }
    }
}

impl DeepView for LinuxEntity {
    type V = LinuxEntityView;

    open spec fn deep_view(&self) -> LinuxEntityView {
        self.view()
    }
}

impl LinuxEntity {
    /// A fresh record with the same contents.
    pub fn duplicate(&self) -> (r: LinuxEntity)
        ensures
            r == *self,
    {
        LinuxEntity {
            entity_name: self.entity_name.clone(),
            entity_type: self.entity_type,
            owner: self.owner.clone(),
            group: self.group.clone(),
            hardlink: self.hardlink,
            permission: self.permission,
            size: self.size,
            last_change_date: self.last_change_date.clone(),
        }
    }
}

/// The final segment of a path-like string: everything after the last `/`,
/// the whole string when it has no `/`, and empty when it ends in `/`.
pub open spec fn spec_base_name(s: Seq<char>) -> Seq<char>
    decreases s.len(),
{
    if s.len() == 0 {
        Seq::<char>::empty()
    } else if s[s.len() - 1] == '/' {
        Seq::<char>::empty()
    } else {
        spec_base_name(s.drop_last()).push(s[s.len() - 1])
    }
}

/// Reduce a path-like string to its final segment, as
/// [`spec_base_name`] describes.
pub fn base_name(path: &str) -> (r: String)
    ensures
        r@ == spec_base_name(path@),
{
    let n: usize = path.unicode_len();
    let mut start: usize = 0;
    let mut i: usize = 0;
    while i < n
        invariant
            i <= n,
            start <= i,
            n == path@.len(),
            spec_base_name(path@.take(i as int)) == path@.subrange(start as int, i as int),
        decreases n - i,
    {
        let c = path.get_char(i);
        proof {
            assert(path@.take(i + 1).drop_last() =~= path@.take(i as int));
            assert(path@.take(i + 1)[i as int] == path@[i as int]);
        }
        if c == '/' {
            start = i + 1;
            proof {
                assert(spec_base_name(path@.take(i + 1)) =~= path@.subrange(
                    i + 1,
                    i + 1,
                ));
            }
        } else {
            proof {
                assert(spec_base_name(path@.take(i + 1)) =~= path@.subrange(
                    start as int,
                    i + 1,
                ));
            }
        }
        i = i + 1;
    }
    proof {
        assert(path@.take(n as int) =~= path@);
    }
    let tail = path.substring_char(start, n);
    String::from_str(tail)
}

} // verus!
