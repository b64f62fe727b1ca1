//! The recursive finder: every entity below a root whose name and kind
//! match, reported as a `/`-joined path, in snapshot order.

use vstd::prelude::*;

use crate::errors::FsError;
use crate::metadata::spec_base_name;
use crate::permissions::EntityKind;
use crate::snapshot::{component_ok, entry_ok, wf, FsEntry, FsEntryView, FsSnapshot};

verus! {

/// A component path joined into one string: a `/` before every component,
/// so the result is absolute with respect to the snapshot's root.
pub open spec fn spec_join_path(p: Seq<Seq<char>>) -> Seq<char>
    decreases p.len(),
{
    if p.len() == 0 {
        Seq::<char>::empty()
    } else {
        spec_join_path(p.drop_last()) + seq!['/'] + p.last()
    }
}

/// Join a component path into one string, as [`spec_join_path`] describes.
pub fn join_path(p: &Vec<String>) -> (r: String)
    ensures
        r@ == spec_join_path(p.deep_view()),
{
    let ghost pv = p.deep_view();
    let mut r = String::new();
    proof {
        assert(pv.take(0) =~= Seq::<Seq<char>>::empty());
        assert(r@ =~= spec_join_path(pv.take(0)));
    }
    let mut i: usize = 0;
    while i < p.len()
        invariant
            i <= p.len(),
            pv == p.deep_view(),
            pv.len() == p@.len(),
            r@ == spec_join_path(pv.take(i as int)),
        decreases p.len() - i,
    {
        r.append("/");
        r.append(p[i].as_str());
        proof {
            reveal_strlit("/");
            assert("/"@ =~= seq!['/']);
            assert(pv.take(i + 1).drop_last() =~= pv.take(i as int));
            assert(pv.take(i + 1).last() == pv[i as int]);
            assert(r@ == spec_join_path(pv.take(i + 1)));
        }
        i = i + 1;
    }
    proof {
        assert(pv.take(p@.len() as int) =~= pv);
    }
    r
}

/// Whether `e` matches a search below `root` for an entity named `name` of
/// kind `kind`: a proper descendant of `root` whose own name equals `name`
/// exactly and whose kind equals the filter.
pub open spec fn is_match(
    e: FsEntryView,
    root: Seq<Seq<char>>,
    name: Seq<char>,
    kind: EntityKind,
) -> bool {
    &&& e.path.len() > root.len()
    &&& e.path.take(root.len() as int) == root
    &&& e.meta.entity_name == name
    &&& e.meta.entity_type == kind
}

/// The joined paths of every matching entry, in snapshot order.
pub open spec fn matches_of(
    s: Seq<FsEntryView>,
    root: Seq<Seq<char>>,
    name: Seq<char>,
    kind: EntityKind,
) -> Seq<Seq<char>>
    decreases s.len(),
{
    if s.len() == 0 {
        Seq::<Seq<char>>::empty()
    } else if is_match(s.last(), root, name, kind) {
        matches_of(s.drop_last(), root, name, kind).push(spec_join_path(s.last().path))
    } else {
        matches_of(s.drop_last(), root, name, kind)
    }
}

/// Whether `e` matches: the executable face of [`is_match`].
fn is_match_entry(e: &FsEntry, root: &Vec<String>, name: &String, kind: EntityKind) -> (r:
    bool)
    ensures
        r == is_match(e@, root.deep_view(), name@, kind),
{
    proof {
        assert(e@.path.len() == e.path@.len());
        assert(root.deep_view().len() == root@.len());
    }
    if e.path.len() <= root.len() {
        return false;
    }
    let mut k: usize = 0;
    while k < root.len()
        invariant
            k <= root.len(),
            e.path.len() > root.len(),
            e@.path.len() == e.path@.len(),
            root.deep_view().len() == root@.len(),
            forall|m: int| 0 <= m < k ==> e@.path[m] == root.deep_view()[m],
        decreases root.len() - k,
    {
        if !(e.path[k] == root[k]) {
            proof {
                assert(e@.path[k as int] != root.deep_view()[k as int]);
                assert(e@.path.take(root@.len() as int)[k as int] == e@.path[k as int]);
            }
            return false;
        }
        k = k + 1;
    }
    proof {
        assert(e@.path.take(root@.len() as int) =~= root.deep_view());
    }
    if !(e.meta.entity_name == *name) {
        return false;
    }
    e.meta.entity_type == kind
}

/// The search itself: every proper descendant of `root` whose name equals
/// `name` and whose kind equals `kind`, as `/`-joined paths in snapshot
/// order.
///
/// Returns `NotFound` exactly when no entry matches — never an empty
/// success.  A root that names nothing simply has no descendants and so
/// reports `NotFound`.
pub fn find(snap: &FsSnapshot, root: &Vec<String>, name: &str, kind: EntityKind) -> (r:
    Result<Vec<String>, FsError>)
    ensures
        ({
            let ms = matches_of(snap@, root.deep_view(), name@, kind);
            match r {
                Ok(v) => ms.len() > 0 && v.deep_view() == ms,
                Err(e) => e == FsError::NotFound && ms.len() == 0,
            }
        }),
{
    let ghost rv = root.deep_view();
    let name_owned = String::from_str(name);
    let mut out: Vec<String> = Vec::new();
    proof {
        assert(snap@.take(0) =~= Seq::<FsEntryView>::empty());
        assert(out.deep_view() =~= matches_of(snap@.take(0), rv, name@, kind));
    }
    let mut i: usize = 0;
    while i < snap.entries.len()
        invariant
            i <= snap.entries.len(),
            rv == root.deep_view(),
            name_owned@ == name@,
            snap@.len() == snap.entries.len(),
            out.deep_view() == matches_of(snap@.take(i as int), rv, name@, kind),
        decreases snap.entries.len() - i,
    {
        proof {
            assert(snap@.take(i + 1).drop_last() =~= snap@.take(i as int));
            assert(snap@.take(i + 1).last() == snap@[i as int]);
        }
        let ghost old_out = out.deep_view();
        if is_match_entry(&snap.entries[i], root, &name_owned, kind) {
            let joined = join_path(&snap.entries[i].path);
            out.push(joined);
            proof {
                assert(out.deep_view() =~= old_out.push(
                    spec_join_path(snap@[i as int].path),
                ));
            }
        }
        i = i + 1;
    }
    proof {
        assert(snap@.take(snap.entries.len() as int) =~= snap@);
        assert(out.deep_view().len() == out@.len());
    }
    if out.len() == 0 {
        Err(FsError::NotFound)
    } else {
        Ok(out)
    }
}

/// Search the whole snapshot for a file called `file_name`.
pub fn find_file_return_path(snap: &FsSnapshot, file_name: &str) -> (r: Result<
    Vec<String>,
    FsError,
>)
    ensures
        ({
            let ms = matches_of(
                snap@,
                Seq::<Seq<char>>::empty(),
                file_name@,
                EntityKind::File,
            );
            match r {
                Ok(v) => ms.len() > 0 && v.deep_view() == ms,
                Err(e) => e == FsError::NotFound && ms.len() == 0,
            }
        }),
{
    let root: Vec<String> = Vec::new();
    proof {
        assert(root.deep_view() =~= Seq::<Seq<char>>::empty());
    }
    find(snap, &root, file_name, EntityKind::File)
}

/// Search the subtree below `dir` for a file called `file_name`.
pub fn find_file_in_custom_dir_and_return_path(
    snap: &FsSnapshot,
    dir: &Vec<String>,
    file_name: &str,
) -> (r: Result<Vec<String>, FsError>)
    ensures
        ({
            let ms = matches_of(snap@, dir.deep_view(), file_name@, EntityKind::File);
            match r {
                Ok(v) => ms.len() > 0 && v.deep_view() == ms,
                Err(e) => e == FsError::NotFound && ms.len() == 0,
            }
        }),
{
    find(snap, dir, file_name, EntityKind::File)
}

/// Search the whole snapshot for a directory called `folder_name`.
pub fn find_folder_return_path(snap: &FsSnapshot, folder_name: &str) -> (r: Result<
    Vec<String>,
    FsError,
>)
    ensures
        ({
            let ms = matches_of(
                snap@,
                Seq::<Seq<char>>::empty(),
                folder_name@,
                EntityKind::Directory,
            );
            match r {
                Ok(v) => ms.len() > 0 && v.deep_view() == ms,
                Err(e) => e == FsError::NotFound && ms.len() == 0,
            }
        }),
{
    let root: Vec<String> = Vec::new();
    proof {
        assert(root.deep_view() =~= Seq::<Seq<char>>::empty());
    }
    find(snap, &root, folder_name, EntityKind::Directory)
}

/// Search the subtree below `dir` for a directory called `folder_name`.
pub fn find_folder_in_custom_dir_and_return_path(
    snap: &FsSnapshot,
    dir: &Vec<String>,
    folder_name: &str,
) -> (r: Result<Vec<String>, FsError>)
    ensures
        ({
            let ms = matches_of(snap@, dir.deep_view(), folder_name@, EntityKind::Directory);
            match r {
                Ok(v) => ms.len() > 0 && v.deep_view() == ms,
                Err(e) => e == FsError::NotFound && ms.len() == 0,
            }
        }),
{
    find(snap, dir, folder_name, EntityKind::Directory)
}

/// The search reports `NotFound` exactly when nothing matches: the match
/// sequence is empty precisely when no snapshot entry satisfies
/// [`is_match`].
pub proof fn lemma_find_complete(
    s: Seq<FsEntryView>,
    root: Seq<Seq<char>>,
    name: Seq<char>,
    kind: EntityKind,
)
    ensures
        (matches_of(s, root, name, kind).len() == 0) <==> (forall|i: int|
            0 <= i < s.len() ==> !is_match(#[trigger] s[i], root, name, kind)),
    decreases s.len(),
{
    if s.len() > 0 {
        lemma_find_complete(s.drop_last(), root, name, kind);
        assert(s[s.len() - 1] == s.last());
        assert forall|i: int| 0 <= i < s.len() - 1 implies s.drop_last()[i] == s[i] by {}
    }
}

/// Every reported path comes from a matching entry: position `j` of the
/// match sequence is the joined path of some snapshot entry that
/// [`is_match`] accepts.
pub proof fn lemma_find_sound(
    s: Seq<FsEntryView>,
    root: Seq<Seq<char>>,
    name: Seq<char>,
    kind: EntityKind,
    j: int,
)
    requires
        0 <= j < matches_of(s, root, name, kind).len(),
    ensures
        exists|i: int|
            0 <= i < s.len() && is_match(#[trigger] s[i], root, name, kind) && matches_of(
                s,
                root,
                name,
                kind,
            )[j] == spec_join_path(s[i].path),
    decreases s.len(),
{
    let pre = matches_of(s.drop_last(), root, name, kind);
    if is_match(s.last(), root, name, kind) && j == pre.len() {
        assert(s[s.len() - 1] == s.last());
    } else {
        lemma_find_sound(s.drop_last(), root, name, kind, j);
        let i = choose|i: int|
            0 <= i < s.drop_last().len() && is_match(#[trigger] s.drop_last()[i], root, name, kind)
                && pre[j] == spec_join_path(s.drop_last()[i].path);
        assert(s[i] == s.drop_last()[i]);
    }
}

/// Appending `/` and a separator-free segment makes that segment the base
/// name of the whole string.
proof fn lemma_base_name_after_slash(prefix: Seq<char>, t: Seq<char>)
    requires
        forall|i: int| 0 <= i < t.len() ==> t[i] != '/',
    ensures
        spec_base_name(prefix + seq!['/'] + t) == t,
    decreases t.len(),
{
    let s = prefix + seq!['/'] + t;
    if t.len() == 0 {
        assert(s.last() == '/');
        assert(spec_base_name(s) =~= t);
    } else {
        lemma_base_name_after_slash(prefix, t.drop_last());
        assert(s.last() == t.last());
        assert(s.drop_last() =~= prefix + seq!['/'] + t.drop_last());
        assert(spec_base_name(s) =~= t.drop_last().push(t.last()));
        assert(t.drop_last().push(t.last()) =~= t);
    }
}

/// Joining a nonempty path of usable components and taking the base name
/// gives back the last component.
pub proof fn lemma_join_base_name(p: Seq<Seq<char>>)
    requires
        p.len() > 0,
        component_ok(p.last()),
    ensures
        spec_base_name(spec_join_path(p)) == p.last(),
{
    lemma_base_name_after_slash(spec_join_path(p.drop_last()), p.last());
}

/// Every path the search reports ends in the searched-for name: in a
/// well-formed snapshot, position `j` of the match sequence has base name
/// `name`.
pub proof fn lemma_find_base_names(
    s: Seq<FsEntryView>,
    root: Seq<Seq<char>>,
    name: Seq<char>,
    kind: EntityKind,
    j: int,
)
    requires
        wf(s),
        0 <= j < matches_of(s, root, name, kind).len(),
    ensures
        spec_base_name(matches_of(s, root, name, kind)[j]) == name,
{
    lemma_find_sound(s, root, name, kind, j);
    let i = choose|i: int|
        0 <= i < s.len() && is_match(#[trigger] s[i], root, name, kind) && matches_of(
            s,
            root,
            name,
            kind,
        )[j] == spec_join_path(s[i].path);
    assert(entry_ok(s[i]));
    assert(component_ok(s[i].path.last()));
    lemma_join_base_name(s[i].path);
}

} // verus!
