//! The in-memory picture of a directory tree, and the queries over it:
//! existence and kind predicates, single-entity metadata lookup, and
//! directory listing.
//!
//! A snapshot holds one flat entry per entity, each addressed by its path —
//! the sequence of name components below the snapshot's root.  A caller
//! that inspects a real filesystem walks it once, records each entity it
//! sees as an [`FsEntry`], and then asks the verified queries here.

use vstd::prelude::*;

use crate::errors::FsError;
use crate::metadata::{LinuxEntity, LinuxEntityView};
use crate::permissions::EntityKind;

verus! {

/// The mathematical value of an [`FsEntry`]: the path as a sequence of
/// character sequences, and the metadata's view.
pub struct FsEntryView {
    pub path: Seq<Seq<char>>,
    pub meta: LinuxEntityView,
}

/// One entity of a snapshot: its path below the snapshot's root, given as
/// name components without separators, and its metadata.
#[derive(Debug)]
pub struct FsEntry {
    pub path: Vec<String>,
    pub meta: LinuxEntity,
}

impl View for FsEntry {
    type V = FsEntryView;

    open spec fn view(&self) -> FsEntryView {
        FsEntryView { path: self.path.deep_view(), meta: self.meta@ }
    }
}

impl DeepView for FsEntry {
    type V = FsEntryView;

    open spec fn deep_view(&self) -> FsEntryView {
        self.view()
    }
}

/// An in-memory picture of one directory tree, rooted at an implicit
/// directory whose own entry is not part of the snapshot.  The entry order
/// is whatever order the builder recorded; listings preserve it.
#[derive(Debug)]
pub struct FsSnapshot {
    pub entries: Vec<FsEntry>,
}

impl View for FsSnapshot {
    type V = Seq<FsEntryView>;

    open spec fn view(&self) -> Seq<FsEntryView> {
        self.entries.deep_view()
    }
}

/// A usable path component: nonempty and free of separators.
pub open spec fn component_ok(c: Seq<char>) -> bool {
    c.len() > 0 && forall|i: int| 0 <= i < c.len() ==> c[i] != '/'
}

/// One entry as a builder should record it: a nonempty path of usable
/// components whose last component is the entity's own name.
pub open spec fn entry_ok(e: FsEntryView) -> bool {
    &&& e.path.len() > 0
    &&& forall|k: int| 0 <= k < e.path.len() ==> component_ok(#[trigger] e.path[k])
    &&& e.meta.entity_name == e.path.last()
}

/// A well-formed snapshot: every entry is well recorded, no path occurs
/// twice, and every entry deeper than one level has its parent directory in
/// the snapshot.
pub open spec fn wf(s: Seq<FsEntryView>) -> bool {
    &&& forall|i: int| 0 <= i < s.len() ==> entry_ok(#[trigger] s[i])
    &&& forall|i: int, j: int| 0 <= i < j < s.len() ==> s[i].path != s[j].path
    &&& forall|i: int|
        0 <= i < s.len() && (#[trigger] s[i].path).len() > 1 ==> exists|j: int|
            0 <= j < s.len() && (#[trigger] s[j].path) == s[i].path.drop_last()
                && s[j].meta.entity_type == EntityKind::Directory
}

/// The first entry recorded under `p`, if any.  In a well-formed snapshot
/// it is the only one.
pub open spec fn lookup(s: Seq<FsEntryView>, p: Seq<Seq<char>>) -> Option<FsEntryView>
    decreases s.len(),
{
    if s.len() == 0 {
        None
    } else if s.first().path == p {
        Some(s.first())
    } else {
        lookup(s.drop_first(), p)
    }
}

/// Whether some entry of the snapshot has path `p`.
pub open spec fn present(s: Seq<FsEntryView>, p: Seq<Seq<char>>) -> bool {
    lookup(s, p) is Some
}

/// The kind recorded under `p`, if anything is.
pub open spec fn kind_at(s: Seq<FsEntryView>, p: Seq<Seq<char>>) -> Option<EntityKind> {
    match lookup(s, p) {
        Some(e) => Some(e.meta.entity_type),
        None => None,
    }
}

/// Whether `e` is an immediate child of the directory at `dir`.
pub open spec fn is_child(e: FsEntryView, dir: Seq<Seq<char>>) -> bool {
    e.path.len() == dir.len() + 1 && e.path.drop_last() == dir
}

/// The metadata of the immediate children of `dir`, in snapshot order.
pub open spec fn children_of(s: Seq<FsEntryView>, dir: Seq<Seq<char>>) -> Seq<LinuxEntityView>
    decreases s.len(),
{
    if s.len() == 0 {
        Seq::<LinuxEntityView>::empty()
    } else if is_child(s.last(), dir) {
        children_of(s.drop_last(), dir).push(s.last().meta)
    } else {
        children_of(s.drop_last(), dir)
    }
}

/// Whether two component paths hold the same names.
fn path_eq(a: &Vec<String>, b: &Vec<String>) -> (r: bool)
    ensures
        r == (a.deep_view() == b.deep_view()),
{
    proof {
        assert(a.deep_view().len() == a@.len());
        assert(b.deep_view().len() == b@.len());
    }
    if a.len() != b.len() {
        return false;
    }
    let mut i: usize = 0;
    while i < a.len()
        invariant
            i <= a.len(),
            a.len() == b.len(),
            forall|k: int| 0 <= k < i ==> a.deep_view()[k] == b.deep_view()[k],
        decreases a.len() - i,
    {
        if !(a[i] == b[i]) {
            proof {
                assert(a.deep_view()[i as int] != b.deep_view()[i as int]);
            }
            return false;
        }
        i = i + 1;
    }
    proof {
        assert(a.deep_view() =~= b.deep_view());
    }
    true
}

impl FsSnapshot {
    /// The index of the entry at `p`, if any: the executable face of
    /// [`lookup`].
    fn lookup_index(&self, p: &Vec<String>) -> (r: Option<usize>)
        ensures
            match r {
                Some(i) => i < self.entries.len()
                    && lookup(self@, p.deep_view()) == Some(self@[i as int])
                    && self@[i as int].path == p.deep_view(),
                None => lookup(self@, p.deep_view()) is None,
            },
    {
        let ghost pv = p.deep_view();
        proof {
            assert(self@.skip(0) =~= self@);
        }
        let mut i: usize = 0;
        while i < self.entries.len()
            invariant
                i <= self.entries.len(),
                pv == p.deep_view(),
                self@.len() == self.entries.len(),
                lookup(self@, pv) == lookup(self@.skip(i as int), pv),
            decreases self.entries.len() - i,
        {
            proof {
                assert(self@.skip(i as int).first() == self@[i as int]);
            }
            if path_eq(&self.entries[i].path, p) {
                return Some(i);
            }
            proof {
                assert(self@.skip(i as int).drop_first() =~= self@.skip(i + 1));
            }
            i = i + 1;
        }
        proof {
            assert(self@.skip(self.entries.len() as int) =~= Seq::<FsEntryView>::empty());
        }
        None
    }

    /// Whether the path names any entity of the snapshot.  Total: an absent
    /// path simply answers `false`.
    pub fn is_exist(&self, path: &Vec<String>) -> (r: bool)
        ensures
            r == present(self@, path.deep_view()),
    {
        match self.lookup_index(path) {
            Some(_) => true,
            None => false,
        }
    }

    /// Whether the path names a file.
    pub fn is_file(&self, path: &Vec<String>) -> (r: bool)
        ensures
            r == (kind_at(self@, path.deep_view()) == Some(EntityKind::File)),
    {
        match self.lookup_index(path) {
            Some(i) => self.entries[i].meta.entity_type == EntityKind::File,
            None => false,
        }
    }

    /// Whether the path names a directory.
    pub fn is_folder(&self, path: &Vec<String>) -> (r: bool)
        ensures
            r == (kind_at(self@, path.deep_view()) == Some(EntityKind::Directory)),
    {
        match self.lookup_index(path) {
            Some(i) => self.entries[i].meta.entity_type == EntityKind::Directory,
            None => false,
        }
    }

    /// Whether the path names a symbolic link.
    pub fn is_symlink(&self, path: &Vec<String>) -> (r: bool)
        ensures
            r == (kind_at(self@, path.deep_view()) == Some(EntityKind::Symlink)),
    {
        match self.lookup_index(path) {
            Some(i) => self.entries[i].meta.entity_type == EntityKind::Symlink,
            None => false,
        }
    }

    /// The metadata of the single entity at `path`.
    ///
    /// Returns `NotFound` exactly when the path names nothing,
    /// `WrongEntityKind` exactly when it names a directory — a listing
    /// should be asked for instead — and otherwise the recorded metadata.
    pub fn file_info(&self, path: &Vec<String>) -> (r: Result<LinuxEntity, FsError>)
        ensures
            ({
                let l = lookup(self@, path.deep_view());
                match r {
                    Ok(m) => l is Some && m@ == l->Some_0.meta
                        && !(l->Some_0.meta.entity_type is Directory),
                    Err(e) => (e == FsError::NotFound && l is None) || (
                    e == FsError::WrongEntityKind && l is Some
                        && l->Some_0.meta.entity_type is Directory),
                }
            }),
    {
        match self.lookup_index(path) {
            None => Err(FsError::NotFound),
            Some(i) => {
                if self.entries[i].meta.entity_type == EntityKind::Directory {
                    Err(FsError::WrongEntityKind)
                } else {
                    Ok(self.entries[i].meta.duplicate())
                }
            },
        }
    }

    /// The metadata of every immediate child of `dir`, in snapshot order:
    /// the executable face of [`children_of`].
    fn collect_children(&self, dir: &Vec<String>) -> (r: Vec<LinuxEntity>)
        ensures
            r.deep_view() == children_of(self@, dir.deep_view()),
    {
        let ghost dv = dir.deep_view();
        let mut out: Vec<LinuxEntity> = Vec::new();
        proof {
            assert(self@.take(0) =~= Seq::<FsEntryView>::empty());
            assert(out.deep_view() =~= children_of(self@.take(0), dv));
        }
        let mut i: usize = 0;
        while i < self.entries.len()
            invariant
                i <= self.entries.len(),
                dv == dir.deep_view(),
                self@.len() == self.entries.len(),
                out.deep_view() == children_of(self@.take(i as int), dv),
            decreases self.entries.len() - i,
        {
            proof {
                assert(self@.take(i + 1).drop_last() =~= self@.take(i as int));
                assert(self@.take(i + 1).last() == self@[i as int]);
            }
            let ghost old_out = out.deep_view();
            if is_child_entry(&self.entries[i], dir) {
                let m = self.entries[i].meta.duplicate();
                out.push(m);
                proof {
                    assert(out.deep_view() =~= old_out.push(self@[i as int].meta));
                }
            }
            i = i + 1;
        }
        proof {
            assert(self@.take(self.entries.len() as int) =~= self@);
        }
        out
    }

    /// The listing of the snapshot's own root: every entry one level deep,
    /// in snapshot order.  The root is always a directory, so this cannot
    /// fail.
    pub fn current_folder_info(&self) -> (r: Vec<LinuxEntity>)
        ensures
            r.deep_view() == children_of(self@, Seq::<Seq<char>>::empty()),
    {
        let root: Vec<String> = Vec::new();
        proof {
            assert(root.deep_view() =~= Seq::<Seq<char>>::empty());
        }
        self.collect_children(&root)
    }

    /// The listing of the directory at `dir`.
    ///
    /// Returns `NotFound` exactly when a nonempty `dir` names nothing,
    /// `NotADirectory` exactly when it names something that is not a
    /// directory — never a partial listing — and otherwise the immediate
    /// children, in snapshot order.  The empty path is the snapshot's root.
    pub fn other_folder_info(&self, dir: &Vec<String>) -> (r: Result<
        Vec<LinuxEntity>,
        FsError,
    >)
        ensures
            ({
                let dv = dir.deep_view();
                match r {
                    Ok(v) => (dv.len() == 0 || kind_at(self@, dv) == Some(
                        EntityKind::Directory,
                    )) && v.deep_view() == children_of(self@, dv),
                    Err(e) => (e == FsError::NotFound && dv.len() > 0 && !present(self@, dv))
                        || (e == FsError::NotADirectory && present(self@, dv) && kind_at(
                        self@,
                        dv,
                    ) != Some(EntityKind::Directory)),
                }
            }),
    {
        if dir.len() == 0 {
            proof {
                assert(dir.deep_view().len() == 0);
            }
            return Ok(self.collect_children(dir));
        }
        proof {
            assert(dir.deep_view().len() == dir@.len());
        }
        match self.lookup_index(dir) {
            None => Err(FsError::NotFound),
            Some(i) => {
                if self.entries[i].meta.entity_type == EntityKind::Directory {
                    Ok(self.collect_children(dir))
                } else {
                    Err(FsError::NotADirectory)
                }
            },
        }
    }
}

/// Whether `c` is a usable path component: the executable face of
/// [`component_ok`].
fn check_component(c: &String) -> (r: bool)
    ensures
        r == component_ok(c@),
{
    let n: usize = c.as_str().unicode_len();
    if n == 0 {
        return false;
    }
    let mut i: usize = 0;
    while i < n
        invariant
            i <= n,
            n == c@.len(),
            forall|k: int| 0 <= k < i ==> c@[k] != '/',
        decreases n - i,
    {
        if c.as_str().get_char(i) == '/' {
            return false;
        }
        i = i + 1;
    }
    true
}

/// Whether `e` is well recorded: the executable face of [`entry_ok`].
fn check_entry(e: &FsEntry) -> (r: bool)
    ensures
        r == entry_ok(e@),
{
    proof {
        assert(e@.path.len() == e.path@.len());
    }
    if e.path.len() == 0 {
        return false;
    }
    let mut k: usize = 0;
    while k < e.path.len()
        invariant
            k <= e.path.len(),
            e.path.len() == e@.path.len(),
            forall|m: int| 0 <= m < k ==> component_ok(#[trigger] e@.path[m]),
        decreases e.path.len() - k,
    {
        if !check_component(&e.path[k]) {
            proof {
                assert(e@.path[k as int] == e.path@[k as int]@);
            }
            return false;
        }
        k = k + 1;
    }
    e.meta.entity_name == e.path[e.path.len() - 1]
}

/// All but the last component of a nonempty path.
fn parent_path(p: &Vec<String>) -> (r: Vec<String>)
    requires
        p.len() >= 1,
    ensures
        r.deep_view() == p.deep_view().drop_last(),
{
    let mut r: Vec<String> = Vec::new();
    let mut k: usize = 0;
    while k < p.len() - 1
        invariant
            p.len() >= 1,
            k <= p.len() - 1,
            r@.len() == k,
            forall|m: int| 0 <= m < k ==> r.deep_view()[m] == p.deep_view()[m],
        decreases p.len() - 1 - k,
    {
        r.push(p[k].clone());
        k = k + 1;
    }
    proof {
        assert(r.deep_view() =~= p.deep_view().drop_last());
    }
    r
}

impl FsSnapshot {
    /// Whether every entry is well recorded: the first conjunct of [`wf`].
    fn check_entries_ok(&self) -> (r: bool)
        ensures
            r == (forall|i: int| 0 <= i < self@.len() ==> entry_ok(#[trigger] self@[i])),
    {
        let mut i: usize = 0;
        while i < self.entries.len()
            invariant
                i <= self.entries.len(),
                self@.len() == self.entries.len(),
                forall|a: int| 0 <= a < i ==> entry_ok(#[trigger] self@[a]),
            decreases self.entries.len() - i,
        {
            if !check_entry(&self.entries[i]) {
                proof {
                    assert(self@[i as int] == self.entries@[i as int]@);
                }
                return false;
            }
            i = i + 1;
        }
        true
    }

    /// Whether no path occurs twice: the second conjunct of [`wf`].
    fn check_unique(&self) -> (r: bool)
        ensures
            r == (forall|i: int, j: int|
                0 <= i < j < self@.len() ==> self@[i].path != self@[j].path),
    {
        let n: usize = self.entries.len();
        let mut i: usize = 0;
        while i < n
            invariant
                i <= n,
                n == self.entries.len(),
                self@.len() == n,
                forall|a: int, b: int| 0 <= a < b < n && a < i ==> self@[a].path != self@[b].path,
            decreases n - i,
        {
            let mut j: usize = i + 1;
            while j < n
                invariant
                    i < n,
                    i + 1 <= j <= n,
                    n == self.entries.len(),
                    self@.len() == n,
                    forall|b: int| i < b < j ==> self@[i as int].path != self@[b].path,
                decreases n - j,
            {
                if path_eq(&self.entries[i].path, &self.entries[j].path) {
                    proof {
                        assert(self@[i as int].path == self@[j as int].path);
                    }
                    return false;
                }
                j = j + 1;
            }
            i = i + 1;
        }
        true
    }

    /// Whether the snapshot is well formed, exactly as [`wf`] says.  A
    /// builder that assembled a snapshot from an unverified source can
    /// validate it here before relying on the uniqueness-dependent laws.
    pub fn check_wf(&self) -> (b: bool)
        ensures
            b == wf(self@),
    {
        if !self.check_entries_ok() {
            return false;
        }
        if !self.check_unique() {
            return false;
        }
        let ghost s = self@;
        let mut i: usize = 0;
        while i < self.entries.len()
            invariant
                i <= self.entries.len(),
                s == self@,
                s.len() == self.entries.len(),
                forall|a: int| 0 <= a < s.len() ==> entry_ok(#[trigger] s[a]),
                forall|a: int, b: int| 0 <= a < b < s.len() ==> s[a].path != s[b].path,
                forall|a: int|
                    0 <= a < i && (#[trigger] s[a].path).len() > 1 ==> exists|j: int|
                        0 <= j < s.len() && (#[trigger] s[j].path) == s[a].path.drop_last()
                            && s[j].meta.entity_type == EntityKind::Directory,
            decreases self.entries.len() - i,
        {
            if self.entries[i].path.len() > 1 {
                let parent = parent_path(&self.entries[i].path);
                match self.lookup_index(&parent) {
                    Some(j) => {
                        if !(self.entries[j].meta.entity_type == EntityKind::Directory) {
                            proof {
                                let ghost target = s[i as int].path.drop_last();
                                assert forall|jj: int|
                                    0 <= jj < s.len() && (#[trigger] s[jj].path)
                                        == target implies !(s[jj].meta.entity_type
                                    == EntityKind::Directory) by {
                                    if jj != j {
                                        assert(s[jj].path == s[j as int].path);
                                        assert(false);
                                    }
                                }
                            }
                            return false;
                        }
                    },
                    None => {
                        proof {
                            lemma_lookup_props(s, parent.deep_view());
                        }
                        return false;
                    },
                }
            }
            i = i + 1;
        }
        true
    }
}

/// Whether `e` is an immediate child of `dir`: the executable face of
/// [`is_child`].
fn is_child_entry(e: &FsEntry, dir: &Vec<String>) -> (r: bool)
    ensures
        r == is_child(e@, dir.deep_view()),
{
    if e.path.len() == 0 || e.path.len() - 1 != dir.len() {
        return false;
    }
    let mut k: usize = 0;
    while k < dir.len()
        invariant
            k <= dir.len(),
            e.path.len() == dir.len() + 1,
            forall|m: int| 0 <= m < k ==> e@.path[m] == dir.deep_view()[m],
        decreases dir.len() - k,
    {
        if !(e.path[k] == dir[k]) {
            proof {
                assert(e@.path[k as int] != dir.deep_view()[k as int]);
                assert(e@.path.drop_last()[k as int] == e@.path[k as int]);
            }
            return false;
        }
        k = k + 1;
    }
    proof {
        assert(e@.path.drop_last() =~= dir.deep_view());
    }
    true
}

/// Every listed child really is an immediate child: position `j` of
/// [`children_of`] is the metadata of some snapshot entry that
/// [`is_child`] accepts for `dir`.
pub proof fn lemma_children_sound(s: Seq<FsEntryView>, dir: Seq<Seq<char>>, j: int)
    requires
        0 <= j < children_of(s, dir).len(),
    ensures
        exists|i: int|
            0 <= i < s.len() && is_child(#[trigger] s[i], dir) && s[i].meta == children_of(
                s,
                dir,
            )[j],
    decreases s.len(),
{
    let pre = children_of(s.drop_last(), dir);
    if is_child(s.last(), dir) && j == pre.len() {
        assert(s[s.len() - 1] == s.last());
    } else {
        lemma_children_sound(s.drop_last(), dir, j);
        let i = choose|i: int|
            0 <= i < s.drop_last().len() && is_child(#[trigger] s.drop_last()[i], dir)
                && s.drop_last()[i].meta == pre[j];
        assert(s[i] == s.drop_last()[i]);
    }
}

/// What `lookup` finds: a found entry has the asked-for path and stands in
/// the snapshot; a miss means no entry has that path.
pub proof fn lemma_lookup_props(s: Seq<FsEntryView>, p: Seq<Seq<char>>)
    ensures
        match lookup(s, p) {
            Some(e) => e.path == p && exists|i: int| 0 <= i < s.len() && s[i] == e,
            None => forall|i: int| 0 <= i < s.len() ==> (#[trigger] s[i].path) != p,
        },
    decreases s.len(),
{
    if s.len() == 0 {
    } else if s.first().path == p {
        assert(s[0] == s.first());
    } else {
        lemma_lookup_props(s.drop_first(), p);
        match lookup(s.drop_first(), p) {
            Some(e) => {
                let i = choose|i: int| 0 <= i < s.drop_first().len() && s.drop_first()[i] == e;
                assert(s[i + 1] == s.drop_first()[i]);
            },
            None => {
                assert forall|i: int| 0 <= i < s.len() implies (#[trigger] s[i].path) != p by {
                    if i > 0 {
                        assert(s.drop_first()[i - 1] == s[i]);
                    }
                }
            },
        }
    }
}

/// Reading a listed child back resolves to the same entity: in a
/// well-formed snapshot, looking up `dir` extended by the child's own name
/// finds an immediate child of `dir` carrying exactly the listed metadata.
pub proof fn lemma_list_read_back(s: Seq<FsEntryView>, dir: Seq<Seq<char>>, j: int)
    requires
        wf(s),
        0 <= j < children_of(s, dir).len(),
    ensures
        ({
            let m = children_of(s, dir)[j];
            &&& lookup(s, dir.push(m.entity_name)) is Some
            &&& lookup(s, dir.push(m.entity_name))->Some_0.meta == m
            &&& is_child(lookup(s, dir.push(m.entity_name))->Some_0, dir)
        }),
{
    let m = children_of(s, dir)[j];
    lemma_children_sound(s, dir, j);
    let i = choose|i: int|
        0 <= i < s.len() && is_child(#[trigger] s[i], dir) && s[i].meta == m;
    assert(entry_ok(s[i]));
    assert(s[i].path =~= dir.push(m.entity_name)) by {
        assert(s[i].path.drop_last() == dir);
        assert(s[i].path.last() == m.entity_name);
        assert forall|k: int| 0 <= k < s[i].path.len() implies s[i].path[k] == dir.push(
            m.entity_name,
        )[k] by {
            if k < dir.len() {
                assert(s[i].path.drop_last()[k] == s[i].path[k]);
            }
        }
    }
    lemma_lookup_props(s, dir.push(m.entity_name));
    match lookup(s, dir.push(m.entity_name)) {
        Some(e) => {
            let i2 = choose|i2: int| 0 <= i2 < s.len() && s[i2] == e;
            if i != i2 {
                assert(s[i].path == s[i2].path);
                assert(false);
            }
        },
        None => {
            assert(s[i].path == dir.push(m.entity_name));
            assert(false);
        },
    }
}

} // verus!
