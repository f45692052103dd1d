//! Maps [`VfsPath`]s to compact integer ids.
//!
//! Ids are never reused and paths are never removed. A megarepo session touches
//! a large set of paths but not an unbounded one, and stable ids mean a
//! [`FileId`] handed out early stays meaningful after the build graph moves
//! underneath it.
use indexmap::IndexSet;
use rustc_hash::FxBuildHasher;
use vstd::prelude::*;

use crate::vfs_path::{PathView, VfsPath};

verus! {

/// A compact name for a path.
#[derive(Copy, Clone, Debug, PartialEq, Eq, Hash, Structural)]
pub struct FileId {
    raw: u32,
}

/// No id is as large as this.
pub const MAX_FILE_ID: u32 = 0xffff_ffff;

impl FileId {
    /// The number of the id.
    pub closed spec fn number(self) -> int {
        self.raw as int
    }

    /// The id with this number.
    pub fn from_raw(raw: u32) -> (id: FileId)
        ensures
            id.number() == raw,
    {
        FileId { raw }
    }

    /// The number of the id.
    pub fn index(self) -> (raw: u32)
        ensures
            raw == self.number(),
    {
        self.raw
    }
}

/// Ids with one number are one.
pub proof fn lemma_number_identifies(a: FileId, b: FileId)
    requires
        a.number() == b.number(),
    ensures
        a == b,
{
}

/// What tells one path from another: which of the three it is, and its two
/// halves.
pub type PathKey = (u8, String, String);

/// An indexed set of the `indexmap` crate.
#[verifier::external_type_specification]
#[verifier::external_body]
#[verifier::reject_recursive_types(T)]
#[verifier::reject_recursive_types(S)]
pub struct ExIndexSet<T, S>(IndexSet<T, S>);

/// The keys that an `IndexSet` holds, in the order of its indices.
pub uninterp spec fn keys_of(
    set: IndexSet<PathKey, FxBuildHasher>,
) -> Seq<(u8, Seq<char>, Seq<char>)>;

/// `IndexSet::default`: a set without keys.
#[verifier::external_body]
fn no_keys() -> (set: IndexSet<PathKey, FxBuildHasher>)
    ensures
        keys_of(set).len() == 0,
{
    IndexSet::default()
}

/// `IndexSet::get_index_of`: the index of `key`, where the set holds it.
#[verifier::external_body]
fn index_of_key(set: &IndexSet<PathKey, FxBuildHasher>, key: &PathKey) -> (at: Option<usize>)
    ensures
        at is Some <==> keys_of(*set).contains((key.0, key.1@, key.2@)),
        at matches Some(i) ==> i < keys_of(*set).len() && keys_of(*set)[i as int] == (
            key.0,
            key.1@,
            key.2@,
        ),
{
    set.get_index_of(key)
}

/// `IndexSet::insert_full`: the index of `key`, which goes behind the others
/// where the set does not hold it yet.
#[verifier::external_body]
fn insert_key(set: &mut IndexSet<PathKey, FxBuildHasher>, key: PathKey) -> (at: usize)
    ensures
        at < keys_of(*final(set)).len(),
        keys_of(*final(set))[at as int] == (key.0, key.1@, key.2@),
        keys_of(*final(set)) == (if keys_of(*old(set)).contains((key.0, key.1@, key.2@)) {
            keys_of(*old(set))
        } else {
            keys_of(*old(set)).push((key.0, key.1@, key.2@))
        }),
{
    set.insert_full(key).0
}

/// `IndexSet::len`: how many keys the set holds.
#[verifier::external_body]
fn key_count(set: &IndexSet<PathKey, FxBuildHasher>) -> (n: usize)
    ensures
        n == keys_of(*set).len(),
{
    set.len()
}

/// What tells `path` from another.
pub open spec fn key_of(path: PathView) -> (u8, Seq<char>, Seq<char>) {
    match path {
        PathView::Real(path) => (0u8, path, Seq::empty()),
        PathView::Jar(jar, entry) => (1u8, jar, entry),
        PathView::Jrt(module, entry) => (2u8, module, entry),
    }
}

/// Distinct paths, numbered from zero in the order of their first use.
pub struct PathInterner {
    map: IndexSet<PathKey, FxBuildHasher>,
    paths: Vec<VfsPath>,
}

impl View for PathInterner {
    type V = Seq<PathView>;

    closed spec fn view(&self) -> Seq<PathView> {
        Seq::new(self.paths@.len(), |i: int| self.paths@[i]@)
    }
}

/// Computes [`key_of`].
fn make_key(path: &VfsPath) -> (key: PathKey)
    ensures
        (key.0, key.1@, key.2@) == key_of(path@),
{
    match path {
        VfsPath::Real(path) => {
            let key = (0u8, path.as_str().to_owned(), String::new());
            assert(key.2@ =~= Seq::<char>::empty());
            key
        },
        VfsPath::Jar(path) => (1u8, path.jar().as_str().to_owned(), path.entry().to_owned()),
        VfsPath::Jrt(path) => (2u8, path.module().to_owned(), path.entry().to_owned()),
    }
}

/// Whether a path is in its plain spelling.
pub open spec fn is_plain(path: PathView) -> bool {
    crate::vfs_path::plain_path(path) == path
}

impl PathInterner {
    /// The set holds the key of every path, at its number, and no path has two
    /// numbers. Paths are kept in their plain spelling.
    pub closed spec fn wf(&self) -> bool {
        &&& keys_of(self.map).len() == self.paths@.len()
        &&& forall|i: int|
            0 <= i < self.paths@.len() ==> #[trigger] keys_of(self.map)[i] == key_of(
                self.paths@[i]@,
            )
        &&& keys_of(self.map).no_duplicates()
        &&& forall|i: int|
            0 <= i < self.paths@.len() ==> #[trigger] is_plain(self.paths@[i]@)
    }

    /// No path has two numbers.
    pub proof fn lemma_distinct(&self)
        requires
            self.wf(),
        ensures
            self@.no_duplicates(),
            forall|i: int| 0 <= i < self@.len() ==> is_plain(#[trigger] self@[i]),
    {
        assert forall|i: int| 0 <= i < self@.len() implies is_plain(#[trigger] self@[i]) by {
            assert(is_plain(self.paths@[i]@));
        }
        assert forall|i: int, j: int|
            0 <= i < self@.len() && 0 <= j < self@.len() && i != j implies self@[i]
            != self@[j] by {
            assert(keys_of(self.map)[i] == key_of(self.paths@[i]@));
            assert(keys_of(self.map)[j] == key_of(self.paths@[j]@));
        }
    }

    /// An interner without paths.
    pub fn new() -> (interner: Self)
        ensures
            interner.wf(),
            interner@ == Seq::<PathView>::empty(),
    {
        let interner = PathInterner { map: no_keys(), paths: Vec::new() };
        assert(interner@ =~= Seq::<PathView>::empty());
        interner
    }

    /// The number of `path`, or `None` if it was never interned.
    pub fn position(&self, path: &VfsPath) -> (at: Option<usize>)
        requires
            self.wf(),
        ensures
            at is Some <==> self@.contains(path.key()),
            at matches Some(i) ==> i < self@.len() && self@[i as int] == path.key(),
    {
        let path = &path.plain();
        let key = make_key(path);
        let at = index_of_key(&self.map, &key);
        proof {
            if self@.contains(path@) {
                let i = choose|i: int| 0 <= i < self@.len() && self@[i] == path@;
                assert(keys_of(self.map)[i] == key_of(path@));
            }
            if let Some(i) = at {
                assert(keys_of(self.map)[i as int] == key_of(self.paths@[i as int]@));
                assert(self@[i as int] == path@);
            }
        }
        at
    }

    /// The number of `path`, which gets the next one if this is the first time it
    /// is seen.
    pub fn place(&mut self, path: VfsPath) -> (at: usize)
        requires
            old(self).wf(),
        ensures
            final(self).wf(),
            final(self)@ == (if old(self)@.contains(path.key()) {
                old(self)@
            } else {
                old(self)@.push(path.key())
            }),
            at < final(self)@.len(),
            final(self)@[at as int] == path.key(),
    {
        let path = path.plain();
        let known: usize = self.paths.len();
        let ghost keys = keys_of(self.map);
        let at: usize = insert_key(&mut self.map, make_key(&path));
        proof {
            if old(self)@.contains(path@) {
                let i = choose|i: int| 0 <= i < old(self)@.len() && old(self)@[i] == path@;
                assert(keys[i] == key_of(path@));
                assert(keys.contains(key_of(path@)));
            }
            if keys.contains(key_of(path@)) {
                let i = choose|i: int| 0 <= i < keys.len() && keys[i] == key_of(path@);
                assert(keys[i] == key_of(self.paths@[i]@));
                assert(old(self)@[i] == path@);
            }
        }
        if at == known {
            let ghost view = path@;
            self.paths.push(path);
            assert(self@ =~= old(self)@.push(view));
        } else {
            assert(keys[at as int] == key_of(self.paths@[at as int]@));
        }
        at
    }

    /// The id for `path`, or `None` if it was never interned.
    pub fn get(&self, path: &VfsPath) -> (id: Option<FileId>)
        requires
            self.wf(),
            self@.len() <= MAX_FILE_ID,
        ensures
            id is Some <==> self@.contains(path.key()),
            id matches Some(id) ==> 0 <= id.number() < self@.len() && self@[id.number()]
                == path.key(),
    {
        match self.position(path) {
            Some(at) => Some(FileId::from_raw(at as u32)),
            None => None,
        }
    }

    /// The id for `path`, allocating one if this is the first time it is seen.
    pub fn intern(&mut self, path: VfsPath) -> (id: FileId)
        requires
            old(self).wf(),
            old(self)@.len() <= MAX_FILE_ID,
            old(self)@.contains(path.key()) || old(self)@.len() < MAX_FILE_ID,
        ensures
            final(self).wf(),
            final(self)@ == (if old(self)@.contains(path.key()) {
                old(self)@
            } else {
                old(self)@.push(path.key())
            }),
            0 <= id.number() < final(self)@.len(),
            final(self)@[id.number()] == path.key(),
    {
        FileId::from_raw(self.place(path) as u32)
    }

    /// The path that `id`, which this interner gave out, stands for.
    pub fn lookup(&self, id: FileId) -> (path: &VfsPath)
        requires
            self.wf(),
            id.number() < self@.len(),
        ensures
            path@ == self@[id.number()],
            is_plain(path@),
    {
        self.path_at(id.index() as usize)
    }

    /// The path with this number.
    pub fn path_at(&self, at: usize) -> (path: &VfsPath)
        requires
            self.wf(),
            at < self@.len(),
        ensures
            path@ == self@[at as int],
            is_plain(path@),
    {
        assert(is_plain(self.paths@[at as int]@));
        &self.paths[at]
    }

    /// How many paths there are.
    pub fn len(&self) -> (n: usize)
        requires
            self.wf(),
        ensures
            n == self@.len(),
    {
        key_count(&self.map)
    }
}

} // verus!
