//! Virtual file system: the single source of truth for file contents.
//!
//! Files have ids, so the rest of the server passes around a number rather than
//! a string. Changes are batched, and a write that does not alter the bytes is
//! no change at all: it never reaches what is derived from the files, so it
//! never invalidates anything.
use vstd::prelude::*;

use crate::path_interner::{FileId, PathInterner, MAX_FILE_ID};
use crate::vfs_path::{PathView, VfsPath};

verus! {

/// What happened to a file.
#[derive(Debug)]
pub enum Change {
    /// It came into being with these bytes.
    Create(Vec<u8>),
    /// It has these bytes now.
    Modify(Vec<u8>),
    /// It is gone.
    Delete,
}

/// The view of a [`Change`].
pub enum ChangeView {
    Create(Seq<u8>),
    Modify(Seq<u8>),
    Delete,
}

impl View for Change {
    type V = ChangeView;

    open spec fn view(&self) -> ChangeView {
        match *self {
            Change::Create(bytes) => ChangeView::Create(bytes@),
            Change::Modify(bytes) => ChangeView::Modify(bytes@),
            Change::Delete => ChangeView::Delete,
        }
    }
}

/// A file of a batch, and what happened to it.
#[derive(Debug)]
pub struct ChangedFile {
    pub file_id: FileId,
    pub change: Change,
}

/// The bytes of a file, where it has any.
pub open spec fn bytes_of(contents: Option<Vec<u8>>) -> Option<Seq<u8>> {
    match contents {
        Some(bytes) => Some(bytes@),
        None => None,
    }
}

/// What it means that a file had some contents and has others now.
pub open spec fn change_from(before: Option<Seq<u8>>, after: Option<Seq<u8>>) -> ChangeView {
    match (before, after) {
        (_, None) => ChangeView::Delete,
        (None, Some(bytes)) => ChangeView::Create(bytes),
        (Some(_), Some(bytes)) => ChangeView::Modify(bytes),
    }
}

/// The state of a [`Vfs`]. The sequences have an entry for every file id.
#[verifier::ext_equal]
pub struct VfsView {
    pub paths: Seq<PathView>,
    pub contents: Seq<Option<Seq<u8>>>,
    /// What happened to each file since the last batch was taken.
    pub pending: Seq<Option<ChangeView>>,
    pub revision: u64,
}

/// What a file holds: nothing where it was never written.
pub open spec fn contents_at(vfs: VfsView, path: PathView) -> Option<Seq<u8>> {
    if vfs.paths.contains(path) {
        vfs.contents[vfs.paths.index_of(path)]
    } else {
        None
    }
}

/// The state with an id for a path.
pub open spec fn with_file(vfs: VfsView, path: PathView) -> VfsView {
    if vfs.paths.contains(path) {
        vfs
    } else {
        VfsView {
            paths: vfs.paths.push(path),
            contents: vfs.contents.push(None),
            pending: vfs.pending.push(None),
            ..vfs
        }
    }
}

/// The state after a write that changed something. The newest change takes the
/// place of one that still waits for the same file.
pub open spec fn written(vfs: VfsView, path: PathView, contents: Option<Seq<u8>>) -> VfsView {
    let known = with_file(vfs, path);
    let file = known.paths.index_of(path);
    VfsView {
        contents: known.contents.update(file, contents),
        pending: known.pending.update(file, Some(change_from(known.contents[file], contents))),
        revision: crate::session::following(known.revision),
        ..known
    }
}

/// The changes that wait, by file, in the order of the ids.
pub open spec fn batch(pending: Seq<Option<ChangeView>>) -> Seq<(int, ChangeView)>
    decreases pending.len(),
{
    if pending.len() == 0 {
        Seq::empty()
    } else {
        let rest = batch(pending.drop_last());
        match pending.last() {
            Some(change) => rest.push((pending.len() - 1, change)),
            None => rest,
        }
    }
}

/// The view of a batch.
pub open spec fn batch_view(changes: Seq<ChangedFile>) -> Seq<(int, ChangeView)> {
    Seq::new(changes.len(), |i: int| (changes[i].file_id.number(), changes[i].change@))
}

/// The files.
pub struct Vfs {
    paths: PathInterner,
    contents: Vec<Option<Vec<u8>>>,
    pending: Vec<Option<Change>>,
    waiting: bool,
    revision: u64,
}

/// The view of every file's contents.
spec fn contents_view(contents: Seq<Option<Vec<u8>>>) -> Seq<Option<Seq<u8>>> {
    Seq::new(contents.len(), |i: int| bytes_of(contents[i]))
}

/// The view of what waits for every file.
spec fn pending_view(pending: Seq<Option<Change>>) -> Seq<Option<ChangeView>> {
    Seq::new(
        pending.len(),
        |i: int|
            match pending[i] {
                Some(change) => Some(change@),
                None => None,
            },
    )
}

impl View for Vfs {
    type V = VfsView;

    closed spec fn view(&self) -> VfsView {
        VfsView {
            paths: self.paths@,
            contents: contents_view(self.contents@),
            pending: pending_view(self.pending@),
            revision: self.revision,
        }
    }
}

/// Whether anything waits.
pub open spec fn has_waiting(pending: Seq<Option<ChangeView>>) -> bool {
    exists|i: int| 0 <= i < pending.len() && (#[trigger] pending[i]) is Some
}

/// Whether two byte strings are the same.
fn same_bytes(a: &Vec<u8>, b: &Vec<u8>) -> (same: bool)
    ensures
        same == (a@ == b@),
{
    if a.len() != b.len() {
        return false;
    }
    let mut i: usize = 0;
    while i < a.len()
        invariant
            i <= a@.len(),
            a@.len() == b@.len(),
            forall|j: int| 0 <= j < i ==> a@[j] == b@[j],
        decreases a@.len() - i,
    {
        if a[i] != b[i] {
            return false;
        }
        i += 1;
    }
    assert(a@ =~= b@);
    true
}

/// Whether two files hold the same.
fn same_contents(a: &Option<Vec<u8>>, b: &Option<Vec<u8>>) -> (same: bool)
    ensures
        same == (bytes_of(*a) == bytes_of(*b)),
{
    match (a, b) {
        (Some(a), Some(b)) => same_bytes(a, b),
        (None, None) => true,
        _ => false,
    }
}

/// Whether a path has an id, or there is one left for it.
pub open spec fn has_id_for(paths: Seq<PathView>, path: PathView) -> bool {
    paths.contains(path) || paths.len() < MAX_FILE_ID
}

impl Vfs {
    /// There is an entry for every id.
    pub closed spec fn wf(&self) -> bool {
        &&& self.paths.wf()
        &&& self.paths@.len() <= MAX_FILE_ID
        &&& self.contents@.len() == self.paths@.len()
        &&& self.pending@.len() == self.paths@.len()
        &&& self.waiting == has_waiting(pending_view(self.pending@))
    }

    /// The state of a file system that keeps its rules.
    pub proof fn lemma_wf(&self)
        requires
            self.wf(),
        ensures
            self@.paths.no_duplicates(),
            self@.contents.len() == self@.paths.len(),
            self@.pending.len() == self@.paths.len(),
            self@.paths.len() <= MAX_FILE_ID,
    {
        self.paths.lemma_distinct();
    }

    /// No files.
    pub fn new() -> (vfs: Vfs)
        ensures
            vfs.wf(),
            vfs@ == (VfsView {
                paths: Seq::empty(),
                contents: Seq::empty(),
                pending: Seq::empty(),
                revision: 0,
            }),
    {
        let vfs = Vfs {
            paths: PathInterner::new(),
            contents: Vec::new(),
            pending: Vec::new(),
            waiting: false,
            revision: 0,
        };
        assert(vfs@.contents =~= Seq::<Option<Seq<u8>>>::empty());
        assert(vfs@.pending =~= Seq::<Option<ChangeView>>::empty());
        vfs
    }

    /// The id of a file, or `None` if it was never written.
    pub fn file_id(&self, path: &VfsPath) -> (id: Option<FileId>)
        requires
            self.wf(),
        ensures
            id is Some <==> self@.paths.contains(path.key()),
            id matches Some(id) ==> 0 <= id.number() < self@.paths.len() && id.number()
                == self@.paths.index_of(path.key()),
    {
        proof {
            self.paths.lemma_distinct();
        }
        self.paths.get(path)
    }

    /// Whether a file can be written: it has an id, or there is one left.
    pub fn has_room_for(&self, path: &VfsPath) -> (room: bool)
        requires
            self.wf(),
        ensures
            room == has_id_for(self@.paths, path.key()),
    {
        self.contents.len() < MAX_FILE_ID as usize || self.file_id(path).is_some()
    }

    /// Writes a file, or removes it, and returns whether that changed anything.
    pub fn set_file_contents(&mut self, path: VfsPath, contents: Option<Vec<u8>>) -> (changed: bool)
        requires
            old(self).wf(),
            has_id_for(old(self)@.paths, path.key()) || contents is None,
        ensures
            final(self).wf(),
            changed == (contents_at(old(self)@, path.key()) != bytes_of(contents)),
            final(self)@ == (if changed {
                written(old(self)@, path.key(), bytes_of(contents))
            } else {
                old(self)@
            }),
    {
        let ghost before = self@;
        let ghost view = path.key();
        let ghost new = bytes_of(contents);
        proof {
            self.lemma_wf();
        }
        let file: usize = match self.file_id(&path) {
            Some(id) => {
                let file: usize = id.index() as usize;
                proof {
                    assert(before.contents[file as int] == bytes_of(self.contents@[file as int]));
                }
                if same_contents(&self.contents[file], &contents) {
                    return false;
                }
                file
            },
            None => {
                if contents.is_none() {
                    return false;
                }
                let id = self.paths.intern(path);
                self.contents.push(None);
                self.pending.push(None);
                proof {
                    self.paths.lemma_distinct();
                    assert(self@.paths =~= before.paths.push(view));
                    assert(self@.contents =~= before.contents.push(None));
                    assert(self@.pending =~= before.pending.push(None));
                    assert(self@ == with_file(before, view));
                }
                id.index() as usize
            },
        };
        let ghost known = self@;
        proof {
            self.paths.lemma_distinct();
            assert(known == with_file(before, view));
            assert(known.paths[file as int] == view);
            assert(known.paths.index_of(view) == file);
            assert(known.contents[file as int] == bytes_of(self.contents@[file as int]));
        }
        let change = match (&self.contents[file], &contents) {
            (_, None) => Change::Delete,
            (None, Some(bytes)) => Change::Create(bytes.clone()),
            (Some(_), Some(bytes)) => Change::Modify(bytes.clone()),
        };
        assert(change@ == change_from(known.contents[file as int], new));
        let ghost noted = change@;
        self.pending.set(file, Some(change));
        self.contents.set(file, contents);
        self.waiting = true;
        self.revision = self.revision.wrapping_add(1);
        proof {
            assert(self@.contents =~= known.contents.update(file as int, new));
            assert(self@.pending =~= known.pending.update(file as int, Some(noted)));
            assert(self@.pending[file as int] is Some);
            assert(self@ == written(before, view, new));
        }
        true
    }

    /// Takes the batch of changes since the last one.
    pub fn take_changes(&mut self) -> (changes: Vec<ChangedFile>)
        requires
            old(self).wf(),
        ensures
            final(self).wf(),
            batch_view(changes@) == batch(old(self)@.pending),
            final(self)@ == (VfsView {
                pending: Seq::new(old(self)@.pending.len(), |i: int| None),
                ..old(self)@
            }),
    {
        let ghost before = pending_view(self.pending@);
        let mut pending: Vec<Option<Change>> = Vec::new();
        std::mem::swap(&mut pending, &mut self.pending);
        let n: usize = pending.len();
        let mut changes: Vec<ChangedFile> = Vec::new();
        let mut empty: Vec<Option<Change>> = Vec::new();
        let ghost all = pending@;
        proof {
            assert(before.take(0) =~= Seq::<Option<ChangeView>>::empty());
            assert(batch_view(changes@) =~= batch(before.take(0)));
        }
        let mut i: usize = 0;
        while i < n
            invariant
                i <= n,
                n == all.len(),
                n <= MAX_FILE_ID,
                before == pending_view(all),
                pending@.len() == n,
                forall|j: int| i <= j < n ==> pending@[j] == all[j],
                empty@.len() == i,
                forall|j: int| 0 <= j < i ==> #[trigger] empty@[j] is None,
                batch_view(changes@) == batch(before.take(i as int)),
            decreases n - i,
        {
            proof {
                assert(before.take(i + 1).drop_last() =~= before.take(i as int));
                assert(before.take(i + 1).last() == before[i as int]);
            }
            let mut slot: Option<Change> = None;
            std::mem::swap(&mut slot, &mut pending[i]);
            let ghost sofar = changes@;
            if let Some(change) = slot {
                let file_id = FileId::from_raw(i as u32);
                let ghost view = change@;
                changes.push(ChangedFile { file_id, change });
                assert(batch_view(changes@) =~= batch_view(sofar).push((i as int, view)));
            }
            empty.push(None);
            i += 1;
        }
        assert(before.take(n as int) =~= before);
        self.pending = empty;
        self.waiting = false;
        proof {
            assert(self@.pending =~= Seq::new(before.len(), |i: int| None));
        }
        changes
    }

    /// Whether any change waits to be taken.
    pub fn has_pending_changes(&self) -> (pending: bool)
        requires
            self.wf(),
        ensures
            pending == has_waiting(self@.pending),
    {
        self.waiting
    }

    /// The path of a file.
    pub fn path_of(&self, id: FileId) -> (path: &VfsPath)
        requires
            self.wf(),
            id.number() < self@.paths.len(),
        ensures
            path@ == self@.paths[id.number()],
    {
        self.paths.lookup(id)
    }

    /// How many files there are.
    pub fn len(&self) -> (n: usize)
        requires
            self.wf(),
        ensures
            n == self@.paths.len(),
    {
        self.paths.len()
    }

    /// How often anything changed.
    pub fn revision(&self) -> (revision: u64)
        ensures
            revision == self@.revision,
    {
        self.revision
    }
}

/// What is written reads back, and nothing else changes.
pub proof fn a_write_reads_back(
    vfs: VfsView,
    path: PathView,
    contents: Option<Seq<u8>>,
    other: PathView,
)
    requires
        vfs.paths.no_duplicates(),
        vfs.contents.len() == vfs.paths.len(),
        vfs.pending.len() == vfs.paths.len(),
    ensures
        contents_at(written(vfs, path, contents), path) == contents,
        other != path ==> contents_at(written(vfs, path, contents), other) == contents_at(
            vfs,
            other,
        ),
{
    let known = with_file(vfs, path);
    let file = known.paths.index_of(path);
    assert(known.paths.contains(path)) by {
        if !vfs.paths.contains(path) {
            assert(known.paths[vfs.paths.len() as int] == path);
        }
    }
    assert(known.paths[file] == path);
    if other != path {
        assert(known.paths.contains(other) == vfs.paths.contains(other)) by {
            if vfs.paths.contains(other) {
                let i = vfs.paths.index_of(other);
                assert(known.paths[i] == other);
            }
            if known.paths.contains(other) {
                let i = known.paths.index_of(other);
                assert(vfs.paths[i] == other);
            }
        }
        if vfs.paths.contains(other) {
            let i = vfs.paths.index_of(other);
            let j = known.paths.index_of(other);
            assert(known.paths[i] == other);
            assert(known.paths[j] == other);
            assert(known.paths.no_duplicates());
            assert(i == j);
        }
    }
}

/// Every file of a batch is in it once, with what happened to it last.
pub proof fn a_batch_holds_every_change_once(pending: Seq<Option<ChangeView>>)
    ensures
        forall|k: int|
            0 <= k < batch(pending).len() ==> 0 <= (#[trigger] batch(pending)[k]).0 < pending.len()
                && pending[batch(pending)[k].0] == Some(batch(pending)[k].1),
        forall|i: int|
            0 <= i < pending.len() && (#[trigger] pending[i]) is Some ==> batch(pending).contains(
                (i, pending[i]->0),
            ),
        forall|j: int, k: int|
            0 <= j < k < batch(pending).len() ==> (#[trigger] batch(pending)[j]).0 < (
            #[trigger] batch(pending)[k]).0,
    decreases pending.len(),
{
    if pending.len() > 0 {
        let front = pending.drop_last();
        a_batch_holds_every_change_once(front);
        assert forall|i: int|
            0 <= i < pending.len() && (#[trigger] pending[i]) is Some implies batch(
            pending,
        ).contains((i, pending[i]->0)) by {
            if i < front.len() {
                assert(front[i] is Some);
                assert(batch(front).contains((i, front[i]->0)));
                let k = batch(front).index_of((i, front[i]->0));
                assert(batch(pending)[k] == (i, pending[i]->0));
            } else {
                assert(batch(pending).last() == (i, pending[i]->0));
            }
        }
    }
}

/// What waits for a file says what happened to it: it was created where nothing
/// was there, modified where something was, and deleted where nothing is left.
/// Nothing waits for another file that did not wait before.
pub proof fn writes_wait_as_what_happened(
    vfs: VfsView,
    path: PathView,
    contents: Option<Seq<u8>>,
    i: int,
)
    requires
        vfs.paths.no_duplicates(),
        vfs.contents.len() == vfs.paths.len(),
        vfs.pending.len() == vfs.paths.len(),
        0 <= i < written(vfs, path, contents).paths.len(),
    ensures
        ({
            let after = written(vfs, path, contents);
            let before = contents_at(vfs, path);
            &&& after.paths.contains(path)
            &&& after.pending.len() == after.paths.len()
            &&& after.paths[i] == path && contents is None ==> after.pending[i] == Some(
                ChangeView::Delete,
            )
            &&& after.paths[i] == path && before is None && contents is Some ==> after.pending[i]
                == Some(ChangeView::Create(contents->0))
            &&& after.paths[i] == path && before is Some && contents is Some ==> after.pending[i]
                == Some(ChangeView::Modify(contents->0))
            &&& after.paths[i] != path ==> i < vfs.paths.len() && after.pending[i]
                == vfs.pending[i] && after.paths[i] == vfs.paths[i]
            &&& vfs.revision < u64::MAX ==> after.revision == vfs.revision + 1
        }),
{
    let known = with_file(vfs, path);
    assert(known.paths.contains(path)) by {
        if !vfs.paths.contains(path) {
            assert(known.paths[vfs.paths.len() as int] == path);
        }
    }
    let file = known.paths.index_of(path);
    assert(known.paths[file] == path);
    if i != file && known.paths[i] == path {
        assert(known.paths.no_duplicates());
    }
    if vfs.paths.contains(path) {
        assert(contents_at(vfs, path) == known.contents[file]);
    } else if file < vfs.paths.len() {
        assert(vfs.paths[file] == path);
        assert(vfs.paths.contains(path));
    }
}

/// Contents that are set are what the file holds afterwards, unless it held them
/// before, in which case nothing happens at all. Other files keep theirs.
pub proof fn set_contents_are_held(
    vfs: &mut Vfs,
    path: VfsPath,
    contents: Option<Vec<u8>>,
    changed: bool,
    other: PathView,
)
    requires
        call_ensures(Vfs::set_file_contents, (vfs, path, contents), changed),
        crate::sources::is_sound(old(vfs)@),
    ensures
        contents_at(final(vfs)@, path.key()) == bytes_of(contents),
        other != path.key() ==> contents_at(final(vfs)@, other) == contents_at(old(vfs)@, other),
        changed <==> contents_at(old(vfs)@, path.key()) != bytes_of(contents),
        !changed ==> final(vfs)@ == old(vfs)@,
        changed && old(vfs)@.revision < u64::MAX ==> final(vfs)@.revision == old(vfs)@.revision + 1,
{
    crate::sources::laws::recorded_contents_read_back(
        old(vfs)@,
        path.key(),
        bytes_of(contents),
        other,
    );
}

proof fn lemma_nothing_waits(pending: Seq<Option<ChangeView>>)
    requires
        !has_waiting(pending),
    ensures
        batch(pending).len() == 0,
    decreases pending.len(),
{
    if pending.len() > 0 {
        let front = pending.drop_last();
        assert(pending.last() is None) by {
            assert(!(pending[pending.len() - 1] is Some));
        }
        assert(!has_waiting(front)) by {
            if has_waiting(front) {
                let i = choose|i: int| 0 <= i < front.len() && (#[trigger] front[i]) is Some;
                assert(pending[i] is Some);
            }
        }
        lemma_nothing_waits(front);
    }
}

/// Changes that are taken are gone, and the files keep their contents.
pub proof fn taken_changes_are_gone(vfs: &mut Vfs, changes: Vec<ChangedFile>)
    requires
        call_ensures(Vfs::take_changes, (vfs,), changes),
    ensures
        !has_waiting(final(vfs)@.pending),
        final(vfs)@.contents == old(vfs)@.contents,
        final(vfs)@.paths == old(vfs)@.paths,
        final(vfs)@.revision == old(vfs)@.revision,
        !has_waiting(old(vfs)@.pending) ==> changes@.len() == 0,
{
    assert(batch_view(changes@).len() == changes@.len());
    if !has_waiting(old(vfs)@.pending) {
        lemma_nothing_waits(old(vfs)@.pending);
    }
}

} // verus!
