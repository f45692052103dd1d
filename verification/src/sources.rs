//! The sources of a session: what the client has open, what the files hold, and
//! which of them the index has not seen.
//!
//! A file whose current source has not been incorporated into the index stays
//! stale across a save and a close. Disk and editor agreement only means the save
//! completed; it does not mean that anything was rebuilt.
use vstd::prelude::*;

use crate::documents::{ContentChange, Document, DocumentView, Documents};
use crate::line_index::PositionEncoding;
use crate::path_interner::PathInterner;
use crate::text::same_text;
use crate::vfs::{Vfs, VfsView};
use crate::vfs_path::{PathView, VfsPath};

pub mod calls;
pub mod gather;
pub mod laws;

verus! {

/// Files whose current source the index has not seen.
pub struct StaleDocuments {
    paths: PathInterner,
}

impl View for StaleDocuments {
    type V = Set<PathView>;

    closed spec fn view(&self) -> Set<PathView> {
        self.paths@.to_set()
    }
}

impl StaleDocuments {
    /// No file is listed twice.
    pub closed spec fn wf(&self) -> bool {
        self.paths.wf()
    }

    /// The files, in the order in which they became stale.
    pub closed spec fn order(&self) -> Seq<PathView> {
        self.paths@
    }

    /// The order lists each file once.
    pub proof fn lemma_order(&self)
        requires
            self.wf(),
        ensures
            self.order().no_duplicates(),
            self.order().to_set() == self@,
    {
        self.paths.lemma_distinct();
    }

    /// No file is stale.
    pub fn new() -> (stale: StaleDocuments)
        ensures
            stale.wf(),
            stale.order() == Seq::<PathView>::empty(),
            stale@ == Set::<PathView>::empty(),
    {
        let stale = StaleDocuments { paths: PathInterner::new() };
        assert(stale@ =~= Set::<PathView>::empty());
        stale
    }

    /// Whether a file is stale.
    pub fn contains(&self, path: &VfsPath) -> (found: bool)
        requires
            self.wf(),
        ensures
            found == self@.contains(path.key()),
    {
        self.paths.position(path).is_some()
    }

    /// Makes a file stale.
    pub fn insert(&mut self, path: VfsPath)
        requires
            old(self).wf(),
        ensures
            final(self).wf(),
            final(self)@ == old(self)@.insert(path.key()),
            final(self).order() == (if old(self)@.contains(path.key()) {
                old(self).order()
            } else {
                old(self).order().push(path.key())
            }),
    {
        let ghost view = path.key();
        let _ = self.paths.place(path);
        proof {
            if !old(self).paths@.contains(view) {
                assert forall|p: PathView| self@.contains(p) == old(self)@.insert(
                    view,
                ).contains(p) by {
                    if old(self).paths@.contains(p) {
                        let i = old(self).paths@.index_of(p);
                        assert(self.paths@[i] == p);
                    }
                    if p == view {
                        assert(self.paths@[old(self).paths@.len() as int] == p);
                    }
                }
            }
            assert(self@ =~= old(self)@.insert(view));
        }
    }

    /// How many files are stale.
    pub fn len(&self) -> (n: usize)
        requires
            self.wf(),
        ensures
            n == self.order().len(),
            self@.finite(),
            n == self@.len(),
    {
        proof {
            self.paths.lemma_distinct();
            self.paths@.unique_seq_to_set();
        }
        self.paths.len()
    }

    /// The `i`th file that became stale.
    pub fn get(&self, i: usize) -> (path: &VfsPath)
        requires
            self.wf(),
            i < self.order().len(),
        ensures
            path@ == self.order()[i as int],
    {
        self.paths.path_at(i)
    }
}

/// The state of [`Sources`].
pub struct SourcesView {
    pub documents: Map<PathView, DocumentView>,
    pub vfs: VfsView,
    pub stale: Set<PathView>,
}

/// The files once one was written and the batch of changes was dropped: nothing
/// consumes it, and retaining it would keep the bytes of every file visited.
pub open spec fn recorded(vfs: VfsView, path: PathView, contents: Option<Seq<u8>>) -> VfsView {
    let after = if crate::vfs::contents_at(vfs, path) == contents {
        vfs
    } else {
        crate::vfs::written(vfs, path, contents)
    };
    VfsView { pending: Seq::new(after.pending.len(), |i: int| None), ..after }
}

/// What a text is on disk.
pub open spec fn encoded(text: Seq<char>) -> Seq<u8> {
    vstd::utf8::encode_utf8(text)
}

/// The text of a file on disk. Only a real path is one of a file.
pub open spec fn on_disk<T>(path: PathView, disk: Option<T>) -> Option<T> {
    match path {
        PathView::Real(_) => disk,
        _ => None,
    }
}

/// The client opens a document. It is stale unless its text is known to be that
/// on disk.
pub open spec fn opened(
    s: SourcesView,
    path: PathView,
    version: i32,
    text: Seq<char>,
    disk: Option<Seq<char>>,
) -> SourcesView {
    SourcesView {
        documents: s.documents.insert(path, DocumentView { version, text }),
        vfs: recorded(s.vfs, path, Some(encoded(text))),
        stale: if on_disk(path, disk) == Some(text) {
            s.stale
        } else {
            s.stale.insert(path)
        },
    }
}

/// The client edits a document, which makes it stale if that changes anything.
/// Where it is not open, nothing happens.
pub open spec fn edited(
    s: SourcesView,
    path: PathView,
    version: i32,
    changes: Seq<crate::documents::ChangeView>,
    encoding: PositionEncoding,
) -> SourcesView {
    if s.documents.contains_key(path) {
        let text = crate::documents::edited_by(s.documents[path].text, changes, encoding);
        SourcesView {
            documents: s.documents.insert(path, DocumentView { version, text }),
            vfs: recorded(s.vfs, path, Some(encoded(text))),
            stale: if crate::vfs::contents_at(s.vfs, path) == Some(encoded(text)) {
                s.stale
            } else {
                s.stale.insert(path)
            },
        }
    } else {
        s
    }
}

/// The client closes a document. Its copy is gone, so the disk is authoritative
/// again. Where it is not open, nothing happens.
pub open spec fn shut(s: SourcesView, path: PathView, disk: Option<Seq<u8>>) -> SourcesView {
    if s.documents.contains_key(path) {
        SourcesView {
            documents: s.documents.remove(path),
            vfs: recorded(s.vfs, path, on_disk(path, disk)),
            ..s
        }
    } else {
        s
    }
}

/// What a file of the workspace is told from others by.
pub open spec fn workspace_file(root: Seq<char>, relative: Seq<char>) -> PathView {
    crate::vfs_path::plain_path(PathView::Real(crate::paths::joined_path(root, relative)))
}

/// Whether a function that reads files can be asked for any.
pub open spec fn reads_any<F: Fn(&str) -> Option<String>>(read: F) -> bool {
    forall|path: &str| #[trigger] read.requires((path,))
}

/// Whether `read` gives this for a file.
pub open spec fn gives<F: Fn(&str) -> Option<String>>(
    read: F,
    path: Seq<char>,
    text: Option<Seq<char>>,
) -> bool {
    exists|file: &str, found: Option<String>| #[trigger]
        read.ensures((file,), found) && file@ == path && crate::config::text_of(found) == text
}

/// Whether an open document differs from what `read` gives for its file.
pub open spec fn differs<F: Fn(&str) -> Option<String>>(
    read: F,
    path: PathView,
    text: Seq<char>,
) -> bool {
    path matches PathView::Real(file) && exists|disk: Option<Seq<char>>| #[trigger]
        gives(read, file, disk) && disk != Some(text)
}

/// Whether the file of an open document, if it has one, holds its text.
pub open spec fn agrees<F: Fn(&str) -> Option<String>>(
    read: F,
    path: PathView,
    text: Seq<char>,
) -> bool {
    path matches PathView::Real(file) ==> gives(read, file, Some(text))
}

/// Whether `stale` are the files that an index of what is on disk has not seen:
/// the open documents that differ from disk. Closed files match the build by
/// construction.
pub open spec fn unseen<F: Fn(&str) -> Option<String>>(
    documents: Map<PathView, DocumentView>,
    read: F,
    stale: Set<PathView>,
) -> bool {
    &&& forall|path: PathView| #[trigger]
        stale.contains(path) ==> documents.contains_key(path) && differs(
            read,
            path,
            documents[path].text,
        )
    &&& forall|path: PathView|
        documents.contains_key(path) && !#[trigger] stale.contains(path) ==> agrees(
            read,
            path,
            documents[path].text,
        )
}

/// The sources of a session.
pub struct Sources {
    documents: Documents,
    vfs: Vfs,
    stale: StaleDocuments,
}

impl View for Sources {
    type V = SourcesView;

    closed spec fn view(&self) -> SourcesView {
        SourcesView { documents: self.documents@, vfs: self.vfs@, stale: self.stale@ }
    }
}

impl Sources {
    /// All parts keep their rules, and what is open has an id.
    pub closed spec fn wf(&self) -> bool {
        &&& self.documents.wf()
        &&& self.vfs.wf()
        &&& self.stale.wf()
        &&& forall|path: PathView| #[trigger]
            self.documents@.contains_key(path) ==> self.vfs@.paths.contains(path)
    }

    /// No files.
    pub fn new() -> (sources: Sources)
        ensures
            sources.wf(),
            sources@ == (SourcesView {
                documents: Map::empty(),
                vfs: VfsView {
                    paths: Seq::empty(),
                    contents: Seq::empty(),
                    pending: Seq::empty(),
                    revision: 0,
                },
                stale: Set::empty(),
            }),
    {
        Sources { documents: Documents::new(), vfs: Vfs::new(), stale: StaleDocuments::new() }
    }

    /// Whether a document can be opened: its file has an id, or there is one
    /// left.
    pub fn has_room_for(&self, path: &VfsPath) -> (room: bool)
        requires
            self.wf(),
        ensures
            room == crate::vfs::has_id_for(self@.vfs.paths, path.key()),
    {
        self.vfs.has_room_for(path)
    }

    /// Writes a file and drops the batch of changes. Returns whether anything
    /// changed.
    fn record(&mut self, path: VfsPath, contents: Option<Vec<u8>>) -> (changed: bool)
        requires
            old(self).vfs.wf(),
            crate::vfs::has_id_for(old(self).vfs@.paths, path.key()) || contents is None,
        ensures
            final(self).vfs.wf(),
            forall|known: PathView| #[trigger]
                old(self).vfs@.paths.contains(known) ==> final(self).vfs@.paths.contains(known),
            contents is Some ==> final(self).vfs@.paths.contains(path.key()),
            final(self).documents == old(self).documents,
            final(self).stale == old(self).stale,
            final(self).vfs@ == recorded(
                old(self).vfs@,
                path.key(),
                crate::vfs::bytes_of(contents),
            ),
            changed == (crate::vfs::contents_at(old(self).vfs@, path.key()) != crate::vfs::bytes_of(
                contents,
            )),
    {
        let ghost before = self.vfs@.paths;
        let ghost view = path.key();
        let ghost is_kept = contents is Some;
        let changed = self.vfs.set_file_contents(path, contents);
        proof {
            let after = self.vfs@.paths;
            assert forall|known: PathView| #[trigger] before.contains(
                known,
            ) implies after.contains(known) by {
                let i = choose|i: int| 0 <= i < before.len() && before[i] == known;
                assert(after[i] == known);
            }
            if is_kept && !before.contains(view) {
                assert(after[before.len() as int] == view);
            }
        }
        let _ = self.vfs.take_changes();
        changed
    }

    /// The client opened a document, whose file holds `disk`, if that can be
    /// read. Returns whether it was open before.
    pub fn did_open(
        &mut self,
        path: VfsPath,
        version: i32,
        text: String,
        disk: Option<String>,
    ) -> (again: bool)
        requires
            old(self).wf(),
            crate::vfs::has_id_for(old(self)@.vfs.paths, path.key()),
        ensures
            final(self).wf(),
            final(self)@ == opened(
                old(self)@,
                path.key(),
                version,
                text@,
                crate::config::text_of(disk),
            ),
            again == old(self)@.documents.contains_key(path.key()),
    {
        let same = match &disk {
            Some(disk) => path.is_real() && same_text(disk.as_str(), text.as_str()),
            None => false,
        };
        if !same {
            self.stale.insert(path.copy());
        }
        let bytes = vstd::slice::slice_to_vec(text.as_str().as_bytes());
        let again = self.documents.open(path.copy(), version, text).is_some();
        let _ = self.record(path, Some(bytes));
        again
    }

    /// The client edited a document. Returns whether it was open.
    pub fn did_change(
        &mut self,
        path: &VfsPath,
        version: i32,
        changes: &Vec<ContentChange>,
        encoding: PositionEncoding,
    ) -> (open: bool)
        requires
            old(self).wf(),
        ensures
            final(self).wf(),
            final(self)@ == edited(
                old(self)@,
                path.key(),
                version,
                crate::documents::change_views(changes@),
                encoding,
            ),
            open == old(self)@.documents.contains_key(path.key()),
    {
        let text = match self.documents.apply_changes(path, version, changes, encoding) {
            Some(text) => text,
            None => {
                return false;
            },
        };
        let bytes = vstd::slice::slice_to_vec(text.as_str().as_bytes());
        if self.record(path.copy(), Some(bytes)) {
            self.stale.insert(path.copy());
        }
        true
    }

    /// The client closed a document, whose file holds `disk`, if that can be
    /// read. Returns whether it was open.
    pub fn did_close(&mut self, path: &VfsPath, disk: Option<Vec<u8>>) -> (open: bool)
        requires
            old(self).wf(),
        ensures
            final(self).wf(),
            final(self)@ == shut(old(self)@, path.key(), crate::vfs::bytes_of(disk)),
            open == old(self)@.documents.contains_key(path.key()),
    {
        if self.documents.close(path).is_none() {
            assert(self@.documents =~= old(self)@.documents);
            return false;
        }
        let contents = if path.is_real() {
            disk
        } else {
            None
        };
        let _ = self.record(path.copy(), contents);
        true
    }

    /// The open documents that differ from disk.
    fn differing<F: Fn(&str) -> Option<String>>(&self, read: &F) -> (stale: StaleDocuments)
        requires
            self.wf(),
            reads_any(*read),
        ensures
            stale.wf(),
            unseen(self@.documents, *read, stale@),
    {
        let mut stale = StaleDocuments::new();
        let all = self.documents.iter();
        let mut i: usize = 0;
        while i < all.len()
            invariant
                i <= all@.len(),
                self.wf(),
                reads_any(*read),
                crate::documents::lists_open(self.documents@, all@),
                forall|k: int|
                    0 <= k < all@.len() ==> (#[trigger] all@[k]).0.key() == all@[k].0@,
                stale.wf(),
                forall|path: PathView| #[trigger]
                    stale@.contains(path) ==> self.documents@.contains_key(path) && differs(
                        *read,
                        path,
                        self.documents@[path].text,
                    ),
                forall|k: int|
                    0 <= k < i && !stale@.contains((#[trigger] all@[k]).0@) ==> agrees(
                        *read,
                        all@[k].0@,
                        all@[k].1@.text,
                    ),
            decreases all@.len() - i,
        {
            let path: &VfsPath = all[i].0;
            let document: &Document = all[i].1;
            assert(crate::documents::shows_open(self.documents@, all@[i as int].0@, all@[i as int].1@));
            if let Some(file) = path.as_real() {
                let disk = read(file.as_str());
                let same = match &disk {
                    Some(disk) => same_text(disk.as_str(), document.text.as_str()),
                    None => false,
                };
                assert(gives(*read, file@, crate::config::text_of(disk)));
                if !same {
                    assert(differs(*read, path@, document@.text));
                    stale.insert(path.copy());
                }
            }
            i += 1;
        }
        proof {
            assert forall|path: PathView|
                self.documents@.contains_key(path) && !#[trigger] stale@.contains(
                    path,
                ) implies agrees(*read, path, self.documents@[path].text) by {
                let k = choose|k: int| 0 <= k < all@.len() && (#[trigger] all@[k]).0@ == path;
                assert(crate::documents::shows_open(self.documents@, all@[k].0@, all@[k].1@));
            }
        }
        stale
    }

    /// Finds out anew which files the index has not seen, once one of what is on
    /// disk is installed.
    pub fn refresh_document_freshness<F: Fn(&str) -> Option<String>>(&mut self, read: &F)
        requires
            old(self).wf(),
            reads_any(*read),
        ensures
            final(self).wf(),
            final(self)@.documents == old(self)@.documents,
            final(self)@.vfs == old(self)@.vfs,
            unseen(old(self)@.documents, *read, final(self)@.stale),
    {
        let stale = self.differing(read);
        self.stale = stale;
    }

    /// The documents that are open.
    pub fn documents(&self) -> (documents: &Documents)
        ensures
            documents@ == self@.documents,
            self.wf() ==> documents.wf(),
    {
        &self.documents
    }

    /// The files.
    pub fn vfs(&self) -> (vfs: &Vfs)
        ensures
            vfs@ == self@.vfs,
            self.wf() ==> vfs.wf(),
    {
        &self.vfs
    }

    /// The files that the index has not seen.
    pub fn stale(&self) -> (stale: &StaleDocuments)
        ensures
            stale@ == self@.stale,
            self.wf() ==> stale.wf(),
    {
        &self.stale
    }
}

/// Closing a document does not make it fresh: neither agreement with the disk
/// nor the end of editing means that an index of it was built.
pub proof fn staleness_survives_a_close(s: SourcesView, path: PathView, disk: Option<Seq<u8>>)
    ensures
        shut(s, path, disk).stale == s.stale,
{
}

/// An edit that changes the text of a document makes it stale and advances the
/// revision; one that does not leaves both as they are.
pub proof fn only_real_edits_count(
    s: SourcesView,
    path: PathView,
    version: i32,
    changes: Seq<crate::documents::ChangeView>,
    encoding: PositionEncoding,
)
    requires
        s.documents.contains_key(path),
        crate::vfs::contents_at(s.vfs, path) == Some(encoded(s.documents[path].text)),
    ensures
        ({
            let before = s.documents[path].text;
            let after = edited(s, path, version, changes, encoding);
            let text = crate::documents::edited_by(before, changes, encoding);
            if text == before {
                after.stale == s.stale && after.vfs.revision == s.vfs.revision
            } else {
                after.stale == s.stale.insert(path) && after.vfs.revision
                    == crate::session::following(s.vfs.revision)
            }
        }),
{
    let before = s.documents[path].text;
    let text = crate::documents::edited_by(before, changes, encoding);
    if encoded(text) == encoded(before) {
        vstd::utf8::encode_utf8_decode_utf8(text);
        vstd::utf8::encode_utf8_decode_utf8(before);
    }
}

/// Whether the state of the files has an entry for every id, and no id twice.
pub open spec fn is_sound(vfs: VfsView) -> bool {
    &&& vfs.paths.no_duplicates()
    &&& vfs.contents.len() == vfs.paths.len()
    &&& vfs.pending.len() == vfs.paths.len()
}

/// Whether every open document is what its file holds.
pub open spec fn in_step(s: SourcesView) -> bool {
    forall|path: PathView| #[trigger]
        s.documents.contains_key(path) ==> crate::vfs::contents_at(s.vfs, path) == Some(
            encoded(s.documents[path].text),
        )
}

proof fn lemma_recorded(
    vfs: VfsView,
    path: PathView,
    contents: Option<Seq<u8>>,
    other: PathView,
)
    requires
        is_sound(vfs),
    ensures
        is_sound(recorded(vfs, path, contents)),
        crate::vfs::contents_at(recorded(vfs, path, contents), path) == contents,
        other != path ==> crate::vfs::contents_at(recorded(vfs, path, contents), other)
            == crate::vfs::contents_at(vfs, other),
{
    crate::vfs::a_write_reads_back(vfs, path, contents, other);
}

/// What the client has open is what its file holds, whatever the client does.
pub proof fn open_files_hold_the_clients_text(
    s: SourcesView,
    path: PathView,
    version: i32,
    text: Seq<char>,
    disk_text: Option<Seq<char>>,
    disk: Option<Seq<u8>>,
    changes: Seq<crate::documents::ChangeView>,
    encoding: PositionEncoding,
)
    requires
        is_sound(s.vfs),
        in_step(s),
    ensures
        in_step(opened(s, path, version, text, disk_text)),
        in_step(edited(s, path, version, changes, encoding)),
        in_step(shut(s, path, disk)),
        is_sound(opened(s, path, version, text, disk_text).vfs),
        is_sound(edited(s, path, version, changes, encoding).vfs),
        is_sound(shut(s, path, disk).vfs),
{
    let a = opened(s, path, version, text, disk_text);
    let after = crate::documents::edited_by(s.documents[path].text, changes, encoding);
    let b = edited(s, path, version, changes, encoding);
    let c = shut(s, path, disk);
    lemma_recorded(s.vfs, path, Some(encoded(text)), path);
    lemma_recorded(s.vfs, path, Some(encoded(after)), path);
    lemma_recorded(s.vfs, path, on_disk(path, disk), path);
    assert forall|other: PathView| #[trigger]
        a.documents.contains_key(other) implies crate::vfs::contents_at(a.vfs, other) == Some(
        encoded(a.documents[other].text),
    ) by {
        lemma_recorded(s.vfs, path, Some(encoded(text)), other);
        if other != path {
            assert(s.documents.contains_key(other));
        }
    }
    assert forall|other: PathView| #[trigger]
        b.documents.contains_key(other) implies crate::vfs::contents_at(b.vfs, other) == Some(
        encoded(b.documents[other].text),
    ) by {
        lemma_recorded(s.vfs, path, Some(encoded(after)), other);
        if other != path {
            assert(s.documents.contains_key(other));
        }
    }
    assert forall|other: PathView| #[trigger]
        c.documents.contains_key(other) implies crate::vfs::contents_at(c.vfs, other) == Some(
        encoded(c.documents[other].text),
    ) by {
        lemma_recorded(s.vfs, path, on_disk(path, disk), other);
        assert(s.documents.contains_key(other));
    }
}

/// Nothing waits to be taken: every edit drains what it causes.
pub proof fn no_change_is_retained(vfs: VfsView, path: PathView, contents: Option<Seq<u8>>)
    ensures
        !crate::vfs::has_waiting(recorded(vfs, path, contents).pending),
{
}

} // verus!
