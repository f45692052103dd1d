//! Documents the client is holding open, and applying its edits to them.
//!
//! An open document's authoritative text lives in the client, not on disk. The
//! two disagree from the first keystroke until a save, so anything answering a
//! query about an open file has to read the client's version.
use vstd::prelude::*;

use crate::line_index::{LineIndex, LinePosition, PositionEncoding};
use crate::path_interner::PathInterner;
use crate::text::{chars_of, substring};
use crate::vfs_path::{PathView, VfsPath};

pub mod laws;

verus! {

/// One open document.
#[derive(Debug)]
pub struct Document {
    /// The client's version counter. Monotonic per document.
    pub version: i32,
    pub text: String,
}

/// The view of a [`Document`].
pub struct DocumentView {
    pub version: i32,
    pub text: Seq<char>,
}

impl View for Document {
    type V = DocumentView;

    open spec fn view(&self) -> DocumentView {
        DocumentView { version: self.version, text: self.text@ }
    }
}

/// The range that an edit replaces.
#[derive(Copy, Clone, Debug, PartialEq, Eq, Structural)]
pub struct EditRange {
    pub start: LinePosition,
    pub end: LinePosition,
}

/// One edit: a range and what replaces it, or a whole new text.
#[derive(Debug)]
pub struct ContentChange {
    pub range: Option<EditRange>,
    pub text: String,
}

/// The view of a [`ContentChange`].
pub struct ChangeView {
    pub range: Option<EditRange>,
    pub text: Seq<char>,
}

impl View for ContentChange {
    type V = ChangeView;

    open spec fn view(&self) -> ChangeView {
        ChangeView { range: self.range, text: self.text@ }
    }
}

/// The views of a sequence of edits.
pub open spec fn change_views(changes: Seq<ContentChange>) -> Seq<ChangeView> {
    Seq::new(changes.len(), |i: int| changes[i]@)
}

/// The character index that a position addresses.
pub open spec fn place_at(
    text: Seq<char>,
    position: LinePosition,
    encoding: PositionEncoding,
) -> Option<int> {
    crate::line_index::index_at(
        text,
        position.line as int,
        position.character as int,
        encoding,
    )
}

/// A text after one edit.
///
/// An edit without a range replaces everything. One whose range names a line
/// that the text does not have, or ends before it starts, is dropped: applying
/// it at a guessed offset would corrupt the text silently, and the client will
/// resync on the next full change if it really has diverged. So is one with a
/// range in a text too long for its offsets.
pub open spec fn edited(
    text: Seq<char>,
    change: ChangeView,
    encoding: PositionEncoding,
) -> Seq<char> {
    match change.range {
        None => change.text,
        Some(range) => match (
            place_at(text, range.start, encoding),
            place_at(text, range.end, encoding),
        ) {
            (Some(start), Some(end)) => if start <= end && bytes_in(text) < u32::MAX {
                text.take(start) + change.text + text.skip(end)
            } else {
                text
            },
            _ => text,
        },
    }
}

/// A text after a batch of edits, each applied to what the previous one made.
pub open spec fn edited_by(
    text: Seq<char>,
    changes: Seq<ChangeView>,
    encoding: PositionEncoding,
) -> Seq<char>
    decreases changes.len(),
{
    if changes.len() == 0 {
        text
    } else {
        edited(edited_by(text, changes.drop_last(), encoding), changes.last(), encoding)
    }
}

/// How many bytes a text takes.
pub open spec fn bytes_in(text: Seq<char>) -> nat {
    crate::line_index::units(text, PositionEncoding::Utf8)
}

/// Two batches one after the other do what the edits of both do in sequence.
pub proof fn batches_compose(
    text: Seq<char>,
    a: Seq<ChangeView>,
    b: Seq<ChangeView>,
    encoding: PositionEncoding,
)
    ensures
        edited_by(text, a + b, encoding) == edited_by(edited_by(text, a, encoding), b, encoding),
    decreases b.len(),
{
    if b.len() == 0 {
        assert(a + b =~= a);
    } else {
        assert((a + b).drop_last() =~= a + b.drop_last());
        batches_compose(text, a, b.drop_last(), encoding);
    }
}

/// The documents after a batch of edits at a path. Where nothing is open there,
/// nothing changes.
pub open spec fn changed(
    documents: Map<PathView, DocumentView>,
    path: PathView,
    version: i32,
    changes: Seq<ChangeView>,
    encoding: PositionEncoding,
) -> Map<PathView, DocumentView> {
    if documents.contains_key(path) {
        documents.insert(
            path,
            DocumentView { version, text: edited_by(documents[path].text, changes, encoding) },
        )
    } else {
        documents
    }
}

/// Two batches at a path leave the documents as the edits of both in one batch
/// do, with the version of the second.
pub proof fn batches_at_a_path_compose(
    documents: Map<PathView, DocumentView>,
    path: PathView,
    first: i32,
    a: Seq<ChangeView>,
    second: i32,
    b: Seq<ChangeView>,
    encoding: PositionEncoding,
)
    ensures
        changed(changed(documents, path, first, a, encoding), path, second, b, encoding)
            == changed(documents, path, second, a + b, encoding),
{
    if documents.contains_key(path) {
        batches_compose(documents[path].text, a, b, encoding);
        assert(changed(changed(documents, path, first, a, encoding), path, second, b, encoding)
            =~= changed(documents, path, second, a + b, encoding));
    }
}

/// The character index that stands at a byte offset.
fn place_of_offset(chars: &Vec<char>, offset: u32, Ghost(k): Ghost<int>) -> (place: usize)
    requires
        0 <= k <= chars@.len(),
        offset == crate::line_index::offset_of(chars@, k),
    ensures
        place == k,
{
    let ghost text = chars@;
    let n: usize = chars.len();
    let mut at: u32 = 0;
    let mut i: usize = 0;
    assert(text.take(0) =~= Seq::<char>::empty());
    while at < offset
        invariant
            text == chars@,
            n == text.len(),
            0 <= k <= text.len(),
            offset == crate::line_index::offset_of(text, k),
            i <= text.len(),
            at == crate::line_index::offset_of(text, i as int),
            at <= offset,
        decreases text.len() - i,
    {
        proof {
            if i >= k {
                crate::line_index::lemma_units_grow(text, k, i as int, PositionEncoding::Utf8);
            }
            assert(text.take(i + 1).drop_last() =~= text.take(i as int));
            assert(text.take(i + 1).last() == text[i as int]);
            crate::line_index::lemma_units_grow(text, i + 1, k, PositionEncoding::Utf8);
        }
        at = at + crate::line_index::byte_width(chars[i]);
        i += 1;
    }
    proof {
        if i < k {
            crate::line_index::lemma_units_grow(text, i as int, k, PositionEncoding::Utf8);
        } else if k < i {
            crate::line_index::lemma_units_grow(text, k, i as int, PositionEncoding::Utf8);
        }
    }
    i
}

/// Applies one edit in place.
///
/// The range is resolved against the text *as it currently stands*, which is why
/// the index is rebuilt per change rather than once per batch.
fn apply_change(text: &mut String, change: &ContentChange, encoding: PositionEncoding)
    ensures
        final(text)@ == edited(old(text)@, change@, encoding),
{
    let range = match change.range {
        Some(range) => range,
        None => {
            *text = change.text.clone();
            return ;
        },
    };
    let ghost before = text@;
    proof {
        crate::line_index::lemma_units_are_bytes(before);
    }
    if text.as_str().as_bytes().len() >= u32::MAX as usize {
        return ;
    }
    let index = LineIndex::new(text.as_str());
    let start = index.offset(range.start, encoding);
    let end = index.offset(range.end, encoding);
    let (start, end) = match (start, end) {
        (Some(start), Some(end)) => (start, end),
        _ => {
            return ;
        },
    };
    let ghost i = place_at(before, range.start, encoding)->0;
    let ghost j = place_at(before, range.end, encoding)->0;
    if start > end {
        proof {
            if i <= j {
                crate::line_index::lemma_units_grow(before, i, j, PositionEncoding::Utf8);
            }
        }
        return ;
    }
    proof {
        if j < i {
            crate::line_index::lemma_units_grow(before, j, i, PositionEncoding::Utf8);
        }
    }
    let chars = chars_of(text.as_str());
    let from: usize = place_of_offset(&chars, start, Ghost(i));
    let to: usize = place_of_offset(&chars, end, Ghost(j));
    let mut out = substring(chars.as_slice(), 0, from);
    out.append(change.text.as_str());
    let tail = substring(chars.as_slice(), to, chars.len());
    out.append(tail.as_str());
    assert(out@ =~= before.take(i) + change.text@ + before.skip(j));
    *text = out;
}

/// The documents the client has open.
pub struct Documents {
    paths: PathInterner,
    /// By path number; absent for a path that was closed.
    open: Vec<Option<Document>>,
    count: usize,
}

/// What is open at the path numbered `i`.
spec fn open_at(open: Seq<Option<Document>>, i: int) -> bool {
    0 <= i < open.len() && open[i] is Some
}

/// How many of the documents are open.
spec fn count_open(open: Seq<Option<Document>>) -> nat
    decreases open.len(),
{
    if open.len() == 0 {
        0
    } else {
        count_open(open.drop_last()) + (if open.last() is Some {
            1nat
        } else {
            0nat
        })
    }
}

impl View for Documents {
    type V = Map<PathView, DocumentView>;

    closed spec fn view(&self) -> Map<PathView, DocumentView> {
        Map::new(
            |path: PathView|
                self.paths@.contains(path) && open_at(self.open@, self.paths@.index_of(path)),
            |path: PathView| self.open@[self.paths@.index_of(path)]->0@,
        )
    }
}

proof fn lemma_count_update(open: Seq<Option<Document>>, i: int, document: Option<Document>)
    requires
        0 <= i < open.len(),
    ensures
        count_open(open.update(i, document)) == count_open(open) - (if open[i] is Some {
            1int
        } else {
            0int
        }) + (if document is Some {
            1int
        } else {
            0int
        }),
        count_open(open) <= open.len(),
    decreases open.len(),
{
    let after = open.update(i, document);
    if i == open.len() - 1 {
        assert(after.drop_last() =~= open.drop_last());
        lemma_count_bound(open.drop_last());
    } else {
        assert(after.drop_last() =~= open.drop_last().update(i, document));
        lemma_count_update(open.drop_last(), i, document);
    }
}

proof fn lemma_count_bound(open: Seq<Option<Document>>)
    ensures
        count_open(open) <= open.len(),
    decreases open.len(),
{
    if open.len() > 0 {
        lemma_count_bound(open.drop_last());
    }
}

/// The optional view of an optional document.
pub open spec fn document_view(document: Option<Document>) -> Option<DocumentView> {
    match document {
        Some(document) => Some(document@),
        None => None,
    }
}

/// What a map holds for a key.
pub open spec fn held(documents: Map<PathView, DocumentView>, path: PathView) -> Option<
    DocumentView,
> {
    if documents.contains_key(path) {
        Some(documents[path])
    } else {
        None
    }
}

/// Whether a document is open at a path.
pub open spec fn shows_open(
    documents: Map<PathView, DocumentView>,
    path: PathView,
    document: DocumentView,
) -> bool {
    documents.contains_key(path) && documents[path] == document
}

/// Whether `all` are the open documents, each once.
pub open spec fn lists_open(
    documents: Map<PathView, DocumentView>,
    all: Seq<(&VfsPath, &Document)>,
) -> bool {
    &&& forall|k: int|
        0 <= k < all.len() ==> #[trigger] shows_open(documents, all[k].0@, all[k].1@)
    &&& forall|path: PathView| #[trigger]
        documents.contains_key(path) ==> exists|k: int|
            0 <= k < all.len() && (#[trigger] all[k]).0@ == path
    &&& forall|j: int, k: int|
        0 <= j < k < all.len() ==> (#[trigger] all[j]).0@ != (#[trigger] all[k]).0@
}

impl Documents {
    /// There is an entry for every path number, and the count is right.
    pub closed spec fn wf(&self) -> bool {
        &&& self.paths.wf()
        &&& self.open@.len() == self.paths@.len()
        &&& self.count == count_open(self.open@)
    }

    /// No documents.
    pub fn new() -> (documents: Self)
        ensures
            documents.wf(),
            documents@ == Map::<PathView, DocumentView>::empty(),
    {
        let documents = Documents { paths: PathInterner::new(), open: Vec::new(), count: 0 };
        assert(documents@ =~= Map::<PathView, DocumentView>::empty());
        documents
    }

    /// The number of `path`, where it was ever opened.
    fn slot_of(&self, path: &VfsPath) -> (slot: Option<usize>)
        requires
            self.wf(),
        ensures
            slot is Some <==> self.paths@.contains(path.key()),
            slot matches Some(i) ==> i < self.paths@.len() && self.paths@[i as int] == path.key() && i
                == self.paths@.index_of(path.key()),
    {
        proof {
            self.paths.lemma_distinct();
        }
        self.paths.position(path)
    }

    /// Puts a document at a path number and returns what was there.
    fn replace(&mut self, slot: usize, document: Option<Document>) -> (previous: Option<Document>)
        requires
            old(self).wf(),
            slot < old(self).paths@.len(),
        ensures
            final(self).wf(),
            final(self).paths@ == old(self).paths@,
            document_view(previous) == held(old(self)@, old(self).paths@[slot as int]),
            final(self)@ == (match document {
                Some(document) => old(self)@.insert(old(self).paths@[slot as int], document@),
                None => old(self)@.remove(old(self).paths@[slot as int]),
            }),
    {
        let ghost path = self.paths@[slot as int];
        let ghost before = self.open@;
        let ghost placed = document;
        proof {
            self.paths.lemma_distinct();
            assert(self.paths@.contains(path));
            assert(self.paths@.index_of(path) == slot);
            lemma_count_update(before, slot as int, document);
        }
        let adds = document.is_some();
        let mut previous = document;
        std::mem::swap(&mut previous, &mut self.open[slot]);
        let drops = previous.is_some();
        proof {
            assert(self.open@ =~= before.update(slot as int, placed));
            assert(previous == before[slot as int]);
        }
        if adds && !drops {
            let n: usize = self.open.len();
            proof {
                lemma_count_bound(self.open@);
            }
            self.count += 1;
        } else if drops && !adds {
            self.count -= 1;
        }
        proof {
            assert forall|p: PathView| p != path implies (self@.contains_key(p)
                <==> #[trigger] old(self)@.contains_key(p)) && (self@.contains_key(p) ==> self@[p]
                == old(self)@[p]) by {
                if self.paths@.contains(p) {
                    let i = self.paths@.index_of(p);
                    assert(self.paths@[i] == p);
                    assert(i != slot);
                }
            }
            match placed {
                Some(document) => {
                    assert(self@ =~= old(self)@.insert(path, document@));
                },
                None => {
                    assert(self@ =~= old(self)@.remove(path));
                },
            }
        }
        previous
    }

    /// Opens a document, in place of what was open at `path` before.
    pub fn open(&mut self, path: VfsPath, version: i32, text: String) -> (previous: Option<
        Document,
    >)
        requires
            old(self).wf(),
        ensures
            final(self).wf(),
            document_view(previous) == held(old(self)@, path.key()),
            final(self)@ == old(self)@.insert(path.key(), DocumentView { version, text: text@ }),
    {
        let ghost view = path.key();
        let known: usize = self.open.len();
        proof {
            self.paths.lemma_distinct();
        }
        let slot: usize = self.paths.place(path);
        if slot == known {
            self.open.push(None);
            proof {
                assert(self.open@.drop_last() =~= old(self).open@);
            }
        }
        proof {
            self.paths.lemma_distinct();
            if old(self).paths@.contains(view) {
                let i = old(self).paths@.index_of(view);
                assert(old(self).paths@[i] == view);
                assert(slot == i);
            }
            assert(self@ =~= old(self)@) by {
                assert forall|p: PathView| self@.contains_key(p)
                    <==> #[trigger] old(self)@.contains_key(p) by {
                    lemma_same_slot(old(self).paths@, self.paths@, p);
                }
                assert forall|p: PathView| #[trigger] old(self)@.contains_key(p) implies self@[p]
                    == old(self)@[p] by {
                    lemma_same_slot(old(self).paths@, self.paths@, p);
                }
            }
        }
        self.replace(slot, Some(Document { version, text }))
    }

    /// Closes the document at `path`.
    pub fn close(&mut self, path: &VfsPath) -> (previous: Option<Document>)
        requires
            old(self).wf(),
        ensures
            final(self).wf(),
            document_view(previous) == held(old(self)@, path.key()),
            final(self)@ == old(self)@.remove(path.key()),
    {
        match self.slot_of(path) {
            Some(slot) => self.replace(slot, None),
            None => {
                assert(self@ =~= old(self)@.remove(path.key()));
                None
            },
        }
    }

    /// The document at `path`.
    pub fn get(&self, path: &VfsPath) -> (document: Option<&Document>)
        requires
            self.wf(),
        ensures
            (match document {
                Some(document) => Some(document@),
                None => None,
            }) == held(self@, path.key()),
    {
        match self.slot_of(path) {
            Some(slot) => match &self.open[slot] {
                Some(document) => Some(document),
                None => None,
            },
            None => None,
        }
    }

    /// Whether a document is open at `path`.
    pub fn is_open(&self, path: &VfsPath) -> (open: bool)
        requires
            self.wf(),
        ensures
            open == self@.contains_key(path.key()),
    {
        self.get(path).is_some()
    }

    /// Applies a batch of edits, returning the new text.
    ///
    /// Returns `None` if the document is not open, which is a client protocol
    /// error, not something to paper over by creating one.
    pub fn apply_changes(
        &mut self,
        path: &VfsPath,
        version: i32,
        changes: &Vec<ContentChange>,
        encoding: PositionEncoding,
    ) -> (text: Option<String>)
        requires
            old(self).wf(),
        ensures
            final(self).wf(),
            final(self)@ == changed(
                old(self)@,
                path.key(),
                version,
                change_views(changes@),
                encoding,
            ),
            text is Some <==> old(self)@.contains_key(path.key()),
            text matches Some(text) ==> text@ == final(self)@[path.key()].text,
    {
        let slot: usize = match self.slot_of(path) {
            Some(slot) => slot,
            None => {
                return None;
            },
        };
        let mut text = match &self.open[slot] {
            Some(document) => document.text.clone(),
            None => {
                return None;
            },
        };
        let ghost before = text@;
        let ghost views = change_views(changes@);
        let mut i: usize = 0;
        while i < changes.len()
            invariant
                i <= changes@.len(),
                views == change_views(changes@),
                text@ == edited_by(before, views.take(i as int), encoding),
            decreases changes@.len() - i,
        {
            proof {
                assert(views.take(i + 1).drop_last() =~= views.take(i as int));
                assert(views.take(i + 1).last() == changes@[i as int]@);
            }
            apply_change(&mut text, &changes[i], encoding);
            i += 1;
        }
        assert(views.take(i as int) =~= views);
        let out = text.clone();
        self.replace(slot, Some(Document { version, text }));
        Some(out)
    }

    /// How many documents are open.
    pub fn len(&self) -> (n: usize)
        requires
            self.wf(),
        ensures
            self@.dom().finite(),
            n == self@.len(),
    {
        proof {
            self.lemma_len();
        }
        self.count
    }

    /// The open documents, each once, in the order in which their paths were
    /// first opened.
    pub fn iter(&self) -> (all: Vec<(&VfsPath, &Document)>)
        requires
            self.wf(),
        ensures
            lists_open(self@, all@),
            forall|k: int| 0 <= k < all@.len() ==> (#[trigger] all@[k]).0.key() == all@[k].0@,
    {
        let mut all: Vec<(&VfsPath, &Document)> = Vec::new();
        let ghost mut slots: Seq<int> = Seq::empty();
        let n: usize = self.open.len();
        let mut i: usize = 0;
        while i < n
            invariant
                self.wf(),
                n == self.open@.len(),
                i <= n,
                slots.len() == all@.len(),
                all@.len() <= i,
                forall|k: int|
                    0 <= k < slots.len() ==> 0 <= #[trigger] slots[k] < i && open_at(
                        self.open@,
                        slots[k],
                    ) && all@[k].0@ == self.paths@[slots[k]] && all@[k].0.key() == all@[k].0@
                        && all@[k].1@
                        == self.open@[slots[k]]->0@,
                forall|j: int, k: int| 0 <= j < k < slots.len() ==> slots[j] < slots[k],
                forall|j: int| 0 <= j < i && #[trigger] open_at(self.open@, j) ==> slots.contains(j),
            decreases n - i,
        {
            let ghost before = slots;
            if let Some(document) = &self.open[i] {
                let path = self.paths.path_at(i);
                all.push((path, document));
                proof {
                    slots = slots.push(i as int);
                    assert(slots[before.len() as int] == i);
                    assert forall|j: int|
                        0 <= j < i + 1 && #[trigger] open_at(self.open@, j) implies slots.contains(
                        j,
                    ) by {
                        if j < i {
                            let k = choose|k: int| 0 <= k < before.len() && before[k] == j;
                            assert(slots[k] == j);
                        }
                    }
                }
            }
            i += 1;
        }
        proof {
            self.paths.lemma_distinct();
            assert forall|k: int| 0 <= k < all@.len() implies (#[trigger] all@[k]).0.key()
                == all@[k].0@ by {
                assert(0 <= slots[k] < i);
            }
            assert forall|k: int| 0 <= k < all@.len() implies #[trigger] shows_open(
                self@,
                all@[k].0@,
                all@[k].1@,
            ) by {
                let j = slots[k];
                assert(self.paths@.contains(self.paths@[j]));
                assert(self.paths@.index_of(self.paths@[j]) == j);
            }
            assert forall|path: PathView| #[trigger] self@.contains_key(path) implies exists|k: int|
                0 <= k < all@.len() && (#[trigger] all@[k]).0@ == path by {
                let j = self.paths@.index_of(path);
                assert(open_at(self.open@, j));
                let k = choose|k: int| 0 <= k < slots.len() && slots[k] == j;
                assert(all@[k].0@ == path);
            }
            assert forall|j: int, k: int| 0 <= j < k < all@.len() implies (#[trigger] all@[j]).0@
                != (#[trigger] all@[k]).0@ by {
                assert(slots[j] < slots[k]);
                assert(self.paths@[slots[j]] != self.paths@[slots[k]]);
            }
        }
        all
    }

    /// Whether no document is open.
    pub fn is_empty(&self) -> (empty: bool)
        requires
            self.wf(),
        ensures
            empty == (self@ == Map::<PathView, DocumentView>::empty()),
    {
        proof {
            self.lemma_len();
            if self.count == 0 {
                assert(self@.dom() =~= Set::<PathView>::empty());
                assert(self@ =~= Map::<PathView, DocumentView>::empty());
            }
        }
        self.count == 0
    }

    proof fn lemma_len(&self)
        requires
            self.wf(),
        ensures
            self@.dom().finite(),
            self@.dom().len() == self.count,
    {
        self.paths.lemma_distinct();
        lemma_count_paths(self.paths@, self.open@);
        assert(self@.dom() =~= open_paths(self.paths@, self.open@));
    }
}

/// The paths of the open documents.
spec fn open_paths(paths: Seq<PathView>, open: Seq<Option<Document>>) -> Set<PathView> {
    Set::new(|path: PathView| paths.contains(path) && open_at(open, paths.index_of(path)))
}

proof fn lemma_count_paths(paths: Seq<PathView>, open: Seq<Option<Document>>)
    requires
        paths.no_duplicates(),
        paths.len() == open.len(),
    ensures
        open_paths(paths, open).finite(),
        open_paths(paths, open).len() == count_open(open),
    decreases paths.len(),
{
    if paths.len() == 0 {
        assert(open_paths(paths, open) =~= Set::<PathView>::empty());
    } else {
        let head = paths.drop_last();
        let rest = open.drop_last();
        let last = paths.last();
        lemma_count_paths(head, rest);
        let fewer = open_paths(head, rest);
        assert(!fewer.contains(last)) by {
            if head.contains(last) {
                let k = choose|k: int| 0 <= k < head.len() && head[k] == last;
                assert(paths[k] == paths[paths.len() - 1]);
            }
        }
        assert forall|path: PathView| head.contains(path) implies #[trigger] paths.index_of(path)
            == head.index_of(path) && paths.contains(path) by {
            let k = head.index_of(path);
            assert(head[k] == path);
            assert(paths[k] == path);
        }
        assert(paths[paths.len() - 1] == last);
        assert(paths.index_of(last) == paths.len() - 1);
        assert forall|path: PathView| paths.contains(path) && path != last implies head.contains(
            path,
        ) by {
            let k = paths.index_of(path);
            assert(paths[k] == path);
            assert(head[k] == path);
        }
        if open.last() is Some {
            assert(open_paths(paths, open) =~= fewer.insert(last));
        } else {
            assert(open_paths(paths, open) =~= fewer);
        }
    }
}

proof fn lemma_same_slot(before: Seq<PathView>, after: Seq<PathView>, path: PathView)
    requires
        before.no_duplicates(),
        after.no_duplicates(),
        before.is_prefix_of(after),
    ensures
        before.contains(path) ==> after.contains(path) && after.index_of(path) == before.index_of(
            path,
        ),
        after.contains(path) && !before.contains(path) ==> after.index_of(path) >= before.len(),
{
    if before.contains(path) {
        let k = before.index_of(path);
        assert(before[k] == path);
        assert(after[k] == path);
        assert(after.contains(path));
    } else if after.contains(path) {
        let k = after.index_of(path);
        assert(after[k] == path);
        if k < before.len() {
            assert(before[k] == path);
        }
    }
}

} // verus!
