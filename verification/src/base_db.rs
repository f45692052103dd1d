//! The inputs that everything else is derived from.
//!
//! This does no I/O and knows nothing about Bazel or LSP. Something above it
//! reads bytes and pushes them in.
//!
//! # Durability is the whole point
//!
//! Every input is written with how likely it is to change. A value derived from
//! inputs of high durability need not even be checked when one of low durability
//! is edited. Bazel hands us the partition for free:
//!
//! | Tier | Durability | What it holds | Changes when |
//! | --- | --- | --- | --- |
//! | [`RootKind::FocusTarget`] | low | the target being edited | every keystroke |
//! | [`RootKind::WorkspaceDep`] | medium | same-repo transitive deps | a branch switch |
//! | [`RootKind::External`] | high | jars, the JDK | the build graph moves |
//!
//! In a repository of millions of files, "not the file I am editing" is not the
//! same claim as "will never change", which is what the middle tier is for.
use rustc_hash::FxHashMap;
use vstd::prelude::*;

use crate::path_interner::FileId;
use crate::table::{no_numbers, position_of_number, set_number};
use crate::text::chars_of;
use crate::vfs::{Change, ChangeView, ChangedFile};

verus! {

/// How likely an input is to change, the likeliest first.
#[derive(Copy, Clone, Debug, PartialEq, Eq, Structural)]
pub enum Durability {
    Low,
    Medium,
    High,
}

/// How durable a tier is, as a number.
pub open spec fn grade(durability: Durability) -> int {
    match durability {
        Durability::Low => 0,
        Durability::Medium => 1,
        Durability::High => 2,
    }
}

/// A group of files sharing a durability tier.
#[derive(Copy, Clone, Debug, PartialEq, Eq, Structural)]
pub struct SourceRootId(pub u32);

/// How likely a source root is to change.
#[derive(Copy, Clone, Debug, PartialEq, Eq, Structural)]
pub enum RootKind {
    /// The target the client is working in.
    FocusTarget,
    /// Same-repo dependencies of the focus target.
    WorkspaceDep,
    /// Jars and the JDK: outside the repo entirely.
    External,
}

/// How durable the text of files in a root is.
pub open spec fn text_tier(kind: RootKind) -> Durability {
    match kind {
        RootKind::FocusTarget => Durability::Low,
        RootKind::WorkspaceDep => Durability::Medium,
        RootKind::External => Durability::High,
    }
}

/// How durable it is that a file belongs to a root.
pub open spec fn membership_tier(kind: RootKind) -> Durability {
    match kind {
        RootKind::FocusTarget => Durability::Medium,
        RootKind::WorkspaceDep => Durability::High,
        RootKind::External => Durability::High,
    }
}

impl RootKind {
    /// Durability for the *text* of files in this root.
    pub fn text_durability(self) -> (durability: Durability)
        ensures
            durability == text_tier(self),
    {
        match self {
            RootKind::FocusTarget => Durability::Low,
            RootKind::WorkspaceDep => Durability::Medium,
            RootKind::External => Durability::High,
        }
    }

    /// Durability for a file's *membership* of this root.
    ///
    /// Membership is steadier than content -- editing a file does not move it
    /// between targets -- so this sits a tier above the text wherever it can.
    /// Only a build-graph change reassigns a file, and that invalidates
    /// everything anyway.
    pub fn membership_durability(self) -> (durability: Durability)
        ensures
            durability == membership_tier(self),
    {
        match self {
            RootKind::FocusTarget => Durability::Medium,
            RootKind::WorkspaceDep => Durability::High,
            RootKind::External => Durability::High,
        }
    }

    /// Whether files here are ever edited by the client.
    pub fn is_editable(self) -> (editable: bool)
        ensures
            editable == (self is FocusTarget),
    {
        match self {
            RootKind::FocusTarget => true,
            _ => false,
        }
    }
}

/// Membership is at least as steady as content, and steadier where it can be.
pub proof fn membership_is_steadier_than_content(kind: RootKind)
    ensures
        grade(membership_tier(kind)) >= grade(text_tier(kind)),
        text_tier(kind) !is High ==> grade(membership_tier(kind)) == grade(text_tier(kind)) + 1,
{
}

/// Values by number.
struct NumberTable<T> {
    slots: FxHashMap<u32, usize>,
    keys: Vec<u32>,
    values: Vec<T>,
}

impl<T> View for NumberTable<T> {
    type V = Map<u32, T>;

    closed spec fn view(&self) -> Map<u32, T> {
        Map::new(
            |key: u32| crate::table::numbers_of(self.slots).contains_key(key),
            |key: u32| self.values@[crate::table::numbers_of(self.slots)[key] as int],
        )
    }
}

impl<T> NumberTable<T> {
    /// Every key has one place.
    spec fn wf(&self) -> bool {
        &&& self.keys@.len() == self.values@.len()
        &&& forall|key: u32| #[trigger]
            crate::table::numbers_of(self.slots).contains_key(key) ==> {
                &&& crate::table::numbers_of(self.slots)[key] < self.keys@.len()
                &&& self.keys@[crate::table::numbers_of(self.slots)[key] as int] == key
            }
    }

    fn new() -> (table: NumberTable<T>)
        ensures
            table.wf(),
            table@ == Map::<u32, T>::empty(),
    {
        let table = NumberTable { slots: no_numbers(), keys: Vec::new(), values: Vec::new() };
        assert(table@ =~= Map::<u32, T>::empty());
        table
    }

    fn get(&self, key: u32) -> (value: Option<&T>)
        requires
            self.wf(),
        ensures
            (match value {
                Some(value) => Some(*value),
                None => None,
            }) == (if self@.contains_key(key) {
                Some(self@[key])
            } else {
                None
            }),
    {
        match position_of_number(&self.slots, key) {
            Some(at) => Some(&self.values[at]),
            None => None,
        }
    }

    fn set(&mut self, key: u32, value: T)
        requires
            old(self).wf(),
        ensures
            final(self).wf(),
            final(self)@ == old(self)@.insert(key, value),
    {
        match position_of_number(&self.slots, key) {
            Some(at) => {
                self.values.set(at, value);
                assert forall|other: u32| other != key && #[trigger] old(self)@.contains_key(
                    other,
                ) implies self@[other] == old(self)@[other] by {
                    let i = crate::table::numbers_of(self.slots)[other];
                    assert(self.keys@[i as int] == other);
                    assert(self.keys@[at as int] == key);
                }
            },
            None => {
                let at: usize = self.values.len();
                self.keys.push(key);
                self.values.push(value);
                set_number(&mut self.slots, key, at);
            },
        }
        assert(self@ =~= old(self)@.insert(key, value));
    }
}

/// The text of one file.
#[derive(Debug)]
pub struct FileText {
    pub text: String,
    pub file_id: FileId,
}

/// Which source root a file belongs to.
#[derive(Copy, Clone, Debug, PartialEq, Eq, Structural)]
pub struct FileSourceRoot {
    pub source_root_id: SourceRootId,
}

/// A source root's durability tier.
#[derive(Copy, Clone, Debug, PartialEq, Eq, Structural)]
pub struct SourceRootInput {
    pub kind: RootKind,
}

/// The state of a [`RootDatabase`], by the numbers of files and roots.
pub struct DatabaseView {
    pub texts: Map<u32, Seq<char>>,
    pub file_roots: Map<u32, u32>,
    pub kinds: Map<u32, RootKind>,
}

/// How durable the text of a file is, by the tier of its root.
///
/// Files with no root yet are treated as the most volatile tier. Being wrong in
/// that direction costs recomputation; being wrong the other way serves stale
/// answers.
pub open spec fn durability_at(db: DatabaseView, file: u32) -> Durability {
    if db.file_roots.contains_key(file) {
        text_tier(db.kinds[db.file_roots[file]])
    } else {
        Durability::Low
    }
}

/// The text of a file with these bytes. Java source is UTF-8. A file that is not
/// is binary or mis-encoded: it has no text, and refusing to guess beats decoding
/// it into wrong offsets. A file that is gone is empty rather than missing.
pub open spec fn text_after(change: ChangeView) -> Seq<char> {
    match change {
        ChangeView::Create(bytes) => decoded(bytes),
        ChangeView::Modify(bytes) => decoded(bytes),
        ChangeView::Delete => Seq::empty(),
    }
}

/// The text that bytes encode, none where they encode no text.
pub open spec fn decoded(bytes: Seq<u8>) -> Seq<char> {
    if vstd::utf8::valid_utf8(bytes) {
        vstd::utf8::decode_utf8(bytes)
    } else {
        Seq::empty()
    }
}

/// `String::from_utf8`: the text that the bytes encode, where they are UTF-8.
#[verifier::external_body]
fn text_of_utf8(bytes: Vec<u8>) -> (text: Option<String>)
    ensures
        text is Some <==> vstd::utf8::valid_utf8(bytes@),
        text matches Some(text) ==> text@ == vstd::utf8::decode_utf8(bytes@),
{
    String::from_utf8(bytes).ok()
}

/// The texts after a batch of changes.
pub open spec fn applied(texts: Map<u32, Seq<char>>, changes: Seq<(int, ChangeView)>) -> Map<
    u32,
    Seq<char>,
>
    decreases changes.len(),
{
    if changes.len() == 0 {
        texts
    } else {
        applied(texts, changes.drop_last()).insert(
            changes.last().0 as u32,
            text_after(changes.last().1),
        )
    }
}

/// A text to write, and how durable it is.
#[derive(Debug)]
pub struct TextWrite {
    pub file_id: FileId,
    pub text: String,
    pub durability: Durability,
}

/// The inputs.
pub struct RootDatabase {
    files: NumberTable<FileText>,
    file_roots: NumberTable<FileSourceRoot>,
    roots: NumberTable<SourceRootInput>,
}

impl View for RootDatabase {
    type V = DatabaseView;

    closed spec fn view(&self) -> DatabaseView {
        DatabaseView {
            texts: self.files@.map_values(|file: FileText| file.text@),
            file_roots: self.file_roots@.map_values(
                |root: FileSourceRoot| root.source_root_id.0,
            ),
            kinds: self.roots@.map_values(|root: SourceRootInput| root.kind),
        }
    }
}

impl RootDatabase {
    /// Every file knows its id, and every file belongs to a registered root.
    pub closed spec fn wf(&self) -> bool {
        &&& self.files.wf()
        &&& self.file_roots.wf()
        &&& self.roots.wf()
        &&& forall|file: u32| #[trigger]
            self.files@.contains_key(file) ==> self.files@[file].file_id.number() == file
        &&& forall|file: u32| #[trigger]
            self.file_roots@.contains_key(file) ==> self.roots@.contains_key(
                self.file_roots@[file].source_root_id.0,
            )
    }

    /// A database without files.
    pub fn new() -> (db: RootDatabase)
        ensures
            db.wf(),
            db@ == (DatabaseView {
                texts: Map::empty(),
                file_roots: Map::empty(),
                kinds: Map::empty(),
            }),
    {
        let db = RootDatabase {
            files: NumberTable::new(),
            file_roots: NumberTable::new(),
            roots: NumberTable::new(),
        };
        assert(db@.texts =~= Map::<u32, Seq<char>>::empty());
        assert(db@.file_roots =~= Map::<u32, u32>::empty());
        assert(db@.kinds =~= Map::<u32, RootKind>::empty());
        db
    }

    /// The text of a file that was set before. That it was not is a bug in the
    /// layer above: a query should never reach a file that was not pushed in
    /// first.
    pub fn file_text(&self, file_id: FileId) -> (file: &FileText)
        requires
            self.wf(),
            self@.texts.contains_key(file_id.number() as u32),
        ensures
            file.text@ == self@.texts[file_id.number() as u32],
            file.file_id == file_id,
    {
        let number: u32 = file_id.index();
        proof {
            assert(self.files@.contains_key(number));
            crate::path_interner::lemma_number_identifies(self.files@[number].file_id, file_id);
        }
        self.files.get(number).unwrap()
    }

    /// Whether a file has any text recorded.
    pub fn has_file(&self, file_id: FileId) -> (known: bool)
        requires
            self.wf(),
        ensures
            known == self@.texts.contains_key(file_id.number() as u32),
    {
        self.files.get(file_id.index()).is_some()
    }

    /// The root that a file belongs to, if it has been assigned one.
    pub fn file_source_root(&self, file_id: FileId) -> (root: Option<SourceRootId>)
        requires
            self.wf(),
        ensures
            (match root {
                Some(root) => Some(root.0),
                None => None,
            }) == (if self@.file_roots.contains_key(file_id.number() as u32) {
                Some(self@.file_roots[file_id.number() as u32])
            } else {
                None
            }),
    {
        match self.file_roots.get(file_id.index()) {
            Some(root) => Some(root.source_root_id),
            None => None,
        }
    }

    /// The tier of a registered root.
    pub fn root_kind(&self, root: SourceRootId) -> (kind: RootKind)
        requires
            self.wf(),
            self@.kinds.contains_key(root.0),
        ensures
            kind == self@.kinds[root.0],
    {
        self.roots.get(root.0).unwrap().kind
    }

    /// The durability a file's text should carry, from its root's tier.
    pub fn durability_of(&self, file_id: FileId) -> (durability: Durability)
        requires
            self.wf(),
        ensures
            durability == durability_at(self@, file_id.number() as u32),
    {
        match self.file_source_root(file_id) {
            Some(root) => {
                assert(self.file_roots@.contains_key(file_id.number() as u32));
                self.root_kind(root).text_durability()
            },
            None => Durability::Low,
        }
    }

    /// Records a file's text and returns the durability of the root it belongs
    /// to, which the text is written with.
    ///
    /// The root should have been registered first, since its tier decides the
    /// durability -- getting that wrong is exactly the bug this exists to prevent.
    pub fn set_file_text(&mut self, file_id: FileId, text: &str) -> (durability: Durability)
        requires
            old(self).wf(),
        ensures
            final(self).wf(),
            durability == durability_at(old(self)@, file_id.number() as u32),
            final(self)@ == (DatabaseView {
                texts: old(self)@.texts.insert(file_id.number() as u32, text@),
                ..old(self)@
            }),
    {
        let durability = self.durability_of(file_id);
        self.files.set(file_id.index(), FileText { text: text.to_owned(), file_id });
        assert(self@.texts =~= old(self)@.texts.insert(file_id.number() as u32, text@));
        durability
    }

    /// Assigns a file to a registered root, and returns the durability of that
    /// membership.
    pub fn set_file_source_root(&mut self, file_id: FileId, root: SourceRootId) -> (durability:
        Durability)
        requires
            old(self).wf(),
            old(self)@.kinds.contains_key(root.0),
        ensures
            final(self).wf(),
            durability == membership_tier(old(self)@.kinds[root.0]),
            final(self)@ == (DatabaseView {
                file_roots: old(self)@.file_roots.insert(file_id.number() as u32, root.0),
                ..old(self)@
            }),
    {
        let durability = self.root_kind(root).membership_durability();
        self.file_roots.set(file_id.index(), FileSourceRoot { source_root_id: root });
        assert(self@.file_roots =~= old(self)@.file_roots.insert(
            file_id.number() as u32,
            root.0,
        ));
        durability
    }

    /// Registers a source root, or changes an existing one's tier. A root
    /// changing tier is a build-graph event, so the fact itself is of high
    /// durability even when its files are not.
    pub fn set_source_root(&mut self, root: SourceRootId, kind: RootKind) -> (durability: Durability)
        requires
            old(self).wf(),
        ensures
            final(self).wf(),
            durability == Durability::High,
            final(self)@ == (DatabaseView {
                kinds: old(self)@.kinds.insert(root.0, kind),
                ..old(self)@
            }),
    {
        self.roots.set(root.0, SourceRootInput { kind });
        assert(self@.kinds =~= old(self)@.kinds.insert(root.0, kind));
        Durability::High
    }

    /// Applies a batch of changes, and returns what is to be written.
    ///
    /// This is the whole bridge from the outside world to the database. Deleted
    /// files keep their id and become empty rather than disappearing: a query
    /// holding a [`FileId`] must still get an answer, and "empty" is the honest
    /// one for a file that is gone.
    pub fn apply_vfs_changes(&mut self, changes: Vec<ChangedFile>) -> (writes: Vec<TextWrite>)
        requires
            old(self).wf(),
        ensures
            final(self).wf(),
            final(self)@ == (DatabaseView {
                texts: applied(old(self)@.texts, crate::vfs::batch_view(changes@)),
                ..old(self)@
            }),
            writes@.len() == changes@.len(),
            forall|i: int|
                0 <= i < changes@.len() ==> {
                    let write = #[trigger] writes@[i];
                    &&& write.file_id == changes@[i].file_id
                    &&& write.text@ == text_after(changes@[i].change@)
                    &&& write.durability == durability_at(
                        old(self)@,
                        changes@[i].file_id.number() as u32,
                    )
                },
    {
        let ghost views = crate::vfs::batch_view(changes@);
        let ghost all = changes@;
        let mut changes = changes;
        let mut writes: Vec<TextWrite> = Vec::new();
        let n: usize = changes.len();
        let mut i: usize = 0;
        proof {
            assert(views.take(0) =~= Seq::<(int, ChangeView)>::empty());
        }
        while i < n
            invariant
                i <= n,
                n == all.len(),
                changes@.len() == n,
                forall|j: int| i <= j < n ==> changes@[j] == all[j],
                views == crate::vfs::batch_view(all),
                self.wf(),
                self@ == (DatabaseView {
                    texts: applied(old(self)@.texts, views.take(i as int)),
                    ..old(self)@
                }),
                writes@.len() == i,
                forall|j: int|
                    0 <= j < i ==> {
                        let write = #[trigger] writes@[j];
                        &&& write.file_id == all[j].file_id
                        &&& write.text@ == text_after(all[j].change@)
                        &&& write.durability == durability_at(
                            old(self)@,
                            all[j].file_id.number() as u32,
                        )
                    },
            decreases n - i,
        {
            proof {
                assert(views.take(i + 1).drop_last() =~= views.take(i as int));
                assert(views.take(i + 1).last() == views[i as int]);
            }
            let file_id = changes[i].file_id;
            let mut change = Change::Delete;
            std::mem::swap(&mut change, &mut changes[i].change);
            let text = text_of_change(change);
            let durability = self.set_file_text(file_id, text.as_str());
            writes.push(TextWrite { file_id, text, durability });
            i += 1;
        }
        assert(views.take(n as int) =~= views);
        writes
    }
}

/// Computes [`text_after`].
fn text_of_change(change: Change) -> (text: String)
    ensures
        text@ == text_after(change@),
{
    let bytes = match change {
        Change::Create(bytes) => bytes,
        Change::Modify(bytes) => bytes,
        Change::Delete => {
            return String::new();
        },
    };
    match text_of_utf8(bytes) {
        Some(text) => text,
        None => String::new(),
    }
}

/// How many lines a text has. The last one need not end.
pub open spec fn lines_in(text: Seq<char>) -> nat {
    let breaks = text.filter(|c: char| c == '\n').len();
    if text.len() > 0 && text.last() != '\n' {
        breaks + 1
    } else {
        breaks
    }
}

/// Number of lines in a file, as far as the type can tell.
pub fn line_count(text: &str) -> (lines: u32)
    ensures
        lines == lines_in(text@) % 0x1_0000_0000,
{
    let chars = chars_of(text);
    let mut breaks: u32 = 0;
    let mut i: usize = 0;
    proof {
        assert(text@.take(0).filter(|c: char| c == '\n') =~= Seq::<char>::empty());
    }
    while i < chars.len()
        invariant
            i <= chars@.len(),
            chars@ == text@,
            breaks == text@.take(i as int).filter(|c: char| c == '\n').len() % 0x1_0000_0000,
        decreases chars@.len() - i,
    {
        proof {
            assert(text@.take(i + 1).drop_last() =~= text@.take(i as int));
            reveal_with_fuel(Seq::filter, 2);
        }
        if chars[i] == '\n' {
            breaks = breaks.wrapping_add(1);
        }
        i += 1;
    }
    assert(text@.take(i as int) =~= text@);
    if chars.len() > 0 && chars[chars.len() - 1] != '\n' {
        breaks.wrapping_add(1)
    } else {
        breaks
    }
}

/// A file that was deleted still has a text, the empty one.
pub proof fn a_deleted_file_becomes_empty(
    texts: Map<u32, Seq<char>>,
    changes: Seq<(int, ChangeView)>,
    file: int,
)
    ensures
        applied(texts, changes.push((file, ChangeView::Delete))).contains_key(file as u32),
        applied(texts, changes.push((file, ChangeView::Delete)))[file as u32] == Seq::<
            char,
        >::empty(),
{
    assert(changes.push((file, ChangeView::Delete)).drop_last() =~= changes);
}

/// What a client types is read back: the bytes of a text, pushed through a
/// change, are that text again.
pub proof fn text_reads_back(text: Seq<char>)
    ensures
        text_after(ChangeView::Create(vstd::utf8::encode_utf8(text))) == text,
        text_after(ChangeView::Modify(vstd::utf8::encode_utf8(text))) == text,
{
    vstd::utf8::encode_utf8_valid_utf8(text);
    vstd::utf8::encode_utf8_decode_utf8(text);
}

/// What is being edited is the least durable and what is outside the workspace
/// the most. A file that belongs nowhere yet may change at any time.
pub proof fn edited_files_are_the_least_durable(db: DatabaseView, file: u32, kind: RootKind)
    ensures
        kind is FocusTarget ==> text_tier(kind) is Low && membership_tier(kind) is Medium,
        kind is WorkspaceDep ==> text_tier(kind) is Medium && membership_tier(kind) is High,
        kind is External ==> text_tier(kind) is High && membership_tier(kind) is High,
        !db.file_roots.contains_key(file) ==> durability_at(db, file) is Low,
        db.file_roots.contains_key(file) && db.kinds[db.file_roots[file]] is FocusTarget
            ==> durability_at(db, file) is Low,
        db.file_roots.contains_key(file) && db.kinds[db.file_roots[file]] is External
            ==> durability_at(db, file) is High,
{
}

/// Each change of a batch is applied to its file alone, and the last one counts.
pub proof fn changes_apply_in_turn(
    texts: Map<u32, Seq<char>>,
    changes: Seq<(int, ChangeView)>,
    file: u32,
    bytes: Seq<u8>,
    other: u32,
)
    requires
        other != file,
    ensures
        applied(texts, Seq::empty()) == texts,
        ({
            let before = applied(texts, changes);
            let created = applied(texts, changes.push((file as int, ChangeView::Create(bytes))));
            let modified = applied(texts, changes.push((file as int, ChangeView::Modify(bytes))));
            let deleted = applied(texts, changes.push((file as int, ChangeView::Delete)));
            &&& vstd::utf8::valid_utf8(bytes) ==> created[file] == vstd::utf8::decode_utf8(bytes)
                && modified[file] == vstd::utf8::decode_utf8(bytes)
            &&& !vstd::utf8::valid_utf8(bytes) ==> created[file].len() == 0
                && modified[file].len() == 0
            &&& deleted[file].len() == 0
            &&& created.contains_key(file) && modified.contains_key(file) && deleted.contains_key(
                file,
            )
            &&& before.contains_key(other) ==> created[other] == before[other] && modified[other]
                == before[other] && deleted[other] == before[other]
            &&& created.contains_key(other) <==> before.contains_key(other)
        }),
{
    assert(changes.push((file as int, ChangeView::Create(bytes))).drop_last() =~= changes);
    assert(changes.push((file as int, ChangeView::Modify(bytes))).drop_last() =~= changes);
    assert(changes.push((file as int, ChangeView::Delete)).drop_last() =~= changes);
}

/// A line more is counted for every newline, and one for what follows the last.
pub proof fn lines_are_counted_by_newlines(text: Seq<char>, more: Seq<char>)
    requires
        more.len() > 0,
        !more.contains('\n'),
    ensures
        lines_in(Seq::empty()) == 0,
        lines_in(text.push('\n') + more) == lines_in(text.push('\n')) + 1,
        lines_in(text.push('\n')) == text.filter(|c: char| c == '\n').len() + 1,
{
    reveal(Seq::filter);
    assert(text.push('\n').drop_last() =~= text);
    lemma_no_newlines(text.push('\n'), more);
    assert(more.contains(more.last()));
    assert((text.push('\n') + more).last() == more.last());
}

proof fn lemma_no_newlines(text: Seq<char>, more: Seq<char>)
    requires
        !more.contains('\n'),
    ensures
        (text + more).filter(|c: char| c == '\n').len() == text.filter(|c: char| c == '\n').len(),
    decreases more.len(),
{
    reveal(Seq::filter);
    if more.len() == 0 {
        assert(text + more =~= text);
    } else {
        let rest = more.drop_last();
        assert((text + more).drop_last() =~= text + rest);
        assert(more.contains(more.last()));
        if rest.contains('\n') {
            let i = choose|i: int| 0 <= i < rest.len() && rest[i] == '\n';
            assert(more[i] == '\n');
        }
        lemma_no_newlines(text, rest);
    }
}

} // verus!
