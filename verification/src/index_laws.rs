//! What holds of a symbol index whatever shards go into it.
use vstd::prelude::*;

use crate::index_model::{IndexView, Occurrence, StoredReference, DEFINITION_ROLE, IMPORT_ROLE};
use crate::shard::{DocumentFacts, OccurrenceFacts};
use crate::span::{PositionEncoding, Range};
use crate::symbol_index::snapshot::SnapshotView;
use crate::symbol_index::SymbolIndex;

pub mod added;
pub mod shards;

verus! {

/// Whether `after` holds all that `before` holds: the definitions and the two
/// numberings go on where they were, and no reference or occurrence is lost.
pub open spec fn extends(before: IndexView, after: IndexView) -> bool {
    &&& before.definitions.is_prefix_of(after.definitions)
    &&& before.symbol_names.is_prefix_of(after.symbol_names)
    &&& before.reference_paths.is_prefix_of(after.reference_paths)
    &&& forall|symbol: Seq<char>, reference: StoredReference|
        before.references.contains_key(symbol) && #[trigger] before.references[symbol].contains(
            reference,
        ) ==> after.references.contains_key(symbol) && after.references[symbol].contains(
            reference,
        )
    &&& forall|path: Seq<char>, occurrence: Occurrence|
        before.occurrences.contains_key(path) && #[trigger] before.occurrences[path].contains(
            occurrence,
        ) ==> after.occurrences.contains_key(path) && after.occurrences[path].contains(occurrence)
}

/// The reference that an occurrence makes, where it is one.
spec fn reference_at(
    index: IndexView,
    document: DocumentFacts,
    occurrence: OccurrenceFacts,
    range: Range,
) -> StoredReference {
    StoredReference {
        path: crate::table::slot_in(index.reference_paths, document.relative_path) as u32,
        range,
        encoding: PositionEncoding::numbered(document.position_encoding),
        is_import: occurrence.symbol_roles & IMPORT_ROLE != 0,
    }
}

/// Whether the index holds all that an occurrence would add to it.
spec fn absorbed(index: IndexView, document: DocumentFacts, occurrence: OccurrenceFacts) -> bool {
    match crate::span::range_of(occurrence.range) {
        None => true,
        Some(range) => {
            ||| crate::index_model::is_local(occurrence.symbol)
            ||| occurrence.symbol.len() == 0
            ||| {
                let path = document.relative_path;
                let symbol = occurrence.symbol;
                &&& index.symbol_names.contains(symbol)
                &&& index.occurrences.contains_key(path)
                &&& index.occurrences[path].contains(
                    Occurrence {
                        range,
                        symbol: crate::table::slot_in(index.symbol_names, symbol) as usize,
                    },
                )
                &&& if occurrence.symbol_roles & DEFINITION_ROLE != 0 {
                    crate::index_model::site_known(
                        index.definitions,
                        crate::index_model::definition_at(document, occurrence, range),
                    )
                } else {
                    &&& index.reference_paths.contains(path)
                    &&& crate::table::slot_in(index.reference_paths, path) <= u32::MAX
                    &&& index.references.contains_key(symbol)
                    &&& index.references[symbol].contains(
                        reference_at(index, document, occurrence, range),
                    )
                }
            }
        },
    }
}

proof fn lemma_slot_prefix(a: Seq<Seq<char>>, b: Seq<Seq<char>>, key: Seq<char>)
    requires
        a.is_prefix_of(b),
        b.no_duplicates(),
        a.contains(key),
    ensures
        b.contains(key),
        crate::table::slot_in(a, key) == crate::table::slot_in(b, key),
        0 <= crate::table::slot_in(a, key) < a.len(),
{
    let i = a.index_of(key);
    assert(0 <= i < a.len() && a[i] == key);
    assert(b[i] == a[i]);
    assert(b.contains(key));
    let j = b.index_of(key);
    assert(b[j] == key);
}

/// An index that holds what an occurrence would add does not change by it.
proof fn lemma_absorbed_step(
    index: IndexView,
    document: DocumentFacts,
    occurrence: OccurrenceFacts,
)
    requires
        crate::index_model::sound_rows(index),
        absorbed(index, document, occurrence),
    ensures
        crate::index_model::added_occurrence(index, document, occurrence) == (index, true),
{
    match crate::span::range_of(occurrence.range) {
        None => {},
        Some(range) => {
            if !(crate::index_model::is_local(occurrence.symbol) || occurrence.symbol.len() == 0) {
                let path = document.relative_path;
                let symbol = occurrence.symbol;
                let x = Occurrence {
                    range,
                    symbol: crate::table::slot_in(index.symbol_names, symbol) as usize,
                };
                let with = crate::index_model::with_occurrence(index, path, symbol, range);
                assert(crate::index_model::in_file_order(index.occurrences[path]));
                crate::index_model::lemma_placed_order(index.occurrences[path], x);
                assert(with.occurrences =~= index.occurrences);
                assert(with =~= index);
                if occurrence.symbol_roles & DEFINITION_ROLE == 0 {
                    let is_import = occurrence.symbol_roles & IMPORT_ROLE != 0;
                    let after = crate::index_model::with_reference(
                        index,
                        document,
                        symbol,
                        range,
                        is_import,
                    );
                    assert(after.references =~= index.references);
                    assert(after =~= index);
                }
            }
        },
    }
}

/// What an index holds it goes on holding.
proof fn lemma_absorbed_stays(
    before: IndexView,
    after: IndexView,
    document: DocumentFacts,
    occurrence: OccurrenceFacts,
)
    requires
        crate::index_model::sound_rows(before),
        crate::index_model::sound_rows(after),
        extends(before, after),
        absorbed(before, document, occurrence),
    ensures
        absorbed(after, document, occurrence),
{
    match crate::span::range_of(occurrence.range) {
        None => {},
        Some(range) => {
            if !(crate::index_model::is_local(occurrence.symbol) || occurrence.symbol.len() == 0) {
                let path = document.relative_path;
                let symbol = occurrence.symbol;
                lemma_slot_prefix(before.symbol_names, after.symbol_names, symbol);
                if occurrence.symbol_roles & DEFINITION_ROLE != 0 {
                    let d = crate::index_model::definition_at(document, occurrence, range);
                    let i = choose|i: int|
                        0 <= i < before.definitions.len() && (#[trigger] before.definitions[i]).path
                            == d.path && before.definitions[i].symbol == d.symbol
                            && before.definitions[i].range == d.range;
                    assert(after.definitions[i] == before.definitions[i]);
                } else {
                    lemma_slot_prefix(before.reference_paths, after.reference_paths, path);
                    assert(reference_at(before, document, occurrence, range) == reference_at(
                        after,
                        document,
                        occurrence,
                        range,
                    ));
                }
            }
        },
    }
}

/// One occurrence loses nothing, leaves the rows readable, and is held
/// afterwards where it found room.
proof fn lemma_step(index: IndexView, document: DocumentFacts, occurrence: OccurrenceFacts)
    requires
        crate::index_model::sound_rows(index),
    ensures
        ({
            let (after, ok) = crate::index_model::added_occurrence(index, document, occurrence);
            &&& crate::index_model::sound_rows(after)
            &&& extends(index, after)
            &&& after.shards == index.shards
            &&& ok ==> absorbed(after, document, occurrence)
        }),
{
    let (after, ok) = crate::index_model::added_occurrence(index, document, occurrence);
    match crate::span::range_of(occurrence.range) {
        None => {},
        Some(range) => {
            if !(crate::index_model::is_local(occurrence.symbol) || occurrence.symbol.len() == 0) {
                let path = document.relative_path;
                let symbol = occurrence.symbol;
                let with = crate::index_model::with_occurrence(index, path, symbol, range);
                lemma_position(index, path, symbol, range);
                if occurrence.symbol_roles & DEFINITION_ROLE != 0 {
                    crate::index_model::lemma_same_rows(with, after);
                    let d = crate::index_model::definition_at(document, occurrence, range);
                    if !crate::index_model::site_known(with.definitions, d) {
                        assert(after.definitions[with.definitions.len() as int] == d);
                    }
                } else if ok {
                    let is_import = occurrence.symbol_roles & IMPORT_ROLE != 0;
                    lemma_reference(with, document, symbol, range, is_import);
                    assert(after.reference_paths.contains(path)) by {
                        if !with.reference_paths.contains(path) {
                            assert(after.reference_paths[with.reference_paths.len() as int]
                                == path);
                        }
                    }
                }
            }
        },
    }
}

proof fn lemma_position(index: IndexView, path: Seq<char>, symbol: Seq<char>, range: Range)
    requires
        crate::index_model::sound_rows(index),
    ensures
        ({
            let after = crate::index_model::with_occurrence(index, path, symbol, range);
            &&& crate::index_model::sound_rows(after)
            &&& extends(index, after)
            &&& after.symbol_names.contains(symbol)
            &&& after.occurrences.contains_key(path)
            &&& after.occurrences[path].contains(
                Occurrence {
                    range,
                    symbol: crate::table::slot_in(after.symbol_names, symbol) as usize,
                },
            )
        }),
{
    let names = crate::table::interned(index.symbol_names, symbol);
    let slot = crate::table::slot_in(names, symbol);
    let x = Occurrence { range, symbol: slot as usize };
    let row = crate::table::row_of(index.occurrences, path);
    let after = crate::index_model::with_occurrence(index, path, symbol, range);
    assert(names.contains(symbol)) by {
        if !index.symbol_names.contains(symbol) {
            assert(names[index.symbol_names.len() as int] == symbol);
        }
    }
    assert(0 <= slot < names.len());
    assert(names.no_duplicates());
    assert(crate::index_model::in_file_order(row)) by {
        if index.occurrences.contains_key(path) {
            assert(crate::index_model::in_file_order(index.occurrences[path]));
        }
    }
    crate::index_model::lemma_placed_order(row, x);
    let placed = crate::index_model::placed(row, x);
    assert(placed.contains(x));
    assert forall|p: Seq<char>, i: int|
        #![trigger after.occurrences[p][i]]
        after.occurrences.contains_key(p) && 0 <= i
            < after.occurrences[p].len() implies after.occurrences[p][i].symbol
        < after.symbol_names.len() by {
        let y = after.occurrences[p][i];
        if p == path {
            assert(placed.contains(y));
            if y != x {
                assert(row.contains(y));
                let k = choose|k: int| 0 <= k < row.len() && row[k] == y;
                assert(index.occurrences[p][k] == y);
            }
        } else {
            assert(index.occurrences[p][i] == y);
        }
    }
    assert forall|p: Seq<char>|
        #![trigger after.occurrences[p]]
        after.occurrences.contains_key(p) implies crate::index_model::in_file_order(
        after.occurrences[p],
    ) by {
        if p != path {
            assert(index.occurrences[p] == after.occurrences[p]);
        }
    }
    assert forall|s: Seq<char>|
        #![trigger after.references[s]]
        after.references.contains_key(s) implies after.references[s].no_duplicates() by {
        assert(index.references.contains_key(s) ==> index.references[s].no_duplicates());
    }
    assert forall|s: Seq<char>, i: int|
        #![trigger after.references[s][i]]
        after.references.contains_key(s) && 0 <= i
            < after.references[s].len() implies after.references[s][i].path
        < after.reference_paths.len() by {
        assert(index.references[s][i] == after.references[s][i]);
    }
}

proof fn lemma_reference(
    index: IndexView,
    document: DocumentFacts,
    symbol: Seq<char>,
    range: Range,
    is_import: bool,
)
    requires
        crate::index_model::sound_rows(index),
        crate::index_model::path_fits(index.reference_paths, document.relative_path),
    ensures
        ({
            let after = crate::index_model::with_reference(
                index,
                document,
                symbol,
                range,
                is_import,
            );
            &&& crate::index_model::sound_rows(after)
            &&& extends(index, after)
            &&& after.references.contains_key(symbol)
            &&& after.references[symbol].contains(
                StoredReference {
                    path: crate::table::slot_in(
                        after.reference_paths,
                        document.relative_path,
                    ) as u32,
                    range,
                    encoding: PositionEncoding::numbered(document.position_encoding),
                    is_import,
                },
            )
        }),
{
    let path = document.relative_path;
    let after = crate::index_model::with_reference(index, document, symbol, range, is_import);
    let paths = after.reference_paths;
    let slot = crate::table::slot_in(paths, path);
    let reference = StoredReference {
        path: slot as u32,
        range,
        encoding: PositionEncoding::numbered(document.position_encoding),
        is_import,
    };
    let row = crate::table::row_of(index.references, symbol);
    let with = crate::index_model::with_site(row, reference);
    assert(paths.contains(path)) by {
        if !index.reference_paths.contains(path) {
            assert(paths[index.reference_paths.len() as int] == path);
        }
    }
    assert(0 <= slot < paths.len());
    assert(paths.no_duplicates());
    assert(with.contains(reference)) by {
        if !row.contains(reference) {
            assert(with[row.len() as int] == reference);
        }
    }
    assert forall|r: StoredReference| row.contains(r) implies with.contains(r) by {
        let k = choose|k: int| 0 <= k < row.len() && row[k] == r;
        assert(with[k] == r);
    }
    assert forall|s: Seq<char>|
        #![trigger after.references[s]]
        after.references.contains_key(s) implies after.references[s].no_duplicates() by {
        assert(index.references.contains_key(s) ==> index.references[s].no_duplicates());
    }
    assert forall|s: Seq<char>, i: int|
        #![trigger after.references[s][i]]
        after.references.contains_key(s) && 0 <= i
            < after.references[s].len() implies after.references[s][i].path
        < after.reference_paths.len() by {
        if s == symbol {
            if i < row.len() {
                assert(index.references[s][i] == row[i]);
            }
        } else {
            assert(index.references[s][i] == after.references[s][i]);
        }
    }
    assert forall|p: Seq<char>, i: int|
        #![trigger after.occurrences[p][i]]
        after.occurrences.contains_key(p) && 0 <= i
            < after.occurrences[p].len() implies after.occurrences[p][i].symbol
        < after.symbol_names.len() by {
        assert(index.occurrences[p][i] == after.occurrences[p][i]);
    }
    assert forall|p: Seq<char>|
        #![trigger after.occurrences[p]]
        after.occurrences.contains_key(p) implies crate::index_model::in_file_order(
        after.occurrences[p],
    ) by {
        assert(index.occurrences[p] == after.occurrences[p]);
    }
}

proof fn lemma_extends_transitive(a: IndexView, b: IndexView, c: IndexView)
    requires
        extends(a, b),
        extends(b, c),
    ensures
        extends(a, c),
{
    assert forall|symbol: Seq<char>, reference: StoredReference|
        a.references.contains_key(symbol) && #[trigger] a.references[symbol].contains(
            reference,
        ) implies c.references.contains_key(symbol) && c.references[symbol].contains(
        reference,
    ) by {
        assert(b.references[symbol].contains(reference));
    }
    assert forall|path: Seq<char>, occurrence: Occurrence|
        a.occurrences.contains_key(path) && #[trigger] a.occurrences[path].contains(
            occurrence,
        ) implies c.occurrences.contains_key(path) && c.occurrences[path].contains(
        occurrence,
    ) by {
        assert(b.occurrences[path].contains(occurrence));
    }
}

proof fn lemma_steps(
    index: IndexView,
    document: DocumentFacts,
    occurrences: Seq<OccurrenceFacts>,
)
    requires
        crate::index_model::sound_rows(index),
    ensures
        ({
            let (after, ok) = crate::index_model::added_occurrences(index, document, occurrences);
            &&& crate::index_model::sound_rows(after)
            &&& extends(index, after)
            &&& after.shards == index.shards
            &&& ok ==> forall|i: int|
                0 <= i < occurrences.len() ==> absorbed(after, document, #[trigger] occurrences[i])
        }),
    decreases occurrences.len(),
{
    if occurrences.len() > 0 {
        let rest = occurrences.drop_last();
        lemma_steps(index, document, rest);
        let (before, fits) = crate::index_model::added_occurrences(index, document, rest);
        if fits {
            let last = occurrences.last();
            let (after, ok) = crate::index_model::added_occurrence(before, document, last);
            lemma_step(before, document, last);
            lemma_extends_transitive(index, before, after);
            if ok {
                assert forall|i: int| 0 <= i < occurrences.len() implies absorbed(
                    after,
                    document,
                    #[trigger] occurrences[i],
                ) by {
                    if i < rest.len() {
                        assert(rest[i] == occurrences[i]);
                        lemma_absorbed_stays(before, after, document, occurrences[i]);
                    }
                }
            }
        }
    }
}

/// Whether the index holds all that a document would add to it.
spec fn holds_document(index: IndexView, document: DocumentFacts) -> bool {
    forall|i: int|
        0 <= i < document.occurrences.len() ==> absorbed(
            index,
            document,
            #[trigger] document.occurrences[i],
        )
}

proof fn lemma_documents(index: IndexView, documents: Seq<DocumentFacts>)
    requires
        crate::index_model::sound_rows(index),
    ensures
        ({
            let (after, ok) = crate::index_model::added_documents(index, documents);
            &&& crate::index_model::sound_rows(after)
            &&& extends(index, after)
            &&& after.shards == index.shards
            &&& ok ==> forall|i: int|
                0 <= i < documents.len() ==> holds_document(after, #[trigger] documents[i])
        }),
    decreases documents.len(),
{
    if documents.len() > 0 {
        let rest = documents.drop_last();
        let last = documents.last();
        lemma_documents(index, rest);
        let (before, fits) = crate::index_model::added_documents(index, rest);
        if fits {
            let (after, ok) = crate::index_model::added_occurrences(
                before,
                last,
                last.occurrences,
            );
            lemma_steps(before, last, last.occurrences);
            lemma_extends_transitive(index, before, after);
            if ok {
                assert forall|i: int| 0 <= i < documents.len() implies holds_document(
                    after,
                    #[trigger] documents[i],
                ) by {
                    if i < rest.len() {
                        assert(rest[i] == documents[i]);
                        assert forall|j: int|
                            0 <= j < documents[i].occurrences.len() implies absorbed(
                            after,
                            documents[i],
                            #[trigger] documents[i].occurrences[j],
                        ) by {
                            assert(holds_document(before, rest[i]));
                            lemma_absorbed_stays(
                                before,
                                after,
                                documents[i],
                                documents[i].occurrences[j],
                            );
                        }
                    }
                }
            }
        }
    }
}

proof fn lemma_held_occurrences(
    index: IndexView,
    document: DocumentFacts,
    occurrences: Seq<OccurrenceFacts>,
)
    requires
        crate::index_model::sound_rows(index),
        forall|i: int|
            0 <= i < occurrences.len() ==> absorbed(index, document, #[trigger] occurrences[i]),
    ensures
        crate::index_model::added_occurrences(index, document, occurrences) == (index, true),
    decreases occurrences.len(),
{
    if occurrences.len() > 0 {
        let rest = occurrences.drop_last();
        assert forall|i: int| 0 <= i < rest.len() implies absorbed(
            index,
            document,
            #[trigger] rest[i],
        ) by {
            assert(rest[i] == occurrences[i]);
        }
        lemma_held_occurrences(index, document, rest);
        assert(absorbed(index, document, occurrences[occurrences.len() - 1]));
        lemma_absorbed_step(index, document, occurrences.last());
    }
}

proof fn lemma_held_documents(index: IndexView, documents: Seq<DocumentFacts>)
    requires
        crate::index_model::sound_rows(index),
        forall|i: int| 0 <= i < documents.len() ==> holds_document(index, #[trigger] documents[i]),
    ensures
        crate::index_model::added_documents(index, documents) == (index, true),
    decreases documents.len(),
{
    if documents.len() > 0 {
        let rest = documents.drop_last();
        assert forall|i: int| 0 <= i < rest.len() implies holds_document(
            index,
            #[trigger] rest[i],
        ) by {
            assert(rest[i] == documents[i]);
        }
        lemma_held_documents(index, rest);
        assert(holds_document(index, documents[documents.len() - 1]));
        lemma_held_occurrences(index, documents.last(), documents.last().occurrences);
    }
}

/// A shard loses nothing of what the index holds, and leaves its rows readable.
proof fn lemma_shard(index: IndexView, documents: Seq<DocumentFacts>)
    requires
        crate::index_model::sound_rows(index),
    ensures
        ({
            let (after, ok) = crate::index_model::added_shard(index, documents);
            &&& extends(index, after)
            &&& crate::index_model::sound_rows(after)
            &&& after.shards == index.shards + 1
            &&& ok ==> forall|i: int|
                0 <= i < documents.len() ==> holds_document(after, #[trigger] documents[i])
        }),
{
    let start = IndexView { shards: index.shards + 1, ..index };
    crate::index_model::lemma_same_rows(index, start);
    lemma_documents(start, documents);
    let after = crate::index_model::added_shard(index, documents).0;
    assert(extends(index, start));
    lemma_extends_transitive(index, start, after);
}

/// An index that holds the documents of a shard does not change by it, but for
/// the count of shards.
proof fn lemma_held_shard(index: IndexView, documents: Seq<DocumentFacts>)
    requires
        crate::index_model::sound_rows(index),
        forall|i: int| 0 <= i < documents.len() ==> holds_document(index, #[trigger] documents[i]),
    ensures
        crate::index_model::added_shard(index, documents) == (
            IndexView { shards: index.shards + 1, ..index },
            true,
        ),
{
    let again = IndexView { shards: index.shards + 1, ..index };
    crate::index_model::lemma_same_rows(index, again);
    assert(extends(index, again));
    lemma_held_stays(index, again, documents);
    lemma_held_documents(again, documents);
}

/// What an index holds of a shard it goes on holding.
proof fn lemma_held_stays(before: IndexView, after: IndexView, documents: Seq<DocumentFacts>)
    requires
        crate::index_model::sound_rows(before),
        crate::index_model::sound_rows(after),
        extends(before, after),
        forall|i: int| 0 <= i < documents.len() ==> holds_document(before, #[trigger] documents[i]),
    ensures
        forall|i: int| 0 <= i < documents.len() ==> holds_document(after, #[trigger] documents[i]),
{
    assert forall|i: int| 0 <= i < documents.len() implies holds_document(
        after,
        #[trigger] documents[i],
    ) by {
        assert(holds_document(before, documents[i]));
        assert forall|j: int| 0 <= j < documents[i].occurrences.len() implies absorbed(
            after,
            documents[i],
            #[trigger] documents[i].occurrences[j],
        ) by {
            lemma_absorbed_stays(before, after, documents[i], documents[i].occurrences[j]);
        }
    }
}

/// A shard loses nothing of what the index holds.
pub proof fn a_shard_loses_nothing(index: &SymbolIndex, documents: Seq<DocumentFacts>)
    requires
        index.wf(),
    ensures
        extends(index@, crate::index_model::added_shard(index@, documents).0),
{
    index.lemma_sound_rows();
    lemma_shard(index@, documents);
}

/// Adding the same shard again adds nothing but to the count of shards.
pub proof fn adding_a_shard_again_adds_nothing(
    index: &SymbolIndex,
    documents: Seq<DocumentFacts>,
)
    requires
        index.wf(),
        crate::index_model::added_shard(index@, documents).1,
    ensures
        ({
            let once = crate::index_model::added_shard(index@, documents).0;
            crate::index_model::added_shard(once, documents) == (
                IndexView { shards: once.shards + 1, ..once },
                true,
            )
        }),
{
    index.lemma_sound_rows();
    lemma_shard(index@, documents);
    lemma_held_shard(crate::index_model::added_shard(index@, documents).0, documents);
}

/// That stays so when the index was written and read back since.
pub proof fn adding_a_shard_again_after_a_restart_adds_nothing(
    index: &SymbolIndex,
    documents: Seq<DocumentFacts>,
    snapshot: SnapshotView,
)
    requires
        index.wf(),
        crate::index_model::added_shard(index@, documents).1,
        crate::symbol_index::snapshot::is_snapshot_of(
            snapshot,
            crate::index_model::added_shard(index@, documents).0,
        ),
    ensures
        ({
            let once = crate::symbol_index::snapshot::restored(snapshot);
            &&& once == crate::index_model::added_shard(index@, documents).0
            &&& crate::index_model::added_shard(once, documents) == (
                IndexView { shards: once.shards + 1, ..once },
                true,
            )
        }),
{
    index.lemma_sound_rows();
    lemma_shard(index@, documents);
    let once = crate::index_model::added_shard(index@, documents).0;
    crate::symbol_index::snapshot::lemma_reads_back(once, snapshot);
    lemma_held_shard(once, documents);
}

/// That stays so however many shards came in between.
pub proof fn adding_a_shard_again_later_adds_nothing(
    index: &SymbolIndex,
    documents: Seq<DocumentFacts>,
    between: Seq<Seq<DocumentFacts>>,
)
    requires
        index.wf(),
        crate::index_model::added_shard(index@, documents).1,
    ensures
        ({
            let once = crate::index_model::added_shard(index@, documents).0;
            let later = added_shards(once, between);
            crate::index_model::added_shard(later, documents) == (
                IndexView { shards: later.shards + 1, ..later },
                true,
            )
        }),
{
    index.lemma_sound_rows();
    lemma_shard(index@, documents);
    let once = crate::index_model::added_shard(index@, documents).0;
    lemma_shards(once, between);
    lemma_held_stays(once, added_shards(once, between), documents);
    lemma_held_shard(added_shards(once, between), documents);
}

/// What some shards add, one after the other.
pub open spec fn added_shards(index: IndexView, shards: Seq<Seq<DocumentFacts>>) -> IndexView
    decreases shards.len(),
{
    if shards.len() == 0 {
        index
    } else {
        crate::index_model::added_shard(added_shards(index, shards.drop_last()), shards.last()).0
    }
}

/// Shards lose nothing of what the index holds, and leave its rows readable.
proof fn lemma_shards(index: IndexView, shards: Seq<Seq<DocumentFacts>>)
    requires
        crate::index_model::sound_rows(index),
    ensures
        extends(index, added_shards(index, shards)),
        crate::index_model::sound_rows(added_shards(index, shards)),
    decreases shards.len(),
{
    if shards.len() > 0 {
        let before = added_shards(index, shards.drop_last());
        lemma_shards(index, shards.drop_last());
        lemma_shard(before, shards.last());
        lemma_extends_transitive(index, before, added_shards(index, shards));
    }
}

} // verus!
