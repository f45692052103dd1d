//! What a symbol index holds, and what each shard adds to it.
use vstd::prelude::*;

use crate::definition::{DefinitionView, SymbolKind};
use crate::shard::{DocumentFacts, OccurrenceFacts, SymbolFacts};
use crate::span::{PositionEncoding, Range};

verus! {

/// A use of a symbol, without the symbol and with its path as a number.
///
/// The containing map supplies the symbol and the numbering of reference paths
/// the path. At monolith scale this avoids two owned strings per reference.
#[derive(Copy, Clone, Debug, PartialEq, Eq, Structural)]
pub struct StoredReference {
    pub path: u32,
    pub range: Range,
    pub encoding: PositionEncoding,
    /// True when the occurrence is an `import`, which a call-graph query wants
    /// to skip and a rename does not.
    pub is_import: bool,
}

/// One symbol occurrence in a file, for position lookup, with its symbol as a
/// number: a large repository has far more occurrences than distinct symbols.
#[derive(Copy, Clone, Debug, PartialEq, Eq, Structural)]
pub struct Occurrence {
    pub range: Range,
    pub symbol: usize,
}

/// The order of the occurrences in a file: by start, then by end, then by the
/// number of the symbol.
pub open spec fn occurrence_before(a: Occurrence, b: Occurrence) -> bool {
    if a.range.start_line != b.range.start_line {
        a.range.start_line < b.range.start_line
    } else if a.range.start_col != b.range.start_col {
        a.range.start_col < b.range.start_col
    } else if a.range.end_line != b.range.end_line {
        a.range.end_line < b.range.end_line
    } else if a.range.end_col != b.range.end_col {
        a.range.end_col < b.range.end_col
    } else {
        a.symbol < b.symbol
    }
}

/// Whether every occurrence comes before all later ones. No occurrence stands
/// twice in such a row.
pub open spec fn in_file_order(row: Seq<Occurrence>) -> bool {
    forall|i: int, j: int|
        0 <= i < j < row.len() ==> #[trigger] occurrence_before(row[i], row[j])
}

/// `row` with `x` in its place; unchanged where `x` stands there already.
pub open spec fn placed(row: Seq<Occurrence>, x: Occurrence) -> Seq<Occurrence>
    decreases row.len(),
{
    if row.len() == 0 {
        seq![x]
    } else if row.last() == x {
        row
    } else if occurrence_before(row.last(), x) {
        row.push(x)
    } else {
        placed(row.drop_last(), x).push(row.last())
    }
}

/// What a [`SymbolIndex`] holds.
#[verifier::ext_equal]
pub struct IndexView {
    /// The definitions, in the order in which they came.
    pub definitions: Seq<DefinitionView>,
    /// Symbol to every reference to it.
    pub references: Map<Seq<char>, Seq<StoredReference>>,
    /// The paths that references number.
    pub reference_paths: Seq<Seq<char>>,
    /// Path to the occurrences in that file, in file order.
    pub occurrences: Map<Seq<char>, Seq<Occurrence>>,
    /// The symbols that occurrences number.
    pub symbol_names: Seq<Seq<char>>,
    /// How many shards went in.
    pub shards: int,
}

/// Whether the compact rows of an index can be read: every number in them was
/// given, the numberings and the references of a symbol repeat nothing, and the
/// occurrences of each file stand in file order.
pub open spec fn sound_rows(index: IndexView) -> bool {
    &&& index.reference_paths.no_duplicates()
    &&& index.symbol_names.no_duplicates()
    &&& forall|symbol: Seq<char>, i: int|
        #![trigger index.references[symbol][i]]
        index.references.contains_key(symbol) && 0 <= i < index.references[symbol].len()
            ==> index.references[symbol][i].path < index.reference_paths.len()
    &&& forall|symbol: Seq<char>|
        #![trigger index.references[symbol]]
        index.references.contains_key(symbol) ==> index.references[symbol].no_duplicates()
    &&& forall|path: Seq<char>|
        #![trigger index.occurrences[path]]
        index.occurrences.contains_key(path) ==> in_file_order(index.occurrences[path])
    &&& forall|path: Seq<char>, i: int|
        #![trigger index.occurrences[path][i]]
        index.occurrences.contains_key(path) && 0 <= i < index.occurrences[path].len()
            ==> index.occurrences[path][i].symbol < index.symbol_names.len()
}

/// An index that nothing went into.
pub open spec fn empty_index() -> IndexView {
    IndexView {
        definitions: Seq::empty(),
        references: Map::empty(),
        reference_paths: Seq::empty(),
        occurrences: Map::empty(),
        symbol_names: Seq::empty(),
        shards: 0,
    }
}

/// Whether `symbol` is declared at that path and range.
pub open spec fn declared_at(
    definitions: Seq<DefinitionView>,
    path: Seq<char>,
    symbol: Seq<char>,
    range: Range,
) -> bool {
    exists|i: int|
        0 <= i < definitions.len() && (#[trigger] definitions[i]).path == path
            && definitions[i].symbol == symbol && definitions[i].range == range
}

/// Whether the declaration site of `definition` is one of `definitions`: the
/// same symbol at the same path and range.
pub open spec fn site_known(
    definitions: Seq<DefinitionView>,
    definition: DefinitionView,
) -> bool {
    declared_at(definitions, definition.path, definition.symbol, definition.range)
}

/// The index with one more definition, where its site is not known yet.
pub open spec fn inserted(index: IndexView, definition: DefinitionView) -> IndexView {
    if site_known(index.definitions, definition) {
        index
    } else {
        IndexView { definitions: index.definitions.push(definition), ..index }
    }
}

/// Whether a symbol string is that of a local, which means nothing outside its
/// file.
pub open spec fn is_local(symbol: Seq<char>) -> bool {
    seq!['l', 'o', 'c', 'a', 'l', ' '].is_prefix_of(symbol)
}

/// The last of `symbols` that is about `symbol`.
pub open spec fn facts_about(symbols: Seq<SymbolFacts>, symbol: Seq<char>) -> Option<SymbolFacts>
    decreases symbols.len(),
{
    if symbols.len() == 0 {
        None
    } else if symbols.last().symbol == symbol {
        Some(symbols.last())
    } else {
        facts_about(symbols.drop_last(), symbol)
    }
}

/// The symbols of the relationships that are implementations.
pub open spec fn implemented(relationships: Seq<(Seq<char>, bool)>) -> Seq<Seq<char>>
    decreases relationships.len(),
{
    if relationships.len() == 0 {
        Seq::empty()
    } else if relationships.last().1 {
        implemented(relationships.drop_last()).push(relationships.last().0)
    } else {
        implemented(relationships.drop_last())
    }
}

/// The definition that a defining occurrence makes.
///
/// The document's facts about the symbol carry its kind, its documentation and
/// its relationships; the occurrence carries where it stands. The display name
/// is what the indexer intends a human to see, and the short name in the symbol
/// string stands in for it where it is empty or missing.
pub open spec fn definition_at(
    document: DocumentFacts,
    occurrence: OccurrenceFacts,
    range: Range,
) -> DefinitionView {
    let facts = facts_about(document.symbols, occurrence.symbol);
    DefinitionView {
        symbol: occurrence.symbol,
        name: match facts {
            Some(f) if f.display_name.len() > 0 => f.display_name,
            _ => crate::shard::short_name(occurrence.symbol),
        },
        kind: match facts {
            Some(f) => SymbolKind::numbered(f.kind),
            None => SymbolKind::Other,
        },
        path: document.relative_path,
        range,
        encoding: PositionEncoding::numbered(document.position_encoding),
        implements: match facts {
            Some(f) => implemented(f.implements),
            None => Seq::empty(),
        },
        documentation: match facts {
            Some(f) => f.documentation,
            None => Seq::empty(),
        },
        signature: match facts {
            Some(f) => match f.signature {
                Some(text) => text,
                None => Seq::empty(),
            },
            None => Seq::empty(),
        },
        enclosing: crate::span::range_of(occurrence.enclosing_range),
    }
}

/// The index with the symbol numbered and the occurrence in its file's row.
pub open spec fn with_occurrence(
    index: IndexView,
    path: Seq<char>,
    symbol: Seq<char>,
    range: Range,
) -> IndexView {
    let symbol_names = crate::table::interned(index.symbol_names, symbol);
    let row = crate::table::row_of(index.occurrences, path);
    let occurrence = Occurrence {
        range,
        symbol: crate::table::slot_in(symbol_names, symbol) as usize,
    };
    IndexView {
        symbol_names,
        occurrences: index.occurrences.insert(path, placed(row, occurrence)),
        ..index
    }
}

/// Whether the number of `path` among the reference paths, or the next one where
/// it has none, is one that a reference can hold.
pub open spec fn path_fits(reference_paths: Seq<Seq<char>>, path: Seq<char>) -> bool {
    crate::table::slot_in(crate::table::interned(reference_paths, path), path) <= u32::MAX
}

/// `row` with `reference` in it, behind the others where it was not there.
pub open spec fn with_site(
    row: Seq<StoredReference>,
    reference: StoredReference,
) -> Seq<StoredReference> {
    if row.contains(reference) {
        row
    } else {
        row.push(reference)
    }
}

/// The index with one more reference to `symbol`, where it is not known yet.
pub open spec fn with_reference(
    index: IndexView,
    document: DocumentFacts,
    symbol: Seq<char>,
    range: Range,
    is_import: bool,
) -> IndexView {
    let path = document.relative_path;
    let reference_paths = crate::table::interned(index.reference_paths, path);
    let reference = StoredReference {
        path: crate::table::slot_in(reference_paths, path) as u32,
        range,
        encoding: PositionEncoding::numbered(document.position_encoding),
        is_import,
    };
    let row = crate::table::row_of(index.references, symbol);
    IndexView {
        reference_paths,
        references: index.references.insert(symbol, with_site(row, reference)),
        ..index
    }
}

/// What one occurrence adds to an index, and whether it found room.
///
/// An occurrence without a readable range, of a local or of no symbol adds
/// nothing. A defining one adds a definition, any other one a reference. There
/// is no room where a reference is in a new file and all numbers for reference
/// paths are given.
pub open spec fn added_occurrence(
    index: IndexView,
    document: DocumentFacts,
    occurrence: OccurrenceFacts,
) -> (IndexView, bool) {
    match crate::span::range_of(occurrence.range) {
        None => (index, true),
        Some(range) => if is_local(occurrence.symbol) || occurrence.symbol.len() == 0 {
            (index, true)
        } else {
            let path = document.relative_path;
            let with = with_occurrence(index, path, occurrence.symbol, range);
            if occurrence.symbol_roles & DEFINITION_ROLE != 0 {
                (inserted(with, definition_at(document, occurrence, range)), true)
            } else if path_fits(with.reference_paths, path) {
                let is_import = occurrence.symbol_roles & IMPORT_ROLE != 0;
                (with_reference(with, document, occurrence.symbol, range, is_import), true)
            } else {
                (with, false)
            }
        },
    }
}

/// What the occurrences of a document add, one after the other, up to the first
/// that finds no room.
pub open spec fn added_occurrences(
    index: IndexView,
    document: DocumentFacts,
    occurrences: Seq<OccurrenceFacts>,
) -> (IndexView, bool)
    decreases occurrences.len(),
{
    if occurrences.len() == 0 {
        (index, true)
    } else {
        let before = added_occurrences(index, document, occurrences.drop_last());
        if before.1 {
            added_occurrence(before.0, document, occurrences.last())
        } else {
            before
        }
    }
}

/// What the documents of a shard add, one after the other, up to the first that
/// finds no room.
pub open spec fn added_documents(
    index: IndexView,
    documents: Seq<DocumentFacts>,
) -> (IndexView, bool)
    decreases documents.len(),
{
    if documents.len() == 0 {
        (index, true)
    } else {
        let before = added_documents(index, documents.drop_last());
        if before.1 {
            added_occurrences(before.0, documents.last(), documents.last().occurrences)
        } else {
            before
        }
    }
}

/// What a shard adds: one to the count of shards, and its documents.
pub open spec fn added_shard(
    index: IndexView,
    documents: Seq<DocumentFacts>,
) -> (IndexView, bool) {
    added_documents(IndexView { shards: index.shards + 1, ..index }, documents)
}

/// The bit of a SCIP occurrence's roles that says it is a definition.
pub const DEFINITION_ROLE: i32 = 1;

/// The bit of a SCIP occurrence's roles that says it is an import.
pub const IMPORT_ROLE: i32 = 2;

/// Where an occurrence goes in a row in file order, and what the row is then.
pub proof fn lemma_placed(row: Seq<Occurrence>, x: Occurrence, at: int)
    requires
        in_file_order(row),
        0 <= at <= row.len(),
        forall|k: int| 0 <= k < at ==> occurrence_before(#[trigger] row[k], x),
        forall|k: int| at <= k < row.len() ==> !occurrence_before(#[trigger] row[k], x),
    ensures
        placed(row, x) == (if at < row.len() && row[at] == x {
            row
        } else {
            row.insert(at, x)
        }),
    decreases row.len(),
{
    if row.len() > 0 {
        let head = row.drop_last();
        let last = row.last();
        if last == x {
            if at < row.len() - 1 {
                assert(occurrence_before(row[at], row[row.len() - 1]));
            }
            assert(at == row.len() - 1);
        } else if occurrence_before(last, x) {
            assert(at == row.len());
            assert(row.insert(at, x) =~= row.push(x));
        } else {
            assert(at < row.len());
            assert(in_file_order(head)) by {
                assert forall|i: int, j: int| 0 <= i < j < head.len() implies #[trigger]
                    occurrence_before(head[i], head[j]) by {
                    assert(occurrence_before(row[i], row[j]));
                }
            }
            lemma_placed(head, x, at);
            if at < head.len() && head[at] == x {
                assert(head.push(last) =~= row);
            } else {
                assert(head.insert(at, x).push(last) =~= row.insert(at, x));
            }
        }
    } else {
        assert(row.insert(0, x) =~= seq![x]);
    }
}

/// There is a place for every occurrence in a row in file order.
pub proof fn lemma_place(row: Seq<Occurrence>, x: Occurrence) -> (at: int)
    requires
        in_file_order(row),
    ensures
        0 <= at <= row.len(),
        forall|k: int| 0 <= k < at ==> occurrence_before(#[trigger] row[k], x),
        forall|k: int| at <= k < row.len() ==> !occurrence_before(#[trigger] row[k], x),
    decreases row.len(),
{
    if row.len() == 0 || occurrence_before(row.last(), x) {
        assert forall|k: int| 0 <= k < row.len() implies occurrence_before(
            #[trigger] row[k],
            x,
        ) by {
            if k < row.len() - 1 {
                assert(occurrence_before(row[k], row[row.len() - 1]));
            }
        }
        row.len() as int
    } else {
        let head = row.drop_last();
        assert forall|i: int, j: int| 0 <= i < j < head.len() implies #[trigger] occurrence_before(
            head[i],
            head[j],
        ) by {
            assert(occurrence_before(row[i], row[j]));
        }
        let at = lemma_place(head, x);
        assert forall|k: int| 0 <= k < at implies occurrence_before(#[trigger] row[k], x) by {
            assert(head[k] == row[k]);
        }
        assert forall|k: int| at <= k < row.len() implies !occurrence_before(
            #[trigger] row[k],
            x,
        ) by {
            if k < head.len() {
                assert(head[k] == row[k]);
            }
        }
        at
    }
}

/// Placing an occurrence keeps the file order and adds nothing else.
pub proof fn lemma_placed_order(row: Seq<Occurrence>, x: Occurrence)
    requires
        in_file_order(row),
    ensures
        in_file_order(placed(row, x)),
        forall|y: Occurrence| #[trigger]
            placed(row, x).contains(y) <==> row.contains(y) || y == x,
        row.contains(x) ==> placed(row, x) == row,
{
    let at = lemma_place(row, x);
    lemma_placed(row, x, at);
    let after = placed(row, x);
    if at < row.len() && row[at] == x {
        assert(row.contains(x));
    } else {
        if row.contains(x) {
            let k = choose|k: int| 0 <= k < row.len() && row[k] == x;
            if k > at {
                assert(occurrence_before(row[at], row[k]));
            }
            assert(false);
        }
        assert forall|i: int, j: int| 0 <= i < j < after.len() implies #[trigger] occurrence_before(
            after[i],
            after[j],
        ) by {
            if j < at {
                assert(occurrence_before(row[i], row[j]));
            } else if i > at {
                assert(occurrence_before(row[i - 1], row[j - 1]));
            } else if i < at && j > at {
                assert(occurrence_before(row[i], row[j - 1]));
            } else if i == at {
                assert(!occurrence_before(row[j - 1], x));
                assert(row[j - 1] != x);
            } else {
                assert(occurrence_before(row[i], x));
            }
        }
        assert forall|y: Occurrence| #[trigger] after.contains(y) <==> row.contains(y) || y
            == x by {
            if after.contains(y) {
                let k = choose|k: int| 0 <= k < after.len() && after[k] == y;
                if k < at {
                    assert(row[k] == y);
                } else if k > at {
                    assert(row[k - 1] == y);
                }
            }
            if row.contains(y) {
                let k = choose|k: int| 0 <= k < row.len() && row[k] == y;
                if k < at {
                    assert(after[k] == y);
                } else {
                    assert(after[k + 1] == y);
                }
            }
            assert(after[at] == x);
        }
    }
}

/// Nothing is added behind an occurrence that finds no room.
pub proof fn lemma_no_room(
    index: IndexView,
    document: DocumentFacts,
    occurrences: Seq<OccurrenceFacts>,
    k: int,
)
    requires
        0 <= k <= occurrences.len(),
        !added_occurrences(index, document, occurrences.take(k)).1,
    ensures
        added_occurrences(index, document, occurrences) == added_occurrences(
            index,
            document,
            occurrences.take(k),
        ),
    decreases occurrences.len(),
{
    if k == occurrences.len() {
        assert(occurrences.take(k) =~= occurrences);
    } else {
        assert(occurrences.drop_last().take(k) =~= occurrences.take(k));
        lemma_no_room(index, document, occurrences.drop_last(), k);
    }
}

/// Nothing is added behind a document that finds no room.
pub proof fn lemma_no_more_room(index: IndexView, documents: Seq<DocumentFacts>, k: int)
    requires
        0 <= k <= documents.len(),
        !added_documents(index, documents.take(k)).1,
    ensures
        added_documents(index, documents) == added_documents(index, documents.take(k)),
    decreases documents.len(),
{
    if k == documents.len() {
        assert(documents.take(k) =~= documents);
    } else {
        assert(documents.drop_last().take(k) =~= documents.take(k));
        lemma_no_more_room(index, documents.drop_last(), k);
    }
}

/// The compact rows of an index can be read whatever else it holds.
pub proof fn lemma_same_rows(a: IndexView, b: IndexView)
    requires
        sound_rows(a),
        a.references == b.references,
        a.reference_paths == b.reference_paths,
        a.occurrences == b.occurrences,
        a.symbol_names == b.symbol_names,
    ensures
        sound_rows(b),
{
    assert forall|symbol: Seq<char>, i: int|
        #![trigger b.references[symbol][i]]
        b.references.contains_key(symbol) && 0 <= i
            < b.references[symbol].len() implies b.references[symbol][i].path
        < b.reference_paths.len() by {
        assert(a.references[symbol][i] == b.references[symbol][i]);
    }
    assert forall|symbol: Seq<char>|
        #![trigger b.references[symbol]]
        b.references.contains_key(symbol) implies b.references[symbol].no_duplicates() by {
        assert(a.references[symbol] == b.references[symbol]);
    }
    assert forall|path: Seq<char>|
        #![trigger b.occurrences[path]]
        b.occurrences.contains_key(path) implies in_file_order(b.occurrences[path]) by {
        assert(a.occurrences[path] == b.occurrences[path]);
    }
    assert forall|path: Seq<char>, i: int|
        #![trigger b.occurrences[path][i]]
        b.occurrences.contains_key(path) && 0 <= i
            < b.occurrences[path].len() implies b.occurrences[path][i].symbol
        < b.symbol_names.len() by {
        assert(a.occurrences[path][i] == b.occurrences[path][i]);
    }
}

} // verus!
