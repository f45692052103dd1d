//! What an index holds of what a shard says, field by field.
use vstd::prelude::*;

use crate::definition::{Column, DefinitionView, Lookup, SymbolKind};
use crate::index_model::{IndexView, Occurrence, StoredReference};
use crate::shard::{DocumentFacts, OccurrenceFacts};
use crate::span::{PositionEncoding, Range};
use crate::symbol_index::SymbolIndex;

verus! {

/// A packed range of three numbers is a line and two columns, one of four two
/// lines and two columns, and no other is a range.
pub proof fn packed_ranges_are_read(raw: Seq<i32>)
    ensures
        crate::span::range_of(raw) is Some <==> raw.len() == 3 || raw.len() == 4,
        raw.len() == 3 && raw[0] >= 0 && raw[1] >= 0 && raw[2] >= 0 ==> {
            let range = crate::span::range_of(raw)->0;
            &&& range.start_line == raw[0]
            &&& range.start_col == raw[1]
            &&& range.end_line == raw[0]
            &&& range.end_col == raw[2]
        },
        raw.len() == 4 && raw[0] >= 0 && raw[1] >= 0 && raw[2] >= 0 && raw[3] >= 0 ==> {
            let range = crate::span::range_of(raw)->0;
            &&& range.start_line == raw[0]
            &&& range.start_col == raw[1]
            &&& range.end_line == raw[2]
            &&& range.end_col == raw[3]
        },
{
}

/// Columns are counted in UTF-8 bytes where a document says 1, in code points
/// where it says 3, and in UTF-16 code units otherwise.
pub proof fn encodings_are_numbered(number: i32)
    ensures
        PositionEncoding::numbered(number) is Utf8 <==> number == 1,
        PositionEncoding::numbered(number) is Utf32 <==> number == 3,
        PositionEncoding::numbered(number) is Utf16 <==> number != 1 && number != 3,
{
}

/// SCIP's numbers for the kinds that a Java client tells apart.
pub proof fn kinds_are_numbered(number: i32)
    ensures
        SymbolKind::numbered(number) is Class <==> number == 7,
        SymbolKind::numbered(number) is Interface <==> number == 21,
        SymbolKind::numbered(number) is Enum <==> number == 11,
        SymbolKind::numbered(number) is Method <==> number == 26 || number == 66 || number == 80,
        SymbolKind::numbered(number) is Constructor <==> number == 9,
        SymbolKind::numbered(number) is Field <==> number == 12 || number == 15 || number == 79,
{
}

/// A symbol is local where it begins with these six characters.
proof fn lemma_local(symbol: Seq<char>)
    ensures
        crate::index_model::is_local(symbol) == "local "@.is_prefix_of(symbol),
{
    reveal_strlit("local ");
    assert("local "@ =~= seq!['l', 'o', 'c', 'a', 'l', ' ']);
}

/// An occurrence of a local changes nothing.
pub proof fn locals_add_nothing(
    index: IndexView,
    document: DocumentFacts,
    occurrence: OccurrenceFacts,
)
    requires
        "local "@.is_prefix_of(occurrence.symbol),
    ensures
        crate::index_model::added_occurrence(index, document, occurrence) == (index, true),
{
    lemma_local(occurrence.symbol);
}

/// Where the facts about a symbol stand in its document, its definition has
/// their kind, their documentation and their signature, and the symbols that
/// they say it implements as its supertypes. The display name is its name.
pub proof fn definitions_hold_the_facts(
    document: DocumentFacts,
    occurrence: OccurrenceFacts,
    range: Range,
    at: int,
)
    requires
        0 <= at < document.symbols.len(),
        document.symbols[at].symbol == occurrence.symbol,
        forall|i: int|
            at < i < document.symbols.len() ==> (#[trigger] document.symbols[i]).symbol
                != occurrence.symbol,
    ensures
        ({
            let definition = crate::index_model::definition_at(document, occurrence, range);
            let facts = document.symbols[at];
            &&& definition.symbol == occurrence.symbol
            &&& definition.path == document.relative_path
            &&& definition.range == range
            &&& definition.kind == SymbolKind::numbered(facts.kind)
            &&& definition.documentation == facts.documentation
            &&& facts.signature matches Some(text) ==> definition.signature == text
            &&& facts.signature is None ==> definition.signature.len() == 0
            &&& facts.display_name.len() > 0 ==> definition.name == facts.display_name
            &&& facts.display_name.len() == 0 ==> definition.name == crate::shard::short_name(
                occurrence.symbol,
            )
            &&& forall|s: Seq<char>| #[trigger]
                definition.implements.contains(s) <==> exists|i: int|
                    0 <= i < facts.implements.len() && #[trigger] facts.implements[i] == (s, true)
            &&& definition.implements.len() <= facts.implements.len()
        }),
{
    lemma_last_facts(document.symbols, occurrence.symbol, at);
    let facts = document.symbols[at];
    assert forall|s: Seq<char>| #[trigger]
        crate::index_model::implemented(facts.implements).contains(s) <==> exists|i: int|
            0 <= i < facts.implements.len() && #[trigger] facts.implements[i] == (s, true) by {
        lemma_implemented(facts.implements, s);
    }
    lemma_implemented(facts.implements, Seq::empty());
}

/// Without facts about its symbol, a definition is known by its symbol alone: it
/// has no supertypes, no documentation and no signature.
pub proof fn definitions_without_facts(
    document: DocumentFacts,
    occurrence: OccurrenceFacts,
    range: Range,
)
    requires
        forall|i: int|
            0 <= i < document.symbols.len() ==> (#[trigger] document.symbols[i]).symbol
                != occurrence.symbol,
    ensures
        ({
            let definition = crate::index_model::definition_at(document, occurrence, range);
            &&& definition.symbol == occurrence.symbol
            &&& definition.path == document.relative_path
            &&& definition.range == range
            &&& definition.kind is Other
            &&& definition.implements.len() == 0
            &&& definition.documentation.len() == 0
            &&& definition.signature.len() == 0
            &&& definition.name == crate::shard::short_name(occurrence.symbol)
        }),
{
    lemma_no_facts(document.symbols, occurrence.symbol);
}

/// The span of a declaration is the enclosing range of its occurrence, and its
/// columns are counted as those of its document.
pub proof fn definitions_span_their_declaration(
    document: DocumentFacts,
    occurrence: OccurrenceFacts,
    range: Range,
)
    ensures
        ({
            let definition = crate::index_model::definition_at(document, occurrence, range);
            let raw = occurrence.enclosing_range;
            &&& definition.enclosing is Some <==> raw.len() == 3 || raw.len() == 4
            &&& raw.len() == 3 && raw[0] >= 0 && raw[1] >= 0 && raw[2] >= 0 ==> {
                let span = definition.enclosing->0;
                &&& span.start_line == raw[0] && span.start_col == raw[1]
                &&& span.end_line == raw[0] && span.end_col == raw[2]
            }
            &&& raw.len() == 4 && raw[0] >= 0 && raw[1] >= 0 && raw[2] >= 0 && raw[3] >= 0 ==> {
                let span = definition.enclosing->0;
                &&& span.start_line == raw[0] && span.start_col == raw[1]
                &&& span.end_line == raw[2] && span.end_col == raw[3]
            }
            &&& definition.encoding is Utf8 <==> document.position_encoding == 1
            &&& definition.encoding is Utf32 <==> document.position_encoding == 3
        }),
{
}

/// Every use that a shard records is found in the index: a reference to its
/// symbol in the file of its document, at the numbers of its range, and one that
/// a call hierarchy skips where it is an import.
pub proof fn uses_are_stored(
    index: &SymbolIndex,
    documents: Seq<DocumentFacts>,
    d: int,
    o: int,
)
    requires
        index.wf(),
        crate::index_model::added_shard(index@, documents).1,
        0 <= d < documents.len(),
        0 <= o < documents[d].occurrences.len(),
        documents[d].occurrences[o].symbol.len() > 0,
        !"local "@.is_prefix_of(documents[d].occurrences[o].symbol),
        documents[d].occurrences[o].symbol_roles & 1 == 0,
        documents[d].occurrences[o].range.len() == 3 || documents[d].occurrences[o].range.len()
            == 4,
        forall|i: int|
            0 <= i < documents[d].occurrences[o].range.len()
                ==> #[trigger] documents[d].occurrences[o].range[i] >= 0,
    ensures
        ({
            let after = crate::index_model::added_shard(index@, documents).0;
            let occurrence = documents[d].occurrences[o];
            let raw = occurrence.range;
            &&& after.references.contains_key(occurrence.symbol)
            &&& exists|i: int|
                0 <= i < after.references[occurrence.symbol].len() && {
                    let stored = #[trigger] after.references[occurrence.symbol][i];
                    &&& stored.path < after.reference_paths.len()
                    &&& after.reference_paths[stored.path as int] == documents[d].relative_path
                    &&& stored.range.start_line == raw[0]
                    &&& stored.range.start_col == raw[1]
                    &&& stored.range.end_line == (if raw.len() == 3 {
                        raw[0]
                    } else {
                        raw[2]
                    })
                    &&& stored.range.end_col == (if raw.len() == 3 {
                        raw[2]
                    } else {
                        raw[3]
                    })
                    &&& stored.is_import == (occurrence.symbol_roles & 2 != 0)
                    &&& stored.encoding is Utf8 <==> documents[d].position_encoding == 1
                    &&& stored.encoding is Utf32 <==> documents[d].position_encoding == 3
                }
        }),
{
    let after = crate::index_model::added_shard(index@, documents).0;
    let document = documents[d];
    let occurrence = document.occurrences[o];
    lemma_local(occurrence.symbol);
    index.lemma_sound_rows();
    crate::index_laws::lemma_shard(index@, documents);
    assert(crate::index_laws::holds_document(after, documents[d]));
    assert(crate::index_laws::absorbed(after, document, document.occurrences[o]));
    let range = crate::span::range_of(occurrence.range)->0;
    packed_ranges_are_read(occurrence.range);
    let stored = crate::index_laws::reference_at(after, document, occurrence, range);
    let row = after.references[occurrence.symbol];
    assert(row.contains(stored));
    let i = choose|i: int| 0 <= i < row.len() && row[i] == stored;
    assert(after.references[occurrence.symbol][i] == stored);
    assert(after.references[occurrence.symbol][i].path < after.reference_paths.len());
    crate::index_laws::lemma_slot_prefix(
        after.reference_paths,
        after.reference_paths,
        document.relative_path,
    );
    let slot = after.reference_paths.index_of(document.relative_path);
    assert(after.reference_paths[slot] == document.relative_path);
}

/// Every definition that a shard records is found in the index: its symbol is
/// defined in the file of its document, at the numbers of its range.
pub proof fn definitions_are_stored(
    index: &SymbolIndex,
    documents: Seq<DocumentFacts>,
    d: int,
    o: int,
)
    requires
        index.wf(),
        crate::index_model::added_shard(index@, documents).1,
        0 <= d < documents.len(),
        0 <= o < documents[d].occurrences.len(),
        documents[d].occurrences[o].symbol.len() > 0,
        !"local "@.is_prefix_of(documents[d].occurrences[o].symbol),
        documents[d].occurrences[o].symbol_roles & 1 != 0,
        documents[d].occurrences[o].range.len() == 3 || documents[d].occurrences[o].range.len()
            == 4,
        forall|i: int|
            0 <= i < documents[d].occurrences[o].range.len()
                ==> #[trigger] documents[d].occurrences[o].range[i] >= 0,
    ensures
        ({
            let after = crate::index_model::added_shard(index@, documents).0;
            let occurrence = documents[d].occurrences[o];
            let raw = occurrence.range;
            exists|i: int|
                0 <= i < after.definitions.len() && {
                    let definition = #[trigger] after.definitions[i];
                    &&& definition.symbol == occurrence.symbol
                    &&& definition.path == documents[d].relative_path
                    &&& definition.range.start_line == raw[0]
                    &&& definition.range.start_col == raw[1]
                    &&& definition.range.end_line == (if raw.len() == 3 {
                        raw[0]
                    } else {
                        raw[2]
                    })
                    &&& definition.range.end_col == (if raw.len() == 3 {
                        raw[2]
                    } else {
                        raw[3]
                    })
                }
        }),
{
    let after = crate::index_model::added_shard(index@, documents).0;
    let document = documents[d];
    let occurrence = document.occurrences[o];
    lemma_local(occurrence.symbol);
    index.lemma_sound_rows();
    crate::index_laws::lemma_shard(index@, documents);
    assert(crate::index_laws::holds_document(after, documents[d]));
    assert(crate::index_laws::absorbed(after, document, document.occurrences[o]));
    packed_ranges_are_read(occurrence.range);
}

/// Whatever a shard records at a place, a cursor there finds it: the file's row
/// holds the range with the symbol.
pub proof fn places_are_stored(
    index: &SymbolIndex,
    documents: Seq<DocumentFacts>,
    d: int,
    o: int,
)
    requires
        index.wf(),
        crate::index_model::added_shard(index@, documents).1,
        crate::index_model::added_shard(index@, documents).0.symbol_names.len() <= usize::MAX,
        0 <= d < documents.len(),
        0 <= o < documents[d].occurrences.len(),
        documents[d].occurrences[o].symbol.len() > 0,
        !"local "@.is_prefix_of(documents[d].occurrences[o].symbol),
        documents[d].occurrences[o].range.len() == 3 || documents[d].occurrences[o].range.len()
            == 4,
        forall|i: int|
            0 <= i < documents[d].occurrences[o].range.len()
                ==> #[trigger] documents[d].occurrences[o].range[i] >= 0,
    ensures
        ({
            let after = crate::index_model::added_shard(index@, documents).0;
            let path = documents[d].relative_path;
            let raw = documents[d].occurrences[o].range;
            &&& after.occurrences.contains_key(path)
            &&& exists|i: int|
                0 <= i < after.occurrences[path].len() && {
                    let place = #[trigger] after.occurrences[path][i];
                    &&& place.symbol < after.symbol_names.len()
                    &&& after.symbol_names[place.symbol as int]
                        == documents[d].occurrences[o].symbol
                    &&& place.range.start_line == raw[0]
                    &&& place.range.start_col == raw[1]
                    &&& place.range.end_line == (if raw.len() == 3 {
                        raw[0]
                    } else {
                        raw[2]
                    })
                    &&& place.range.end_col == (if raw.len() == 3 {
                        raw[2]
                    } else {
                        raw[3]
                    })
                }
        }),
{
    let after = crate::index_model::added_shard(index@, documents).0;
    let document = documents[d];
    let occurrence = document.occurrences[o];
    let path = document.relative_path;
    lemma_local(occurrence.symbol);
    index.lemma_sound_rows();
    crate::index_laws::lemma_shard(index@, documents);
    assert(crate::index_laws::holds_document(after, documents[d]));
    assert(crate::index_laws::absorbed(after, document, document.occurrences[o]));
    packed_ranges_are_read(occurrence.range);
    let range = crate::span::range_of(occurrence.range)->0;
    let slot = crate::table::slot_in(after.symbol_names, occurrence.symbol);
    crate::index_laws::lemma_slot_prefix(
        after.symbol_names,
        after.symbol_names,
        occurrence.symbol,
    );
    assert(after.symbol_names[slot] == occurrence.symbol);
    let place = Occurrence { range, symbol: slot as usize };
    let row = after.occurrences[path];
    assert(row.contains(place));
    let i = choose|i: int| 0 <= i < row.len() && row[i] == place;
    assert(after.occurrences[path][i] == place);
    assert(after.occurrences[path][i].symbol < after.symbol_names.len());
}

/// Whether an occurrence says where its symbol is used or defined: it has a
/// range and a symbol, and that is no local.
spec fn says(occurrence: OccurrenceFacts, range: Range) -> bool {
    &&& crate::span::range_of(occurrence.range) == Some(range)
    &&& occurrence.symbol.len() > 0
    &&& !"local "@.is_prefix_of(occurrence.symbol)
}

/// Whether a stored reference to `symbol` is what the occurrence says.
spec fn is_use(
    index: IndexView,
    symbol: Seq<char>,
    stored: StoredReference,
    document: DocumentFacts,
    occurrence: OccurrenceFacts,
) -> bool {
    &&& occurrence.symbol == symbol
    &&& says(occurrence, stored.range)
    &&& occurrence.symbol_roles & 1 == 0
    &&& stored.is_import == (occurrence.symbol_roles & 2 != 0)
    &&& stored.path < index.reference_paths.len()
    &&& index.reference_paths[stored.path as int] == document.relative_path
    &&& stored.encoding == PositionEncoding::numbered(document.position_encoding)
}

/// Whether a definition is what the occurrence says.
spec fn is_definition(
    definition: DefinitionView,
    document: DocumentFacts,
    occurrence: OccurrenceFacts,
) -> bool {
    &&& says(occurrence, definition.range)
    &&& occurrence.symbol_roles & 1 != 0
    &&& definition == crate::index_model::definition_at(document, occurrence, definition.range)
}

/// Whether all that `after` has and `before` has not is what one of the
/// occurrences says.
spec fn grown_by(
    before: IndexView,
    after: IndexView,
    document: DocumentFacts,
    occurrences: Seq<OccurrenceFacts>,
) -> bool {
    &&& forall|i: int|
        before.definitions.len() <= i < after.definitions.len() ==> exists|o: int|
            0 <= o < occurrences.len() && is_definition(
                #[trigger] after.definitions[i],
                document,
                #[trigger] occurrences[o],
            )
    &&& forall|symbol: Seq<char>, stored: StoredReference|
        after.references.contains_key(symbol) && #[trigger] after.references[symbol].contains(
            stored,
        ) && !(before.references.contains_key(symbol) && before.references[symbol].contains(stored))
            ==> exists|o: int|
            0 <= o < occurrences.len() && is_use(
                after,
                symbol,
                stored,
                document,
                #[trigger] occurrences[o],
            )
    &&& forall|symbol: Seq<char>|
        #![trigger after.references.contains_key(symbol)]
        after.references.contains_key(symbol) && !before.references.contains_key(symbol)
            ==> symbol.len() > 0 && !"local "@.is_prefix_of(symbol)
    &&& forall|symbol: Seq<char>| #[trigger]
        after.symbol_names.contains(symbol) && !before.symbol_names.contains(symbol)
            ==> symbol.len() > 0 && !"local "@.is_prefix_of(symbol)
}

proof fn lemma_grown_step(index: IndexView, document: DocumentFacts, occurrence: OccurrenceFacts)
    requires
        crate::index_model::sound_rows(index),
    ensures
        ({
            let after = crate::index_model::added_occurrence(index, document, occurrence).0;
            grown_by(index, after, document, seq![occurrence])
        }),
{
    let (after, ok) = crate::index_model::added_occurrence(index, document, occurrence);
    let one = seq![occurrence];
    assert(one[0] == occurrence);
    lemma_local(occurrence.symbol);
    match crate::span::range_of(occurrence.range) {
        None => {},
        Some(range) => {
            if !(crate::index_model::is_local(occurrence.symbol) || occurrence.symbol.len() == 0) {
                let path = document.relative_path;
                let symbol = occurrence.symbol;
                let with = crate::index_model::with_occurrence(index, path, symbol, range);
                crate::index_laws::lemma_position(index, path, symbol, range);
                assert(says(occurrence, range));
                assert forall|name: Seq<char>| #[trigger]
                    after.symbol_names.contains(name) && !index.symbol_names.contains(
                        name,
                    ) implies name == symbol by {
                    let k = choose|k: int|
                        0 <= k < after.symbol_names.len() && after.symbol_names[k] == name;
                    if k < index.symbol_names.len() {
                        assert(index.symbol_names[k] == name);
                    }
                }
                if occurrence.symbol_roles & 1 == 0 && ok {
                    let is_import = occurrence.symbol_roles & 2 != 0;
                    crate::index_laws::lemma_reference(with, document, symbol, range, is_import);
                    let slot = crate::table::slot_in(after.reference_paths, path);
                    assert(after.reference_paths.contains(path)) by {
                        if !with.reference_paths.contains(path) {
                            assert(after.reference_paths[with.reference_paths.len() as int]
                                == path);
                        }
                    }
                    assert(after.reference_paths[slot] == path);
                    let row = crate::table::row_of(with.references, symbol);
                    assert forall|s: Seq<char>, stored: StoredReference|
                        after.references.contains_key(s) && #[trigger] after.references[s].contains(
                            stored,
                        ) && !(index.references.contains_key(s) && index.references[s].contains(
                            stored,
                        )) implies is_use(after, s, stored, document, one[0]) by {
                        let k = choose|k: int|
                            0 <= k < after.references[s].len() && after.references[s][k] == stored;
                        if s == symbol {
                            if k < row.len() {
                                assert(row[k] == stored);
                                assert(index.references[s].contains(stored));
                            }
                        }
                    }
                } else if ok {
                    assert forall|i: int|
                        index.definitions.len() <= i
                            < after.definitions.len() implies is_definition(
                        #[trigger] after.definitions[i],
                        document,
                        one[0],
                    ) by {}
                }
            }
        },
    }
}

/// What grew by some occurrences, and then by more, grew by all of them.
proof fn lemma_grown_on(
    a: IndexView,
    b: IndexView,
    c: IndexView,
    document: DocumentFacts,
    first: Seq<OccurrenceFacts>,
    last: OccurrenceFacts,
)
    requires
        crate::index_laws::extends(a, b),
        crate::index_laws::extends(b, c),
        grown_by(a, b, document, first),
        grown_by(b, c, document, seq![last]),
    ensures
        grown_by(a, c, document, first.push(last)),
{
    let all = first.push(last);
    assert(all[first.len() as int] == last);
    assert forall|i: int| a.definitions.len() <= i < c.definitions.len() implies exists|o: int|
        0 <= o < all.len() && is_definition(
            #[trigger] c.definitions[i],
            document,
            #[trigger] all[o],
        ) by {
        if i < b.definitions.len() {
            assert(b.definitions[i] == c.definitions[i]);
            let o = choose|o: int|
                0 <= o < first.len() && is_definition(
                    b.definitions[i],
                    document,
                    #[trigger] first[o],
                );
            assert(all[o] == first[o]);
        } else {
            let o = choose|o: int|
                0 <= o < seq![last].len() && is_definition(
                    c.definitions[i],
                    document,
                    #[trigger] seq![last][o],
                );
            assert(is_definition(c.definitions[i], document, all[first.len() as int]));
        }
    }
    assert forall|symbol: Seq<char>, stored: StoredReference|
        c.references.contains_key(symbol) && #[trigger] c.references[symbol].contains(stored) && !(
        a.references.contains_key(symbol) && a.references[symbol].contains(
            stored,
        )) implies exists|o: int|
        0 <= o < all.len() && is_use(c, symbol, stored, document, #[trigger] all[o]) by {
        if b.references.contains_key(symbol) && b.references[symbol].contains(stored) {
            let o = choose|o: int|
                0 <= o < first.len() && is_use(
                    b,
                    symbol,
                    stored,
                    document,
                    #[trigger] first[o],
                );
            assert(is_use(c, symbol, stored, document, all[o]));
        } else {
            let o = choose|o: int|
                0 <= o < seq![last].len() && is_use(
                    c,
                    symbol,
                    stored,
                    document,
                    #[trigger] seq![last][o],
                );
            assert(is_use(c, symbol, stored, document, all[first.len() as int]));
        }
    }
    assert forall|symbol: Seq<char>|
        #![trigger c.references.contains_key(symbol)]
        c.references.contains_key(symbol) && !a.references.contains_key(
            symbol,
        ) implies symbol.len() > 0 && !"local "@.is_prefix_of(symbol) by {
        if b.references.contains_key(symbol) {
        }
    }
    assert forall|symbol: Seq<char>| #[trigger]
        c.symbol_names.contains(symbol) && !a.symbol_names.contains(symbol) implies symbol.len() > 0
        && !"local "@.is_prefix_of(symbol) by {
        if b.symbol_names.contains(symbol) {
        }
    }
}

proof fn lemma_grown_steps(
    index: IndexView,
    document: DocumentFacts,
    occurrences: Seq<OccurrenceFacts>,
)
    requires
        crate::index_model::sound_rows(index),
    ensures
        ({
            let after = crate::index_model::added_occurrences(index, document, occurrences).0;
            grown_by(index, after, document, occurrences)
        }),
    decreases occurrences.len(),
{
    if occurrences.len() > 0 {
        let rest = occurrences.drop_last();
        let last = occurrences.last();
        lemma_grown_steps(index, document, rest);
        crate::index_laws::lemma_steps(index, document, rest);
        let (before, fits) = crate::index_model::added_occurrences(index, document, rest);
        assert(rest.push(last) =~= occurrences);
        if fits {
            let after = crate::index_model::added_occurrence(before, document, last).0;
            lemma_grown_step(before, document, last);
            crate::index_laws::lemma_step(before, document, last);
            lemma_grown_on(index, before, after, document, rest, last);
        } else {
            assert(grown_by(before, before, document, seq![last]));
            assert(crate::index_laws::extends(before, before));
            lemma_grown_on(index, before, before, document, rest, last);
        }
    }
}

/// Whether a definition is what some occurrence of the documents says.
spec fn is_defined_in(definition: DefinitionView, documents: Seq<DocumentFacts>) -> bool {
    exists|d: int, o: int|
        0 <= d < documents.len() && 0 <= o < documents[d].occurrences.len() && is_definition(
            definition,
            documents[d],
            #[trigger] documents[d].occurrences[o],
        )
}

/// Whether all that `after` has and `before` has not is what some occurrence of
/// the documents says.
spec fn grown_by_documents(
    before: IndexView,
    after: IndexView,
    documents: Seq<DocumentFacts>,
) -> bool {
    &&& forall|i: int|
        before.definitions.len() <= i < after.definitions.len() ==> is_defined_in(
            #[trigger] after.definitions[i],
            documents,
        )
    &&& forall|symbol: Seq<char>, stored: StoredReference|
        after.references.contains_key(symbol) && #[trigger] after.references[symbol].contains(
            stored,
        ) && !(before.references.contains_key(symbol) && before.references[symbol].contains(stored))
            ==> exists|d: int, o: int|
            0 <= d < documents.len() && 0 <= o < documents[d].occurrences.len() && is_use(
                after,
                symbol,
                stored,
                documents[d],
                #[trigger] documents[d].occurrences[o],
            )
    &&& forall|symbol: Seq<char>|
        #![trigger after.references.contains_key(symbol)]
        after.references.contains_key(symbol) && !before.references.contains_key(symbol)
            ==> symbol.len() > 0 && !"local "@.is_prefix_of(symbol)
    &&& forall|symbol: Seq<char>| #[trigger]
        after.symbol_names.contains(symbol) && !before.symbol_names.contains(symbol)
            ==> symbol.len() > 0 && !"local "@.is_prefix_of(symbol)
}

proof fn lemma_grown_documents(index: IndexView, documents: Seq<DocumentFacts>)
    requires
        crate::index_model::sound_rows(index),
    ensures
        grown_by_documents(
            index,
            crate::index_model::added_documents(index, documents).0,
            documents,
        ),
    decreases documents.len(),
{
    if documents.len() > 0 {
        let rest = documents.drop_last();
        let last = documents.last();
        lemma_grown_documents(index, rest);
        crate::index_laws::lemma_documents(index, rest);
        let (b, fits) = crate::index_model::added_documents(index, rest);
        let c = crate::index_model::added_documents(index, documents).0;
        if fits {
            lemma_grown_steps(b, last, last.occurrences);
            crate::index_laws::lemma_steps(b, last, last.occurrences);
        } else {
            assert(grown_by(b, b, last, last.occurrences));
            assert(crate::index_laws::extends(b, b));
        }
        let n = documents.len() - 1;
        assert(documents[n] == last);
        assert forall|i: int|
            index.definitions.len() <= i < c.definitions.len() implies is_defined_in(
            #[trigger] c.definitions[i],
            documents,
        ) by {
            if i < b.definitions.len() {
                assert(b.definitions[i] == c.definitions[i]);
                let (d, o) = choose|d: int, o: int|
                    0 <= d < rest.len() && 0 <= o < rest[d].occurrences.len() && is_definition(
                        b.definitions[i],
                        rest[d],
                        #[trigger] rest[d].occurrences[o],
                    );
                assert(documents[d] == rest[d]);
                assert(is_definition(c.definitions[i], documents[d], documents[d].occurrences[o]));
            } else {
                let o = choose|o: int|
                    0 <= o < last.occurrences.len() && is_definition(
                        c.definitions[i],
                        last,
                        #[trigger] last.occurrences[o],
                    );
                assert(is_definition(c.definitions[i], documents[n], documents[n].occurrences[o]));
            }
        }
        assert forall|symbol: Seq<char>, stored: StoredReference|
            c.references.contains_key(symbol) && #[trigger] c.references[symbol].contains(stored)
                && !(index.references.contains_key(symbol) && index.references[symbol].contains(
                stored,
            )) implies exists|d: int, o: int|
            0 <= d < documents.len() && 0 <= o < documents[d].occurrences.len() && is_use(
                c,
                symbol,
                stored,
                documents[d],
                #[trigger] documents[d].occurrences[o],
            ) by {
            if b.references.contains_key(symbol) && b.references[symbol].contains(stored) {
                let (d, o) = choose|d: int, o: int|
                    0 <= d < rest.len() && 0 <= o < rest[d].occurrences.len() && is_use(
                        b,
                        symbol,
                        stored,
                        rest[d],
                        #[trigger] rest[d].occurrences[o],
                    );
                assert(documents[d] == rest[d]);
                assert(is_use(c, symbol, stored, documents[d], documents[d].occurrences[o]));
            } else {
                let o = choose|o: int|
                    0 <= o < last.occurrences.len() && is_use(
                        c,
                        symbol,
                        stored,
                        last,
                        #[trigger] last.occurrences[o],
                    );
                assert(is_use(c, symbol, stored, documents[n], documents[n].occurrences[o]));
            }
        }
        assert forall|symbol: Seq<char>| #[trigger]
            c.symbol_names.contains(symbol) && !index.symbol_names.contains(
                symbol,
            ) implies symbol.len() > 0 && !"local "@.is_prefix_of(symbol) by {
            if b.symbol_names.contains(symbol) {
            }
        }
        assert forall|symbol: Seq<char>|
            #![trigger c.references.contains_key(symbol)]
            c.references.contains_key(symbol) && !index.references.contains_key(
                symbol,
            ) implies symbol.len() > 0 && !"local "@.is_prefix_of(symbol) by {
            if b.references.contains_key(symbol) {
            }
        }
    }
}

/// The index holds no reference that neither it held before nor an occurrence
/// of the shard says: one of that symbol, in that file, with that range, that is
/// no definition, and an import where the reference is.
pub proof fn only_uses_are_stored(
    index: &SymbolIndex,
    documents: Seq<DocumentFacts>,
    symbol: Seq<char>,
    i: int,
)
    requires
        index.wf(),
        crate::index_model::added_shard(index@, documents).0.references.contains_key(symbol),
        0 <= i < crate::index_model::added_shard(index@, documents).0.references[symbol].len(),
        index@.references.contains_key(symbol) ==> !index@.references[symbol].contains(
            crate::index_model::added_shard(index@, documents).0.references[symbol][i],
        ),
    ensures
        ({
            let after = crate::index_model::added_shard(index@, documents).0;
            let stored = after.references[symbol][i];
            exists|d: int, o: int|
                0 <= d < documents.len() && 0 <= o < documents[d].occurrences.len() && {
                    let occurrence = #[trigger] documents[d].occurrences[o];
                    &&& occurrence.symbol == symbol
                    &&& !"local "@.is_prefix_of(symbol)
                    &&& occurrence.symbol_roles & 1 == 0
                    &&& stored.is_import == (occurrence.symbol_roles & 2 != 0)
                    &&& crate::span::range_of(occurrence.range) == Some(stored.range)
                    &&& stored.path < after.reference_paths.len()
                    &&& after.reference_paths[stored.path as int] == documents[d].relative_path
                    &&& stored.encoding is Utf8 <==> documents[d].position_encoding == 1
                    &&& stored.encoding is Utf32 <==> documents[d].position_encoding == 3
                }
        }),
{
    index.lemma_sound_rows();
    let start = IndexView { shards: index@.shards + 1, ..index@ };
    crate::index_model::lemma_same_rows(index@, start);
    lemma_grown_documents(start, documents);
    let after = crate::index_model::added_shard(index@, documents).0;
    let stored = after.references[symbol][i];
    assert(after.references[symbol].contains(stored));
    let (d, o) = choose|d: int, o: int|
        0 <= d < documents.len() && 0 <= o < documents[d].occurrences.len() && is_use(
            after,
            symbol,
            stored,
            documents[d],
            #[trigger] documents[d].occurrences[o],
        );
    assert(documents[d].occurrences[o].symbol == symbol);
}

/// A definition that a shard adds is made of one of its defining occurrences and
/// what that document says about the symbol.
pub proof fn only_definitions_are_added(
    index: &SymbolIndex,
    documents: Seq<DocumentFacts>,
    i: int,
)
    requires
        index.wf(),
        index@.definitions.len() <= i,
        i < crate::index_model::added_shard(index@, documents).0.definitions.len(),
    ensures
        ({
            let definition = crate::index_model::added_shard(index@, documents).0.definitions[i];
            exists|d: int, o: int|
                0 <= d < documents.len() && 0 <= o < documents[d].occurrences.len() && {
                    let occurrence = #[trigger] documents[d].occurrences[o];
                    &&& occurrence.symbol_roles & 1 != 0
                    &&& !"local "@.is_prefix_of(occurrence.symbol)
                    &&& crate::span::range_of(occurrence.range) == Some(definition.range)
                    &&& definition == crate::index_model::definition_at(
                        documents[d],
                        occurrence,
                        definition.range,
                    )
                }
        }),
{
    index.lemma_sound_rows();
    let start = IndexView { shards: index@.shards + 1, ..index@ };
    crate::index_model::lemma_same_rows(index@, start);
    lemma_grown_documents(start, documents);
    let definition = crate::index_model::added_shard(index@, documents).0.definitions[i];
    assert(is_defined_in(definition, documents));
    let (d, o) = choose|d: int, o: int|
        0 <= d < documents.len() && 0 <= o < documents[d].occurrences.len() && is_definition(
            definition,
            documents[d],
            #[trigger] documents[d].occurrences[o],
        );
    assert(documents[d].occurrences[o].symbol_roles & 1 != 0);
}

/// No definition, no reference and no symbol name of an index is that of a
/// local, whatever shards go into it.
pub proof fn no_local_is_named(shards: Seq<Seq<DocumentFacts>>)
    ensures
        ({
            let index = crate::index_laws::added_shards(crate::index_model::empty_index(), shards);
            &&& forall|i: int|
                0 <= i < index.definitions.len() ==> !"local "@.is_prefix_of(
                    (#[trigger] index.definitions[i]).symbol,
                )
            &&& forall|symbol: Seq<char>| #[trigger]
                index.references.contains_key(symbol) ==> !"local "@.is_prefix_of(symbol)
            &&& forall|i: int|
                0 <= i < index.symbol_names.len() ==> !"local "@.is_prefix_of(
                    #[trigger] index.symbol_names[i],
                )
        }),
    decreases shards.len(),
{
    let start = crate::index_model::empty_index();
    if shards.len() > 0 {
        let rest = shards.drop_last();
        no_local_is_named(rest);
        crate::index_laws::lemma_shards(start, rest);
        lemma_no_local(crate::index_laws::added_shards(start, rest), shards.last());
    }
}

/// A shard brings no local into an index that names none.
proof fn lemma_no_local(index: IndexView, documents: Seq<DocumentFacts>)
    requires
        crate::index_model::sound_rows(index),
        forall|i: int|
            0 <= i < index.definitions.len() ==> !"local "@.is_prefix_of(
                (#[trigger] index.definitions[i]).symbol,
            ),
        forall|symbol: Seq<char>| #[trigger]
            index.references.contains_key(symbol) ==> !"local "@.is_prefix_of(symbol),
        forall|i: int|
            0 <= i < index.symbol_names.len() ==> !"local "@.is_prefix_of(
                #[trigger] index.symbol_names[i],
            ),
    ensures
        ({
            let after = crate::index_model::added_shard(index, documents).0;
            &&& forall|i: int|
                0 <= i < after.definitions.len() ==> !"local "@.is_prefix_of(
                    (#[trigger] after.definitions[i]).symbol,
                )
            &&& forall|symbol: Seq<char>| #[trigger]
                after.references.contains_key(symbol) ==> !"local "@.is_prefix_of(symbol)
            &&& forall|i: int|
                0 <= i < after.symbol_names.len() ==> !"local "@.is_prefix_of(
                    #[trigger] after.symbol_names[i],
                )
        }),
{
    let start = IndexView { shards: index.shards + 1, ..index };
    crate::index_model::lemma_same_rows(index, start);
    lemma_grown_documents(start, documents);
    crate::index_laws::lemma_shard(index, documents);
    let after = crate::index_model::added_shard(index, documents).0;
    assert forall|i: int| 0 <= i < after.definitions.len() implies !"local "@.is_prefix_of(
        (#[trigger] after.definitions[i]).symbol,
    ) by {
        if i < index.definitions.len() {
            assert(after.definitions[i] == index.definitions[i]);
        } else {
            assert(is_defined_in(after.definitions[i], documents));
        }
    }
    assert forall|i: int| 0 <= i < after.symbol_names.len() implies !"local "@.is_prefix_of(
        #[trigger] after.symbol_names[i],
    ) by {
        let name = after.symbol_names[i];
        assert(after.symbol_names.contains(name));
        if index.symbol_names.contains(name) {
            let k = choose|k: int|
                0 <= k < index.symbol_names.len() && index.symbol_names[k] == name;
            assert(!"local "@.is_prefix_of(index.symbol_names[k]));
        }
    }
}

proof fn lemma_last_facts(
    symbols: Seq<crate::shard::SymbolFacts>,
    symbol: Seq<char>,
    at: int,
)
    requires
        0 <= at < symbols.len(),
        symbols[at].symbol == symbol,
        forall|i: int| at < i < symbols.len() ==> (#[trigger] symbols[i]).symbol != symbol,
    ensures
        crate::index_model::facts_about(symbols, symbol) == Some(symbols[at]),
    decreases symbols.len(),
{
    if at < symbols.len() - 1 {
        assert(symbols[symbols.len() - 1].symbol != symbol);
        let rest = symbols.drop_last();
        assert forall|i: int| at < i < rest.len() implies (#[trigger] rest[i]).symbol != symbol by {
            assert(rest[i] == symbols[i]);
        }
        lemma_last_facts(rest, symbol, at);
    }
}

proof fn lemma_no_facts(symbols: Seq<crate::shard::SymbolFacts>, symbol: Seq<char>)
    requires
        forall|i: int| 0 <= i < symbols.len() ==> (#[trigger] symbols[i]).symbol != symbol,
    ensures
        crate::index_model::facts_about(symbols, symbol) is None,
    decreases symbols.len(),
{
    if symbols.len() > 0 {
        assert(symbols[symbols.len() - 1].symbol != symbol);
        let rest = symbols.drop_last();
        assert forall|i: int| 0 <= i < rest.len() implies (#[trigger] rest[i]).symbol != symbol by {
            assert(rest[i] == symbols[i]);
        }
        lemma_no_facts(rest, symbol);
    }
}

proof fn lemma_implemented(relationships: Seq<(Seq<char>, bool)>, s: Seq<char>)
    ensures
        crate::index_model::implemented(relationships).contains(s) <==> exists|i: int|
            0 <= i < relationships.len() && #[trigger] relationships[i] == (s, true),
        crate::index_model::implemented(relationships).len() <= relationships.len(),
    decreases relationships.len(),
{
    if relationships.len() > 0 {
        let rest = relationships.drop_last();
        let last = relationships.last();
        let before = crate::index_model::implemented(rest);
        let all = crate::index_model::implemented(relationships);
        lemma_implemented(rest, s);
        if all.contains(s) {
            let k = choose|k: int| 0 <= k < all.len() && all[k] == s;
            if last.1 && k == before.len() {
                assert(relationships[relationships.len() - 1] == (s, true));
            } else {
                assert(before[k] == s);
                assert(before.contains(s));
                let i = choose|i: int| 0 <= i < rest.len() && #[trigger] rest[i] == (s, true);
                assert(relationships[i] == (s, true));
            }
        }
        if exists|i: int| 0 <= i < relationships.len() && #[trigger] relationships[i] == (s, true) {
            let i = choose|i: int|
                0 <= i < relationships.len() && #[trigger] relationships[i] == (s, true);
            if i < rest.len() {
                assert(rest[i] == (s, true));
                assert(before.contains(s));
                let k = choose|k: int| 0 <= k < before.len() && before[k] == s;
                assert(all[k] == s);
            } else {
                assert(all[before.len() as int] == s);
            }
        }
    }
}


/// A symbol is defined once at a place: a definition of the same symbol in the
/// same file at the same range changes nothing, and any other is added behind
/// the rest as it is.
pub proof fn places_are_defined_once(index: IndexView, definition: DefinitionView)
    ensures
        ({
            let after = crate::index_model::inserted(index, definition);
            let known = exists|i: int|
                0 <= i < index.definitions.len() && (#[trigger] index.definitions[i]).symbol
                    == definition.symbol && index.definitions[i].path == definition.path
                    && index.definitions[i].range.start_line == definition.range.start_line
                    && index.definitions[i].range.start_col == definition.range.start_col
                    && index.definitions[i].range.end_line == definition.range.end_line
                    && index.definitions[i].range.end_col == definition.range.end_col;
            &&& known ==> after == index
            &&& !known ==> after.definitions == index.definitions.push(definition)
            &&& after.references == index.references
            &&& after.occurrences == index.occurrences
            &&& after.symbol_names == index.symbol_names
            &&& after.reference_paths == index.reference_paths
            &&& after.shards == index.shards
        }),
{
    if crate::index_model::site_known(index.definitions, definition) {
        let i = choose|i: int|
            0 <= i < index.definitions.len() && (#[trigger] index.definitions[i]).path
                == definition.path && index.definitions[i].symbol == definition.symbol
                && index.definitions[i].range == definition.range;
        assert(index.definitions[i].symbol == definition.symbol);
    }
}

/// An index without shards holds nothing, and counts every shard that goes in.
pub proof fn shards_are_counted(index: &SymbolIndex, documents: Seq<DocumentFacts>)
    requires
        index.wf(),
    ensures
        crate::index_model::empty_index().definitions.len() == 0,
        crate::index_model::empty_index().references.dom() =~= Set::<Seq<char>>::empty(),
        crate::index_model::empty_index().occurrences.dom() =~= Set::<Seq<char>>::empty(),
        crate::index_model::empty_index().symbol_names.len() == 0,
        crate::index_model::empty_index().shards == 0,
        crate::index_model::added_shard(index@, documents).0.shards == index@.shards + 1,
{
    index.lemma_sound_rows();
    crate::index_laws::lemma_shard(index@, documents);
}

/// The tables of an index lead from a path, from a name in lower case and from a
/// symbol to the definitions that have it, and to no other.
pub proof fn tables_lead_to_definitions(
    definitions: Seq<DefinitionView>,
    key: Seq<char>,
    i: usize,
)
    requires
        definitions.len() <= usize::MAX,
        i < definitions.len(),
    ensures
        crate::definition::looked_up(definitions, Lookup::Path, key).contains(i) <==> definitions[i
            as int].path == key,
        crate::definition::looked_up(definitions, Lookup::Name, key).contains(i)
            <==> crate::text::lowercased(definitions[i as int].name) == key,
        crate::definition::looked_up(definitions, Lookup::Symbol, key).contains(i)
            <==> definitions[i as int].symbol == key && forall|j: int|
            0 <= j < i ==> (#[trigger] definitions[j]).symbol != key,
{
    crate::definition::lemma_rows_for(definitions, Column::Path, key);
    crate::definition::lemma_rows_for(definitions, Column::Name, key);
    crate::definition::lemma_rows_for(definitions, Column::Symbol, key);
    let by_path = crate::definition::rows_for(definitions, Column::Path, key);
    let by_name = crate::definition::rows_for(definitions, Column::Name, key);
    let by_symbol = crate::definition::rows_for(definitions, Column::Symbol, key);
    if by_path.contains(i) {
        let k = choose|k: int| 0 <= k < by_path.len() && by_path[k] == i;
        assert(crate::definition::cell(definitions[by_path[k] as int], Column::Path) == key);
    }
    if definitions[i as int].path == key {
        assert(crate::definition::cell(definitions[i as int], Column::Path) == key);
    }
    if by_name.contains(i) {
        let k = choose|k: int| 0 <= k < by_name.len() && by_name[k] == i;
        assert(crate::definition::cell(definitions[by_name[k] as int], Column::Name) == key);
    }
    if crate::text::lowercased(definitions[i as int].name) == key {
        assert(crate::definition::cell(definitions[i as int], Column::Name) == key);
    }
    let first = crate::definition::first_row(by_symbol);
    if first.contains(i) {
        assert(first.len() == 1);
        assert(by_symbol[0] == i);
        assert(crate::definition::cell(definitions[i as int], Column::Symbol) == key);
        assert forall|j: int| 0 <= j < i implies (#[trigger] definitions[j]).symbol != key by {
            if definitions[j].symbol == key {
                assert(crate::definition::cell(definitions[j], Column::Symbol) == key);
                assert(by_symbol.contains(j as usize));
                let k = choose|k: int| 0 <= k < by_symbol.len() && by_symbol[k] == j as usize;
            }
        }
    }
    if definitions[i as int].symbol == key && forall|j: int|
        0 <= j < i ==> (#[trigger] definitions[j]).symbol != key {
        assert(crate::definition::cell(definitions[i as int], Column::Symbol) == key);
        assert(by_symbol.contains(i));
        let k = choose|k: int| 0 <= k < by_symbol.len() && by_symbol[k] == i;
        if k > 0 {
            assert(by_symbol[0] < by_symbol[k]);
            assert(crate::definition::cell(definitions[by_symbol[0] as int], Column::Symbol)
                == key);
        }
        assert(first[0] == i);
    }
}

} // verus!
