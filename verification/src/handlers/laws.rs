//! What the answers say, field by field.
use vstd::prelude::*;

use crate::definition::{DefinitionView, SymbolKind};
use crate::handlers::references::ReferenceResults;
use crate::handlers::Location;
use crate::index_model::IndexView;
use crate::line_index::{LinePosition, PositionEncoding};
use crate::span::Range;

verus! {

/// Where a file counts columns as the client does, a span is shown as it is
/// stored, in all four numbers.
pub proof fn agreeing_columns_pass_through<F: Fn(&str) -> Option<String>>(
    read: F,
    path: Seq<char>,
    raw: Range,
    from: crate::span::PositionEncoding,
    client: PositionEncoding,
    range: crate::handlers::ClientRange,
)
    requires
        crate::handlers::shown(read, path, raw, from, client, range),
        from is Utf8 <==> client is Utf8,
    ensures
        range.start.line == raw.start_line,
        range.start.character == raw.start_col,
        range.end.line == raw.end_line,
        range.end.character == raw.end_col,
{
}

/// Every stored reference to a symbol is among the locations given, while there
/// are no more than a response carries: in the file that its path names, and
/// where columns are counted alike, from its first line and column to its last.
pub proof fn stored_references_are_given<F: Fn(&str) -> Option<String>>(
    results: ReferenceResults,
    index: IndexView,
    symbol: Seq<char>,
    declaration: bool,
    here: Seq<char>,
    read: F,
    root: Seq<char>,
    client: PositionEncoding,
    i: int,
)
    requires
        crate::handlers::references::answers(
            results,
            index,
            symbol,
            declaration,
            here,
            read,
            root,
            client,
        ),
        results.total <= 5000,
        index.references.contains_key(symbol),
        0 <= i < index.references[symbol].len(),
    ensures
        ({
            let stored = index.references[symbol][i];
            let path = index.reference_paths[stored.path as int];
            exists|k: int|
                0 <= k < results.locations@.len() && {
                    let location = #[trigger] results.locations@[k];
                    &&& Some(location.uri@) == crate::uri::file_url(
                        crate::paths::joined_path(root, path),
                    )
                    &&& crate::handlers::shown(
                        read,
                        path,
                        stored.range,
                        stored.encoding,
                        client,
                        location.range,
                    )
                    &&& (stored.encoding is Utf8 <==> client is Utf8) ==> {
                        &&& location.range.start.line == stored.range.start_line
                        &&& location.range.start.character == stored.range.start_col
                        &&& location.range.end.line == stored.range.end_line
                        &&& location.range.end.character == stored.range.end_col
                    }
                }
        }),
{
    let hits = crate::handlers::references::all_hits(index, symbol, declaration);
    let rows = choose|rows: Seq<usize>| #[trigger]
        crate::handlers::references::is_hit_order(hits, here, rows)
            && crate::handlers::references::are_first(
            results.locations@,
            hits,
            rows,
            read,
            root,
            client,
        );
    let stored = index.references[symbol];
    let first = hits.len() - stored.len();
    let at = (first + i) as usize;
    assert(at == first + i);
    assert(rows.contains(at));
    let k = choose|k: int| 0 <= k < rows.len() && rows[k] == at;
    let location = results.locations@[k];
    let hit = hits[rows[k] as int];
    assert(hit.range == stored[i].range);
    assert(hit.encoding == stored[i].encoding);
    assert(hit.path == index.reference_paths[stored[i].path as int]);
}

/// Every location given is that of a stored reference, or, where declarations
/// are asked for, that of a definition of the symbol.
pub proof fn only_references_are_given<F: Fn(&str) -> Option<String>>(
    results: ReferenceResults,
    index: IndexView,
    symbol: Seq<char>,
    declaration: bool,
    here: Seq<char>,
    read: F,
    root: Seq<char>,
    client: PositionEncoding,
    k: int,
)
    requires
        crate::handlers::references::answers(
            results,
            index,
            symbol,
            declaration,
            here,
            read,
            root,
            client,
        ),
        0 <= k < results.locations@.len(),
    ensures
        ({
            let location = results.locations@[k];
            ||| index.references.contains_key(symbol) && exists|i: int|
                0 <= i < index.references[symbol].len() && {
                    let stored = #[trigger] index.references[symbol][i];
                    let path = index.reference_paths[stored.path as int];
                    &&& Some(location.uri@) == crate::uri::file_url(
                        crate::paths::joined_path(root, path),
                    )
                    &&& crate::handlers::shown(
                        read,
                        path,
                        stored.range,
                        stored.encoding,
                        client,
                        location.range,
                    )
                    &&& (stored.encoding is Utf8 <==> client is Utf8) ==> {
                        &&& location.range.start.line == stored.range.start_line
                        &&& location.range.start.character == stored.range.start_col
                        &&& location.range.end.line == stored.range.end_line
                        &&& location.range.end.character == stored.range.end_col
                    }
                }
            ||| declaration && exists|d: int|
                0 <= d < index.definitions.len() && {
                    let definition = #[trigger] index.definitions[d];
                    &&& definition.symbol == symbol
                    &&& Some(location.uri@) == crate::uri::file_url(
                        crate::paths::joined_path(root, definition.path),
                    )
                    &&& crate::handlers::shown(
                        read,
                        definition.path,
                        definition.range,
                        definition.encoding,
                        client,
                        location.range,
                    )
                    &&& (definition.encoding is Utf8 <==> client is Utf8) ==> {
                        &&& location.range.start.line == definition.range.start_line
                        &&& location.range.start.character == definition.range.start_col
                        &&& location.range.end.line == definition.range.end_line
                        &&& location.range.end.character == definition.range.end_col
                    }
                }
        }),
{
    let hits = crate::handlers::references::all_hits(index, symbol, declaration);
    let rows = choose|rows: Seq<usize>| #[trigger]
        crate::handlers::references::is_hit_order(hits, here, rows)
            && crate::handlers::references::are_first(
            results.locations@,
            hits,
            rows,
            read,
            root,
            client,
        );
    let location = results.locations@[k];
    assert(rows.contains(rows[k]));
    let row = crate::table::row_of(index.references, symbol);
    let first = hits.len() - row.len();
    let hit = hits[rows[k] as int];
    if rows[k] >= first {
        let i = rows[k] - first;
        let stored = index.references[symbol][i];
        assert(hit.range == stored.range);
        assert(hit.encoding == stored.encoding);
        assert(hit.path == index.reference_paths[stored.path as int]);
    } else {
        lemma_defined(index.definitions, symbol);
        let d = choose|d: int|
            0 <= d < index.definitions.len() && (#[trigger] index.definitions[d]).symbol == symbol
                && Some(index.definitions[d]) == crate::handlers::first_definition(
                index.definitions,
                symbol,
            );
        let definition = index.definitions[d];
        assert(hit.range == definition.range);
        assert(hit.encoding == definition.encoding);
        assert(hit.path == definition.path);
    }
}

/// All references are counted, and the declaration too where it is asked for
/// and there is one. No more are given than a response carries, and no fewer
/// than fit.
pub proof fn references_are_counted<F: Fn(&str) -> Option<String>>(
    results: ReferenceResults,
    index: IndexView,
    symbol: Seq<char>,
    declaration: bool,
    here: Seq<char>,
    read: F,
    root: Seq<char>,
    client: PositionEncoding,
)
    requires
        crate::handlers::references::answers(
            results,
            index,
            symbol,
            declaration,
            here,
            read,
            root,
            client,
        ),
    ensures
        ({
            let stored = if index.references.contains_key(symbol) {
                index.references[symbol].len()
            } else {
                0
            };
            let defined = exists|d: int|
                0 <= d < index.definitions.len() && (#[trigger] index.definitions[d]).symbol
                    == symbol;
            results.total == stored + (if declaration && defined {
                1int
            } else {
                0int
            })
        }),
        results.symbol@ == symbol,
        results.total <= 5000 ==> results.locations@.len() == results.total,
        results.total > 5000 ==> results.locations@.len() == 5000,
{
    lemma_defined(index.definitions, symbol);
}

/// A symbol has a first definition where it has any, and that is the first.
pub proof fn lemma_defined(definitions: Seq<DefinitionView>, symbol: Seq<char>)
    ensures
        crate::handlers::first_definition(definitions, symbol) is Some <==> exists|d: int|
            0 <= d < definitions.len() && (#[trigger] definitions[d]).symbol == symbol,
        crate::handlers::first_definition(definitions, symbol) is Some ==> exists|d: int|
            0 <= d < definitions.len() && (#[trigger] definitions[d]).symbol == symbol && Some(
                definitions[d],
            ) == crate::handlers::first_definition(definitions, symbol) && forall|j: int|
                0 <= j < d ==> (#[trigger] definitions[j]).symbol != symbol,
{
    if exists|d: int| 0 <= d < definitions.len() && (#[trigger] definitions[d]).symbol == symbol {
        let some = choose|d: int|
            0 <= d < definitions.len() && (#[trigger] definitions[d]).symbol == symbol;
        let d = lemma_least(definitions, symbol, some);
        crate::handlers::lemma_first_definition(definitions, symbol, d);
        assert(definitions[d].symbol == symbol);
    } else {
        assert forall|j: int| 0 <= j < definitions.len() implies (#[trigger] definitions[j]).symbol
            != symbol by {}
        crate::handlers::lemma_first_definition(definitions, symbol, definitions.len() as int);
    }
}

proof fn lemma_least(definitions: Seq<DefinitionView>, symbol: Seq<char>, some: int) -> (d: int)
    requires
        0 <= some < definitions.len(),
        definitions[some].symbol == symbol,
    ensures
        0 <= d <= some,
        definitions[d].symbol == symbol,
        forall|j: int| 0 <= j < d ==> (#[trigger] definitions[j]).symbol != symbol,
    decreases some,
{
    if exists|j: int| 0 <= j < some && (#[trigger] definitions[j]).symbol == symbol {
        let j = choose|j: int| 0 <= j < some && (#[trigger] definitions[j]).symbol == symbol;
        lemma_least(definitions, symbol, j)
    } else {
        some
    }
}

/// What is shown of a definition begins with its signature as a block of Java,
/// where it has one. That alone is shown where it has no documentation, and its
/// name where it has neither.
pub proof fn hover_begins_with_the_signature(definition: DefinitionView, text: Seq<char>)
    requires
        text == crate::handlers::hover::hover_text(definition),
    ensures
        definition.signature.len() > 0 ==> ("```java\n"@ + definition.signature
            + "\n```"@).is_prefix_of(text),
        definition.signature.len() > 0 && definition.documentation.len() == 0 ==> text
            == "```java\n"@ + definition.signature + "\n```"@,
        definition.signature.len() == 0 && definition.documentation.len() == 0 ==> text
            == definition.name,
        definition.signature.len() == 0 && definition.documentation.len() == 1 ==> text
            == definition.documentation[0],
    decreases definition.documentation.len(),
{
    let block = "```java\n"@ + definition.signature + "\n```"@;
    let all = crate::handlers::hover::paragraphs(definition);
    if definition.documentation.len() == 0 {
        if definition.signature.len() > 0 {
            assert(all =~= seq![block]);
        } else {
            assert(all =~= seq![definition.name]);
        }
    } else if definition.signature.len() > 0 {
        let rest = definition.documentation.drop_last();
        let shorter = DefinitionView { documentation: rest, ..definition };
        let before = crate::handlers::hover::hover_text(shorter);
        hover_grows_by_paragraphs(shorter, definition.documentation.last());
        assert(rest.push(definition.documentation.last()) =~= definition.documentation);
        assert(DefinitionView {
            documentation: rest.push(definition.documentation.last()),
            ..shorter
        } == definition);
        hover_begins_with_the_signature(shorter, before);
        assert(block.is_prefix_of(before));
        assert(text == before + "\n\n"@ + definition.documentation.last());
        assert(before.is_prefix_of(text));
    } else if definition.documentation.len() == 1 {
        assert(all =~= seq![definition.documentation[0]]);
    }
}

/// One more text of documentation is shown behind all the rest, after a blank
/// line.
pub proof fn hover_grows_by_paragraphs(definition: DefinitionView, more: Seq<char>)
    requires
        definition.signature.len() > 0 || definition.documentation.len() > 0,
    ensures
        crate::handlers::hover::hover_text(
            DefinitionView {
                documentation: definition.documentation.push(more),
                ..definition
            },
        ) == crate::handlers::hover::hover_text(definition) + "\n\n"@ + more,
{
    let longer = DefinitionView {
        documentation: definition.documentation.push(more),
        ..definition
    };
    let parts = crate::handlers::hover::paragraphs(definition);
    let all = crate::handlers::hover::paragraphs(longer);
    assert(all =~= parts.push(more));
    assert(all.drop_last() =~= parts);
}

/// Every text of a definition's documentation is shown whole, in the order in
/// which it stands there, behind the signature where there is one.
pub proof fn hover_shows_the_documentation(definition: DefinitionView, text: Seq<char>) -> (at: Seq<
    int,
>)
    requires
        text == crate::handlers::hover::hover_text(definition),
    ensures
        at.len() == definition.documentation.len(),
        forall|i: int|
            0 <= i < at.len() ==> 0 <= #[trigger] at[i] && at[i] + definition.documentation[i].len()
                <= text.len() && text.subrange(
                at[i],
                at[i] + definition.documentation[i].len(),
            ) == definition.documentation[i],
        forall|i: int, j: int|
            0 <= i < j < at.len() ==> #[trigger] at[i] + definition.documentation[i].len()
                <= #[trigger] at[j],
        definition.signature.len() > 0 ==> forall|i: int|
            0 <= i < at.len() ==> ("```java\n"@ + definition.signature + "\n```"@).len()
                <= #[trigger] at[i],
    decreases definition.documentation.len(),
{
    if definition.documentation.len() == 0 {
        Seq::empty()
    } else {
        let rest = definition.documentation.drop_last();
        let last = definition.documentation.last();
        let shorter = DefinitionView { documentation: rest, ..definition };
        let before = crate::handlers::hover::hover_text(shorter);
        let marks = hover_shows_the_documentation(shorter, before);
        assert(rest.push(last) =~= definition.documentation);
        assert(DefinitionView { documentation: rest.push(last), ..shorter } == definition);
        hover_begins_with_the_signature(shorter, before);
        hover_begins_with_the_signature(definition, text);
        if rest.len() > 0 || definition.signature.len() > 0 {
            hover_grows_by_paragraphs(shorter, last);
            let n = before.len() + "\n\n"@.len() as int;
            let at = marks.push(n);
            assert(text == before + "\n\n"@ + last);
            assert(text.subrange(n, n + last.len()) =~= last);
            assert forall|i: int| 0 <= i < at.len() implies 0 <= #[trigger] at[i] && at[i]
                + definition.documentation[i].len() <= text.len() && text.subrange(
                at[i],
                at[i] + definition.documentation[i].len(),
            ) == definition.documentation[i] by {
                if i < marks.len() {
                    let shown = definition.documentation[i];
                    assert(rest[i] == shown);
                    assert(at[i] == marks[i]);
                    assert(text.subrange(at[i], at[i] + shown.len()) =~= before.subrange(
                        marks[i],
                        marks[i] + shown.len(),
                    ));
                }
            }
            assert forall|i: int, j: int| 0 <= i < j < at.len() implies #[trigger] at[i]
                + definition.documentation[i].len() <= #[trigger] at[j] by {
                assert(at[i] == marks[i]);
                assert(rest[i] == definition.documentation[i]);
                if j < marks.len() {
                    assert(at[j] == marks[j]);
                }
            }
            at
        } else {
            assert(text == last);
            assert(text.subrange(0, last.len() as int) =~= last);
            seq![0int]
        }
    }
}

/// An implementation is given for every definition that names the symbol among
/// its supertypes.
pub proof fn implementors_are_given<F: Fn(&str) -> Option<String>>(
    locations: Seq<Location>,
    definitions: Seq<DefinitionView>,
    symbol: Seq<char>,
    read: F,
    root: Seq<char>,
    client: PositionEncoding,
    d: int,
)
    requires
        definitions.len() <= usize::MAX,
        crate::handlers::implementations::locates_rows(
            locations,
            definitions,
            crate::definition::implementor_rows(definitions, symbol),
            read,
            root,
            client,
        ),
        0 <= d < definitions.len(),
        definitions[d].implements.contains(symbol),
    ensures
        exists|k: int|
            0 <= k < locations.len() && {
                let location = #[trigger] locations[k];
                &&& Some(location.uri@) == crate::uri::file_url(
                    crate::paths::joined_path(root, definitions[d].path),
                )
                &&& (definitions[d].encoding is Utf8 <==> client is Utf8) ==> {
                    &&& location.range.start.line == definitions[d].range.start_line
                    &&& location.range.start.character == definitions[d].range.start_col
                    &&& location.range.end.line == definitions[d].range.end_line
                    &&& location.range.end.character == definitions[d].range.end_col
                }
            },
{
    lemma_implementor_listed(definitions, symbol, d);
    let rows = crate::definition::implementor_rows(definitions, symbol);
    let k = choose|k: int| 0 <= k < rows.len() && rows[k] == d as usize;
    let location = locations[k];
}

/// Every implementation given is where a definition stands that names the
/// symbol among its supertypes.
pub proof fn only_implementors_are_given<F: Fn(&str) -> Option<String>>(
    locations: Seq<Location>,
    definitions: Seq<DefinitionView>,
    symbol: Seq<char>,
    read: F,
    root: Seq<char>,
    client: PositionEncoding,
    k: int,
)
    requires
        definitions.len() <= usize::MAX,
        crate::handlers::implementations::locates_rows(
            locations,
            definitions,
            crate::definition::implementor_rows(definitions, symbol),
            read,
            root,
            client,
        ),
        0 <= k < locations.len(),
    ensures
        exists|d: int|
            0 <= d < definitions.len() && {
                let definition = #[trigger] definitions[d];
                &&& definition.implements.contains(symbol)
                &&& Some(locations[k].uri@) == crate::uri::file_url(
                    crate::paths::joined_path(root, definition.path),
                )
                &&& (definition.encoding is Utf8 <==> client is Utf8) ==> {
                    &&& locations[k].range.start.line == definition.range.start_line
                    &&& locations[k].range.start.character == definition.range.start_col
                    &&& locations[k].range.end.line == definition.range.end_line
                    &&& locations[k].range.end.character == definition.range.end_col
                }
            },
{
    crate::definition::lemma_implementor_rows(definitions, symbol);
    let d = crate::definition::implementor_rows(definitions, symbol)[k] as int;
    assert(definitions[d].implements.contains(symbol));
}

proof fn lemma_implementor_listed(definitions: Seq<DefinitionView>, symbol: Seq<char>, d: int)
    requires
        definitions.len() <= usize::MAX,
        0 <= d < definitions.len(),
        definitions[d].implements.contains(symbol),
    ensures
        crate::definition::implementor_rows(definitions, symbol).contains(d as usize),
    decreases definitions.len(),
{
    let head = definitions.drop_last();
    let rest = crate::definition::implementor_rows(head, symbol);
    let rows = crate::definition::implementor_rows(definitions, symbol);
    if d < head.len() {
        assert(head[d] == definitions[d]);
        lemma_implementor_listed(head, symbol, d);
        let k = choose|k: int| 0 <= k < rest.len() && rest[k] == d as usize;
        assert(rows[k] == d as usize);
    } else {
        let copies = crate::definition::row_copies(
            d as usize,
            definitions.last().implements,
            symbol,
        );
        lemma_copied(d as usize, definitions.last().implements, symbol);
        assert(rows[rest.len() as int] == copies[0]);
    }
}

proof fn lemma_copied(row: usize, list: Seq<Seq<char>>, key: Seq<char>)
    ensures
        list.contains(key) ==> crate::definition::row_copies(row, list, key).len() > 0,
        crate::definition::row_copies(row, list, key).len() > 0
            ==> crate::definition::row_copies(row, list, key)[0] == row,
    decreases list.len(),
{
    if list.len() > 0 {
        lemma_copied(row, list.drop_last(), key);
        if list.contains(key) && list.last() != key {
            let i = choose|i: int| 0 <= i < list.len() && list[i] == key;
            assert(list.drop_last()[i] == key);
        }
    }
}

/// What a cursor is on, for a client that counts UTF-16 code units: something
/// that starts at or before it on its file's row, and ends behind it. Nothing
/// there is narrower: nothing spans fewer lines, nor fewer columns on as many.
pub proof fn cursors_are_on_the_narrowest_range<F: Fn(&str) -> Option<String>>(
    index: IndexView,
    path: Seq<char>,
    position: LinePosition,
    read: F,
    symbol: Option<Seq<char>>,
)
    requires
        crate::handlers::under_cursor(
            index,
            path,
            position,
            PositionEncoding::Utf16,
            read,
            symbol,
        ),
    ensures
        symbol matches Some(symbol) ==> index.occurrences.contains_key(path) && exists|k: int|
            0 <= k < index.occurrences[path].len() && {
                let on = (#[trigger] index.occurrences[path][k]).range;
                &&& index.symbol_names[index.occurrences[path][k].symbol as int] == symbol
                &&& on.start_line < position.line || (on.start_line == position.line && on.start_col
                    <= position.character)
                &&& position.line < on.end_line || (position.line == on.end_line
                    && position.character < on.end_col)
                &&& forall|j: int|
                    0 <= j < index.occurrences[path].len() ==> {
                        let other = (#[trigger] index.occurrences[path][j]).range;
                        ||| position.line < other.start_line
                        ||| position.line == other.start_line && position.character
                            < other.start_col
                        ||| other.end_line < position.line
                        ||| other.end_line == position.line && other.end_col <= position.character
                        ||| on.end_line - on.start_line < other.end_line - other.start_line
                        ||| on.end_line - on.start_line == other.end_line - other.start_line && (
                        on.start_col <= on.end_col && other.start_col <= other.end_col
                            ==> on.end_col - on.start_col <= other.end_col - other.start_col)
                    }
            },
        symbol is None && index.occurrences.contains_key(path) ==> forall|j: int|
            0 <= j < index.occurrences[path].len() ==> {
                let other = (#[trigger] index.occurrences[path][j]).range;
                ||| position.line < other.start_line
                ||| position.line == other.start_line && position.character < other.start_col
                ||| other.end_line < position.line
                ||| other.end_line == position.line && other.end_col <= position.character
            },
{
    let row = crate::table::row_of(index.occurrences, path);
    if let Some(symbol) = symbol {
        let k = choose|k: int| #[trigger]
            crate::symbol_index::queries::is_under_cursor(
                row,
                position.line,
                position.character,
                k,
            ) && symbol == index.symbol_names[row[k].symbol as int];
        assert(index.occurrences[path][k] == row[k]);
        assert forall|j: int| 0 <= j < index.occurrences[path].len() implies ({
            let on = row[k].range;
            let other = (#[trigger] index.occurrences[path][j]).range;
            ||| position.line < other.start_line
            ||| position.line == other.start_line && position.character < other.start_col
            ||| other.end_line < position.line
            ||| other.end_line == position.line && other.end_col <= position.character
            ||| on.end_line - on.start_line < other.end_line - other.start_line
            ||| on.end_line - on.start_line == other.end_line - other.start_line && (on.start_col
                <= on.end_col && other.start_col <= other.end_col ==> on.end_col - on.start_col
                <= other.end_col - other.start_col)
        }) by {
            assert(row[j] == index.occurrences[path][j]);
        }
    }
}

/// What stands alone at a cursor is what the cursor is on.
pub proof fn a_cursor_inside_a_lone_range_is_on_it<F: Fn(&str) -> Option<String>>(
    index: IndexView,
    path: Seq<char>,
    position: LinePosition,
    read: F,
    symbol: Option<Seq<char>>,
    k: int,
)
    requires
        crate::handlers::under_cursor(
            index,
            path,
            position,
            PositionEncoding::Utf16,
            read,
            symbol,
        ),
        index.occurrences.contains_key(path),
        0 <= k < index.occurrences[path].len(),
        index.occurrences[path][k].range.start_line == position.line,
        index.occurrences[path][k].range.end_line == position.line,
        index.occurrences[path][k].range.start_col <= position.character,
        position.character < index.occurrences[path][k].range.end_col,
        forall|j: int|
            0 <= j < index.occurrences[path].len() && j != k ==> {
                let other = (#[trigger] index.occurrences[path][j]).range;
                ||| position.line < other.start_line
                ||| position.line == other.start_line && position.character < other.start_col
                ||| other.end_line < position.line
                ||| other.end_line == position.line && other.end_col <= position.character
            },
    ensures
        symbol == Some(index.symbol_names[index.occurrences[path][k].symbol as int]),
{
    cursors_are_on_the_narrowest_range(index, path, position, read, symbol);
    let row = index.occurrences[path];
    assert(row[k].range.holds(position.line, position.character));
}

/// The definition of what is under a cursor is where the first definition of
/// that symbol stands.
pub proof fn definitions_are_where_they_stand<F: Fn(&str) -> Option<String>>(
    location: Location,
    definitions: Seq<DefinitionView>,
    symbol: Seq<char>,
    read: F,
    root: Seq<char>,
    client: PositionEncoding,
    d: int,
)
    requires
        crate::handlers::first_definition(definitions, symbol) matches Some(definition)
            && crate::handlers::locates(
            location,
            read,
            root,
            definition.path,
            definition.range,
            definition.encoding,
            client,
        ),
        0 <= d < definitions.len(),
        definitions[d].symbol == symbol,
        forall|j: int| 0 <= j < d ==> (#[trigger] definitions[j]).symbol != symbol,
    ensures
        Some(location.uri@) == crate::uri::file_url(
            crate::paths::joined_path(root, definitions[d].path),
        ),
        (definitions[d].encoding is Utf8 <==> client is Utf8) ==> {
            &&& location.range.start.line == definitions[d].range.start_line
            &&& location.range.start.character == definitions[d].range.start_col
            &&& location.range.end.line == definitions[d].range.end_line
            &&& location.range.end.character == definitions[d].range.end_col
        },
{
    crate::handlers::lemma_first_definition(definitions, symbol, d);
}

/// A listed symbol carries its name, LSP's number for its kind, the name of its
/// file and where it stands.
pub proof fn symbols_are_listed_by_name_and_place<F: Fn(&str) -> Option<String>>(
    symbol: crate::handlers::SymbolInformation,
    definition: DefinitionView,
    read: F,
    root: Seq<char>,
    client: PositionEncoding,
    dir: Seq<char>,
    file: Seq<char>,
)
    requires
        crate::handlers::shows_definition(symbol, definition, read, root, client),
        definition.path == dir + "/"@ + file || definition.path == file,
        !file.contains('/'),
    ensures
        symbol.name@ == definition.name,
        symbol.container_name@ == file,
        definition.kind is Class ==> symbol.kind == 5,
        definition.kind is Method ==> symbol.kind == 6,
        definition.kind is Field ==> symbol.kind == 8,
        definition.kind is Constructor ==> symbol.kind == 9,
        definition.kind is Enum ==> symbol.kind == 10,
        definition.kind is Interface ==> symbol.kind == 11,
        definition.kind is Other ==> symbol.kind == 19,
        Some(symbol.location.uri@) == crate::uri::file_url(
            crate::paths::joined_path(root, definition.path),
        ),
        (definition.encoding is Utf8 <==> client is Utf8) ==> {
            &&& symbol.location.range.start.line == definition.range.start_line
            &&& symbol.location.range.start.character == definition.range.start_col
            &&& symbol.location.range.end.line == definition.range.end_line
            &&& symbol.location.range.end.character == definition.range.end_col
        },
{
    reveal_strlit("/");
    assert("/"@ =~= seq!['/']);
    assert(seq!['/'][0] == '/');
    crate::text::laws::what_follows_the_last_is_after_it(dir, '/', file, seq!['/']);
}

/// A file is in the directory that its path names before its last slash, and
/// one without a slash in that of the workspace itself.
pub proof fn files_are_in_their_directory(dir: Seq<char>, file: Seq<char>)
    requires
        !file.contains('/'),
    ensures
        crate::handlers::references::parent_dir(dir + "/"@ + file) == dir,
        crate::handlers::references::parent_dir(file).len() == 0,
{
    reveal_strlit("/");
    assert("/"@ =~= seq!['/']);
    assert(seq!['/'][0] == '/');
    crate::text::laws::what_follows_the_last_is_after_it(dir, '/', file, seq!['/']);
    let path = dir + "/"@ + file;
    assert(path.take(dir.len() as int) =~= dir);
}

/// References come nearest first: those in the file of the cursor, those in its
/// directory, and then the others.
pub proof fn nearest_references_come_first(
    hits: Seq<crate::handlers::references::HitView>,
    dir: Seq<char>,
    file: Seq<char>,
    a: usize,
    b: usize,
)
    requires
        a < hits.len(),
        b < hits.len(),
        !file.contains('/'),
    ensures
        ({
            let here = dir + "/"@ + file;
            let x = hits[a as int];
            let y = hits[b as int];
            &&& x.path == here && y.path != here ==> crate::handlers::references::hit_before(
                hits,
                here,
                a,
                b,
            )
            &&& (exists|name: Seq<char>|
                !name.contains('/') && x.path == #[trigger] (dir + "/"@ + name)) && (forall|
                name: Seq<char>,
            |
                !name.contains('/') ==> y.path != #[trigger] (dir + "/"@ + name))
                && dir.len() > 0
                ==> crate::handlers::references::hit_before(hits, here, a, b)
            &&& x.path == y.path && x.range.start_line < y.range.start_line
                ==> crate::handlers::references::hit_before(hits, here, a, b)
            &&& x.path == y.path && x.range.start_line == y.range.start_line && x.range.start_col
                < y.range.start_col ==> crate::handlers::references::hit_before(hits, here, a, b)
            &&& x.path == y.path && x.range.start_line == y.range.start_line && x.range.start_col
                == y.range.start_col && a < b ==> crate::handlers::references::hit_before(
                hits,
                here,
                a,
                b,
            )
        }),
{
    reveal_strlit("/");
    assert("/"@ =~= seq!['/']);
    files_are_in_their_directory(dir, file);
    let here = dir + "/"@ + file;
    let x = hits[a as int];
    let y = hits[b as int];
    if (exists|name: Seq<char>|
        !name.contains('/') && x.path == #[trigger] (dir + "/"@ + name)) && (forall|
        name: Seq<char>,
    |
        !name.contains('/') ==> y.path != #[trigger] (dir + "/"@ + name)) && dir.len() > 0 {
        let name = choose|name: Seq<char>|
            !name.contains('/') && x.path == #[trigger] (dir + "/"@ + name);
        files_are_in_their_directory(dir, name);
        assert(y.path != here);
        let (before, after) = crate::text::laws::lemma_split_last(y.path, '/');
        if y.path.contains('/') {
            files_are_in_their_directory(before, after);
            assert(y.path == before + "/"@ + after);
        } else {
            files_are_in_their_directory(before, y.path);
        }
    }
}

/// A declaration in an outline carries its name, LSP's number for its kind, its
/// span, where it has one, and where its name stands.
pub proof fn outlines_show_declarations<F: Fn(&str) -> Option<String>>(
    item: crate::handlers::outline::OutlineItem,
    definitions: Seq<DefinitionView>,
    i: int,
    path: Seq<char>,
    client: PositionEncoding,
    read: F,
)
    requires
        0 <= i < definitions.len(),
        crate::handlers::outline::outlines(item, definitions, i, path, client, read),
    ensures
        item.name@ == definitions[i].name,
        definitions[i].kind is Class ==> item.kind == 5,
        definitions[i].kind is Method ==> item.kind == 6,
        definitions[i].kind is Field ==> item.kind == 8,
        definitions[i].kind is Constructor ==> item.kind == 9,
        definitions[i].kind is Enum ==> item.kind == 10,
        definitions[i].kind is Interface ==> item.kind == 11,
        definitions[i].kind is Other ==> item.kind == 19,
        (definitions[i].encoding is Utf8 <==> client is Utf8) ==> {
            let whole = match definitions[i].enclosing {
                Some(span) => span,
                None => definitions[i].range,
            };
            &&& item.range.start.line == whole.start_line
            &&& item.range.start.character == whole.start_col
            &&& item.range.end.line == whole.end_line
            &&& item.range.end.character == whole.end_col
            &&& item.selection.start.line == definitions[i].range.start_line
            &&& item.selection.start.character == definitions[i].range.start_col
            &&& item.selection.end.line == definitions[i].range.end_line
            &&& item.selection.end.character == definitions[i].range.end_col
        },
        match item.parent {
            Some(parent) => {
                &&& parent < i
                &&& definitions[parent as int].enclosing matches Some(span) && span.contains(
                    definitions[i].range,
                )
                &&& forall|j: int|
                    parent < j < i ==> !((#[trigger] definitions[j]).enclosing matches Some(span)
                        && span.contains(definitions[i].range))
            },
            None => forall|j: int|
                0 <= j < i ==> !((#[trigger] definitions[j]).enclosing matches Some(span)
                    && span.contains(definitions[i].range)),
        },
{
    lemma_holder(definitions, definitions[i].range, i);
}

proof fn lemma_holder(definitions: Seq<DefinitionView>, range: Range, before: int)
    ensures
        match crate::handlers::outline::holder(definitions, range, before) {
            Some(at) => {
                &&& 0 <= at < before
                &&& definitions[at].enclosing matches Some(span) && span.contains(range)
                &&& forall|j: int|
                    at < j < before ==> !((#[trigger] definitions[j]).enclosing matches Some(span)
                        && span.contains(range))
            },
            None => forall|j: int|
                0 <= j < before ==> !((#[trigger] definitions[j]).enclosing matches Some(span)
                    && span.contains(range)),
        },
    decreases before,
{
    if before > 0 && !crate::handlers::outline::spans(definitions[before - 1], range) {
        lemma_holder(definitions, range, before - 1);
    }
}

/// A file below the workspace's root has the root's path before its own, with
/// one slash between the two.
pub proof fn files_are_below_the_root(root: Seq<char>, path: Seq<char>)
    requires
        root.len() > 0,
        path.len() == 0 || path[0] != '/',
    ensures
        root.last() == '/' ==> crate::paths::joined_path(root, path) == root + path,
        root.last() != '/' ==> crate::paths::joined_path(root, path) == root + "/"@ + path,
{
    reveal_strlit("/");
    assert("/"@ =~= seq!['/']);
}

/// Every declaration that the index has in a file is in the file's outline, and
/// nothing else is. They come in the order in which they stand.
pub proof fn outlines_list_the_file<F: Fn(&str) -> Option<String>>(
    items: Seq<crate::handlers::outline::OutlineItem>,
    definitions: Seq<DefinitionView>,
    rows: Seq<usize>,
    path: Seq<char>,
    client: PositionEncoding,
    read: F,
    d: int,
    i: int,
    j: int,
)
    requires
        crate::symbol_index::queries::is_file_listing(definitions, path, rows),
        crate::handlers::outline::outlines_rows(items, definitions, rows, path, client, read),
        definitions.len() <= usize::MAX,
        0 <= d < definitions.len(),
        definitions[d].path == path,
        0 <= i < j < items.len(),
    ensures
        exists|k: int| 0 <= k < items.len() && #[trigger] rows[k] == d && items[k].name@
            == definitions[d].name,
        rows[i] < definitions.len(),
        definitions[rows[i] as int].path == path,
        items[i].name@ == definitions[rows[i] as int].name,
        definitions[rows[i] as int].range.start_line
            <= definitions[rows[j] as int].range.start_line,
        definitions[rows[i] as int].range.start_line
            == definitions[rows[j] as int].range.start_line
            ==> definitions[rows[i] as int].range.start_col
            <= definitions[rows[j] as int].range.start_col,
{
    assert(rows.contains(d as usize));
    let k = choose|k: int| 0 <= k < rows.len() && rows[k] == d as usize;
    assert(crate::handlers::outline::outlines(
        items[k],
        crate::handlers::outline::at_rows(definitions, rows),
        k,
        path,
        client,
        read,
    ));
    assert(rows.contains(rows[i]));
    assert(crate::symbol_index::queries::listed_before(definitions, rows[i], rows[j]));
}

/// Where a file counts columns otherwise than the client, a column is converted
/// by the text to its left: a place on a line stays on it, at what stands before
/// it in the client's units.
pub proof fn columns_are_converted_by_the_text(
    above: Seq<char>,
    left: Seq<char>,
    right: Seq<char>,
    from: PositionEncoding,
    to: PositionEncoding,
    line: u32,
    column: u32,
)
    requires
        above.len() > 0 ==> above.last() == '\n',
        !left.contains('\n'),
        line == above.filter(|c: char| c == '\n').len(),
        column == crate::line_index::units(left, from),
        vstd::utf8::encode_utf8(above + left + right).len() < u32::MAX,
    ensures
        ({
            let shown = crate::handlers::converted_position(
                above + left + right,
                line,
                column,
                from,
                to,
            );
            &&& shown.line == line
            &&& shown.character == crate::line_index::units(left, to)
        }),
{
    let text = above + left + right;
    let k = above.len() + left.len() as int;
    crate::line_index::laws::places_are_counted_from_newlines(above, left, right, from);
    crate::line_index::laws::places_are_counted_from_newlines(above, left, right, to);
    crate::line_index::positions_round_trip(text, k, from);
    crate::line_index::lemma_units_are_bytes(text);
    crate::line_index::lemma_units_concat(above + left, right, PositionEncoding::Utf8);
    crate::line_index::lemma_units_concat(above, left, PositionEncoding::Utf8);
    lemma_units_at_most_bytes(left, to);
}

/// A cursor of a client that counts bytes is at the UTF-16 column of what stands
/// to its left. One in a file that cannot be read, or on a line that the file
/// does not have, is nowhere.
pub proof fn cursors_are_converted_by_the_text(
    above: Seq<char>,
    left: Seq<char>,
    right: Seq<char>,
    position: LinePosition,
    client: PositionEncoding,
)
    requires
        above.len() > 0 ==> above.last() == '\n',
        !left.contains('\n'),
        position.line == above.filter(|c: char| c == '\n').len(),
        position.character == crate::line_index::units(left, client),
        vstd::utf8::encode_utf8(above + left + right).len() < u32::MAX,
    ensures
        crate::handlers::index_column(position, client, Some(above + left + right)) matches Some(
            col,
        ) && col == crate::line_index::units(left, PositionEncoding::Utf16),
        client is Utf8 ==> crate::handlers::index_column(position, client, None) is None,
        client is Utf16 ==> crate::handlers::index_column(position, client, None) == Some(
            position.character,
        ),
{
    let text = above + left + right;
    let k = above.len() + left.len() as int;
    let utf16 = PositionEncoding::Utf16;
    crate::line_index::laws::places_are_counted_from_newlines(above, left, right, client);
    crate::line_index::laws::places_are_counted_from_newlines(above, left, right, utf16);
    crate::line_index::positions_round_trip(text, k, client);
    crate::line_index::lemma_units_are_bytes(text);
    crate::line_index::lemma_units_concat(above + left, right, PositionEncoding::Utf8);
    crate::line_index::lemma_units_concat(above, left, PositionEncoding::Utf8);
    lemma_units_at_most_bytes(left, utf16);
}

proof fn lemma_units_at_most_bytes(text: Seq<char>, encoding: PositionEncoding)
    ensures
        crate::line_index::units(text, encoding) <= crate::line_index::units(
            text,
            PositionEncoding::Utf8,
        ),
    decreases text.len(),
{
    if text.len() > 0 {
        lemma_units_at_most_bytes(text.drop_last(), encoding);
    }
}

/// A use that a shard records leads to a location: once the shard is in the
/// index, the references of its symbol hold one in the file of its document, at
/// the numbers of its range.
pub proof fn uses_in_a_shard_are_given<F: Fn(&str) -> Option<String>>(
    index: &crate::symbol_index::SymbolIndex,
    documents: Seq<crate::shard::DocumentFacts>,
    d: int,
    o: int,
    results: ReferenceResults,
    declaration: bool,
    here: Seq<char>,
    read: F,
    root: Seq<char>,
)
    requires
        index.wf(),
        crate::index_model::added_shard(index@, documents).1,
        0 <= d < documents.len(),
        0 <= o < documents[d].occurrences.len(),
        documents[d].occurrences[o].symbol.len() > 0,
        !"local "@.is_prefix_of(documents[d].occurrences[o].symbol),
        documents[d].occurrences[o].symbol_roles & 1 == 0,
        documents[d].occurrences[o].range.len() == 3,
        documents[d].occurrences[o].range[0] >= 0,
        documents[d].occurrences[o].range[1] >= 0,
        documents[d].occurrences[o].range[2] >= 0,
        documents[d].position_encoding != 1,
        crate::handlers::references::answers(
            results,
            crate::index_model::added_shard(index@, documents).0,
            documents[d].occurrences[o].symbol,
            declaration,
            here,
            read,
            root,
            PositionEncoding::Utf16,
        ),
        results.total <= 5000,
    ensures
        ({
            let raw = documents[d].occurrences[o].range;
            exists|k: int|
                0 <= k < results.locations@.len() && {
                    let location = #[trigger] results.locations@[k];
                    &&& Some(location.uri@) == crate::uri::file_url(
                        crate::paths::joined_path(root, documents[d].relative_path),
                    )
                    &&& location.range.start.line == raw[0]
                    &&& location.range.start.character == raw[1]
                    &&& location.range.end.line == raw[0]
                    &&& location.range.end.character == raw[2]
                }
        }),
{
    let after = crate::index_model::added_shard(index@, documents).0;
    let occurrence = documents[d].occurrences[o];
    let raw = occurrence.range;
    crate::index_laws::shards::uses_are_stored(index, documents, d, o);
    let i = choose|i: int|
        0 <= i < after.references[occurrence.symbol].len() && {
            let stored = #[trigger] after.references[occurrence.symbol][i];
            &&& stored.path < after.reference_paths.len()
            &&& after.reference_paths[stored.path as int] == documents[d].relative_path
            &&& stored.range.start_line == raw[0]
            &&& stored.range.start_col == raw[1]
            &&& stored.range.end_line == raw[0]
            &&& stored.range.end_col == raw[2]
            &&& stored.encoding is Utf8 <==> documents[d].position_encoding == 1
        };
    stored_references_are_given(
        results,
        after,
        occurrence.symbol,
        declaration,
        here,
        read,
        root,
        PositionEncoding::Utf16,
        i,
    );
}

/// Where the text of a file is not there, its columns are shown as they are
/// stored. Where it is, both ends are converted by it, and an end that the text
/// does not have stays as it is.
pub proof fn spans_are_converted_at_both_ends(
    raw: Range,
    from: crate::span::PositionEncoding,
    client: PositionEncoding,
    text: Seq<char>,
)
    ensures
        ({
            let shown = crate::handlers::converted(raw, from, client, None);
            &&& shown.start.line == raw.start_line
            &&& shown.start.character == raw.start_col
            &&& shown.end.line == raw.end_line
            &&& shown.end.character == raw.end_col
        }),
        !(from is Utf8 <==> client is Utf8) ==> {
            let shown = crate::handlers::converted(raw, from, client, Some(text));
            let other = if client is Utf8 {
                PositionEncoding::Utf16
            } else {
                PositionEncoding::Utf8
            };
            &&& shown.start == crate::handlers::converted_position(
                text,
                raw.start_line,
                raw.start_col,
                other,
                client,
            )
            &&& shown.end == crate::handlers::converted_position(
                text,
                raw.end_line,
                raw.end_col,
                other,
                client,
            )
        },
        raw.start_line > text.filter(|c: char| c == '\n').len() ==> {
            let kept = crate::handlers::converted_position(
                text,
                raw.start_line,
                raw.start_col,
                client,
                client,
            );
            kept.line == raw.start_line && kept.character == raw.start_col
        },
{
    crate::line_index::laws::lines_behind_the_text_are_nowhere(
        text,
        raw.start_line as int,
        raw.start_col as int,
        client,
    );
}

/// A file that is asked for is read where its columns have to be converted: what
/// is shown is what some text that was given for it says.
pub proof fn converted_columns_come_from_the_file<F: Fn(&str) -> Option<String>>(
    read: F,
    path: Seq<char>,
    raw: Range,
    from: crate::span::PositionEncoding,
    client: PositionEncoding,
    range: crate::handlers::ClientRange,
    text: Option<Seq<char>>,
)
    requires
        crate::handlers::shown(read, path, raw, from, client, range),
        !(from is Utf8 <==> client is Utf8),
        forall|given: Option<Seq<char>>| #[trigger]
            crate::sources::gives(read, path, given) ==> given == text,
    ensures
        range == crate::handlers::converted(raw, from, client, text),
{
    let (file, found) = choose|file: &str, found: Option<String>| #[trigger]
        read.ensures((file,), found) && file@ == path && range == crate::handlers::converted(
            raw,
            from,
            client,
            crate::config::text_of(found),
        );
    assert(crate::sources::gives(read, path, crate::config::text_of(found)));
}

/// A range whose columns both sides count alike is handed on as it is, and so is any
/// where the text to count by is missing.
pub proof fn spans_that_agree_are_handed_on(
    raw: Range,
    from: crate::span::PositionEncoding,
    to: PositionEncoding,
    text: Option<&str>,
    range: crate::handlers::ClientRange,
)
    requires
        call_ensures(crate::handlers::convert_span, (raw, from, to, text), range),
        (from is Utf8 <==> to is Utf8) || text is None,
    ensures
        range.start.line == raw.start_line,
        range.start.character == raw.start_col,
        range.end.line == raw.end_line,
        range.end.character == raw.end_col,
{
}

/// A client's cursor is looked up by code units: its own column where it counts
/// those, and otherwise the one that the text before it takes.
pub proof fn cursors_are_looked_up_by_code_units(
    position: LinePosition,
    client: PositionEncoding,
    text: Option<&str>,
    col: Option<u32>,
    above: Seq<char>,
    left: Seq<char>,
    right: Seq<char>,
)
    requires
        call_ensures(crate::handlers::cursor_column, (position, client, text), col),
        above.len() > 0 ==> above.last() == '\n',
        !left.contains('\n'),
        position.line == above.filter(|c: char| c == '\n').len(),
        position.character == crate::line_index::units(left, client),
        vstd::utf8::encode_utf8(above + left + right).len() < u32::MAX,
    ensures
        text is Some && text->0@ == above + left + right ==> col is Some && col->0
            == crate::line_index::units(left, PositionEncoding::Utf16),
        text is None && client is Utf16 ==> col == Some(position.character),
        text is None && client is Utf8 ==> col is None,
{
    cursors_are_converted_by_the_text(above, left, right, position, client);
}

/// A kind is shown by the number that LSP gives it.
pub proof fn kinds_are_shown_by_their_number(kind: SymbolKind, number: i32)
    requires
        call_ensures(crate::handlers::to_lsp_kind, (kind,), number),
    ensures
        number == 5 <==> kind is Class,
        number == 6 <==> kind is Method,
        number == 8 <==> kind is Field,
        number == 9 <==> kind is Constructor,
        number == 10 <==> kind is Enum,
        number == 11 <==> kind is Interface,
{
}

} // verus!
