//! What a client is answered, from what the index holds.
//!
//! Each of these speaks of a call and its result. The client counts UTF-16 code
//! units, as the index does, and its cursor is on one symbol alone.
use vstd::prelude::*;

use crate::definition::Definition;
use crate::handlers::calls::{
    incoming_calls, outgoing_calls, prepare_call_hierarchy, CallItem, IncomingCall, OutgoingCall,
};
use crate::handlers::hover::hover;
use crate::handlers::implementations::goto_implementation;
use crate::handlers::outline::{document_symbols, OutlineItem};
use crate::handlers::references::{find_references, ReferenceResults};
use crate::handlers::search::{workspace_symbol_with, SearchResults};
use crate::handlers::{goto_definition, Located, Location};
use crate::index_model::IndexView;
use crate::line_index::{LinePosition, PositionEncoding};
use crate::paths::AbsPath;
use crate::span::Range;
use crate::symbol_index::SymbolIndex;

verus! {

/// Whether a cursor is on the `k`th occurrence of a file and on no other: the
/// occurrence stands on the cursor's line, starts at or before it and ends
/// behind it, and every other one starts behind it or ends at or before it.
pub open spec fn is_alone_at(
    index: IndexView,
    path: Seq<char>,
    position: LinePosition,
    k: int,
) -> bool {
    &&& index.occurrences.contains_key(path)
    &&& 0 <= k < index.occurrences[path].len()
    &&& index.occurrences[path][k].range.start_line == position.line
    &&& index.occurrences[path][k].range.end_line == position.line
    &&& index.occurrences[path][k].range.start_col <= position.character
    &&& position.character < index.occurrences[path][k].range.end_col
    &&& forall|j: int|
        0 <= j < index.occurrences[path].len() && j != k ==> {
            let other = (#[trigger] index.occurrences[path][j]).range;
            ||| position.line < other.start_line
            ||| position.line == other.start_line && position.character < other.start_col
            ||| other.end_line < position.line
            ||| other.end_line == position.line && other.end_col <= position.character
        }
}

/// Whether a location is that of a span in a file of the workspace.
pub open spec fn is_at(
    location: Location,
    root: Seq<char>,
    path: Seq<char>,
    span: Range,
) -> bool {
    &&& Some(location.uri@) == crate::uri::file_url(crate::paths::joined_path(root, path))
    &&& location.range.start.line == span.start_line
    &&& location.range.start.character == span.start_col
    &&& location.range.end.line == span.end_line
    &&& location.range.end.character == span.end_col
}

proof fn lemma_symbol<F: Fn(&str) -> Option<String>>(
    index: IndexView,
    path: Seq<char>,
    position: LinePosition,
    read: F,
    symbol: Option<Seq<char>>,
    k: int,
)
    requires
        is_alone_at(index, path, position, k),
        crate::handlers::under_cursor(
            index,
            path,
            position,
            PositionEncoding::Utf16,
            read,
            symbol,
        ),
    ensures
        symbol == Some(index.symbol_names[index.occurrences[path][k].symbol as int]),
{
    crate::handlers::laws::a_cursor_inside_a_lone_range_is_on_it(
        index,
        path,
        position,
        read,
        symbol,
        k,
    );
}

/// From a symbol under the cursor the client is led to where it is first
/// defined.
pub proof fn a_cursor_leads_to_the_definition<F: Fn(&str) -> Option<String>>(
    index: &SymbolIndex,
    path: &str,
    position: LinePosition,
    root: &AbsPath,
    read: &F,
    found: Option<Located>,
    k: int,
    d: int,
)
    requires
        call_ensures(
            goto_definition::<F>,
            (index, path, position, root, PositionEncoding::Utf16, read),
            found,
        ),
        is_alone_at(index@, path@, position, k),
        0 <= d < index@.definitions.len(),
        index@.definitions[d].symbol
            == index@.symbol_names[index@.occurrences[path@][k].symbol as int],
        forall|j: int|
            0 <= j < d ==> (#[trigger] index@.definitions[j]).symbol
                != index@.definitions[d].symbol,
    ensures
        found matches Some(located) && located.symbol@ == index@.definitions[d].symbol && (
        !(index@.definitions[d].encoding is Utf8) ==> is_at(
            located.location,
            root@,
            index@.definitions[d].path,
            index@.definitions[d].range,
        )),
{
    let symbol = choose|symbol: Option<Seq<char>>| #[trigger]
        crate::handlers::under_cursor(
            index@,
            path@,
            position,
            PositionEncoding::Utf16,
            *read,
            symbol,
        ) && match symbol {
            Some(symbol) => match crate::handlers::first_definition(index@.definitions, symbol) {
                Some(definition) => found matches Some(found) && found.symbol@ == symbol
                    && crate::handlers::locates(
                    found.location,
                    *read,
                    root@,
                    definition.path,
                    definition.range,
                    definition.encoding,
                    PositionEncoding::Utf16,
                ),
                None => found is None,
            },
            None => found is None,
        };
    lemma_symbol(index@, path@, position, *read, symbol, k);
    crate::handlers::lemma_first_definition(index@.definitions, symbol->0, d);
}

/// A symbol under the cursor has all its stored references among those given,
/// while there are no more than a response carries.
pub proof fn a_cursor_leads_to_the_references<F: Fn(&str) -> Option<String>>(
    index: &SymbolIndex,
    path: &str,
    position: LinePosition,
    declaration: bool,
    root: &AbsPath,
    read: &F,
    found: Option<ReferenceResults>,
    k: int,
    i: int,
)
    requires
        call_ensures(
            find_references::<F>,
            (index, path, position, declaration, root, PositionEncoding::Utf16, read),
            found,
        ),
        is_alone_at(index@, path@, position, k),
    ensures
        ({
            let symbol = index@.symbol_names[index@.occurrences[path@][k].symbol as int];
            let stored = index@.references[symbol][i];
            &&& found matches Some(results) && results.symbol@ == symbol
            &&& found->0.total <= 5000 && index@.references.contains_key(symbol) && 0 <= i
                < index@.references[symbol].len() && !(stored.encoding is Utf8) ==> exists|n: int|
                0 <= n < found->0.locations@.len() && is_at(
                    #[trigger] found->0.locations@[n],
                    root@,
                    index@.reference_paths[stored.path as int],
                    stored.range,
                )
            &&& declaration ==> forall|d: int|
                0 <= d < index@.definitions.len() && (#[trigger] index@.definitions[d]).symbol
                    == symbol ==> found->0.total == 1 + if index@.references.contains_key(symbol) {
                    index@.references[symbol].len()
                } else {
                    0
                }
            &&& !declaration ==> found->0.total == if index@.references.contains_key(symbol) {
                index@.references[symbol].len()
            } else {
                0
            }
        }),
{
    let client = PositionEncoding::Utf16;
    let symbol = choose|symbol: Option<Seq<char>>| #[trigger]
        crate::handlers::under_cursor(index@, path@, position, client, *read, symbol)
            && match symbol {
            Some(symbol) => found matches Some(results) && crate::handlers::references::answers(
                results,
                index@,
                symbol,
                declaration,
                path@,
                *read,
                root@,
                client,
            ),
            None => found is None,
        };
    lemma_symbol(index@, path@, position, *read, symbol, k);
    crate::handlers::laws::references_are_counted(
        found->0,
        index@,
        symbol->0,
        declaration,
        path@,
        *read,
        root@,
        client,
    );
    if found->0.total <= 5000 && index@.references.contains_key(symbol->0) && 0 <= i
        < index@.references[symbol->0].len() {
        crate::handlers::laws::stored_references_are_given(
            found->0,
            index@,
            symbol->0,
            declaration,
            path@,
            *read,
            root@,
            client,
            i,
        );
        let stored = index@.references[symbol->0][i];
        let file = index@.reference_paths[stored.path as int];
        let n = choose|n: int|
            0 <= n < found->0.locations@.len() && {
                let location = #[trigger] found->0.locations@[n];
                &&& Some(location.uri@) == crate::uri::file_url(
                    crate::paths::joined_path(root@, file),
                )
                &&& crate::handlers::shown(
                    *read,
                    file,
                    stored.range,
                    stored.encoding,
                    client,
                    location.range,
                )
                &&& (stored.encoding is Utf8 <==> client is Utf8) ==> {
                    &&& location.range.start.line == stored.range.start_line
                    &&& location.range.start.character == stored.range.start_col
                    &&& location.range.end.line == stored.range.end_line
                    &&& location.range.end.character == stored.range.end_col
                }
            };
        if !(stored.encoding is Utf8) {
            assert(is_at(found->0.locations@[n], root@, file, stored.range));
        }
    }
}

/// What is said of a symbol under the cursor begins with its signature, where
/// there is one, and holds all its documentation.
pub proof fn a_cursor_shows_the_signature<F: Fn(&str) -> Option<String>>(
    index: &SymbolIndex,
    path: &str,
    position: LinePosition,
    read: &F,
    text: Option<String>,
    k: int,
    d: int,
) -> (at: Seq<int>)
    requires
        call_ensures(hover::<F>, (index, path, position, PositionEncoding::Utf16, read), text),
        is_alone_at(index@, path@, position, k),
        0 <= d < index@.definitions.len(),
        index@.definitions[d].symbol
            == index@.symbol_names[index@.occurrences[path@][k].symbol as int],
        forall|j: int|
            0 <= j < d ==> (#[trigger] index@.definitions[j]).symbol
                != index@.definitions[d].symbol,
    ensures
        ({
            let definition = index@.definitions[d];
            &&& text is Some
            &&& definition.signature.len() > 0 ==> ("```java\n"@ + definition.signature
                + "\n```"@).is_prefix_of(text->0@)
            &&& definition.signature.len() == 0 && definition.documentation.len() == 0
                ==> text->0@ == definition.name
            &&& at.len() == definition.documentation.len()
            &&& forall|i: int|
                0 <= i < at.len() ==> 0 <= #[trigger] at[i] && at[i]
                    + definition.documentation[i].len() <= text->0@.len() && text->0@.subrange(
                    at[i],
                    at[i] + definition.documentation[i].len(),
                ) == definition.documentation[i]
            &&& forall|i: int, j: int|
                0 <= i < j < at.len() ==> #[trigger] at[i] + definition.documentation[i].len()
                    <= #[trigger] at[j]
        }),
{
    let definition = index@.definitions[d];
    let symbol = choose|symbol: Option<Seq<char>>| #[trigger]
        crate::handlers::under_cursor(
            index@,
            path@,
            position,
            PositionEncoding::Utf16,
            *read,
            symbol,
        ) && crate::config::text_of(text) == (match symbol {
            Some(symbol) => match crate::handlers::first_definition(index@.definitions, symbol) {
                Some(definition) => Some(crate::handlers::hover::hover_text(definition)),
                None => None,
            },
            None => None,
        });
    lemma_symbol(index@, path@, position, *read, symbol, k);
    crate::handlers::lemma_first_definition(index@.definitions, symbol->0, d);
    crate::handlers::laws::hover_begins_with_the_signature(definition, text->0@);
    crate::handlers::laws::hover_shows_the_documentation(definition, text->0@)
}

/// From a symbol under the cursor the client is led to every definition that
/// names it among its supertypes.
pub proof fn a_cursor_leads_to_the_implementations<F: Fn(&str) -> Option<String>>(
    index: &SymbolIndex,
    path: &str,
    position: LinePosition,
    root: &AbsPath,
    read: &F,
    found: Option<Vec<Location>>,
    k: int,
    d: int,
    n: int,
)
    requires
        call_ensures(
            goto_implementation::<F>,
            (index, path, position, root, PositionEncoding::Utf16, read),
            found,
        ),
        is_alone_at(index@, path@, position, k),
        index@.definitions.len() <= usize::MAX,
        0 <= d < index@.definitions.len(),
    ensures
        ({
            let symbol = index@.symbol_names[index@.occurrences[path@][k].symbol as int];
            let definition = index@.definitions[d];
            &&& found is Some
            &&& definition.implements.contains(symbol) && !(definition.encoding is Utf8)
                ==> exists|m: int|
                0 <= m < found->0@.len() && is_at(
                    #[trigger] found->0@[m],
                    root@,
                    definition.path,
                    definition.range,
                )
            &&& 0 <= n < found->0@.len() ==> exists|e: int|
                0 <= e < index@.definitions.len() && (#[trigger] index@.definitions[e]).implements.contains(
                    symbol,
                ) && Some(found->0@[n].uri@) == crate::uri::file_url(
                    crate::paths::joined_path(root@, index@.definitions[e].path),
                )
        }),
{
    let client = PositionEncoding::Utf16;
    let symbol = choose|symbol: Option<Seq<char>>| #[trigger]
        crate::handlers::under_cursor(index@, path@, position, client, *read, symbol)
            && match symbol {
            Some(symbol) => found matches Some(found)
                && crate::handlers::implementations::locates_rows(
                found@,
                index@.definitions,
                crate::definition::implementor_rows(index@.definitions, symbol),
                *read,
                root@,
                client,
            ),
            None => found is None,
        };
    lemma_symbol(index@, path@, position, *read, symbol, k);
    let definition = index@.definitions[d];
    if definition.implements.contains(symbol->0) {
        crate::handlers::laws::implementors_are_given(
            found->0@,
            index@.definitions,
            symbol->0,
            *read,
            root@,
            client,
            d,
        );
        let m = choose|m: int|
            0 <= m < found->0@.len() && {
                let location = #[trigger] found->0@[m];
                &&& Some(location.uri@) == crate::uri::file_url(
                    crate::paths::joined_path(root@, definition.path),
                )
                &&& (definition.encoding is Utf8 <==> client is Utf8) ==> {
                    &&& location.range.start.line == definition.range.start_line
                    &&& location.range.start.character == definition.range.start_col
                    &&& location.range.end.line == definition.range.end_line
                    &&& location.range.end.character == definition.range.end_col
                }
            };
        if !(definition.encoding is Utf8) {
            assert(is_at(found->0@[m], root@, definition.path, definition.range));
        }
    }
    if 0 <= n < found->0@.len() {
        crate::handlers::laws::only_implementors_are_given(
            found->0@,
            index@.definitions,
            symbol->0,
            *read,
            root@,
            client,
            n,
        );
    }
}

/// A call hierarchy starts at the symbol under the cursor where that is first
/// defined as a method or a constructor, and nowhere else.
pub proof fn a_cursor_starts_a_call_hierarchy<F: Fn(&str) -> Option<String>>(
    index: &SymbolIndex,
    path: &str,
    position: LinePosition,
    root: &AbsPath,
    read: &F,
    found: Option<CallItem>,
    k: int,
    d: int,
)
    requires
        call_ensures(
            prepare_call_hierarchy::<F>,
            (index, path, position, root, PositionEncoding::Utf16, read),
            found,
        ),
        is_alone_at(index@, path@, position, k),
        0 <= d < index@.definitions.len(),
        index@.definitions[d].symbol
            == index@.symbol_names[index@.occurrences[path@][k].symbol as int],
        forall|j: int|
            0 <= j < d ==> (#[trigger] index@.definitions[j]).symbol
                != index@.definitions[d].symbol,
    ensures
        ({
            let definition = index@.definitions[d];
            &&& found is Some <==> definition.kind is Method || definition.kind is Constructor
            &&& found matches Some(item) ==> {
                &&& item.symbol@ == definition.symbol
                &&& item.name@ == definition.name
                &&& item.kind == (if definition.kind is Method {
                    6int
                } else {
                    9int
                })
                &&& !(definition.encoding is Utf8) ==> is_at(
                    item.location,
                    root@,
                    definition.path,
                    match definition.enclosing {
                        Some(span) => span,
                        None => definition.range,
                    },
                )
                &&& !(definition.encoding is Utf8) ==> item.selection.start.line
                    == definition.range.start_line && item.selection.start.character
                    == definition.range.start_col && item.selection.end.line
                    == definition.range.end_line && item.selection.end.character
                    == definition.range.end_col
            }
        }),
{
    let symbol = choose|symbol: Option<Seq<char>>| #[trigger]
        crate::handlers::under_cursor(
            index@,
            path@,
            position,
            PositionEncoding::Utf16,
            *read,
            symbol,
        ) && match symbol {
            Some(symbol) => match crate::handlers::first_definition(index@.definitions, symbol) {
                Some(definition) => if crate::handlers::calls::is_callable(definition) {
                    found matches Some(item) && crate::handlers::calls::shows_callable(
                        item,
                        definition,
                        *read,
                        root@,
                        PositionEncoding::Utf16,
                    )
                } else {
                    found is None
                },
                None => found is None,
            },
            None => found is None,
        };
    lemma_symbol(index@, path@, position, *read, symbol, k);
    crate::handlers::lemma_first_definition(index@.definitions, symbol->0, d);
}

/// A cursor on nothing leads nowhere.
pub proof fn a_cursor_on_nothing_leads_nowhere<F: Fn(&str) -> Option<String>>(
    index: &SymbolIndex,
    path: &str,
    position: LinePosition,
    root: &AbsPath,
    read: &F,
    declaration: bool,
    definition: Option<Located>,
    references: Option<ReferenceResults>,
    text: Option<String>,
    implementations: Option<Vec<Location>>,
    item: Option<CallItem>,
)
    requires
        index@.occurrences.contains_key(path@) ==> forall|j: int|
            0 <= j < index@.occurrences[path@].len() ==> {
                let other = (#[trigger] index@.occurrences[path@][j]).range;
                ||| position.line < other.start_line
                ||| position.line == other.start_line && position.character < other.start_col
                ||| other.end_line < position.line
                ||| other.end_line == position.line && other.end_col <= position.character
            },
        call_ensures(
            goto_definition::<F>,
            (index, path, position, root, PositionEncoding::Utf16, read),
            definition,
        ),
        call_ensures(
            find_references::<F>,
            (index, path, position, declaration, root, PositionEncoding::Utf16, read),
            references,
        ),
        call_ensures(hover::<F>, (index, path, position, PositionEncoding::Utf16, read), text),
        call_ensures(
            goto_implementation::<F>,
            (index, path, position, root, PositionEncoding::Utf16, read),
            implementations,
        ),
        call_ensures(
            prepare_call_hierarchy::<F>,
            (index, path, position, root, PositionEncoding::Utf16, read),
            item,
        ),
    ensures
        definition is None,
        references is None,
        text is None,
        implementations is None,
        item is None,
{
    assert forall|symbol: Option<Seq<char>>| #[trigger]
        crate::handlers::under_cursor(
            index@,
            path@,
            position,
            PositionEncoding::Utf16,
            *read,
            symbol,
        ) implies symbol is None by {
        crate::handlers::laws::cursors_are_on_the_narrowest_range(
            index@,
            path@,
            position,
            *read,
            symbol,
        );
    }
}

/// A reference to a symbol inside the span of a method or a constructor, and of
/// no other with as few lines, that is no import is among the calls of that
/// symbol, while there are fewer callers than are listed.
pub proof fn references_in_a_body_are_incoming_calls<F: Fn(&str) -> Option<String>>(
    index: &SymbolIndex,
    symbol: &str,
    root: &AbsPath,
    read: &F,
    calls: Vec<IncomingCall>,
    k: int,
    at: int,
)
    requires
        call_ensures(
            incoming_calls::<F>,
            (index, symbol, root, PositionEncoding::Utf16, read),
            calls,
        ),
        calls@.len() < 200,
        index@.references.contains_key(symbol@),
        0 <= k < index@.references[symbol@].len(),
        !index@.references[symbol@][k].is_import,
        !(index@.references[symbol@][k].encoding is Utf8),
        0 <= at < index@.definitions.len(),
        index@.definitions[at].path
            == index@.reference_paths[index@.references[symbol@][k].path as int],
        index@.definitions[at].kind is Method || index@.definitions[at].kind is Constructor,
        index@.definitions[at].enclosing is Some,
        index@.definitions[at].enclosing->0.start_line
            <= index@.definitions[at].enclosing->0.end_line,
        index@.definitions[at].enclosing->0.contains(index@.references[symbol@][k].range),
        forall|j: int|
            0 <= j < index@.definitions.len() && j != at && (#[trigger] index@.definitions[j]).path
                == index@.definitions[at].path && (index@.definitions[j].kind is Method
                || index@.definitions[j].kind is Constructor) && index@.definitions[j].enclosing
                is Some && index@.definitions[j].enclosing->0.contains(
                index@.references[symbol@][k].range,
            ) ==> index@.definitions[j].enclosing->0.end_line
                - index@.definitions[j].enclosing->0.start_line
                > index@.definitions[at].enclosing->0.end_line
                - index@.definitions[at].enclosing->0.start_line,
    ensures
        exists|g: int, c: int|
            0 <= g < calls@.len() && 0 <= c < calls@[g].ranges@.len() && {
                let range = #[trigger] calls@[g].ranges@[c];
                let stored = index@.references[symbol@][k];
                &&& calls@[g].from.symbol@ == index@.definitions[at].symbol
                &&& range.start.line == stored.range.start_line
                &&& range.start.character == stored.range.start_col
                &&& range.end.line == stored.range.end_line
                &&& range.end.character == stored.range.end_col
            },
{
    crate::handlers::call_laws::references_inside_callables_are_calls(
        calls@,
        index@,
        symbol@,
        *read,
        root@,
        PositionEncoding::Utf16,
        k,
        at,
    );
    let stored = index@.references[symbol@][k];
    let (g, c) = choose|g: int, c: int|
        0 <= g < calls@.len() && 0 <= c < calls@[g].ranges@.len() && {
            let range = #[trigger] calls@[g].ranges@[c];
            &&& calls@[g].from.symbol@ == index@.definitions[at].symbol
            &&& (stored.encoding is Utf8 <==> PositionEncoding::Utf16 is Utf8) ==> {
                &&& range.start.line == stored.range.start_line
                &&& range.start.character == stored.range.start_col
                &&& range.end.line == stored.range.end_line
                &&& range.end.character == stored.range.end_col
            }
        };
    assert(calls@[g].ranges@[c].start.line == stored.range.start_line);
}

/// Every incoming call is from a method or constructor, at references that are
/// no imports and stand in the span of one with the caller's symbol.
pub proof fn incoming_calls_are_references_in_a_body<F: Fn(&str) -> Option<String>>(
    index: &SymbolIndex,
    symbol: &str,
    root: &AbsPath,
    read: &F,
    calls: Vec<IncomingCall>,
    g: int,
    c: int,
)
    requires
        call_ensures(
            incoming_calls::<F>,
            (index, symbol, root, PositionEncoding::Utf16, read),
            calls,
        ),
        index@.references.contains_key(symbol@),
        0 <= g < calls@.len(),
        0 <= c < calls@[g].ranges@.len(),
    ensures
        calls@.len() <= 200,
        exists|k: int, at: int|
            0 <= k < index@.references[symbol@].len() && 0 <= at < index@.definitions.len() && {
                let stored = #[trigger] index@.references[symbol@][k];
                let caller = #[trigger] index@.definitions[at];
                &&& !stored.is_import
                &&& caller.symbol == calls@[g].from.symbol@
                &&& caller.path == index@.reference_paths[stored.path as int]
                &&& caller.kind is Method || caller.kind is Constructor
                &&& caller.enclosing is Some
                &&& caller.enclosing->0.contains(stored.range)
            },
{
    crate::handlers::call_laws::calls_are_references_inside_callables(
        calls@,
        index@,
        symbol@,
        *read,
        root@,
        PositionEncoding::Utf16,
        g,
        c,
    );
}

/// A method or constructor that is mentioned in the body of another, and in no
/// narrower one, is among what that one calls, while there are fewer than are
/// listed.
pub proof fn mentions_in_a_body_are_outgoing_calls<F: Fn(&str) -> Option<String>>(
    index: &SymbolIndex,
    symbol: &str,
    root: &AbsPath,
    read: &F,
    calls: Vec<OutgoingCall>,
    at: int,
    k: int,
    t: int,
)
    requires
        call_ensures(
            outgoing_calls::<F>,
            (index, symbol, root, PositionEncoding::Utf16, read),
            calls,
        ),
        calls@.len() < 200,
        0 <= at < index@.definitions.len(),
        index@.definitions[at].symbol == symbol@,
        forall|j: int| 0 <= j < at ==> (#[trigger] index@.definitions[j]).symbol != symbol@,
        index@.definitions[at].kind is Method || index@.definitions[at].kind is Constructor,
        index@.definitions[at].enclosing is Some,
        index@.definitions[at].enclosing->0.start_line
            <= index@.definitions[at].enclosing->0.end_line,
        index@.occurrences.contains_key(index@.definitions[at].path),
        0 <= k < index@.occurrences[index@.definitions[at].path].len(),
        index@.occurrences[index@.definitions[at].path][k].range.start_line
            <= index@.occurrences[index@.definitions[at].path][k].range.end_line,
        index@.definitions[at].enclosing->0.contains(
            index@.occurrences[index@.definitions[at].path][k].range,
        ),
        forall|j: int|
            0 <= j < index@.definitions.len() && j != at && (#[trigger] index@.definitions[j]).path
                == index@.definitions[at].path && (index@.definitions[j].kind is Method
                || index@.definitions[j].kind is Constructor) && index@.definitions[j].enclosing
                is Some && index@.definitions[j].enclosing->0.contains(
                index@.occurrences[index@.definitions[at].path][k].range,
            ) ==> index@.definitions[j].enclosing->0.end_line
                - index@.definitions[j].enclosing->0.start_line
                > index@.definitions[at].enclosing->0.end_line
                - index@.definitions[at].enclosing->0.start_line,
        forall|j: int|
            0 <= j < index@.definitions.len() && (#[trigger] index@.definitions[j]).path
                == index@.definitions[at].path && index@.definitions[j].range
                == index@.occurrences[index@.definitions[at].path][k].range
                ==> index@.definitions[j].symbol
                != index@.symbol_names[index@.occurrences[index@.definitions[at].path][k].symbol as int],
        0 <= t < index@.definitions.len(),
        index@.definitions[t].symbol
            == index@.symbol_names[index@.occurrences[index@.definitions[at].path][k].symbol as int],
        index@.definitions[t].kind is Method || index@.definitions[t].kind is Constructor,
        forall|j: int|
            0 <= j < t ==> (#[trigger] index@.definitions[j]).symbol
                != index@.definitions[t].symbol,
    ensures
        exists|c: int|
            0 <= c < calls@.len() && (#[trigger] calls@[c]).to.symbol@
                == index@.definitions[t].symbol && calls@[c].to.name@
                == index@.definitions[t].name,
{
    let client = PositionEncoding::Utf16;
    crate::handlers::lemma_first_definition(index@.definitions, symbol@, at);
    let caller = index@.definitions[at];
    let span = caller.enclosing->0;
    let listed = choose|listed: Seq<(&str, Range)>| #[trigger]
        crate::symbol_index::queries::is_call_list(
            index@,
            caller.path,
            span,
            Some(symbol@),
            listed,
        ) && crate::handlers::calls::shows_outgoing(
            calls@,
            crate::handlers::calls::capped(
                crate::handlers::calls::callees(
                    index@.definitions,
                    crate::handlers::calls::mentioned_by(listed),
                ),
            ),
            caller,
            *read,
            root@,
            client,
        );
    crate::handlers::call_laws::mentioned_callables_are_called(
        calls@,
        index@,
        symbol@,
        listed,
        *read,
        root@,
        client,
        at,
        k,
        t,
    );
}

/// The outline of a file holds every definition that the index has in it.
pub proof fn a_file_is_outlined<F: Fn(&str) -> Option<String>>(
    index: &SymbolIndex,
    path: &str,
    read: &F,
    items: Vec<OutlineItem>,
    d: int,
)
    requires
        call_ensures(document_symbols::<F>, (index, path, PositionEncoding::Utf16, read), items),
        index@.definitions.len() <= usize::MAX,
        0 <= d < index@.definitions.len(),
        index@.definitions[d].path == path@,
    ensures
        exists|k: int|
            0 <= k < items@.len() && {
                let item = #[trigger] items@[k];
                let definition = index@.definitions[d];
                &&& item.name@ == definition.name
                &&& definition.kind is Class ==> item.kind == 5
                &&& definition.kind is Method ==> item.kind == 6
                &&& definition.kind is Field ==> item.kind == 8
                &&& definition.kind is Constructor ==> item.kind == 9
                &&& definition.kind is Enum ==> item.kind == 10
                &&& definition.kind is Interface ==> item.kind == 11
                &&& !(definition.encoding is Utf8) ==> {
                    let whole = match definition.enclosing {
                        Some(span) => span,
                        None => definition.range,
                    };
                    &&& item.range.start.line == whole.start_line
                    &&& item.range.start.character == whole.start_col
                    &&& item.range.end.line == whole.end_line
                    &&& item.range.end.character == whole.end_col
                    &&& item.selection.start.line == definition.range.start_line
                    &&& item.selection.start.character == definition.range.start_col
                }
            },
{
    let rows = choose|rows: Seq<usize>| #[trigger]
        crate::symbol_index::queries::is_file_listing(index@.definitions, path@, rows)
            && crate::handlers::outline::outlines_rows(
            items@,
            index@.definitions,
            rows,
            path@,
            PositionEncoding::Utf16,
            *read,
        );
    assert(rows.contains(d as usize));
    let k = choose|k: int| 0 <= k < rows.len() && rows[k] == d as usize;
    let shown = crate::handlers::outline::at_rows(index@.definitions, rows);
    assert(shown[k] == index@.definitions[d]);
    crate::handlers::laws::outlines_show_declarations(
        items@[k],
        shown,
        k,
        path@,
        PositionEncoding::Utf16,
        *read,
    );
}

/// A definition outside the shadowed files whose name contains the query, case
/// aside, is found where a search returns all.
pub proof fn a_search_finds_the_name<F: Fn(&str) -> Option<String>>(
    index: &SymbolIndex,
    live: &Vec<Definition>,
    shadowed: &Vec<String>,
    query: &str,
    root: &AbsPath,
    read: &F,
    results: SearchResults,
    d: int,
    before: Seq<char>,
    after: Seq<char>,
)
    requires
        call_ensures(
            workspace_symbol_with::<F>,
            (index, live, shadowed, query, root, PositionEncoding::Utf16, read),
            results,
        ),
        query@.len() > 0,
        results.total <= 50,
        index@.definitions.len() <= usize::MAX,
        0 <= d < index@.definitions.len(),
        forall|i: int|
            0 <= i < shadowed@.len() ==> (#[trigger] shadowed@[i])@ != index@.definitions[d].path,
        crate::text::lowercased(index@.definitions[d].name) == before + crate::text::lowercased(
            query@,
        ) + after,
    ensures
        exists|k: int|
            0 <= k < results.symbols@.len() && (#[trigger] results.symbols@[k]).name@
                == index@.definitions[d].name && (!(index@.definitions[d].encoding is Utf8)
                ==> is_at(
                results.symbols@[k].location,
                root@,
                index@.definitions[d].path,
                index@.definitions[d].range,
            )),
{
    let hidden = crate::text::texts(shadowed@);
    assert(!hidden.contains(index@.definitions[d].path)) by {
        if hidden.contains(index@.definitions[d].path) {
            let i = choose|i: int|
                0 <= i < hidden.len() && hidden[i] == index@.definitions[d].path;
            assert(shadowed@[i]@ == index@.definitions[d].path);
        }
    }
    crate::handlers::search_laws::indexed_names_are_found(
        results,
        index@,
        crate::definition::definition_views(live@),
        hidden,
        query@,
        *read,
        root@,
        PositionEncoding::Utf16,
        d,
        before,
        after,
    );
    let k = choose|k: int|
        0 <= k < results.symbols@.len() && crate::handlers::shows_definition(
            #[trigger] results.symbols@[k],
            index@.definitions[d],
            *read,
            root@,
            PositionEncoding::Utf16,
        );
    assert(results.symbols@[k].name@ == index@.definitions[d].name);
}

/// The callable that a place belongs to is a method or constructor of the file
/// whose span is around it, and there is none only where there is no such span.
pub proof fn a_place_belongs_to_the_callable_around_it(
    index: &SymbolIndex,
    path: &str,
    range: Range,
    callable: Option<&Definition>,
    at: int,
)
    requires
        call_ensures(SymbolIndex::enclosing_callable, (index, path, range), callable),
        0 <= at < index@.definitions.len(),
        index@.definitions[at].path == path@,
        index@.definitions[at].kind is Method || index@.definitions[at].kind is Constructor,
        index@.definitions[at].enclosing is Some,
        index@.definitions[at].enclosing->0.start_line
            <= index@.definitions[at].enclosing->0.end_line,
        index@.definitions[at].enclosing->0.contains(range),
        forall|j: int|
            0 <= j < index@.definitions.len() && j != at && (#[trigger] index@.definitions[j]).path
                == path@ && (index@.definitions[j].kind is Method || index@.definitions[j].kind
                is Constructor) && index@.definitions[j].enclosing is Some
                && index@.definitions[j].enclosing->0.contains(range)
                ==> index@.definitions[j].enclosing->0.end_line
                - index@.definitions[j].enclosing->0.start_line
                > index@.definitions[at].enclosing->0.end_line
                - index@.definitions[at].enclosing->0.start_line,
    ensures
        callable matches Some(definition) && definition@ == index@.definitions[at],
{
    if callable is None {
        assert(!crate::symbol_index::queries::is_callable_around(
            index@.definitions,
            path@,
            range,
            at,
        ));
        crate::handlers::call_laws::places_belong_to_methods_and_constructors(
            index@.definitions,
            path@,
            range,
            None,
            at,
        );
    }
    if let Some(definition) = callable {
        let i = choose|i: int| #[trigger]
            crate::symbol_index::queries::is_innermost_callable(
                index@.definitions,
                path@,
                range,
                i,
            ) && definition@ == index@.definitions[i];
        assert(crate::symbol_index::queries::is_innermost_callable(
            index@.definitions,
            path@,
            range,
            i,
        ));
        crate::handlers::call_laws::places_belong_to_methods_and_constructors(
            index@.definitions,
            path@,
            range,
            Some(index@.definitions[i]),
            at,
        );
    }
}

} // verus!
