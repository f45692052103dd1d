//! Who calls and who is called, from spans and kinds.
use vstd::prelude::*;

use crate::definition::DefinitionView;
use crate::handlers::calls::{CallGroup, IncomingCall, OutgoingCall};
use crate::index_model::{IndexView, Occurrence, StoredReference};
use crate::line_index::PositionEncoding;
use crate::span::Range;

verus! {

/// A range contains another where it starts no later and ends no earlier.
pub proof fn containment_is_by_both_ends(outer: Range, inner: Range)
    ensures
        outer.contains(inner) <==> {
            &&& outer.start_line < inner.start_line || (outer.start_line == inner.start_line
                && outer.start_col <= inner.start_col)
            &&& inner.end_line < outer.end_line || (inner.end_line == outer.end_line
                && inner.end_col <= outer.end_col)
        },
{
}

/// A method or constructor whose span is around a place, with no other around it
/// that spans as few lines, is the callable that the place belongs to. A place
/// that no method and no constructor is around belongs to none.
pub proof fn places_belong_to_methods_and_constructors(
    definitions: Seq<DefinitionView>,
    path: Seq<char>,
    range: Range,
    callable: Option<DefinitionView>,
    at: int,
)
    requires
        match callable {
            Some(definition) => exists|i: int| #[trigger]
                crate::symbol_index::queries::is_innermost_callable(definitions, path, range, i)
                    && definition == definitions[i],
            None => forall|i: int|
                !#[trigger] crate::symbol_index::queries::is_callable_around(
                    definitions,
                    path,
                    range,
                    i,
                ),
        },
        0 <= at < definitions.len(),
        definitions[at].path == path,
        definitions[at].kind is Method || definitions[at].kind is Constructor,
        definitions[at].enclosing is Some,
        definitions[at].enclosing->0.start_line <= definitions[at].enclosing->0.end_line,
        definitions[at].enclosing->0.contains(range),
        forall|j: int|
            0 <= j < definitions.len() && j != at && (#[trigger] definitions[j]).path == path && (
            definitions[j].kind is Method || definitions[j].kind is Constructor)
                && definitions[j].enclosing is Some && definitions[j].enclosing->0.contains(range)
                ==> definitions[j].enclosing->0.end_line - definitions[j].enclosing->0.start_line
                > definitions[at].enclosing->0.end_line - definitions[at].enclosing->0.start_line,
    ensures
        callable == Some(definitions[at]),
{
    lemma_callable_at(definitions, path, range, at);
    if let Some(definition) = callable {
        let i = choose|i: int| #[trigger]
            crate::symbol_index::queries::is_innermost_callable(definitions, path, range, i)
                && definition == definitions[i];
        assert(crate::symbol_index::queries::is_callable_around(definitions, path, range, i));
        assert(crate::symbol_index::queries::is_callable_around(definitions, path, range, at));
        assert(i == at);
    } else {
        assert(!crate::symbol_index::queries::is_callable_around(definitions, path, range, at));
    }
}

/// What a place belongs to is a method or a constructor in the same file, and
/// its declaration is around the place.
pub proof fn only_methods_and_constructors_own_places(
    definitions: Seq<DefinitionView>,
    path: Seq<char>,
    range: Range,
    i: int,
)
    requires
        crate::symbol_index::queries::is_innermost_callable(definitions, path, range, i),
    ensures
        0 <= i < definitions.len(),
        definitions[i].path == path,
        definitions[i].kind is Method || definitions[i].kind is Constructor,
        definitions[i].enclosing is Some,
        definitions[i].enclosing->0.contains(range),
        forall|j: int|
            0 <= j < definitions.len() && (#[trigger] definitions[j]).path == path && (
            definitions[j].kind is Method || definitions[j].kind is Constructor)
                && definitions[j].enclosing is Some && definitions[j].enclosing->0.contains(range)
                && definitions[j].enclosing->0.start_line <= definitions[j].enclosing->0.end_line
                ==> definitions[i].enclosing->0.end_line - definitions[i].enclosing->0.start_line
                <= definitions[j].enclosing->0.end_line - definitions[j].enclosing->0.start_line,
{
    assert forall|j: int|
        0 <= j < definitions.len() && (#[trigger] definitions[j]).path == path && (
        definitions[j].kind is Method || definitions[j].kind is Constructor)
            && definitions[j].enclosing is Some && definitions[j].enclosing->0.contains(range)
            && definitions[j].enclosing->0.start_line
            <= definitions[j].enclosing->0.end_line implies definitions[i].enclosing->0.end_line
        - definitions[i].enclosing->0.start_line <= definitions[j].enclosing->0.end_line
        - definitions[j].enclosing->0.start_line by {
        assert(crate::symbol_index::queries::is_callable_around(definitions, path, range, j));
    }
}

proof fn lemma_callable_at(
    definitions: Seq<DefinitionView>,
    path: Seq<char>,
    range: Range,
    at: int,
)
    requires
        0 <= at < definitions.len(),
        definitions[at].path == path,
        definitions[at].kind is Method || definitions[at].kind is Constructor,
        definitions[at].enclosing is Some,
        definitions[at].enclosing->0.start_line <= definitions[at].enclosing->0.end_line,
        definitions[at].enclosing->0.contains(range),
        forall|j: int|
            0 <= j < definitions.len() && j != at && (#[trigger] definitions[j]).path == path && (
            definitions[j].kind is Method || definitions[j].kind is Constructor)
                && definitions[j].enclosing is Some && definitions[j].enclosing->0.contains(range)
                ==> definitions[j].enclosing->0.end_line - definitions[j].enclosing->0.start_line
                > definitions[at].enclosing->0.end_line - definitions[at].enclosing->0.start_line,
    ensures
        crate::symbol_index::queries::is_innermost_callable(definitions, path, range, at),
{
    assert(crate::symbol_index::queries::is_callable_around(definitions, path, range, at));
    assert forall|j: int| #[trigger]
        crate::symbol_index::queries::is_callable_around(definitions, path, range, j) implies ({
        let a = definitions[at].enclosing->0.width();
        let b = definitions[j].enclosing->0.width();
        a < b || (a == b && at <= j)
    }) by {
        if j != at {
            assert(definitions[j].path == path);
        }
    }
}

/// Every group of calls has a caller, and its calls are references that are no
/// imports and belong to a callable of that symbol.
proof fn lemma_groups(
    definitions: Seq<DefinitionView>,
    references: Seq<StoredReference>,
    paths: Seq<Seq<char>>,
    n: int,
)
    requires
        0 <= n <= references.len(),
    ensures
        ({
            let groups = crate::handlers::calls::grouped(definitions, references, paths, n);
            &&& forall|g: int, c: int|
                #![trigger groups[g].calls[c]]
                0 <= g < groups.len() && 0 <= c < groups[g].calls.len() ==> {
                    let k = groups[g].calls[c];
                    &&& 0 <= k < n
                    &&& !references[k].is_import
                    &&& crate::handlers::calls::caller_at(
                        definitions,
                        paths[references[k].path as int],
                        references[k].range,
                    ) matches Some(caller) && definitions[caller].symbol
                        == definitions[groups[g].caller].symbol
                }
            &&& forall|k: int| #[trigger]
                grouped_somewhere(definitions, references, paths, groups, k) || !(0 <= k < n
                    && !references[k].is_import && crate::handlers::calls::caller_at(
                    definitions,
                    paths[references[k].path as int],
                    references[k].range,
                ) is Some)
        }),
    decreases n,
{
    let groups = crate::handlers::calls::grouped(definitions, references, paths, n);
    if n > 0 {
        lemma_groups(definitions, references, paths, n - 1);
        let rest = crate::handlers::calls::grouped(definitions, references, paths, n - 1);
        let reference = references[n - 1];
        let caller = crate::handlers::calls::caller_at(
            definitions,
            paths[reference.path as int],
            reference.range,
        );
        if !reference.is_import && caller is Some {
            let symbol = definitions[caller->0].symbol;
            crate::handlers::calls::lemma_group_of(
                definitions,
                rest,
                symbol,
                rest.len() as int,
            );
            let found = crate::handlers::calls::group_of(
                definitions,
                rest,
                symbol,
                rest.len() as int,
            );
            let mine: int = match found {
                Some(at) => at,
                None => rest.len() as int,
            };
            assert(0 <= mine < groups.len());
            assert(definitions[groups[mine].caller].symbol == symbol);
            assert(groups[mine].calls.last() == n - 1);
            assert forall|g: int, c: int|
                #![trigger groups[g].calls[c]]
                0 <= g < groups.len() && 0 <= c < groups[g].calls.len() implies ({
                let k = groups[g].calls[c];
                &&& 0 <= k < n
                &&& !references[k].is_import
                &&& crate::handlers::calls::caller_at(
                    definitions,
                    paths[references[k].path as int],
                    references[k].range,
                ) matches Some(caller) && definitions[caller].symbol
                    == definitions[groups[g].caller].symbol
            }) by {
                if g < rest.len() && c < rest[g].calls.len() {
                    assert(groups[g].calls[c] == rest[g].calls[c]);
                    assert(groups[g].caller == rest[g].caller);
                }
            }
            assert forall|k: int| #[trigger]
                grouped_somewhere(definitions, references, paths, groups, k) || !(0 <= k < n
                    && !references[k].is_import && crate::handlers::calls::caller_at(
                    definitions,
                    paths[references[k].path as int],
                    references[k].range,
                ) is Some) by {
                if k == n - 1 {
                    let c = groups[mine].calls.len() - 1;
                    assert(groups[mine].calls[c] == k);
                } else if grouped_somewhere(definitions, references, paths, rest, k) {
                    let (g, c) = choose|g: int, c: int|
                        0 <= g < rest.len() && 0 <= c < rest[g].calls.len()
                            && #[trigger] rest[g].calls[c] == k;
                    assert(groups[g].calls[c] == k);
                }
            }
        } else {
            assert forall|k: int| #[trigger]
                grouped_somewhere(definitions, references, paths, groups, k) || !(0 <= k < n
                    && !references[k].is_import && crate::handlers::calls::caller_at(
                    definitions,
                    paths[references[k].path as int],
                    references[k].range,
                ) is Some) by {
                assert(grouped_somewhere(definitions, references, paths, rest, k) || !(0 <= k < n
                    - 1 && !references[k].is_import && crate::handlers::calls::caller_at(
                    definitions,
                    paths[references[k].path as int],
                    references[k].range,
                ) is Some));
            }
        }
    }
}

/// Whether a reference is one of the calls of some group.
spec fn grouped_somewhere(
    definitions: Seq<DefinitionView>,
    references: Seq<StoredReference>,
    paths: Seq<Seq<char>>,
    groups: Seq<CallGroup>,
    k: int,
) -> bool {
    exists|g: int, c: int|
        0 <= g < groups.len() && 0 <= c < groups[g].calls.len() && #[trigger] groups[g].calls[c]
            == k
}

/// A reference inside the span of a method or a constructor, and of no other
/// with as few lines, that is no import is a call from it: it is among the
/// callers, while there are fewer than a call hierarchy lists, with the
/// reference among its places.
pub proof fn references_inside_callables_are_calls<F: Fn(&str) -> Option<String>>(
    calls: Seq<IncomingCall>,
    index: IndexView,
    symbol: Seq<char>,
    read: F,
    root: Seq<char>,
    client: PositionEncoding,
    k: int,
    at: int,
)
    requires
        index.references.contains_key(symbol),
        crate::handlers::calls::shows_groups(
            calls,
            crate::handlers::calls::capped(
                crate::handlers::calls::grouped(
                    index.definitions,
                    index.references[symbol],
                    index.reference_paths,
                    index.references[symbol].len() as int,
                ),
            ),
            index.definitions,
            index.references[symbol],
            index.reference_paths,
            read,
            root,
            client,
        ),
        calls.len() < 200,
        0 <= k < index.references[symbol].len(),
        !index.references[symbol][k].is_import,
        0 <= at < index.definitions.len(),
        index.definitions[at].path == index.reference_paths[index.references[symbol][k].path as int],
        index.definitions[at].kind is Method || index.definitions[at].kind is Constructor,
        index.definitions[at].enclosing is Some,
        index.definitions[at].enclosing->0.start_line
            <= index.definitions[at].enclosing->0.end_line,
        index.definitions[at].enclosing->0.contains(index.references[symbol][k].range),
        forall|j: int|
            0 <= j < index.definitions.len() && j != at && (#[trigger] index.definitions[j]).path
                == index.definitions[at].path && (index.definitions[j].kind is Method
                || index.definitions[j].kind is Constructor) && index.definitions[j].enclosing
                is Some && index.definitions[j].enclosing->0.contains(
                index.references[symbol][k].range,
            ) ==> index.definitions[j].enclosing->0.end_line
                - index.definitions[j].enclosing->0.start_line
                > index.definitions[at].enclosing->0.end_line
                - index.definitions[at].enclosing->0.start_line,
    ensures
        ({
            let stored = index.references[symbol][k];
            exists|g: int, c: int|
                0 <= g < calls.len() && 0 <= c < calls[g].ranges@.len() && {
                    let range = #[trigger] calls[g].ranges@[c];
                    &&& calls[g].from.symbol@ == index.definitions[at].symbol
                    &&& (stored.encoding is Utf8 <==> client is Utf8) ==> {
                        &&& range.start.line == stored.range.start_line
                        &&& range.start.character == stored.range.start_col
                        &&& range.end.line == stored.range.end_line
                        &&& range.end.character == stored.range.end_col
                    }
                }
        }),
{
    let definitions = index.definitions;
    let references = index.references[symbol];
    let paths = index.reference_paths;
    let n = references.len() as int;
    let groups = crate::handlers::calls::grouped(definitions, references, paths, n);
    let path = paths[references[k].path as int];
    lemma_callable_at(definitions, path, references[k].range, at);
    crate::handlers::calls::lemma_one_caller(definitions, path, references[k].range, at);
    lemma_groups(definitions, references, paths, n);
    assert(grouped_somewhere(definitions, references, paths, groups, k));
    let (g, c) = choose|g: int, c: int|
        0 <= g < groups.len() && 0 <= c < groups[g].calls.len() && #[trigger] groups[g].calls[c]
            == k;
    assert(crate::handlers::calls::capped(groups) =~= groups);
    assert(crate::handlers::calls::shows_group(
        calls[g],
        groups[g],
        definitions,
        references,
        paths,
        read,
        root,
        client,
    ));
    let range = calls[g].ranges@[c];
}

/// Every place of a caller is a reference that is no import, in the span of a
/// method or constructor with the caller's symbol.
pub proof fn calls_are_references_inside_callables<F: Fn(&str) -> Option<String>>(
    calls: Seq<IncomingCall>,
    index: IndexView,
    symbol: Seq<char>,
    read: F,
    root: Seq<char>,
    client: PositionEncoding,
    g: int,
    c: int,
)
    requires
        index.references.contains_key(symbol),
        crate::handlers::calls::shows_groups(
            calls,
            crate::handlers::calls::capped(
                crate::handlers::calls::grouped(
                    index.definitions,
                    index.references[symbol],
                    index.reference_paths,
                    index.references[symbol].len() as int,
                ),
            ),
            index.definitions,
            index.references[symbol],
            index.reference_paths,
            read,
            root,
            client,
        ),
        0 <= g < calls.len(),
        0 <= c < calls[g].ranges@.len(),
    ensures
        exists|k: int, at: int|
            0 <= k < index.references[symbol].len() && 0 <= at < index.definitions.len() && {
                let stored = #[trigger] index.references[symbol][k];
                let caller = #[trigger] index.definitions[at];
                let range = calls[g].ranges@[c];
                &&& !stored.is_import
                &&& caller.symbol == calls[g].from.symbol@
                &&& caller.path == index.reference_paths[stored.path as int]
                &&& caller.kind is Method || caller.kind is Constructor
                &&& caller.enclosing is Some
                &&& caller.enclosing->0.contains(stored.range)
                &&& (stored.encoding is Utf8 <==> client is Utf8) ==> {
                    &&& range.start.line == stored.range.start_line
                    &&& range.start.character == stored.range.start_col
                    &&& range.end.line == stored.range.end_line
                    &&& range.end.character == stored.range.end_col
                }
            },
{
    let definitions = index.definitions;
    let references = index.references[symbol];
    let paths = index.reference_paths;
    let n = references.len() as int;
    let groups = crate::handlers::calls::grouped(definitions, references, paths, n);
    lemma_groups(definitions, references, paths, n);
    let shown = crate::handlers::calls::capped(groups);
    assert(shown[g] == groups[g]);
    assert(crate::handlers::calls::shows_group(
        calls[g],
        shown[g],
        definitions,
        references,
        paths,
        read,
        root,
        client,
    ));
    let k = groups[g].calls[c];
    let range = calls[g].ranges@[c];
    let caller = crate::handlers::calls::caller_at(
        definitions,
        paths[references[k].path as int],
        references[k].range,
    );
    let at = caller->0;
    assert(crate::symbol_index::queries::is_innermost_callable(
        definitions,
        paths[references[k].path as int],
        references[k].range,
        at,
    ));
    assert(index.references[symbol][k] == references[k]);
    assert(index.definitions[at].symbol == calls[g].from.symbol@);
}

/// The symbol of every mention is among the first mentions, and each of those
/// is a mention.
proof fn lemma_first_mentions(
    index: IndexView,
    path: Seq<char>,
    span: Range,
    owner: Option<Seq<char>>,
    row: Seq<Occurrence>,
)
    ensures
        ({
            let found = crate::symbol_index::queries::first_mentions(
                index,
                path,
                span,
                owner,
                row,
            );
            &&& forall|k: int|
                0 <= k < row.len() && crate::symbol_index::queries::mentions(
                    index,
                    path,
                    span,
                    owner,
                    #[trigger] row[k],
                ) ==> crate::symbol_index::queries::names_symbol(found, row[k].symbol)
            &&& forall|i: int|
                0 <= i < found.len() ==> row.contains(#[trigger] found[i])
                    && crate::symbol_index::queries::mentions(index, path, span, owner, found[i])
        }),
    decreases row.len(),
{
    if row.len() > 0 {
        let rest = row.drop_last();
        lemma_first_mentions(index, path, span, owner, rest);
        let before = crate::symbol_index::queries::first_mentions(index, path, span, owner, rest);
        let found = crate::symbol_index::queries::first_mentions(index, path, span, owner, row);
        assert forall|k: int|
            0 <= k < row.len() && crate::symbol_index::queries::mentions(
                index,
                path,
                span,
                owner,
                #[trigger] row[k],
            ) implies crate::symbol_index::queries::names_symbol(found, row[k].symbol) by {
            if k < rest.len() {
                assert(rest[k] == row[k]);
                let i = choose|i: int|
                    0 <= i < before.len() && (#[trigger] before[i]).symbol == row[k].symbol;
                assert(found[i] == before[i]);
            } else if crate::symbol_index::queries::names_symbol(before, row[k].symbol) {
                let i = choose|i: int|
                    0 <= i < before.len() && (#[trigger] before[i]).symbol == row[k].symbol;
                assert(found[i] == before[i]);
            } else {
                assert(found[before.len() as int] == row[k]);
            }
        }
        assert forall|i: int| 0 <= i < found.len() implies row.contains(#[trigger] found[i])
            && crate::symbol_index::queries::mentions(index, path, span, owner, found[i]) by {
            if i < before.len() {
                assert(found[i] == before[i]);
                assert(rest.contains(before[i]));
                let k = choose|k: int| 0 <= k < rest.len() && rest[k] == before[i];
                assert(row[k] == found[i]);
            } else {
                assert(row[row.len() - 1] == found[i]);
            }
        }
    }
}

/// What is called is what is mentioned and can be called.
proof fn lemma_callees(definitions: Seq<DefinitionView>, mentioned: Seq<(Seq<char>, Range)>)
    ensures
        ({
            let called = crate::handlers::calls::callees(definitions, mentioned);
            &&& forall|i: int|
                0 <= i < mentioned.len() && (crate::handlers::first_definition(
                    definitions,
                    (#[trigger] mentioned[i]).0,
                ) matches Some(target) && (target.kind is Method || target.kind is Constructor))
                    ==> exists|c: int|
                    0 <= c < called.len() && #[trigger] called[c] == (
                        crate::handlers::first_definition(definitions, mentioned[i].0)->0,
                        mentioned[i].1,
                    )
            &&& forall|c: int|
                0 <= c < called.len() ==> ((#[trigger] called[c]).0.kind is Method
                    || called[c].0.kind is Constructor) && exists|i: int|
                    0 <= i < mentioned.len() && (#[trigger] mentioned[i]).1 == called[c].1 && Some(
                        called[c].0,
                    ) == crate::handlers::first_definition(definitions, mentioned[i].0)
        }),
    decreases mentioned.len(),
{
    if mentioned.len() > 0 {
        let rest = mentioned.drop_last();
        lemma_callees(definitions, rest);
        let before = crate::handlers::calls::callees(definitions, rest);
        let called = crate::handlers::calls::callees(definitions, mentioned);
        let n = mentioned.len() - 1;
        assert forall|i: int|
            0 <= i < mentioned.len() && (crate::handlers::first_definition(
                definitions,
                (#[trigger] mentioned[i]).0,
            ) matches Some(target) && (target.kind is Method || target.kind
                is Constructor)) implies exists|c: int|
            0 <= c < called.len() && #[trigger] called[c] == (
                crate::handlers::first_definition(definitions, mentioned[i].0)->0,
                mentioned[i].1,
            ) by {
            if i < n {
                assert(rest[i] == mentioned[i]);
                let c = choose|c: int|
                    0 <= c < before.len() && #[trigger] before[c] == (
                        crate::handlers::first_definition(definitions, mentioned[i].0)->0,
                        mentioned[i].1,
                    );
                assert(called[c] == before[c]);
            } else {
                assert(called[before.len() as int] == (
                    crate::handlers::first_definition(definitions, mentioned[i].0)->0,
                    mentioned[i].1,
                ));
            }
        }
        assert forall|c: int| 0 <= c < called.len() implies ((#[trigger] called[c]).0.kind is Method
            || called[c].0.kind is Constructor) && exists|i: int|
            0 <= i < mentioned.len() && (#[trigger] mentioned[i]).1 == called[c].1 && Some(
                called[c].0,
            ) == crate::handlers::first_definition(definitions, mentioned[i].0) by {
            if c < before.len() {
                assert(called[c] == before[c]);
                let i = choose|i: int|
                    0 <= i < rest.len() && (#[trigger] rest[i]).1 == before[c].1 && Some(
                        before[c].0,
                    ) == crate::handlers::first_definition(definitions, rest[i].0);
                assert(mentioned[i] == rest[i]);
            } else {
                assert(mentioned[n].1 == called[c].1);
            }
        }
    }
}

/// A method or constructor that is mentioned inside the body of another one,
/// and in no narrower one, is called by it: it is among what that one calls,
/// while there are fewer than a call hierarchy lists.
pub proof fn mentioned_callables_are_called<F: Fn(&str) -> Option<String>>(
    calls: Seq<OutgoingCall>,
    index: IndexView,
    symbol: Seq<char>,
    listed: Seq<(&str, Range)>,
    read: F,
    root: Seq<char>,
    client: PositionEncoding,
    at: int,
    k: int,
    t: int,
)
    requires
        0 <= at < index.definitions.len(),
        index.definitions[at].symbol == symbol,
        index.definitions[at].kind is Method || index.definitions[at].kind is Constructor,
        index.definitions[at].enclosing is Some,
        index.definitions[at].enclosing->0.start_line
            <= index.definitions[at].enclosing->0.end_line,
        crate::symbol_index::queries::is_call_list(
            index,
            index.definitions[at].path,
            index.definitions[at].enclosing->0,
            Some(symbol),
            listed,
        ),
        crate::handlers::calls::shows_outgoing(
            calls,
            crate::handlers::calls::capped(
                crate::handlers::calls::callees(
                    index.definitions,
                    crate::handlers::calls::mentioned_by(listed),
                ),
            ),
            index.definitions[at],
            read,
            root,
            client,
        ),
        calls.len() < 200,
        index.occurrences.contains_key(index.definitions[at].path),
        0 <= k < index.occurrences[index.definitions[at].path].len(),
        index.occurrences[index.definitions[at].path][k].range.start_line
            <= index.occurrences[index.definitions[at].path][k].range.end_line,
        index.definitions[at].enclosing->0.contains(
            index.occurrences[index.definitions[at].path][k].range,
        ),
        forall|j: int|
            0 <= j < index.definitions.len() && j != at && (#[trigger] index.definitions[j]).path
                == index.definitions[at].path && (index.definitions[j].kind is Method
                || index.definitions[j].kind is Constructor) && index.definitions[j].enclosing
                is Some && index.definitions[j].enclosing->0.contains(
                index.occurrences[index.definitions[at].path][k].range,
            ) ==> index.definitions[j].enclosing->0.end_line
                - index.definitions[j].enclosing->0.start_line
                > index.definitions[at].enclosing->0.end_line
                - index.definitions[at].enclosing->0.start_line,
        forall|j: int|
            0 <= j < index.definitions.len() && (#[trigger] index.definitions[j]).path
                == index.definitions[at].path && index.definitions[j].range
                == index.occurrences[index.definitions[at].path][k].range
                ==> index.definitions[j].symbol
                != index.symbol_names[index.occurrences[index.definitions[at].path][k].symbol as int],
        0 <= t < index.definitions.len(),
        index.definitions[t].symbol
            == index.symbol_names[index.occurrences[index.definitions[at].path][k].symbol as int],
        index.definitions[t].kind is Method || index.definitions[t].kind is Constructor,
        forall|j: int|
            0 <= j < t ==> (#[trigger] index.definitions[j]).symbol != index.definitions[t].symbol,
    ensures
        exists|c: int|
            0 <= c < calls.len() && (#[trigger] calls[c]).to.symbol@ == index.definitions[t].symbol
                && calls[c].to.name@ == index.definitions[t].name && calls[c].to.kind == (
            if index.definitions[t].kind is Method {
                6int
            } else {
                9int
            }),
{
    let path = index.definitions[at].path;
    let place = index.occurrences[path][k];
    lemma_callable_at(index.definitions, path, place.range, at);
    let i = lemma_listed(
        index,
        path,
        index.definitions[at].enclosing->0,
        symbol,
        listed,
        at,
        k,
    );
    lemma_target(calls, index.definitions, index.definitions[at], listed, read, root, client, i, t);
}

/// A mention that is no declaration and belongs to the owner is listed.
proof fn lemma_listed(
    index: IndexView,
    path: Seq<char>,
    span: Range,
    owner: Seq<char>,
    listed: Seq<(&str, Range)>,
    at: int,
    k: int,
) -> (i: int)
    requires
        crate::symbol_index::queries::is_call_list(index, path, span, Some(owner), listed),
        index.occurrences.contains_key(path),
        0 <= k < index.occurrences[path].len(),
        index.occurrences[path][k].range.start_line <= index.occurrences[path][k].range.end_line,
        span.contains(index.occurrences[path][k].range),
        crate::symbol_index::queries::is_innermost_callable(
            index.definitions,
            path,
            index.occurrences[path][k].range,
            at,
        ),
        index.definitions[at].symbol == owner,
        forall|j: int|
            0 <= j < index.definitions.len() && (#[trigger] index.definitions[j]).path == path
                && index.definitions[j].range == index.occurrences[path][k].range
                ==> index.definitions[j].symbol
                != index.symbol_names[index.occurrences[path][k].symbol as int],
    ensures
        0 <= i < listed.len(),
        listed[i].0@ == index.symbol_names[index.occurrences[path][k].symbol as int],
{
    let row = index.occurrences[path];
    let place = row[k];
    assert(crate::symbol_index::queries::belongs_to(index.definitions, path, place.range, owner));
    assert(crate::symbol_index::queries::mentions(index, path, span, Some(owner), row[k]));
    lemma_first_mentions(index, path, span, Some(owner), row);
    let found = crate::symbol_index::queries::first_mentions(index, path, span, Some(owner), row);
    let i = choose|i: int| 0 <= i < found.len() && (#[trigger] found[i]).symbol == place.symbol;
    assert(listed[i].0@ == index.symbol_names[place.symbol as int]);
    i
}

/// A listed symbol that is that of a method or constructor is called.
proof fn lemma_target<F: Fn(&str) -> Option<String>>(
    calls: Seq<OutgoingCall>,
    definitions: Seq<DefinitionView>,
    caller: DefinitionView,
    listed: Seq<(&str, Range)>,
    read: F,
    root: Seq<char>,
    client: PositionEncoding,
    i: int,
    t: int,
)
    requires
        crate::handlers::calls::shows_outgoing(
            calls,
            crate::handlers::calls::capped(
                crate::handlers::calls::callees(
                    definitions,
                    crate::handlers::calls::mentioned_by(listed),
                ),
            ),
            caller,
            read,
            root,
            client,
        ),
        calls.len() < 200,
        0 <= i < listed.len(),
        0 <= t < definitions.len(),
        listed[i].0@ == definitions[t].symbol,
        definitions[t].kind is Method || definitions[t].kind is Constructor,
        forall|j: int|
            0 <= j < t ==> (#[trigger] definitions[j]).symbol != definitions[t].symbol,
    ensures
        exists|c: int|
            0 <= c < calls.len() && (#[trigger] calls[c]).to.symbol@ == definitions[t].symbol
                && calls[c].to.name@ == definitions[t].name && calls[c].to.kind == (
            if definitions[t].kind is Method {
                6int
            } else {
                9int
            }),
{
    let mentioned = crate::handlers::calls::mentioned_by(listed);
    assert(mentioned[i].0 == definitions[t].symbol);
    crate::handlers::lemma_first_definition(definitions, definitions[t].symbol, t);
    lemma_callees(definitions, mentioned);
    let called = crate::handlers::calls::callees(definitions, mentioned);
    let c = choose|c: int|
        0 <= c < called.len() && #[trigger] called[c] == (
            crate::handlers::first_definition(definitions, mentioned[i].0)->0,
            mentioned[i].1,
        );
    assert(crate::handlers::calls::capped(called) =~= called);
    assert(crate::handlers::calls::shows_callable(
        calls[c].to,
        called[c].0,
        read,
        root,
        client,
    ));
}

/// Everything that a callable calls is a method or constructor, is mentioned
/// inside its span, and is shown at that mention.
pub proof fn only_mentioned_callables_are_called<F: Fn(&str) -> Option<String>>(
    calls: Seq<OutgoingCall>,
    index: IndexView,
    caller: DefinitionView,
    span: Range,
    listed: Seq<(&str, Range)>,
    read: F,
    root: Seq<char>,
    client: PositionEncoding,
    c: int,
)
    requires
        crate::symbol_index::queries::is_call_list(
            index,
            caller.path,
            span,
            Some(caller.symbol),
            listed,
        ),
        crate::handlers::calls::shows_outgoing(
            calls,
            crate::handlers::calls::capped(
                crate::handlers::calls::callees(
                    index.definitions,
                    crate::handlers::calls::mentioned_by(listed),
                ),
            ),
            caller,
            read,
            root,
            client,
        ),
        0 <= c < calls.len(),
    ensures
        calls.len() <= 200,
        calls[c].to.kind == 6 || calls[c].to.kind == 9,
        index.occurrences.contains_key(caller.path),
        exists|k: int|
            0 <= k < index.occurrences[caller.path].len() && {
                let place = #[trigger] index.occurrences[caller.path][k];
                &&& index.symbol_names[place.symbol as int] == calls[c].to.symbol@
                &&& span.contains(place.range)
                &&& (caller.encoding is Utf8 <==> client is Utf8) ==> {
                    &&& calls[c].range.start.line == place.range.start_line
                    &&& calls[c].range.start.character == place.range.start_col
                    &&& calls[c].range.end.line == place.range.end_line
                    &&& calls[c].range.end.character == place.range.end_col
                }
            },
{
    let row = crate::table::row_of(index.occurrences, caller.path);
    lemma_first_mentions(index, caller.path, span, Some(caller.symbol), row);
    let found = crate::symbol_index::queries::first_mentions(
        index,
        caller.path,
        span,
        Some(caller.symbol),
        row,
    );
    let mentioned = crate::handlers::calls::mentioned_by(listed);
    lemma_callees(index.definitions, mentioned);
    let called = crate::handlers::calls::callees(index.definitions, mentioned);
    let shown = crate::handlers::calls::capped(called);
    assert(shown[c] == called[c]);
    assert(crate::handlers::calls::shows_callable(
        calls[c].to,
        called[c].0,
        read,
        root,
        client,
    ));
    let i = choose|i: int|
        0 <= i < mentioned.len() && (#[trigger] mentioned[i]).1 == called[c].1 && Some(called[c].0)
            == crate::handlers::first_definition(index.definitions, mentioned[i].0);
    crate::handlers::laws::lemma_defined(index.definitions, mentioned[i].0);
    assert(listed[i].0@ == index.symbol_names[found[i].symbol as int]);
    assert(row.contains(found[i]));
    let k = choose|k: int| 0 <= k < row.len() && row[k] == found[i];
    assert(index.occurrences[caller.path][k] == found[i]);
}

/// A call hierarchy starts at methods and constructors alone.
pub proof fn only_methods_and_constructors_are_called(definition: DefinitionView)
    ensures
        crate::handlers::calls::is_callable(definition) <==> definition.kind is Method
            || definition.kind is Constructor,
{
}

/// A callable is shown by its symbol, its name, LSP's number for its kind, what
/// it spans and where its name stands.
pub proof fn callables_are_shown_by_name_and_span<F: Fn(&str) -> Option<String>>(
    item: crate::handlers::calls::CallItem,
    definition: DefinitionView,
    read: F,
    root: Seq<char>,
    client: PositionEncoding,
)
    requires
        crate::handlers::calls::shows_callable(item, definition, read, root, client),
    ensures
        item.symbol@ == definition.symbol,
        item.name@ == definition.name,
        definition.kind is Method ==> item.kind == 6,
        definition.kind is Constructor ==> item.kind == 9,
        Some(item.location.uri@) == crate::uri::file_url(
            crate::paths::joined_path(root, definition.path),
        ),
        (definition.encoding is Utf8 <==> client is Utf8) ==> {
            let whole = match definition.enclosing {
                Some(span) => span,
                None => definition.range,
            };
            &&& item.location.range.start.line == whole.start_line
            &&& item.location.range.start.character == whole.start_col
            &&& item.location.range.end.line == whole.end_line
            &&& item.location.range.end.character == whole.end_col
            &&& item.selection.start.line == definition.range.start_line
            &&& item.selection.start.character == definition.range.start_col
            &&& item.selection.end.line == definition.range.end_line
            &&& item.selection.end.character == definition.range.end_col
        },
{
}

/// Of the mentions of a symbol inside a body the first one is listed, and each
/// symbol once.
proof fn lemma_mentioned_once(
    index: IndexView,
    path: Seq<char>,
    span: Range,
    owner: Option<Seq<char>>,
    row: Seq<Occurrence>,
)
    ensures
        ({
            let found = crate::symbol_index::queries::first_mentions(
                index,
                path,
                span,
                owner,
                row,
            );
            forall|i: int, j: int|
                0 <= i < j < found.len() ==> (#[trigger] found[i]).symbol != (
                #[trigger] found[j]).symbol
        }),
    decreases row.len(),
{
    if row.len() > 0 {
        let rest = row.drop_last();
        lemma_mentioned_once(index, path, span, owner, rest);
        let before = crate::symbol_index::queries::first_mentions(index, path, span, owner, rest);
        let found = crate::symbol_index::queries::first_mentions(index, path, span, owner, row);
        assert forall|i: int, j: int| 0 <= i < j < found.len() implies (#[trigger] found[i]).symbol
            != (#[trigger] found[j]).symbol by {
            if j < before.len() {
                assert(found[i] == before[i] && found[j] == before[j]);
            } else {
                assert(found[i] == before[i]);
            }
        }
    }
}

/// A list of what a body mentions names each symbol once.
pub proof fn mentions_are_listed_once(
    index: &crate::symbol_index::SymbolIndex,
    path: Seq<char>,
    span: Range,
    owner: Option<Seq<char>>,
    listed: Seq<(&str, Range)>,
    i: int,
    j: int,
)
    requires
        index.wf(),
        crate::symbol_index::queries::is_call_list(index@, path, span, owner, listed),
        0 <= i < j < listed.len(),
    ensures
        listed[i].0@ != listed[j].0@,
{
    index.lemma_sound_rows();
    let row = crate::table::row_of(index@.occurrences, path);
    lemma_first_mentions(index@, path, span, owner, row);
    lemma_mentioned_once(index@, path, span, owner, row);
    let found = crate::symbol_index::queries::first_mentions(index@, path, span, owner, row);
    assert(row.contains(found[i]) && row.contains(found[j]));
    let a = choose|a: int| 0 <= a < row.len() && row[a] == found[i];
    let b = choose|b: int| 0 <= b < row.len() && row[b] == found[j];
    assert(index@.occurrences[path][a].symbol < index@.symbol_names.len());
    assert(index@.occurrences[path][b].symbol < index@.symbol_names.len());
    assert(listed[i].0@ == index@.symbol_names[found[i].symbol as int]);
    assert(listed[j].0@ == index@.symbol_names[found[j].symbol as int]);
}

/// What a body is listed to mention is no declaration there, and stands inside
/// the span of a method or constructor with the owner's symbol.
pub proof fn mentions_belong_to_their_owner(
    index: IndexView,
    path: Seq<char>,
    span: Range,
    owner: Seq<char>,
    listed: Seq<(&str, Range)>,
    i: int,
)
    requires
        crate::symbol_index::queries::is_call_list(index, path, span, Some(owner), listed),
        0 <= i < listed.len(),
    ensures
        span.contains(listed[i].1),
        forall|j: int|
            0 <= j < index.definitions.len() && (#[trigger] index.definitions[j]).path == path
                && index.definitions[j].range == listed[i].1 ==> index.definitions[j].symbol
                != listed[i].0@,
        exists|at: int|
            0 <= at < index.definitions.len() && (#[trigger] index.definitions[at]).symbol == owner
                && index.definitions[at].path == path && (index.definitions[at].kind is Method
                || index.definitions[at].kind is Constructor) && index.definitions[at].enclosing
                is Some && index.definitions[at].enclosing->0.contains(listed[i].1),
{
    let row = crate::table::row_of(index.occurrences, path);
    lemma_first_mentions(index, path, span, Some(owner), row);
    let found = crate::symbol_index::queries::first_mentions(index, path, span, Some(owner), row);
    assert(listed[i].0@ == index.symbol_names[found[i].symbol as int]);
    let range = listed[i].1;
    assert(range == found[i].range);
    assert(crate::symbol_index::queries::mentions(index, path, span, Some(owner), found[i]));
    let at = choose|at: int| #[trigger]
        crate::symbol_index::queries::is_innermost_callable(index.definitions, path, range, at)
            && index.definitions[at].symbol == owner;
    assert(index.definitions[at].symbol == owner);
}

} // verus!
