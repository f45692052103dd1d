//! The call hierarchy: who calls a method, and what it calls.
use vstd::prelude::*;

use crate::definition::{Definition, DefinitionView, SymbolKind};
use crate::handlers::{
    convert_range, find_definition, symbol_under_cursor, to_location, to_lsp_kind, ClientRange,
    Location, CALL_LIMIT,
};
use crate::index_model::StoredReference;
use crate::line_index::{LinePosition, PositionEncoding};
use crate::paths::AbsPath;
use crate::span::Range;
use crate::symbol_index::SymbolIndex;
use crate::text::same_text;

verus! {

/// Which way a call hierarchy is being walked.
#[derive(Copy, Clone, Debug, PartialEq, Eq, Structural)]
pub enum CallDirection {
    Incoming,
    Outgoing,
}

/// A callable, as a client is shown it.
#[derive(Debug)]
pub struct CallItem {
    /// The symbol, which comes back with the client's next question.
    pub symbol: String,
    pub name: String,
    /// LSP's number for the kind.
    pub kind: i32,
    /// The whole declaration.
    pub location: Location,
    /// Its name.
    pub selection: ClientRange,
}

/// Whether a definition is of something that can be called.
pub open spec fn is_callable(definition: DefinitionView) -> bool {
    definition.kind is Method || definition.kind is Constructor
}

/// Whether an item shows a definition.
pub open spec fn shows_callable<F: Fn(&str) -> Option<String>>(
    item: CallItem,
    definition: DefinitionView,
    read: F,
    root: Seq<char>,
    client: PositionEncoding,
) -> bool {
    &&& item.symbol@ == definition.symbol
    &&& item.name@ == definition.name
    &&& item.kind == crate::handlers::lsp_kind(definition.kind)
    &&& crate::handlers::locates(
        item.location,
        read,
        root,
        definition.path,
        crate::handlers::outline::extent(definition),
        definition.encoding,
        client,
    )
    &&& crate::handlers::shown(
        read,
        definition.path,
        definition.range,
        definition.encoding,
        client,
        item.selection,
    )
}

/// Shows a definition to the client.
fn to_item<F: Fn(&str) -> Option<String>>(
    definition: &Definition,
    root: &AbsPath,
    client: PositionEncoding,
    read: &F,
) -> (item: CallItem)
    requires
        !crate::paths::absolute(definition@.path),
        crate::handlers::is_reader(*read),
    ensures
        shows_callable(item, definition@, *read, root@, client),
{
    let whole = match definition.enclosing {
        Some(span) => span,
        None => definition.range,
    };
    let location = to_location(
        &definition.path,
        whole,
        definition.encoding,
        root,
        client,
        read,
    );
    let selection = convert_range(
        &definition.path,
        definition.range,
        definition.encoding,
        client,
        read,
    );
    CallItem {
        symbol: definition.symbol.clone(),
        name: definition.name.clone(),
        kind: to_lsp_kind(definition.kind),
        location,
        selection,
    }
}

/// Computes [`is_callable`].
fn can_be_called(definition: &Definition) -> (callable: bool)
    ensures
        callable == is_callable(definition@),
{
    match definition.kind {
        SymbolKind::Method | SymbolKind::Constructor => true,
        _ => false,
    }
}

/// Where a call hierarchy starts: the callable under a cursor.
///
/// Nothing where there is none, or one that the index does not define.
pub fn prepare_call_hierarchy<F: Fn(&str) -> Option<String>>(
    index: &SymbolIndex,
    path: &str,
    position: LinePosition,
    root: &AbsPath,
    client: PositionEncoding,
    read: &F,
) -> (found: Option<CallItem>)
    requires
        index.wf(),
        crate::handlers::names_workspace_files(index@),
        crate::handlers::is_reader(*read),
    ensures
        exists|symbol: Option<Seq<char>>| #[trigger]
            crate::handlers::under_cursor(index@, path@, position, client, *read, symbol)
                && match symbol {
                Some(symbol) => match crate::handlers::first_definition(
                    index@.definitions,
                    symbol,
                ) {
                    Some(definition) => if is_callable(definition) {
                        found matches Some(item) && shows_callable(
                            item,
                            definition,
                            *read,
                            root@,
                            client,
                        )
                    } else {
                        found is None
                    },
                    None => found is None,
                },
                None => found is None,
            },
{
    let symbol = match symbol_under_cursor(index, path, position, client, read) {
        Some(symbol) => symbol,
        None => {
            return None;
        },
    };
    assert(crate::handlers::under_cursor(
        index@,
        path@,
        position,
        client,
        *read,
        Some(symbol@),
    ));
    proof {
        crate::handlers::lemma_definition_listed(index@.definitions, symbol@);
    }
    match find_definition(index, &symbol) {
        Some(definition) => {
            if can_be_called(definition) {
                Some(to_item(definition, root, client, read))
            } else {
                None
            }
        },
        None => None,
    }
}

/// A call out of a callable, and where it stands.
#[derive(Debug)]
pub struct OutgoingCall {
    pub to: CallItem,
    pub range: ClientRange,
}

/// The callables among the symbols that a body mentions, each with its place.
pub open spec fn callees(definitions: Seq<DefinitionView>, mentioned: Seq<(Seq<char>, Range)>) -> Seq<
    (DefinitionView, Range),
>
    decreases mentioned.len(),
{
    if mentioned.len() == 0 {
        Seq::empty()
    } else {
        let rest = callees(definitions, mentioned.drop_last());
        match crate::handlers::first_definition(definitions, mentioned.last().0) {
            Some(definition) => if is_callable(definition) {
                rest.push((definition, mentioned.last().1))
            } else {
                rest
            },
            None => rest,
        }
    }
}

/// What a list of calls mentions.
pub open spec fn mentioned_by(calls: Seq<(&str, Range)>) -> Seq<(Seq<char>, Range)> {
    Seq::new(calls.len(), |i: int| (calls[i].0@, calls[i].1))
}

/// Whether `calls` show the callables that a body mentions.
pub open spec fn shows_outgoing<F: Fn(&str) -> Option<String>>(
    calls: Seq<OutgoingCall>,
    wanted: Seq<(DefinitionView, Range)>,
    caller: DefinitionView,
    read: F,
    root: Seq<char>,
    client: PositionEncoding,
) -> bool {
    &&& calls.len() == wanted.len()
    &&& forall|i: int|
        0 <= i < calls.len() ==> {
            &&& shows_callable((#[trigger] calls[i]).to, wanted[i].0, read, root, client)
            &&& crate::handlers::shown(
                read,
                caller.path,
                wanted[i].1,
                caller.encoding,
                client,
                calls[i].range,
            )
        }
}

/// The first of some calls, as many as a call hierarchy lists.
pub open spec fn capped<T>(calls: Seq<T>) -> Seq<T> {
    calls.take(crate::symbol_index::search::at_most(calls.len() as int, CALL_LIMIT as int))
}

/// What a callable calls: each callable that its body mentions, once, at the
/// first place, as many as are listed. The body of one nested in it is not its
/// own.
pub fn outgoing_calls<F: Fn(&str) -> Option<String>>(
    index: &SymbolIndex,
    symbol: &str,
    root: &AbsPath,
    client: PositionEncoding,
    read: &F,
) -> (calls: Vec<OutgoingCall>)
    requires
        index.wf(),
        crate::handlers::names_workspace_files(index@),
        crate::handlers::is_reader(*read),
    ensures
        match crate::handlers::first_definition(index@.definitions, symbol@) {
            Some(caller) => match caller.enclosing {
                Some(span) => exists|listed: Seq<(&str, Range)>| #[trigger]
                    crate::symbol_index::queries::is_call_list(
                        index@,
                        caller.path,
                        span,
                        Some(symbol@),
                        listed,
                    ) && shows_outgoing(
                        calls@,
                        capped(callees(index@.definitions, mentioned_by(listed))),
                        caller,
                        *read,
                        root@,
                        client,
                    ),
                None => calls@.len() == 0,
            },
            None => calls@.len() == 0,
        },
        calls@.len() <= CALL_LIMIT,
{
    let mut calls = all_outgoing_calls(index, symbol, root, client, read);
    let ghost all = calls@;
    calls.truncate(CALL_LIMIT);
    assert(calls@ =~= capped(all));
    calls
}

/// All that a callable calls.
fn all_outgoing_calls<F: Fn(&str) -> Option<String>>(
    index: &SymbolIndex,
    symbol: &str,
    root: &AbsPath,
    client: PositionEncoding,
    read: &F,
) -> (calls: Vec<OutgoingCall>)
    requires
        index.wf(),
        crate::handlers::names_workspace_files(index@),
        crate::handlers::is_reader(*read),
    ensures
        match crate::handlers::first_definition(index@.definitions, symbol@) {
            Some(caller) => match caller.enclosing {
                Some(span) => exists|listed: Seq<(&str, Range)>| #[trigger]
                    crate::symbol_index::queries::is_call_list(
                        index@,
                        caller.path,
                        span,
                        Some(symbol@),
                        listed,
                    ) && shows_outgoing(
                        calls@,
                        callees(index@.definitions, mentioned_by(listed)),
                        caller,
                        *read,
                        root@,
                        client,
                    ),
                None => calls@.len() == 0,
            },
            None => calls@.len() == 0,
        },
{
    let mut calls: Vec<OutgoingCall> = Vec::new();
    let caller = match find_definition(index, symbol) {
        Some(caller) => caller,
        None => {
            return calls;
        },
    };
    let span = match caller.enclosing {
        Some(span) => span,
        None => {
            return calls;
        },
    };
    let listed = index.references_within_callable(&caller.path, span, symbol);
    let ghost mentioned = mentioned_by(listed@);
    let ghost definitions = index@.definitions;
    let mut i: usize = 0;
    proof {
        assert(mentioned.take(0) =~= Seq::<(Seq<char>, Range)>::empty());
    }
    while i < listed.len()
        invariant
            i <= listed@.len(),
            index.wf(),
            crate::handlers::names_workspace_files(index@),
            crate::handlers::is_reader(*read),
            definitions == index@.definitions,
            mentioned == mentioned_by(listed@),
            shows_outgoing(
                calls@,
                callees(definitions, mentioned.take(i as int)),
                caller@,
                *read,
                root@,
                client,
            ),
        decreases listed@.len() - i,
    {
        let callee: &str = listed[i].0;
        let range: Range = listed[i].1;
        proof {
            assert(mentioned.take(i + 1).drop_last() =~= mentioned.take(i as int));
            assert(mentioned.take(i + 1).last() == (callee@, range));
            crate::handlers::lemma_definition_listed(definitions, callee@);
        }
        if let Some(definition) = find_definition(index, callee) {
            if can_be_called(definition) {
                let to = to_item(definition, root, client, read);
                let range = convert_range(&caller.path, range, caller.encoding, client, read);
                calls.push(OutgoingCall { to, range });
            }
        }
        i += 1;
    }
    assert(mentioned.take(i as int) =~= mentioned);
    assert(crate::symbol_index::queries::is_call_list(
        index@,
        caller@.path,
        span,
        Some(symbol@),
        listed@,
    ));
    calls
}

/// The innermost callable around a place.
pub open spec fn caller_at(
    definitions: Seq<DefinitionView>,
    path: Seq<char>,
    range: Range,
) -> Option<int> {
    if exists|i: int| #[trigger]
        crate::symbol_index::queries::is_innermost_callable(definitions, path, range, i) {
        Some(
            choose|i: int| #[trigger]
                crate::symbol_index::queries::is_innermost_callable(definitions, path, range, i),
        )
    } else {
        None
    }
}

/// A caller, and which of the references are its calls.
pub struct CallGroup {
    pub caller: int,
    pub calls: Seq<int>,
}

/// The last of the first groups whose caller has this symbol.
pub open spec fn group_of(
    definitions: Seq<DefinitionView>,
    groups: Seq<CallGroup>,
    symbol: Seq<char>,
    before: int,
) -> Option<int>
    decreases before,
{
    if before <= 0 {
        None
    } else if definitions[groups[before - 1].caller].symbol == symbol {
        Some(before - 1)
    } else {
        group_of(definitions, groups, symbol, before - 1)
    }
}

/// The groups with another call.
pub open spec fn with_call(
    definitions: Seq<DefinitionView>,
    groups: Seq<CallGroup>,
    caller: int,
    call: int,
) -> Seq<CallGroup> {
    match group_of(definitions, groups, definitions[caller].symbol, groups.len() as int) {
        Some(at) => groups.update(
            at,
            CallGroup { calls: groups[at].calls.push(call), ..groups[at] },
        ),
        None => groups.push(CallGroup { caller, calls: seq![call] }),
    }
}

/// Who makes the calls among the first references: each caller once, in the
/// order of its first call. An import is no call, and what stands outside every
/// callable has no caller to name.
pub open spec fn grouped(
    definitions: Seq<DefinitionView>,
    references: Seq<StoredReference>,
    paths: Seq<Seq<char>>,
    n: int,
) -> Seq<CallGroup>
    decreases n,
{
    if n <= 0 {
        Seq::empty()
    } else {
        let rest = grouped(definitions, references, paths, n - 1);
        let reference = references[n - 1];
        if reference.is_import {
            rest
        } else {
            match caller_at(definitions, paths[reference.path as int], reference.range) {
                Some(caller) => with_call(definitions, rest, caller, n - 1),
                None => rest,
            }
        }
    }
}

/// A caller, and where its calls stand.
#[derive(Debug)]
pub struct IncomingCall {
    pub from: CallItem,
    pub ranges: Vec<ClientRange>,
}

/// Whether a call shows a group.
pub open spec fn shows_group<F: Fn(&str) -> Option<String>>(
    call: IncomingCall,
    group: CallGroup,
    definitions: Seq<DefinitionView>,
    references: Seq<StoredReference>,
    paths: Seq<Seq<char>>,
    read: F,
    root: Seq<char>,
    client: PositionEncoding,
) -> bool {
    &&& 0 <= group.caller < definitions.len()
    &&& shows_callable(call.from, definitions[group.caller], read, root, client)
    &&& call.ranges@.len() == group.calls.len()
    &&& forall|k: int|
        0 <= k < call.ranges@.len() ==> {
            let reference = references[group.calls[k]];
            crate::handlers::shown(
                read,
                paths[reference.path as int],
                reference.range,
                reference.encoding,
                client,
                #[trigger] call.ranges@[k],
            )
        }
}

/// Whether calls show groups, one by one.
pub open spec fn shows_groups<F: Fn(&str) -> Option<String>>(
    calls: Seq<IncomingCall>,
    groups: Seq<CallGroup>,
    definitions: Seq<DefinitionView>,
    references: Seq<StoredReference>,
    paths: Seq<Seq<char>>,
    read: F,
    root: Seq<char>,
    client: PositionEncoding,
) -> bool {
    &&& calls.len() == groups.len()
    &&& forall|i: int|
        0 <= i < calls.len() ==> shows_group(
            #[trigger] calls[i],
            groups[i],
            definitions,
            references,
            paths,
            read,
            root,
            client,
        )
}

/// Finds [`group_of`] among the calls that show the groups.
fn find_call(
    calls: &Vec<IncomingCall>,
    symbol: &str,
    Ghost(definitions): Ghost<Seq<DefinitionView>>,
    Ghost(groups): Ghost<Seq<CallGroup>>,
) -> (found: Option<usize>)
    requires
        calls@.len() == groups.len(),
        forall|i: int|
            0 <= i < calls@.len() ==> (#[trigger] calls@[i]).from.symbol@
                == definitions[groups[i].caller].symbol,
    ensures
        (match found {
            Some(at) => Some(at as int),
            None => None,
        }) == group_of(definitions, groups, symbol@, groups.len() as int),
        found matches Some(at) ==> at < calls@.len(),
{
    let mut at: usize = calls.len();
    while at > 0
        invariant
            at <= calls@.len(),
            calls@.len() == groups.len(),
            forall|i: int|
                0 <= i < calls@.len() ==> (#[trigger] calls@[i]).from.symbol@
                    == definitions[groups[i].caller].symbol,
            group_of(definitions, groups, symbol@, groups.len() as int) == group_of(
                definitions,
                groups,
                symbol@,
                at as int,
            ),
        decreases at,
    {
        assert(calls@[at - 1].from.symbol@ == definitions[groups[at - 1].caller].symbol);
        if same_text(&calls[at - 1].from.symbol, symbol) {
            return Some(at - 1);
        }
        at -= 1;
    }
    None
}

/// Who calls a callable: the innermost callable around each reference to it, as
/// many as are listed.
pub fn incoming_calls<F: Fn(&str) -> Option<String>>(
    index: &SymbolIndex,
    symbol: &str,
    root: &AbsPath,
    client: PositionEncoding,
    read: &F,
) -> (calls: Vec<IncomingCall>)
    requires
        index.wf(),
        crate::handlers::names_workspace_files(index@),
        crate::handlers::is_reader(*read),
    ensures
        ({
            let references = crate::table::row_of(index@.references, symbol@);
            shows_groups(
                calls@,
                capped(
                    grouped(
                        index@.definitions,
                        references,
                        index@.reference_paths,
                        references.len() as int,
                    ),
                ),
                index@.definitions,
                references,
                index@.reference_paths,
                *read,
                root@,
                client,
            )
        }),
        calls@.len() <= CALL_LIMIT,
{
    let mut calls = all_incoming_calls(index, symbol, root, client, read);
    let ghost all = calls@;
    calls.truncate(CALL_LIMIT);
    assert(calls@ =~= capped(all));
    calls
}

/// All that call a callable.
fn all_incoming_calls<F: Fn(&str) -> Option<String>>(
    index: &SymbolIndex,
    symbol: &str,
    root: &AbsPath,
    client: PositionEncoding,
    read: &F,
) -> (calls: Vec<IncomingCall>)
    requires
        index.wf(),
        crate::handlers::names_workspace_files(index@),
        crate::handlers::is_reader(*read),
    ensures
        ({
            let references = crate::table::row_of(index@.references, symbol@);
            shows_groups(
                calls@,
                grouped(
                    index@.definitions,
                    references,
                    index@.reference_paths,
                    references.len() as int,
                ),
                index@.definitions,
                references,
                index@.reference_paths,
                *read,
                root@,
                client,
            )
        }),
{
    let found = index.references(symbol);
    let ghost definitions = index@.definitions;
    let ghost references = crate::table::row_of(index@.references, symbol@);
    let ghost paths = index@.reference_paths;
    let mut calls: Vec<IncomingCall> = Vec::new();
    let n: usize = found.len();
    let mut i: usize = 0;
    while i < n
        invariant
            i <= n,
            n == references.len(),
            index.wf(),
            found.wf(),
            found.stored() == references,
            found.path_texts() == paths,
            definitions == index@.definitions,
            paths == index@.reference_paths,
            crate::handlers::names_workspace_files(index@),
            crate::handlers::is_reader(*read),
            shows_groups(
                calls@,
                grouped(definitions, references, paths, i as int),
                definitions,
                references,
                paths,
                *read,
                root@,
                client,
            ),
        decreases n - i,
    {
        let ghost groups = grouped(definitions, references, paths, i as int);
        let reference = found.get(i);
        if !reference.is_import {
            let caller = index.enclosing_callable(reference.path, reference.range);
            match caller {
                Some(definition) => {
                    let ghost at = choose|k: int| #[trigger]
                        crate::symbol_index::queries::is_innermost_callable(
                            definitions,
                            reference.path@,
                            reference.range,
                            k,
                        ) && definition@ == definitions[k];
                    proof {
                        lemma_one_caller(definitions, reference.path@, reference.range, at);
                        assert(caller_at(definitions, reference.path@, reference.range) == Some(
                            at,
                        ));
                        assert(!crate::paths::absolute(definitions[at].path));
                    }
                    let range = convert_range(
                        reference.path,
                        reference.range,
                        reference.encoding,
                        client,
                        read,
                    );
                    let place = find_call(
                        &calls,
                        &definition.symbol,
                        Ghost(definitions),
                        Ghost(groups),
                    );
                    let ghost before = calls@;
                    match place {
                        Some(place) => {
                            calls[place].ranges.push(range);
                            proof {
                                let after = with_call(definitions, groups, at, i as int);
                                assert forall|k: int| 0 <= k < calls@.len() implies shows_group(
                                    #[trigger] calls@[k],
                                    after[k],
                                    definitions,
                                    references,
                                    paths,
                                    *read,
                                    root@,
                                    client,
                                ) by {
                                    assert(shows_group(
                                        before[k],
                                        groups[k],
                                        definitions,
                                        references,
                                        paths,
                                        *read,
                                        root@,
                                        client,
                                    ));
                                    if k == place {
                                        let old_ranges = before[k].ranges@;
                                        assert forall|j: int|
                                            0 <= j < calls@[k].ranges@.len() implies ({
                                            let r = references[after[k].calls[j]];
                                            crate::handlers::shown(
                                                *read,
                                                paths[r.path as int],
                                                r.range,
                                                r.encoding,
                                                client,
                                                #[trigger] calls@[k].ranges@[j],
                                            )
                                        }) by {
                                            if j < old_ranges.len() {
                                                assert(calls@[k].ranges@[j] == old_ranges[j]);
                                            }
                                        }
                                    }
                                }
                            }
                        },
                        None => {
                            let from = to_item(definition, root, client, read);
                            let mut ranges: Vec<ClientRange> = Vec::new();
                            ranges.push(range);
                            calls.push(IncomingCall { from, ranges });
                        },
                    }
                },
                None => {
                    proof {
                        assert(caller_at(definitions, reference.path@, reference.range) is None);
                    }
                },
            }
        }
        i += 1;
    }
    calls
}

/// There is one innermost callable at most.
pub(crate) proof fn lemma_one_caller(
    definitions: Seq<DefinitionView>,
    path: Seq<char>,
    range: Range,
    at: int,
)
    requires
        crate::symbol_index::queries::is_innermost_callable(definitions, path, range, at),
    ensures
        caller_at(definitions, path, range) == Some(at),
{
    let other = choose|i: int| #[trigger]
        crate::symbol_index::queries::is_innermost_callable(definitions, path, range, i);
    assert(crate::symbol_index::queries::is_callable_around(definitions, path, range, at));
    assert(crate::symbol_index::queries::is_callable_around(definitions, path, range, other));
}

pub(crate) proof fn lemma_group_of(
    definitions: Seq<DefinitionView>,
    groups: Seq<CallGroup>,
    symbol: Seq<char>,
    before: int,
)
    requires
        0 <= before <= groups.len(),
    ensures
        match group_of(definitions, groups, symbol, before) {
            Some(at) => 0 <= at < before && definitions[groups[at].caller].symbol == symbol,
            None => forall|k: int|
                0 <= k < before ==> definitions[(#[trigger] groups[k]).caller].symbol != symbol,
        },
    decreases before,
{
    if before > 0 {
        lemma_group_of(definitions, groups, symbol, before - 1);
    }
}

/// A caller is listed once, however often it calls.
pub proof fn callers_are_listed_once(
    definitions: Seq<DefinitionView>,
    references: Seq<StoredReference>,
    paths: Seq<Seq<char>>,
    n: int,
)
    ensures
        ({
            let groups = grouped(definitions, references, paths, n);
            forall|i: int, j: int|
                0 <= i < j < groups.len() ==> definitions[(#[trigger] groups[i]).caller].symbol
                    != definitions[(#[trigger] groups[j]).caller].symbol
        }),
    decreases n,
{
    if n > 0 {
        let rest = grouped(definitions, references, paths, n - 1);
        let groups = grouped(definitions, references, paths, n);
        callers_are_listed_once(definitions, references, paths, n - 1);
        let reference = references[n - 1];
        if !reference.is_import {
            if let Some(caller) = caller_at(
                definitions,
                paths[reference.path as int],
                reference.range,
            ) {
                let symbol = definitions[caller].symbol;
                lemma_group_of(definitions, rest, symbol, rest.len() as int);
                assert forall|i: int, j: int| 0 <= i < j < groups.len() implies definitions[(
                #[trigger] groups[i]).caller].symbol != definitions[(
                #[trigger] groups[j]).caller].symbol by {
                    if j < rest.len() {
                        assert(groups[i].caller == rest[i].caller);
                        assert(groups[j].caller == rest[j].caller);
                    } else {
                        assert(groups[i] == rest[i]);
                    }
                }
            }
        }
    }
}

} // verus!
