//! What a file declares, and what is declared inside what.
use vstd::prelude::*;

use crate::definition::{Definition, DefinitionView};
use crate::handlers::{convert_range, to_lsp_kind, ClientRange};
use crate::line_index::PositionEncoding;
use crate::span::{encloses, Range};
use crate::symbol_index::SymbolIndex;

verus! {

/// A declaration of a file.
#[derive(Debug)]
pub struct OutlineItem {
    pub name: String,
    /// LSP's number for the kind.
    pub kind: i32,
    /// The whole declaration.
    pub range: ClientRange,
    /// Its name.
    pub selection: ClientRange,
    /// The place in the list of what it is declared inside.
    pub parent: Option<usize>,
}

/// Whether a declaration spans a range.
pub open spec fn spans(definition: DefinitionView, range: Range) -> bool {
    definition.enclosing matches Some(span) && span.contains(range)
}

/// The nearest of the first declarations that spans a range.
pub open spec fn holder(
    definitions: Seq<DefinitionView>,
    range: Range,
    before: int,
) -> Option<int>
    decreases before,
{
    if before <= 0 {
        None
    } else if spans(definitions[before - 1], range) {
        Some(before - 1)
    } else {
        holder(definitions, range, before - 1)
    }
}

/// The whole of a declaration, or its name where no more is known.
pub open spec fn extent(definition: DefinitionView) -> Range {
    match definition.enclosing {
        Some(span) => span,
        None => definition.range,
    }
}

/// Whether `item` shows the `i`th of some declarations.
pub open spec fn outlines<F: Fn(&str) -> Option<String>>(
    item: OutlineItem,
    definitions: Seq<DefinitionView>,
    i: int,
    path: Seq<char>,
    client: PositionEncoding,
    read: F,
) -> bool {
    let definition = definitions[i];
    &&& item.name@ == definition.name
    &&& item.kind == crate::handlers::lsp_kind(definition.kind)
    &&& crate::handlers::shown(
        read,
        path,
        extent(definition),
        definition.encoding,
        client,
        item.range,
    )
    &&& crate::handlers::shown(
        read,
        path,
        definition.range,
        definition.encoding,
        client,
        item.selection,
    )
    &&& (match item.parent {
        Some(parent) => Some(parent as int),
        None => None,
    }) == holder(definitions, definition.range, i)
}

/// Shows the declarations of a file, which are in source order. One whose name
/// falls inside the span of a preceding one is a child of it.
pub fn document_symbols_from<F: Fn(&str) -> Option<String>>(
    definitions: &Vec<&Definition>,
    path: &str,
    client: PositionEncoding,
    read: &F,
) -> (items: Vec<OutlineItem>)
    requires
        crate::handlers::is_reader(*read),
    ensures
        items@.len() == definitions@.len(),
        forall|i: int|
            0 <= i < items@.len() ==> outlines(
                #[trigger] items@[i],
                crate::handlers::search::views(definitions@),
                i,
                path@,
                client,
                *read,
            ),
{
    let ghost views = crate::handlers::search::views(definitions@);
    let mut items: Vec<OutlineItem> = Vec::new();
    let mut i: usize = 0;
    while i < definitions.len()
        invariant
            i <= definitions@.len(),
            views == crate::handlers::search::views(definitions@),
            crate::handlers::is_reader(*read),
            items@.len() == i,
            forall|k: int|
                0 <= k < i ==> outlines(#[trigger] items@[k], views, k, path@, client, *read),
        decreases definitions@.len() - i,
    {
        let definition: &Definition = definitions[i];
        assert(views[i as int] == definition@);
        let whole = match definition.enclosing {
            Some(span) => span,
            None => definition.range,
        };
        let range = convert_range(path, whole, definition.encoding, client, read);
        let selection = convert_range(path, definition.range, definition.encoding, client, read);
        let parent = find_holder(definitions, &definition.range, i);
        items.push(
            OutlineItem {
                name: definition.name.clone(),
                kind: to_lsp_kind(definition.kind),
                range,
                selection,
                parent,
            },
        );
        i += 1;
    }
    items
}

/// Computes [`holder`].
fn find_holder(definitions: &Vec<&Definition>, range: &Range, before: usize) -> (found: Option<
    usize,
>)
    requires
        before <= definitions@.len(),
    ensures
        (match found {
            Some(at) => Some(at as int),
            None => None,
        }) == holder(crate::handlers::search::views(definitions@), *range, before as int),
{
    let ghost views = crate::handlers::search::views(definitions@);
    let mut at: usize = before;
    while at > 0
        invariant
            at <= before <= definitions@.len(),
            views == crate::handlers::search::views(definitions@),
            holder(views, *range, before as int) == holder(views, *range, at as int),
        decreases at,
    {
        assert(views[at - 1] == definitions@[at - 1]@);
        if let Some(span) = &definitions[at - 1].enclosing {
            if encloses(span, range) {
                return Some(at - 1);
            }
        }
        at -= 1;
    }
    None
}

/// Shows the declarations of a file as the index has them.
pub fn document_symbols<F: Fn(&str) -> Option<String>>(
    index: &SymbolIndex,
    path: &str,
    client: PositionEncoding,
    read: &F,
) -> (items: Vec<OutlineItem>)
    requires
        index.wf(),
        crate::handlers::is_reader(*read),
    ensures
        exists|rows: Seq<usize>| #[trigger]
            crate::symbol_index::queries::is_file_listing(index@.definitions, path@, rows)
                && outlines_rows(items@, index@.definitions, rows, path@, client, *read),
{
    let found = index.definitions_in(path);
    let ghost rows = choose|rows: Seq<usize>| #[trigger]
        crate::symbol_index::queries::is_file_listing(index@.definitions, path@, rows)
            && crate::symbol_index::queries::found_at(index@.definitions, rows, found@);
    let items = document_symbols_from(&found, path, client, read);
    proof {
        assert(crate::handlers::search::views(found@) =~= at_rows(index@.definitions, rows));
        assert(outlines_rows(items@, index@.definitions, rows, path@, client, *read));
    }
    items
}

/// The definitions at some rows.
pub open spec fn at_rows(definitions: Seq<DefinitionView>, rows: Seq<usize>) -> Seq<
    DefinitionView,
> {
    Seq::new(rows.len(), |i: int| definitions[rows[i] as int])
}

/// Whether `items` show the definitions at some rows.
pub open spec fn outlines_rows<F: Fn(&str) -> Option<String>>(
    items: Seq<OutlineItem>,
    definitions: Seq<DefinitionView>,
    rows: Seq<usize>,
    path: Seq<char>,
    client: PositionEncoding,
    read: F,
) -> bool {
    &&& items.len() == rows.len()
    &&& forall|i: int|
        0 <= i < items.len() ==> outlines(
            #[trigger] items[i],
            at_rows(definitions, rows),
            i,
            path,
            client,
            read,
        )
}

/// A parent comes before its children, so that the list is a forest.
pub proof fn parents_come_first(definitions: Seq<DefinitionView>, range: Range, before: int)
    ensures
        holder(definitions, range, before) matches Some(at) ==> 0 <= at < before && spans(
            definitions[at],
            range,
        ),
    decreases before,
{
    if before > 0 && !spans(definitions[before - 1], range) {
        parents_come_first(definitions, range, before - 1);
    }
}

} // verus!
