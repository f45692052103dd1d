//! Implementations of the symbol under a cursor.
use vstd::prelude::*;

use crate::definition::{Definition, DefinitionView};
use crate::handlers::{symbol_under_cursor, to_location, Location};
use crate::line_index::{LinePosition, PositionEncoding};
use crate::paths::AbsPath;
use crate::symbol_index::SymbolIndex;

verus! {

/// Whether `locations` are those of the definitions at `rows`.
pub open spec fn locates_rows<F: Fn(&str) -> Option<String>>(
    locations: Seq<Location>,
    definitions: Seq<DefinitionView>,
    rows: Seq<usize>,
    read: F,
    root: Seq<char>,
    client: PositionEncoding,
) -> bool {
    &&& locations.len() == rows.len()
    &&& forall|k: int|
        0 <= k < locations.len() ==> crate::handlers::locates(
            #[trigger] locations[k],
            read,
            root,
            definitions[rows[k] as int].path,
            definitions[rows[k] as int].range,
            definitions[rows[k] as int].encoding,
            client,
        )
}

/// Finds what declares the symbol under a cursor as a supertype.
///
/// Nothing where nothing stands there. A concrete class with no subtypes has no
/// implementations, which is a truthful empty answer.
pub fn goto_implementation<F: Fn(&str) -> Option<String>>(
    index: &SymbolIndex,
    path: &str,
    position: LinePosition,
    root: &AbsPath,
    client: PositionEncoding,
    read: &F,
) -> (found: Option<Vec<Location>>)
    requires
        index.wf(),
        crate::handlers::names_workspace_files(index@),
        crate::handlers::is_reader(*read),
    ensures
        exists|symbol: Option<Seq<char>>| #[trigger]
            crate::handlers::under_cursor(index@, path@, position, client, *read, symbol)
                && match symbol {
                Some(symbol) => found matches Some(found) && locates_rows(
                    found@,
                    index@.definitions,
                    crate::definition::implementor_rows(index@.definitions, symbol),
                    *read,
                    root@,
                    client,
                ),
                None => found is None,
            },
{
    let symbol = match symbol_under_cursor(index, path, position, client, read) {
        Some(symbol) => symbol,
        None => {
            return None;
        },
    };
    assert(crate::handlers::under_cursor(
        index@,
        path@,
        position,
        client,
        *read,
        Some(symbol@),
    ));
    let found = index.implementors(&symbol);
    let ghost rows = crate::definition::implementor_rows(index@.definitions, symbol@);
    let known: usize = index.definition_count();
    proof {
        assert(index@.definitions.len() == known);
        crate::definition::lemma_implementor_rows(index@.definitions, symbol@);
    }
    let mut locations: Vec<Location> = Vec::new();
    let mut i: usize = 0;
    while i < found.len()
        invariant
            i <= found@.len(),
            crate::symbol_index::queries::found_at(index@.definitions, rows, found@),
            forall|k: int| 0 <= k < rows.len() ==> (#[trigger] rows[k]) < index@.definitions.len(),
            crate::handlers::names_workspace_files(index@),
            crate::handlers::is_reader(*read),
            locates_rows(
                locations@,
                index@.definitions,
                rows.take(i as int),
                *read,
                root@,
                client,
            ),
        decreases found@.len() - i,
    {
        let definition: &Definition = found[i];
        assert(definition@ == index@.definitions[rows[i as int] as int]);
        locations.push(
            to_location(
                &definition.path,
                definition.range,
                definition.encoding,
                root,
                client,
                read,
            ),
        );
        i += 1;
    }
    assert(rows.take(i as int) =~= rows);
    Some(locations)
}

} // verus!
