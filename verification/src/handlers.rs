//! Query handlers.
//!
//! Two rules hold here.
//!
//! **An empty answer must be honest.** A client cannot distinguish "no such
//! symbol" from "the index is not loaded", and an agent acts on the first
//! reading, deleting code it believes is unreferenced. So a handler that cannot
//! answer returns an error, never an empty success, and records *why*.
//!
//! **A truncated answer must say so.** `findReferences` on a common symbol
//! returns tens of thousands of locations; a silently clipped list makes an
//! agent believe it has seen every call site.
//!
//! Handlers read files through a function that the caller supplies, and only
//! where a column has to be converted. Contracts speak of whatever text it gave.
use vstd::prelude::*;

use crate::definition::{Definition, DefinitionView, SymbolKind};
use crate::index_model::IndexView;
use crate::line_index::{LineIndex, LinePosition, PositionEncoding};
use crate::paths::AbsPath;
use crate::span::Range;
use crate::symbol_index::SymbolIndex;
use crate::telemetry::{EmptyReason, Failure, Outcome};
use crate::text::{chars_of, slice_after_last, string_of};
use crate::uri::url_of_path;

pub mod answers;
pub mod call_laws;
pub mod calls;
pub mod hover;
pub mod implementations;
pub mod laws;
pub mod outline;
pub mod references;
pub mod search;
pub mod search_laws;

verus! {

/// How many results a search returns before truncating.
///
/// Results are billed in context tokens, not screen space. A few dozen ranked
/// hits is what an agent can act on; a thousand is a blown context window.
pub const SEARCH_LIMIT: usize = 50;

/// How many callers or callees a call hierarchy lists.
///
/// Fewer than references: each stands for a callable to look into next, not for
/// a place to read.
pub const CALL_LIMIT: usize = 200;

/// A span of text in the client's encoding.
#[derive(Copy, Clone, Debug, PartialEq, Eq, Structural)]
pub struct ClientRange {
    pub start: LinePosition,
    pub end: LinePosition,
}

/// A place that a client can open.
#[derive(Debug)]
pub struct Location {
    pub uri: String,
    pub range: ClientRange,
}

/// The encoding of positions in a file of the index, as a client may use it.
///
/// UTF-32 is not something a JVM indexer emits; treating it as UTF-16 is wrong
/// only for astral characters, and passing columns through would be worse.
pub open spec fn client_form(encoding: crate::span::PositionEncoding) -> PositionEncoding {
    match encoding {
        crate::span::PositionEncoding::Utf8 => PositionEncoding::Utf8,
        _ => PositionEncoding::Utf16,
    }
}

/// A position in another encoding, in a text. One that the text does not have
/// stays as it is: the index is stale relative to the text, and the caller sees
/// a slightly wrong column rather than nothing.
pub open spec fn converted_position(
    text: Seq<char>,
    line: u32,
    col: u32,
    from: PositionEncoding,
    to: PositionEncoding,
) -> LinePosition {
    match crate::line_index::index_at(text, line as int, col as int, from) {
        Some(k) => LinePosition {
            line: crate::line_index::line_of(text, k) as u32,
            character: crate::line_index::column_of(text, k, to) as u32,
        },
        None => LinePosition { line, character: col },
    }
}

/// An index range in the client's encoding.
///
/// Where the encodings agree, or the text is not there, the columns pass through
/// as they are. The latter is wrong on non-ASCII lines, but it is wrong by a few
/// columns in a file the server cannot read, which beats dropping the result.
pub open spec fn converted(
    raw: Range,
    from: crate::span::PositionEncoding,
    to: PositionEncoding,
    text: Option<Seq<char>>,
) -> ClientRange {
    match text {
        Some(text) if client_form(from) != to => ClientRange {
            start: converted_position(text, raw.start_line, raw.start_col, client_form(from), to),
            end: converted_position(text, raw.end_line, raw.end_col, client_form(from), to),
        },
        _ => ClientRange {
            start: LinePosition { line: raw.start_line, character: raw.start_col },
            end: LinePosition { line: raw.end_line, character: raw.end_col },
        },
    }
}

/// Whether offsets into a text fit the numbers that hold them.
pub open spec fn fits(text: Seq<char>) -> bool {
    vstd::utf8::encode_utf8(text).len() < u32::MAX
}

/// Whether a function that reads files can be asked for any, and gives only
/// texts whose offsets fit.
pub open spec fn is_reader<F: Fn(&str) -> Option<String>>(read: F) -> bool {
    &&& forall|path: &str| #[trigger] read.requires((path,))
    &&& forall|path: &str, text: Option<String>| #[trigger]
        read.ensures((path,), text) ==> (text matches Some(text) ==> fits(text@))
}

/// Whether `range` is an index range in the client's encoding, by some text that
/// `read` gave for the file.
pub open spec fn shown<F: Fn(&str) -> Option<String>>(
    read: F,
    path: Seq<char>,
    raw: Range,
    from: crate::span::PositionEncoding,
    to: PositionEncoding,
    range: ClientRange,
) -> bool {
    if client_form(from) == to {
        range == converted(raw, from, to, None)
    } else {
        exists|file: &str, text: Option<String>| #[trigger]
            read.ensures((file,), text) && file@ == path && range == converted(
                raw,
                from,
                to,
                crate::config::text_of(text),
            )
    }
}

/// Decides the encoding in which positions of a definition come.
fn client_encoding(encoding: crate::span::PositionEncoding) -> (form: PositionEncoding)
    ensures
        form == client_form(encoding),
{
    match encoding {
        crate::span::PositionEncoding::Utf8 => PositionEncoding::Utf8,
        _ => PositionEncoding::Utf16,
    }
}

/// Computes [`converted_position`].
fn convert_position(
    index: &LineIndex,
    line: u32,
    col: u32,
    from: PositionEncoding,
    to: PositionEncoding,
) -> (position: LinePosition)
    requires
        index.wf(),
        fits(index.text()),
    ensures
        position == converted_position(index.text(), line, col, from, to),
{
    let ghost text = index.text();
    match index.offset(LinePosition::new(line, col), from) {
        Some(offset) => {
            proof {
                let k = crate::line_index::index_at(text, line as int, col as int, from)->0;
                crate::line_index::lemma_units_are_bytes(text);
                crate::line_index::boundaries_have_columns(text, k, to);
                crate::line_index::lemma_units_take(text, k, PositionEncoding::Utf8);
                assert(crate::line_index::clamped(text, offset as int)
                    == crate::line_index::offset_of(text, k));
            }
            index.position(offset, to)
        },
        None => LinePosition::new(line, col),
    }
}

/// Converts an index range into the client's encoding, given the text of the
/// file where it could be read.
pub fn convert_span(
    raw: Range,
    from: crate::span::PositionEncoding,
    to: PositionEncoding,
    text: Option<&str>,
) -> (range: ClientRange)
    requires
        text matches Some(text) ==> fits(text@),
    ensures
        range == converted(
            raw,
            from,
            to,
            match text {
                Some(text) => Some(text@),
                None => None,
            },
        ),
{
    let form = client_encoding(from);
    match text {
        Some(text) if form != to => {
            let index = LineIndex::new(text);
            ClientRange {
                start: convert_position(&index, raw.start_line, raw.start_col, form, to),
                end: convert_position(&index, raw.end_line, raw.end_col, form, to),
            }
        },
        _ => ClientRange {
            start: LinePosition::new(raw.start_line, raw.start_col),
            end: LinePosition::new(raw.end_line, raw.end_col),
        },
    }
}

/// Converts an index range into the client's encoding, reading the file only
/// where the encodings differ.
pub fn convert_range<F: Fn(&str) -> Option<String>>(
    path: &str,
    raw: Range,
    from: crate::span::PositionEncoding,
    to: PositionEncoding,
    read: &F,
) -> (range: ClientRange)
    requires
        is_reader(*read),
    ensures
        shown(*read, path@, raw, from, to, range),
{
    if client_encoding(from) == to {
        return convert_span(raw, from, to, None);
    }
    let text = read(path);
    match &text {
        Some(text) => convert_span(raw, from, to, Some(text.as_str())),
        None => convert_span(raw, from, to, None),
    }
}

/// The URI of a file of the workspace.
pub open spec fn workspace_uri(root: Seq<char>, path: Seq<char>) -> Option<Seq<char>> {
    crate::uri::file_url(crate::paths::joined_path(root, path))
}

/// Whether a location is that of an index range.
pub open spec fn locates<F: Fn(&str) -> Option<String>>(
    location: Location,
    read: F,
    root: Seq<char>,
    path: Seq<char>,
    raw: Range,
    from: crate::span::PositionEncoding,
    to: PositionEncoding,
) -> bool {
    &&& Some(location.uri@) == workspace_uri(root, path)
    &&& shown(read, path, raw, from, to, location.range)
}

/// The location of an index range.
pub fn to_location<F: Fn(&str) -> Option<String>>(
    path: &str,
    range: Range,
    encoding: crate::span::PositionEncoding,
    root: &AbsPath,
    client: PositionEncoding,
    read: &F,
) -> (location: Location)
    requires
        !crate::paths::absolute(path@),
        is_reader(*read),
    ensures
        locates(location, *read, root@, path@, range, encoding, client),
{
    let abs = root.join(path);
    let text = abs.into_string();
    let uri = match url_of_path(&text) {
        Some(uri) => uri,
        None => text,
    };
    let range = convert_range(path, range, encoding, client, read);
    Location { uri, range }
}

/// The number that LSP gives a kind of symbol.
pub open spec fn lsp_kind(kind: SymbolKind) -> i32 {
    match kind {
        SymbolKind::Class => 5,
        SymbolKind::Interface => 11,
        SymbolKind::Enum => 10,
        SymbolKind::Method => 6,
        SymbolKind::Constructor => 9,
        SymbolKind::Field => 8,
        SymbolKind::Other => 19,
    }
}

/// Computes [`lsp_kind`].
pub fn to_lsp_kind(kind: SymbolKind) -> (number: i32)
    ensures
        number == lsp_kind(kind),
{
    match kind {
        SymbolKind::Class => 5,
        SymbolKind::Interface => 11,
        SymbolKind::Enum => 10,
        SymbolKind::Method => 6,
        SymbolKind::Constructor => 9,
        SymbolKind::Field => 8,
        SymbolKind::Other => 19,
    }
}

/// A symbol as a client lists it.
#[derive(Debug)]
pub struct SymbolInformation {
    pub name: String,
    /// The number that LSP gives its kind.
    pub kind: i32,
    pub location: Location,
    /// The owning file, which is what a client shows beside the name.
    pub container_name: String,
}

/// Whether `symbol` shows a definition to the client.
pub open spec fn shows_definition<F: Fn(&str) -> Option<String>>(
    symbol: SymbolInformation,
    definition: DefinitionView,
    read: F,
    root: Seq<char>,
    client: PositionEncoding,
) -> bool {
    &&& symbol.name@ == definition.name
    &&& symbol.kind == lsp_kind(definition.kind)
    &&& symbol.container_name@ == crate::text::after_last(definition.path, seq!['/'])
    &&& locates(
        symbol.location,
        read,
        root,
        definition.path,
        definition.range,
        definition.encoding,
        client,
    )
}

/// Shows a definition to the client.
pub fn to_symbol_information<F: Fn(&str) -> Option<String>>(
    definition: &Definition,
    root: &AbsPath,
    client: PositionEncoding,
    read: &F,
) -> (symbol: SymbolInformation)
    requires
        !crate::paths::absolute(definition.path@),
        is_reader(*read),
    ensures
        shows_definition(symbol, definition@, *read, root@, client),
{
    let location = to_location(
        &definition.path,
        definition.range,
        definition.encoding,
        root,
        client,
        read,
    );
    let chars = chars_of(&definition.path);
    let slash = ['/'];
    assert(slash@ =~= seq!['/']);
    let container_name = string_of(slice_after_last(chars.as_slice(), slash.as_slice()));
    SymbolInformation {
        name: definition.name.clone(),
        kind: to_lsp_kind(definition.kind),
        location,
        container_name,
    }
}

/// Whether all files that an index names are below the workspace's root.
pub open spec fn names_workspace_files(index: IndexView) -> bool {
    &&& forall|i: int|
        0 <= i < index.definitions.len() ==> !crate::paths::absolute(
            (#[trigger] index.definitions[i]).path,
        )
    &&& forall|i: int|
        0 <= i < index.reference_paths.len() ==> !crate::paths::absolute(
            #[trigger] index.reference_paths[i],
        )
}

/// The outcome of a list of `returned` results out of `total`.
pub open spec fn listed(returned: usize, total: usize) -> Outcome {
    if total == 0 {
        Outcome::Empty { reason: EmptyReason::NoMatch }
    } else {
        Outcome::Answered { returned, total }
    }
}

/// Computes [`listed`].
pub fn list_outcome(returned: usize, total: usize) -> (outcome: Outcome)
    ensures
        outcome == listed(returned, total),
{
    if total == 0 {
        Outcome::Empty { reason: EmptyReason::NoMatch }
    } else {
        Outcome::Answered { returned, total }
    }
}

/// The outcome of a complete list. A method with no callers is a true answer,
/// not a failure: an entry point, or dead code, which is often exactly what the
/// caller wanted to learn.
pub fn count_outcome(count: usize) -> (outcome: Outcome)
    ensures
        outcome == listed(count, count),
{
    list_outcome(count, count)
}

/// The outcome for a query refused because no index is loaded.
///
/// A *failure*, not an empty result, because that is what the client is sent.
/// Recording it as an empty would inflate the misleading-empty count with cases
/// where the server behaved correctly, and that number has to stay trustworthy:
/// it is the one that says the server is lying.
pub fn index_unavailable_outcome() -> (outcome: Outcome)
    ensures
        outcome == (Outcome::Failed { failure: Failure::IndexUnavailable }),
        !crate::telemetry::misleading(outcome),
{
    Outcome::Failed { failure: Failure::IndexUnavailable }
}

/// The column of the index that a client's position has on its line: what the
/// client sends where it counts UTF-16 code units, as the index does, and
/// otherwise what the text of the file says.
pub open spec fn index_column(
    position: LinePosition,
    client: PositionEncoding,
    text: Option<Seq<char>>,
) -> Option<u32> {
    if client is Utf16 {
        Some(position.character)
    } else {
        match text {
            Some(text) => match crate::line_index::index_at(
                text,
                position.line as int,
                position.character as int,
                client,
            ) {
                Some(k) => Some(
                    crate::line_index::column_of(text, k, PositionEncoding::Utf16) as u32,
                ),
                None => None,
            },
            None => None,
        }
    }
}

/// Computes [`index_column`].
pub fn cursor_column(position: LinePosition, client: PositionEncoding, text: Option<&str>) -> (col:
    Option<u32>)
    requires
        text matches Some(text) ==> fits(text@),
    ensures
        col == index_column(
            position,
            client,
            match text {
                Some(text) => Some(text@),
                None => None,
            },
        ),
{
    if client == PositionEncoding::Utf16 {
        return Some(position.character);
    }
    let text = match text {
        Some(text) => text,
        None => {
            return None;
        },
    };
    let index = LineIndex::new(text);
    match index.offset(position, client) {
        Some(offset) => {
            proof {
                let k = crate::line_index::index_at(
                    text@,
                    position.line as int,
                    position.character as int,
                    client,
                )->0;
                crate::line_index::lemma_units_are_bytes(text@);
                crate::line_index::boundaries_have_columns(text@, k, PositionEncoding::Utf16);
                crate::line_index::lemma_units_take(text@, k, PositionEncoding::Utf8);
                assert(crate::line_index::clamped(text@, offset as int)
                    == crate::line_index::offset_of(text@, k));
            }
            Some(index.position(offset, PositionEncoding::Utf16).character)
        },
        None => None,
    }
}

/// Whether `symbol` is what stands at a place of a file of the index.
pub open spec fn stands_at(
    index: IndexView,
    path: Seq<char>,
    line: u32,
    col: u32,
    symbol: Option<Seq<char>>,
) -> bool {
    let row = crate::table::row_of(index.occurrences, path);
    match symbol {
        Some(symbol) => exists|k: int| #[trigger]
            crate::symbol_index::queries::is_under_cursor(row, line, col, k) && symbol
                == index.symbol_names[row[k].symbol as int],
        None => crate::symbol_index::queries::nothing_under_cursor(row, line, col),
    }
}

/// Whether `symbol` is what the index knows under a client's cursor, given the
/// text of the file.
pub open spec fn is_at_cursor(
    index: IndexView,
    path: Seq<char>,
    position: LinePosition,
    client: PositionEncoding,
    text: Option<Seq<char>>,
    symbol: Option<Seq<char>>,
) -> bool {
    match index_column(position, client, text) {
        Some(col) => stands_at(index, path, position.line, col, symbol),
        None => symbol is None,
    }
}

/// Whether `symbol` is what the index knows under a client's cursor, by some
/// text that `read` gave for the file.
pub open spec fn under_cursor<F: Fn(&str) -> Option<String>>(
    index: IndexView,
    path: Seq<char>,
    position: LinePosition,
    client: PositionEncoding,
    read: F,
    symbol: Option<Seq<char>>,
) -> bool {
    if client is Utf16 {
        is_at_cursor(index, path, position, client, None, symbol)
    } else {
        exists|file: &str, text: Option<String>| #[trigger]
            read.ensures((file,), text) && file@ == path && is_at_cursor(
                index,
                path,
                position,
                client,
                crate::config::text_of(text),
                symbol,
            )
    }
}

/// The SCIP symbol under a client-supplied cursor position.
///
/// The position arrives in the client's encoding and is converted to the index's
/// columns before lookup; the two disagree on any line with a non-ASCII
/// character.
pub fn symbol_under_cursor<F: Fn(&str) -> Option<String>>(
    index: &SymbolIndex,
    path: &str,
    position: LinePosition,
    client: PositionEncoding,
    read: &F,
) -> (symbol: Option<String>)
    requires
        index.wf(),
        is_reader(*read),
    ensures
        under_cursor(
            index@,
            path@,
            position,
            client,
            *read,
            crate::config::text_of(symbol),
        ),
{
    let col = if client == PositionEncoding::Utf16 {
        position.character
    } else {
        let text = read(path);
        let col = match &text {
            Some(text) => cursor_column(position, client, Some(text.as_str())),
            None => None,
        };
        match col {
            Some(col) => {
                let found = match index.symbol_at(path, position.line, col) {
                    Some(symbol) => Some(symbol.to_owned()),
                    None => None,
                };
                assert(is_at_cursor(
                    index@,
                    path@,
                    position,
                    client,
                    crate::config::text_of(text),
                    crate::config::text_of(found),
                ));
                return found;
            },
            None => {
                assert(is_at_cursor(
                    index@,
                    path@,
                    position,
                    client,
                    crate::config::text_of(text),
                    None,
                ));
                return None;
            },
        }
    };
    match index.symbol_at(path, position.line, col) {
        Some(symbol) => Some(symbol.to_owned()),
        None => None,
    }
}

/// The first definition of a symbol.
pub open spec fn first_definition(
    definitions: Seq<DefinitionView>,
    symbol: Seq<char>,
) -> Option<DefinitionView>
    decreases definitions.len(),
{
    if definitions.len() == 0 {
        None
    } else if definitions[0].symbol == symbol {
        Some(definitions[0])
    } else {
        first_definition(definitions.drop_first(), symbol)
    }
}

/// The definition at `i` is the first of its symbol where none before has it.
pub(crate) proof fn lemma_first_definition(
    definitions: Seq<DefinitionView>,
    symbol: Seq<char>,
    i: int,
)
    requires
        0 <= i <= definitions.len(),
        forall|j: int| 0 <= j < i ==> (#[trigger] definitions[j]).symbol != symbol,
        i < definitions.len() ==> definitions[i].symbol == symbol,
    ensures
        first_definition(definitions, symbol) == (if i < definitions.len() {
            Some(definitions[i])
        } else {
            None
        }),
    decreases i,
{
    if i > 0 {
        let rest = definitions.drop_first();
        assert forall|j: int| 0 <= j < i - 1 implies (#[trigger] rest[j]).symbol != symbol by {
            assert(rest[j] == definitions[j + 1]);
        }
        assert(definitions[0].symbol != symbol);
        lemma_first_definition(rest, symbol, i - 1);
    }
}

/// The first definition of a symbol.
pub(crate) fn find_definition<'a>(index: &'a SymbolIndex, symbol: &str) -> (definition: Option<
    &'a Definition,
>)
    requires
        index.wf(),
    ensures
        (match definition {
            Some(definition) => Some(definition@),
            None => None,
        }) == first_definition(index@.definitions, symbol@),
{
    let found = index.definition(symbol);
    proof {
        let definitions = index@.definitions;
        match found {
            Some(definition) => {
                let i = choose|i: int|
                    #![trigger definitions[i]]
                    {
                        &&& 0 <= i < definitions.len()
                        &&& definitions[i] == definition@
                        &&& definition@.symbol == symbol@
                        &&& forall|j: int|
                            0 <= j < i ==> (#[trigger] definitions[j]).symbol != symbol@
                    };
                lemma_first_definition(definitions, symbol@, i);
            },
            None => {
                lemma_first_definition(definitions, symbol@, definitions.len() as int);
            },
        }
    }
    found
}

/// The definition that [`first_definition`] finds is one of the index.
pub(crate) proof fn lemma_definition_listed(definitions: Seq<DefinitionView>, symbol: Seq<char>)
    ensures
        first_definition(definitions, symbol) matches Some(definition) ==> exists|i: int|
            0 <= i < definitions.len() && #[trigger] definitions[i] == definition,
    decreases definitions.len(),
{
    if definitions.len() > 0 {
        if definitions[0].symbol != symbol {
            let rest = definitions.drop_first();
            lemma_definition_listed(rest, symbol);
            if let Some(definition) = first_definition(rest, symbol) {
                let i = choose|i: int| 0 <= i < rest.len() && #[trigger] rest[i] == definition;
                assert(definitions[i + 1] == definition);
            }
        } else {
            assert(definitions[0] == definitions[0]);
        }
    }
}

/// A resolved location, plus what the index knew about it.
#[derive(Debug)]
pub struct Located {
    pub location: Location,
    /// The SCIP symbol, so a caller can chain another query without
    /// re-resolving.
    pub symbol: String,
}

/// Resolves the symbol under a cursor to its definition.
///
/// Nothing where nothing stands there, or where the index does not define what
/// does: a JDK or third-party type in a jar no shard covers.
pub fn goto_definition<F: Fn(&str) -> Option<String>>(
    index: &SymbolIndex,
    path: &str,
    position: LinePosition,
    root: &AbsPath,
    client: PositionEncoding,
    read: &F,
) -> (found: Option<Located>)
    requires
        index.wf(),
        names_workspace_files(index@),
        is_reader(*read),
    ensures
        exists|symbol: Option<Seq<char>>| #[trigger]
            under_cursor(index@, path@, position, client, *read, symbol) && match symbol {
                Some(symbol) => match first_definition(index@.definitions, symbol) {
                    Some(definition) => found matches Some(found) && found.symbol@ == symbol
                        && locates(
                        found.location,
                        *read,
                        root@,
                        definition.path,
                        definition.range,
                        definition.encoding,
                        client,
                    ),
                    None => found is None,
                },
                None => found is None,
            },
{
    let symbol = match symbol_under_cursor(index, path, position, client, read) {
        Some(symbol) => symbol,
        None => {
            return None;
        },
    };
    assert(under_cursor(index@, path@, position, client, *read, Some(symbol@)));
    let definition = match find_definition(index, &symbol) {
        Some(definition) => definition,
        None => {
            return None;
        },
    };
    proof {
        lemma_definition_listed(index@.definitions, symbol@);
    }
    let location = to_location(
        &definition.path,
        definition.range,
        definition.encoding,
        root,
        client,
        read,
    );
    Some(Located { location, symbol })
}

} // verus!
