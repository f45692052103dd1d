//! Answering queries from an index.
use jabar::definition::{Definition, SymbolKind};
use jabar::handlers::calls::{incoming_calls, outgoing_calls, prepare_call_hierarchy};
use jabar::handlers::hover::hover;
use jabar::handlers::implementations::goto_implementation;
use jabar::handlers::outline::{document_symbols, document_symbols_from};
use jabar::handlers::references::{find_references, REFERENCE_LIMIT};
use jabar::handlers::search::{workspace_symbol, workspace_symbol_with};
use jabar::handlers::{
    convert_span, goto_definition, index_unavailable_outcome, list_outcome, to_lsp_kind,
    CALL_LIMIT, SEARCH_LIMIT,
};
use jabar::line_index::{LinePosition, PositionEncoding as ClientEncoding};
use jabar::paths::AbsPathBuf;
use jabar::span::{PositionEncoding, Range};
use jabar::symbol_index::SymbolIndex;
use jabar::telemetry::{EmptyReason, Outcome};
use protobuf::Message;
use scip::types::{Index, SymbolRole};

fn root() -> AbsPathBuf {
    AbsPathBuf::try_new("/repo".to_owned()).expect("absolute")
}

fn empty_index() -> SymbolIndex {
    SymbolIndex::new()
}

#[test]
fn no_match_is_reported_as_a_truthful_empty() {
    let results =
        workspace_symbol(&empty_index(), "Nothing", &root().as_path(), ClientEncoding::Utf8, &|_: &str| None);
    assert_eq!(results.total, 0);
    assert!(results.symbols.is_empty());
    // NoMatch is the one healthy empty. An unloaded index must not use it.
    assert_eq!(results.outcome(), Outcome::Empty { reason: EmptyReason::NoMatch });
    assert!(!results.outcome().is_misleading());
}

#[test]
fn refusing_is_recorded_as_a_failure_not_a_misleading_empty() {
    // The server returns an LSP error when it has no index, so nothing
    // misleading reaches the client and the misleading-empty count -- the
    // number that says the server is lying -- must stay clean.
    let outcome = index_unavailable_outcome();
    assert!(!outcome.is_misleading(), "a refusal is honest");
    assert!(matches!(outcome, Outcome::Failed { .. }));
    // Whereas answering empty without knowing is the damaging case.
    assert!(Outcome::Empty { reason: EmptyReason::IndexNotReady }.is_misleading());
    assert!(!Outcome::Empty { reason: EmptyReason::NoMatch }.is_misleading());
}

#[test]
fn symbol_kinds_map_to_lsp() {
    assert_eq!(to_lsp_kind(SymbolKind::Interface), 11);
    assert_eq!(to_lsp_kind(SymbolKind::Method), 6);
    assert_eq!(to_lsp_kind(SymbolKind::Other), 19);
}

fn definition(path: &str, name: &str, line: u32, start: u32, end: u32) -> Definition {
    Definition {
        symbol: format!("semanticdb maven . . com/acme/{name}#"),
        name: name.to_owned(),
        kind: SymbolKind::Class,
        path: path.to_owned(),
        range: Range {
            start_line: line,
            start_col: start,
            end_line: line,
            end_col: end,
        },
        encoding: PositionEncoding::Utf16,
        implements: Vec::new(),
        documentation: Vec::new(),
        signature: String::new(),
        enclosing: None,
    }
}

/// Builds an index holding one definition at a known range.
fn index_with(path: &str, name: &str, line: u32, start: u32, end: u32) -> SymbolIndex {
    let mut index = SymbolIndex::new();
    index.insert(definition(path, name, line, start, end));
    index
}

#[test]
fn utf16_columns_become_byte_columns_for_a_utf8_client() {
    // The conversion the fixture's Messages.java exists to force. On
    // `public static String grüße(String locale) {`, the identifier
    // `String` after `grüße` sits at UTF-16 columns 29..35 and UTF-8 bytes
    // 31..37, because ü and ß cost an extra byte each.
    // Verbatim from fixtures/megarepo, indentation included -- the columns
    // below come from a real SCIP shard for this line.
    let text = "  public static String grüße(String locale) {\n";
    let index = index_with("A.java", "String", 0, 29, 35);

    let results = workspace_symbol(&index, "String", &root().as_path(), ClientEncoding::Utf8, &|_: &str| {
        Some(text.to_owned())
    });
    let range = results.symbols[0].location.range;
    assert_eq!((range.start.character, range.end.character), (31, 37));

    // And the bytes at that range really are the identifier.
    assert_eq!(&text[31..37], "String");
}

#[test]
fn a_utf16_client_gets_the_columns_unchanged() {
    let index = index_with("A.java", "String", 0, 29, 35);
    let results = workspace_symbol(&index, "String", &root().as_path(), ClientEncoding::Utf16, &|_: &str| {
        panic!("no file read should be needed when the encodings agree")
    });
    let range = results.symbols[0].location.range;
    assert_eq!((range.start.character, range.end.character), (29, 35));
}

#[test]
fn an_unreadable_file_passes_columns_through_rather_than_dropping_the_hit() {
    let index = index_with("Gone.java", "Symbol", 3, 4, 10);
    let results = workspace_symbol(&index, "Symbol", &root().as_path(), ClientEncoding::Utf8, &|_: &str| None);
    assert_eq!(results.symbols.len(), 1, "the hit survives");
    assert_eq!(results.symbols[0].location.range.start.character, 4);
}

#[test]
fn results_are_truncated_with_the_true_total_reported() {
    let mut index = SymbolIndex::new();
    for i in 0..(SEARCH_LIMIT + 25) {
        index.insert(definition(&format!("F{i}.java"), &format!("Widget{i}"), 0, 0, 1));
    }
    let results = workspace_symbol(&index, "Widget", &root().as_path(), ClientEncoding::Utf16, &|_: &str| None);

    assert_eq!(results.symbols.len(), SEARCH_LIMIT, "the response is capped");
    assert_eq!(results.total, SEARCH_LIMIT + 25, "but the true total is reported");
    assert!(results.outcome().is_truncated());
}

/// A workspace of two files: `Policy` with one subtype, and a method that calls
/// another.
fn workspace() -> SymbolIndex {
    let mut shard = Index::new();
    let mut document = scip::types::Document::new();
    document.relative_path = "src/A.java".to_owned();
    document.position_encoding =
        scip::types::PositionEncoding::UTF16CodeUnitOffsetFromLineStart.into();
    for (symbol, range, span, roles) in [
        ("x a/Policy#", [1, 6, 12], [1, 0, 9, 1], SymbolRole::Definition as i32),
        ("x a/Policy#run().", [2, 7, 10], [2, 2, 5, 3], SymbolRole::Definition as i32),
        ("x a/Policy#stop().", [6, 7, 11], [6, 2, 8, 3], SymbolRole::Definition as i32),
        ("x a/Policy#stop().", [3, 4, 8], [0, 0, 0, 0], 0),
        ("x a/Policy#stop().", [4, 4, 8], [0, 0, 0, 0], 0),
    ] {
        let mut occurrence = scip::types::Occurrence::new();
        occurrence.range = range.to_vec();
        occurrence.symbol = symbol.to_owned();
        occurrence.symbol_roles = roles;
        if roles != 0 {
            occurrence.enclosing_range = span.to_vec();
        }
        document.occurrences.push(occurrence);
    }
    for (symbol, kind, text) in [
        ("x a/Policy#", scip::types::symbol_information::Kind::Interface, "When to try again."),
        ("x a/Policy#run().", scip::types::symbol_information::Kind::Method, ""),
        ("x a/Policy#stop().", scip::types::symbol_information::Kind::Method, ""),
    ] {
        let mut info = scip::types::SymbolInformation::new();
        info.symbol = symbol.to_owned();
        info.kind = kind.into();
        if !text.is_empty() {
            info.documentation.push(text.to_owned());
        }
        document.symbols.push(info);
    }
    shard.documents.push(document);
    let mut index = SymbolIndex::new();
    assert!(index.add_shard(&shard.write_to_bytes().unwrap()));
    let mut sub = definition("src/B.java", "Sub", 4, 2, 5);
    sub.implements = vec!["x a/Policy#".to_owned()];
    index.insert(sub);
    index.finish();
    index
}

#[test]
fn a_call_site_leads_to_its_definition() {
    let index = workspace();
    let found = goto_definition(
        &index,
        "src/A.java",
        LinePosition::new(3, 5),
        &root().as_path(),
        ClientEncoding::Utf16,
        &|_: &str| None,
    )
    .unwrap();
    assert_eq!(found.symbol, "x a/Policy#stop().");
    assert_eq!(found.location.uri, "file:///repo/src/A.java");
    assert_eq!(found.location.range.start, LinePosition::new(6, 7));
    assert!(goto_definition(
        &index,
        "src/A.java",
        LinePosition::new(5, 0),
        &root().as_path(),
        ClientEncoding::Utf16,
        &|_: &str| None,
    )
    .is_none());
}

#[test]
fn every_reference_is_found() {
    let index = workspace();
    let ask = |declaration: bool| {
        find_references(
            &index,
            "src/A.java",
            LinePosition::new(6, 8),
            declaration,
            &root().as_path(),
            ClientEncoding::Utf16,
            &|_: &str| None,
        )
        .unwrap()
    };
    assert_eq!(ask(false).total, 2);
    let all = ask(true);
    assert_eq!(all.total, 3);
    assert_eq!(all.locations.len(), 3);
    assert!(matches!(all.outcome(), Outcome::Answered { .. }));
}

#[test]
fn an_interface_leads_to_its_subtypes() {
    let found = goto_implementation(
        &workspace(),
        "src/A.java",
        LinePosition::new(1, 6),
        &root().as_path(),
        ClientEncoding::Utf16,
        &|_: &str| None,
    )
    .unwrap();
    assert_eq!(found.len(), 1);
    assert_eq!(found[0].uri, "file:///repo/src/B.java");
}

#[test]
fn hover_shows_what_the_index_knows() {
    let index = workspace();
    let at = |line: u32, col: u32| {
        hover(
            &index,
            "src/A.java",
            LinePosition::new(line, col),
            ClientEncoding::Utf16,
            &|_: &str| None,
        )
    };
    assert!(at(1, 7).unwrap().contains("When to try again."));
    assert_eq!(at(2, 8).unwrap(), "run", "a bare name where nothing else is known");
    assert_eq!(at(9, 0), None);
}

#[test]
fn an_outline_nests_members() {
    let index = workspace();
    let items = document_symbols(&index, "src/A.java", ClientEncoding::Utf16, &|_: &str| None);
    let shown: Vec<_> = items.iter().map(|item| (item.name.as_str(), item.parent)).collect();
    assert_eq!(shown, [("Policy", None), ("run", Some(0)), ("stop", Some(0))]);
    assert_eq!(items[1].range.end, LinePosition::new(5, 3));
    assert_eq!(items[1].selection.start, LinePosition::new(2, 7));
    let none = document_symbols_from(&vec![], "A.java", ClientEncoding::Utf8, &|_: &str| None);
    assert!(none.is_empty());
}

#[test]
fn calls_are_followed_both_ways() {
    let index = workspace();
    let read = |_: &str| None;
    let root = root();
    let item = prepare_call_hierarchy(
        &index,
        "src/A.java",
        LinePosition::new(2, 8),
        &root.as_path(),
        ClientEncoding::Utf16,
        &read,
    )
    .unwrap();
    assert_eq!(item.symbol, "x a/Policy#run().");
    assert!(prepare_call_hierarchy(
        &index,
        "src/A.java",
        LinePosition::new(1, 7),
        &root.as_path(),
        ClientEncoding::Utf16,
        &read,
    )
    .is_none());

    let out =
        outgoing_calls(&index, &item.symbol, &root.as_path(), ClientEncoding::Utf16, &read);
    assert_eq!(out.len(), 1);
    assert_eq!(out[0].to.symbol, "x a/Policy#stop().");
    assert_eq!(out[0].range.start, LinePosition::new(3, 4));

    let callers = incoming_calls(
        &index,
        "x a/Policy#stop().",
        &root.as_path(),
        ClientEncoding::Utf16,
        &read,
    );
    assert_eq!(callers.len(), 1, "one caller, named once");
    assert_eq!(callers[0].from.symbol, "x a/Policy#run().");
    assert_eq!(callers[0].ranges.len(), 2);
    assert!(incoming_calls(
        &index,
        "x a/Policy#run().",
        &root.as_path(),
        ClientEncoding::Utf16,
        &read,
    )
    .is_empty());
}

#[test]
fn call_lists_are_capped() {
    let count = CALL_LIMIT as i32 + 50;
    let mut shard = Index::new();
    let mut document = scip::types::Document::new();
    document.relative_path = "src/A.java".to_owned();
    document.position_encoding =
        scip::types::PositionEncoding::UTF16CodeUnitOffsetFromLineStart.into();
    let hub = "x a/A#hub().".to_owned();
    let end = 10 * count;
    let define = SymbolRole::Definition as i32;
    let mut rows = vec![(hub.clone(), end, vec![end, 0, end + count + 1, 1], define)];
    for i in 0..count {
        let caller = format!("x a/A#m{i}().");
        rows.push((caller.clone(), 10 * i, vec![10 * i, 0, 10 * i + 5, 1], define));
        rows.push((hub.clone(), 10 * i + 2, vec![], 0));
        rows.push((caller, end + 1 + i, vec![], 0));
    }
    for (symbol, line, span, roles) in rows {
        let mut occurrence = scip::types::Occurrence::new();
        occurrence.range = vec![line, 4, 6];
        occurrence.enclosing_range = span;
        occurrence.symbol_roles = roles;
        if roles != 0 {
            let mut info = scip::types::SymbolInformation::new();
            info.symbol = symbol.clone();
            info.kind = scip::types::symbol_information::Kind::Method.into();
            document.symbols.push(info);
        }
        occurrence.symbol = symbol;
        document.occurrences.push(occurrence);
    }
    shard.documents.push(document);
    let mut index = SymbolIndex::new();
    assert!(index.add_shard(&shard.write_to_bytes().unwrap()));

    let read = |_: &str| None;
    let root = root();
    let out = outgoing_calls(&index, &hub, &root.as_path(), ClientEncoding::Utf16, &read);
    assert_eq!(out.len(), CALL_LIMIT);
    assert_eq!(out[0].to.symbol, "x a/A#m0().");
    let callers = incoming_calls(&index, &hub, &root.as_path(), ClientEncoding::Utf16, &read);
    assert_eq!(callers.len(), CALL_LIMIT);
    assert!(CALL_LIMIT < REFERENCE_LIMIT);
}

#[test]
fn newer_declarations_replace_those_of_the_index() {
    let mut index = SymbolIndex::new();
    index.insert(definition("A.java", "WidgetOld", 0, 0, 1));
    index.insert(definition("B.java", "WidgetKept", 0, 0, 1));
    let live = vec![definition("A.java", "WidgetNew", 0, 0, 1)];
    let results = workspace_symbol_with(
        &index,
        &live,
        &vec!["A.java".to_owned()],
        "widget",
        &root().as_path(),
        ClientEncoding::Utf16,
        &|_: &str| None,
    );
    let names: Vec<_> = results.symbols.iter().map(|s| s.name.as_str()).collect();
    assert_eq!(results.total, 2);
    assert!(names.contains(&"WidgetNew") && names.contains(&"WidgetKept"), "{names:?}");
}

#[test]
fn a_long_list_is_truncated() {
    assert_eq!(REFERENCE_LIMIT, 5000);
    assert_eq!(list_outcome(0, 0), Outcome::Empty { reason: EmptyReason::NoMatch });
    assert!(list_outcome(50, 51).is_truncated());
    assert!(!list_outcome(50, 50).is_truncated());
}

#[test]
fn a_column_that_the_text_lacks_stays() {
    let raw = Range { start_line: 9, start_col: 4, end_line: 9, end_col: 8 };
    let range = convert_span(raw, PositionEncoding::Utf16, ClientEncoding::Utf8, Some("ü\n"));
    assert_eq!(range.start, LinePosition::new(9, 4));
    assert_eq!(range.end, LinePosition::new(9, 8));
}
