//! What the server answers.
use jabar::capabilities::negotiate_encoding;
use jabar::config::Config;
use jabar::line_index::PositionEncoding;
use jabar::paths::AbsPathBuf;
use jabar::protocol::ErrorCode;
use jabar::server::{
    outline_outcome, outline_source, receive, registrations, resolve_position, resolve_query,
    resolve_calls, resolve_search, status, MessageKind, Notice, Operation, OutlineSource, ReferenceReply,
    Refusal, Turn,
};
use jabar::session::steps::Session;
use jabar::sources::Sources;
use jabar::telemetry::{EmptyReason, Failure, InFlight, Op, Outcome, Telemetry};
use jabar::vfs_path::VfsPath;

fn root() -> AbsPathBuf {
    AbsPathBuf::try_new("/repo/workspace".to_owned()).expect("absolute")
}

fn refused(turn: Turn) -> (ErrorCode, String) {
    match turn {
        Turn::Refuse(error) => (error.code, error.message),
        other => panic!("expected a refusal, got {other:?}"),
    }
}

#[test]
fn negotiates_utf8_when_the_client_offers_it() {
    let offered = vec!["utf-8".to_owned(), "utf-16".to_owned()];
    assert_eq!(negotiate_encoding(Some(&offered)).to_lsp(), "utf-8");
}

#[test]
fn falls_back_to_utf16_when_the_client_is_silent() {
    // The protocol default. Guessing utf-8 here would skew every range on any
    // file containing a non-ASCII character.
    assert_eq!(negotiate_encoding(None).to_lsp(), "utf-16");
}

#[test]
fn an_unknown_method_is_refused_rather_than_answered_empty() {
    // The property is that a method which is not served is never answered.
    let turn = receive(MessageKind::Request, "textDocument/rename", false);
    let (code, message) = refused(turn);
    assert_eq!(code.number(), -32601);
    assert!(message.contains("textDocument/rename"), "message: {message}");
}

#[test]
fn an_implemented_query_without_an_index_refuses_rather_than_returning_null() {
    // `definition` is implemented, but there is no index. A null result would
    // read as "no definition exists", which is a different and false claim.
    let turn = receive(MessageKind::Request, "textDocument/definition", false);
    assert!(matches!(turn, Turn::Serve(Operation::GoToDefinition)));
    let refusal = resolve_position(
        false,
        Some(&root()),
        "file:///repo/workspace/A.java",
        &Sources::new(),
    )
    .unwrap_err();
    assert_eq!(refusal.error.code.number(), -32002);
    assert!(refusal.error.message.contains("index"));
    assert!(resolve_search(false, true).is_err());
    assert!(resolve_search(true, true).is_ok());
}

#[test]
fn requests_after_shutdown_are_refused() {
    // Per the protocol, everything after `shutdown` must fail until `exit`.
    assert!(matches!(receive(MessageKind::Request, "shutdown", false), Turn::Shutdown));
    let (code, _) = refused(receive(MessageKind::Request, "jabar/status", true));
    assert_eq!(code.number(), -32600);
    assert!(matches!(receive(MessageKind::Notification, "exit", true), Turn::Exit));
    assert!(matches!(receive(MessageKind::Notification, "exit", false), Turn::ExitUnannounced));
}

#[test]
fn positional_queries_refuse_source_newer_than_the_index() {
    let mut sources = Sources::new();
    let file = VfsPath::parse("/repo/workspace/src/Foo.java").unwrap();
    sources.did_open(file, 1, "class Foo {}".to_owned(), None);
    for uri in [
        "file:///repo/workspace/src/Foo.java",
        "file:///repo/workspace//src/Foo.java",
        "file:///repo/workspace/src//Foo.java",
    ] {
        let refusal = resolve_position(true, Some(&root()), uri, &sources).unwrap_err();
        assert!(matches!(refusal.error.code, ErrorCode::ContentModified));
        assert!(refusal.error.message.contains("rebuild the index"));
        assert!(refusal.stale);
    }
    let fine = "file:///repo/workspace/src/Bar.java";
    assert_eq!(resolve_position(true, Some(&root()), fine, &sources).unwrap(), "src/Bar.java");
}

#[test]
fn calls_are_answered_only_for_an_item_that_was_prepared() {
    let mut sources = Sources::new();
    let uri = "file:///repo/workspace/A.java";
    let asked = |symbol: Option<&str>, sources: &Sources| {
        resolve_calls(true, Some(&root()), uri, sources, symbol.map(str::to_owned))
    };
    assert_eq!(asked(Some("x a/A#run()."), &sources).unwrap(), "x a/A#run().");
    let refusal = asked(None, &sources).unwrap_err();
    assert!(matches!(refusal.error.code, ErrorCode::InvalidParams));
    assert_eq!(refusal.failure, Failure::BadRequest);
    assert!(refusal.error.message.contains("did not come from `prepareCallHierarchy`"));

    let file = VfsPath::parse("/repo/workspace/A.java").unwrap();
    sources.did_open(file, 1, "class A {}".to_owned(), None);
    let refusal = asked(None, &sources).unwrap_err();
    assert!(refusal.stale, "that the file is newer is said first");
}

#[test]
fn a_file_outside_the_workspace_is_a_bad_request() {
    for uri in ["file:///elsewhere/A.java", "untitled:Untitled-1", "nonsense"] {
        let refusal = resolve_query(true, Some(&root()), uri).unwrap_err();
        assert_eq!(refusal.failure, Failure::BadRequest);
        assert!(refusal.error.message.contains(uri));
    }
    assert!(resolve_query(true, None, "file:///repo/workspace/A.java").is_err());
}

#[test]
fn a_refusal_is_counted_as_a_failure() {
    let mut operation = InFlight::new(Op::Hover);
    Refusal::no_index().record(&mut operation);
    let record = operation.conclude(1);
    assert_eq!(record.outcome, Outcome::Failed { failure: Failure::IndexUnavailable });
}

#[test]
fn the_workspace_root_is_picked_up() {
    let session: Session<()> = Session::new(false);
    let mut telemetry = Telemetry::new();
    let health = telemetry.health(0);
    let shown = status(
        &session,
        &Sources::new(),
        &Config::default(),
        Some(&root()),
        PositionEncoding::Utf8,
        0,
        health,
    );
    assert_eq!(shown.workspace_root.as_deref(), Some("/repo/workspace"));
    assert!(shown.build_graph_available);
    assert_eq!(shown.position_encoding, "utf-8");
    assert_eq!(shown.shard_refresh_mode, "none");
    assert!(!shown.index_loaded && !shown.index_loading);
    telemetry.record(InFlight::new(Op::Hover).conclude(1));
    assert_eq!(telemetry.op_health(Op::Hover).unwrap().total, 1);
}

#[test]
fn status_reports_a_healthy_server() {
    let session: Session<()> = Session::new(false);
    let shown = status(
        &session,
        &Sources::new(),
        &Config::default(),
        None,
        PositionEncoding::Utf16,
        3,
        Telemetry::new().health(0),
    );
    assert!(shown.health.concerns.is_empty(), "nothing should have tripped a threshold");
    assert_eq!(shown.indexed_definitions, 0, "there is no index to count");
    assert!(!shown.build_graph_available);
}

#[test]
fn an_outline_follows_the_newest_source() {
    let mut sources = Sources::new();
    let file = VfsPath::parse("/repo/workspace/A.java").unwrap();
    sources.did_open(file.clone(), 1, String::new(), None);
    let source = |sources: &Sources| outline_source(sources, &root(), "A.java");
    assert!(matches!(source(&sources), OutlineSource::Client(text) if text.is_empty()));
    sources.did_close(&file, None);
    assert!(matches!(source(&sources), OutlineSource::Disk));
    assert!(matches!(source(&Sources::new()), OutlineSource::Index));
    assert_eq!(outline_outcome(0), Outcome::Empty { reason: EmptyReason::FileNotIndexed });
    assert_eq!(outline_outcome(2), Outcome::answered(2));
}

#[test]
fn a_truncated_reference_list_says_so() {
    let reply = ReferenceReply::new("x A#".to_owned(), 200, 201);
    assert!(reply.truncated);
    assert!(!ReferenceReply::new("x A#".to_owned(), 3, 3).truncated);
}

#[test]
fn notifications_and_answers_are_told_apart() {
    for (method, notice) in [
        ("textDocument/didOpen", Notice::DidOpen),
        ("textDocument/didChange", Notice::DidChange),
        ("textDocument/didClose", Notice::DidClose),
        ("textDocument/didSave", Notice::DidSave),
        ("$/setTrace", Notice::Other),
    ] {
        let turn = receive(MessageKind::Notification, method, false);
        assert!(matches!(turn, Turn::Note(seen) if seen == notice), "{method}");
    }
    assert!(matches!(receive(MessageKind::Response, "", false), Turn::Unsolicited));
}

#[test]
fn registered_queries_are_served() {
    let registered = registrations();
    assert_eq!(registered.len(), 7);
    assert_eq!(registered[0].0, "jabar-workspace/symbol");
    for (_, method) in registered {
        let turn = receive(MessageKind::Request, &method, false);
        assert!(matches!(turn, Turn::Serve(operation) if operation.op().is_some()), "{method}");
    }
    assert_eq!(Operation::Status.op(), None);
}
