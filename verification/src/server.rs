//! What the server does with a message: which operation it asks for, whether
//! that can be answered, and with which error it is refused.
//!
//! No index is a different answer from an empty one. Returning an empty list
//! would tell the client that a symbol does not exist, which it cannot
//! distinguish and would act on, so a query that cannot be answered is refused
//! loudly.
use vstd::prelude::*;

use crate::capabilities::Capabilities;
use crate::config::{copy_text, Config};
use crate::line_index::PositionEncoding;
use crate::paths::AbsPathBuf;
use crate::protocol::{ErrorCode, ErrorView, RequestError};
use crate::session::steps::Session;
use crate::session::SessionView;
use crate::sources::gather::relative_path;
use crate::sources::{Sources, SourcesView};
use crate::telemetry::health::Health;
use crate::telemetry::{EmptyReason, Failure, InFlight, Op, Outcome};
use crate::text::{copy_texts, same_text};
use crate::uri::vfs_path;
use crate::vfs_path::{PathView, VfsPath};

pub mod laws;

verus! {

/// Custom request: what state the server is in.
pub const STATUS_REQUEST: &'static str = "jabar/status";

/// Custom request: references with the total, so that a truncated answer is told
/// from a complete one.
pub const REFERENCES_REQUEST: &'static str = "jabar/references";

/// Custom request: load SCIP shards from a directory into the global index.
pub const LOAD_INDEX_REQUEST: &'static str = "jabar/loadIndex";

/// What a client can ask for.
#[derive(Copy, Clone, Debug, PartialEq, Eq, Structural)]
pub enum Operation {
    Status,
    LoadIndex,
    WorkspaceSymbol,
    GoToDefinition,
    FindReferences,
    /// References with the total.
    CountedReferences,
    Hover,
    GoToImplementation,
    DocumentSymbol,
    PrepareCallHierarchy,
    IncomingCalls,
    OutgoingCalls,
}

/// The operation that a method asks for.
pub open spec fn operation_of(method: Seq<char>) -> Option<Operation> {
    if method == "jabar/status"@ {
        Some(Operation::Status)
    } else if method == "jabar/loadIndex"@ {
        Some(Operation::LoadIndex)
    } else if method == "workspace/symbol"@ {
        Some(Operation::WorkspaceSymbol)
    } else if method == "textDocument/definition"@ {
        Some(Operation::GoToDefinition)
    } else if method == "textDocument/references"@ {
        Some(Operation::FindReferences)
    } else if method == "jabar/references"@ {
        Some(Operation::CountedReferences)
    } else if method == "textDocument/hover"@ {
        Some(Operation::Hover)
    } else if method == "textDocument/implementation"@ {
        Some(Operation::GoToImplementation)
    } else if method == "textDocument/documentSymbol"@ {
        Some(Operation::DocumentSymbol)
    } else if method == "textDocument/prepareCallHierarchy"@ {
        Some(Operation::PrepareCallHierarchy)
    } else if method == "callHierarchy/incomingCalls"@ {
        Some(Operation::IncomingCalls)
    } else if method == "callHierarchy/outgoingCalls"@ {
        Some(Operation::OutgoingCalls)
    } else {
        None
    }
}

/// Computes [`operation_of`].
fn find_operation(method: &str) -> (operation: Option<Operation>)
    ensures
        operation == operation_of(method@),
{
    if same_text(method, "jabar/status") {
        Some(Operation::Status)
    } else if same_text(method, "jabar/loadIndex") {
        Some(Operation::LoadIndex)
    } else if same_text(method, "workspace/symbol") {
        Some(Operation::WorkspaceSymbol)
    } else if same_text(method, "textDocument/definition") {
        Some(Operation::GoToDefinition)
    } else if same_text(method, "textDocument/references") {
        Some(Operation::FindReferences)
    } else if same_text(method, "jabar/references") {
        Some(Operation::CountedReferences)
    } else if same_text(method, "textDocument/hover") {
        Some(Operation::Hover)
    } else if same_text(method, "textDocument/implementation") {
        Some(Operation::GoToImplementation)
    } else if same_text(method, "textDocument/documentSymbol") {
        Some(Operation::DocumentSymbol)
    } else if same_text(method, "textDocument/prepareCallHierarchy") {
        Some(Operation::PrepareCallHierarchy)
    } else if same_text(method, "callHierarchy/incomingCalls") {
        Some(Operation::IncomingCalls)
    } else if same_text(method, "callHierarchy/outgoingCalls") {
        Some(Operation::OutgoingCalls)
    } else {
        None
    }
}

/// What an operation is counted as. Asking for the state is not counted.
pub open spec fn counted_as(operation: Operation) -> Option<Op> {
    match operation {
        Operation::Status => None,
        Operation::LoadIndex => Some(Op::IndexBuild),
        Operation::WorkspaceSymbol => Some(Op::WorkspaceSymbol),
        Operation::GoToDefinition => Some(Op::GoToDefinition),
        Operation::FindReferences => Some(Op::FindReferences),
        Operation::CountedReferences => Some(Op::FindReferences),
        Operation::Hover => Some(Op::Hover),
        Operation::GoToImplementation => Some(Op::GoToImplementation),
        Operation::DocumentSymbol => Some(Op::DocumentSymbol),
        Operation::PrepareCallHierarchy => Some(Op::PrepareCallHierarchy),
        Operation::IncomingCalls => Some(Op::IncomingCalls),
        Operation::OutgoingCalls => Some(Op::OutgoingCalls),
    }
}

impl Operation {
    /// What the operation is counted as.
    pub fn op(self) -> (op: Option<Op>)
        ensures
            op == counted_as(self),
    {
        match self {
            Operation::Status => None,
            Operation::LoadIndex => Some(Op::IndexBuild),
            Operation::WorkspaceSymbol => Some(Op::WorkspaceSymbol),
            Operation::GoToDefinition => Some(Op::GoToDefinition),
            Operation::FindReferences => Some(Op::FindReferences),
            Operation::CountedReferences => Some(Op::FindReferences),
            Operation::Hover => Some(Op::Hover),
            Operation::GoToImplementation => Some(Op::GoToImplementation),
            Operation::DocumentSymbol => Some(Op::DocumentSymbol),
            Operation::PrepareCallHierarchy => Some(Op::PrepareCallHierarchy),
            Operation::IncomingCalls => Some(Op::IncomingCalls),
            Operation::OutgoingCalls => Some(Op::OutgoingCalls),
        }
    }
}

/// What a client can say without an answer.
#[derive(Copy, Clone, Debug, PartialEq, Eq, Structural)]
pub enum Notice {
    DidOpen,
    DidChange,
    DidClose,
    DidSave,
    /// Something that is only worth a log line.
    Other,
}

/// What a notification says.
pub open spec fn notice_of(method: Seq<char>) -> Notice {
    if method == "textDocument/didOpen"@ {
        Notice::DidOpen
    } else if method == "textDocument/didChange"@ {
        Notice::DidChange
    } else if method == "textDocument/didClose"@ {
        Notice::DidClose
    } else if method == "textDocument/didSave"@ {
        Notice::DidSave
    } else {
        Notice::Other
    }
}

/// The kind of a message.
#[derive(Copy, Clone, Debug, PartialEq, Eq, Structural)]
pub enum MessageKind {
    Request,
    Notification,
    Response,
}

/// What a message leads to.
#[derive(Debug)]
pub enum Turn {
    /// The client is about to leave. It is answered, and nothing but its exit is
    /// served from here on.
    Shutdown,
    /// A request to serve.
    Serve(Operation),
    /// A request to refuse.
    Refuse(RequestError),
    /// The client leaves, as announced.
    Exit,
    /// The client leaves without having announced it, which usually means that
    /// it crashed rather than closed down.
    ExitUnannounced,
    /// A notification.
    Note(Notice),
    /// An answer to something that was not asked, or whose answer is not needed.
    Unsolicited,
}

/// The view of a [`Turn`].
pub enum TurnView {
    Shutdown,
    Serve(Operation),
    Refuse(ErrorView),
    Exit,
    ExitUnannounced,
    Note(Notice),
    Unsolicited,
}

impl View for Turn {
    type V = TurnView;

    open spec fn view(&self) -> TurnView {
        match *self {
            Turn::Shutdown => TurnView::Shutdown,
            Turn::Serve(operation) => TurnView::Serve(operation),
            Turn::Refuse(error) => TurnView::Refuse(error@),
            Turn::Exit => TurnView::Exit,
            Turn::ExitUnannounced => TurnView::ExitUnannounced,
            Turn::Note(notice) => TurnView::Note(notice),
            Turn::Unsolicited => TurnView::Unsolicited,
        }
    }
}

/// How a request is refused once the client announced its leave: it gets an
/// error rather than a dead socket.
pub open spec fn leaving_error() -> ErrorView {
    ErrorView { code: ErrorCode::InvalidRequest, message: "server is shutting down"@ }
}

/// How a request is refused that nothing serves. Answering with nothing would
/// look to a client like a successful empty answer.
pub open spec fn unknown_error(method: Seq<char>) -> ErrorView {
    ErrorView {
        code: ErrorCode::MethodNotFound,
        message: "`"@ + method + "` is not implemented"@,
    }
}

/// What a message leads to.
pub open spec fn received(kind: MessageKind, method: Seq<char>, leaving: bool) -> TurnView {
    match kind {
        MessageKind::Request => if method == "shutdown"@ {
            TurnView::Shutdown
        } else if leaving {
            TurnView::Refuse(leaving_error())
        } else {
            match operation_of(method) {
                Some(operation) => TurnView::Serve(operation),
                None => TurnView::Refuse(unknown_error(method)),
            }
        },
        MessageKind::Notification => if method == "exit"@ {
            if leaving {
                TurnView::Exit
            } else {
                TurnView::ExitUnannounced
            }
        } else {
            TurnView::Note(notice_of(method))
        },
        MessageKind::Response => TurnView::Unsolicited,
    }
}

/// Decides what a message leads to.
pub fn receive(kind: MessageKind, method: &str, leaving: bool) -> (turn: Turn)
    ensures
        turn@ == received(kind, method@, leaving),
{
    match kind {
        MessageKind::Request => {
            if same_text(method, "shutdown") {
                return Turn::Shutdown;
            }
            if leaving {
                return Turn::Refuse(
                    RequestError::new(
                        ErrorCode::InvalidRequest,
                        "server is shutting down".to_owned(),
                    ),
                );
            }
            match find_operation(method) {
                Some(operation) => Turn::Serve(operation),
                None => {
                    let mut message = "`".to_owned();
                    message.append(method);
                    message.append("` is not implemented");
                    Turn::Refuse(RequestError::new(ErrorCode::MethodNotFound, message))
                },
            }
        },
        MessageKind::Notification => {
            if same_text(method, "exit") {
                if leaving {
                    Turn::Exit
                } else {
                    Turn::ExitUnannounced
                }
            } else if same_text(method, "textDocument/didOpen") {
                Turn::Note(Notice::DidOpen)
            } else if same_text(method, "textDocument/didChange") {
                Turn::Note(Notice::DidChange)
            } else if same_text(method, "textDocument/didClose") {
                Turn::Note(Notice::DidClose)
            } else if same_text(method, "textDocument/didSave") {
                Turn::Note(Notice::DidSave)
            } else {
                Turn::Note(Notice::Other)
            }
        },
        MessageKind::Response => Turn::Unsolicited,
    }
}

/// Once the client announced its leave, every request but another announcement
/// is refused, whatever it asks for.
pub proof fn requests_after_shutdown_are_refused(method: Seq<char>)
    requires
        method != "shutdown"@,
    ensures
        received(MessageKind::Request, method, true) == TurnView::Refuse(leaving_error()),
{
}

/// What nothing serves is refused, never answered with nothing.
pub proof fn unknown_requests_are_refused(method: Seq<char>)
    requires
        method != "shutdown"@,
        operation_of(method) is None,
    ensures
        received(MessageKind::Request, method, false) == TurnView::Refuse(unknown_error(method)),
{
}

/// Why a query is refused, and how that is counted.
#[derive(Debug)]
pub struct Refusal {
    pub failure: Failure,
    /// Whether the source is newer than the index.
    pub stale: bool,
    pub error: RequestError,
}

/// The view of a [`Refusal`].
pub struct RefusalView {
    pub failure: Failure,
    pub stale: bool,
    pub error: ErrorView,
}

impl View for Refusal {
    type V = RefusalView;

    open spec fn view(&self) -> RefusalView {
        RefusalView { failure: self.failure, stale: self.stale, error: self.error@ }
    }
}

/// A refusal for want of an index.
pub open spec fn no_index() -> RefusalView {
    RefusalView {
        failure: Failure::IndexUnavailable,
        stale: false,
        error: ErrorView {
            code: ErrorCode::ServerNotInitialized,
            message:
                "no symbol index is loaded; run the SCIP aspect and call `jabar/loadIndex`"@,
        },
    }
}

/// A refusal of what is not a file of the workspace.
pub open spec fn not_inside(uri: Seq<char>) -> RefusalView {
    RefusalView {
        failure: Failure::BadRequest,
        stale: false,
        error: ErrorView {
            code: ErrorCode::InvalidParams,
            message: "`"@ + uri + "` is not a file inside the workspace"@,
        },
    }
}

/// A refusal of a position in source that is newer than the index.
pub open spec fn out_of_date(relative: Seq<char>) -> RefusalView {
    RefusalView {
        failure: Failure::IndexUnavailable,
        stale: true,
        error: ErrorView {
            code: ErrorCode::ContentModified,
            message: "`"@ + relative
                + "` changed after the symbol index was built; rebuild the index before running a positional query"@,
        },
    }
}

/// A refusal of a call hierarchy item that the server did not hand out.
pub open spec fn not_prepared() -> RefusalView {
    RefusalView {
        failure: Failure::BadRequest,
        stale: false,
        error: ErrorView {
            code: ErrorCode::InvalidParams,
            message: "the call hierarchy item did not come from `prepareCallHierarchy`"@,
        },
    }
}

impl Refusal {
    /// Computes [`not_prepared`].
    pub fn not_prepared() -> (refusal: Refusal)
        ensures
            refusal@ == self::not_prepared(),
    {
        Refusal {
            failure: Failure::BadRequest,
            stale: false,
            error: RequestError::new(
                ErrorCode::InvalidParams,
                "the call hierarchy item did not come from `prepareCallHierarchy`".to_owned(),
            ),
        }
    }

    /// Computes [`no_index`].
    pub fn no_index() -> (refusal: Refusal)
        ensures
            refusal@ == self::no_index(),
    {
        Refusal {
            failure: Failure::IndexUnavailable,
            stale: false,
            error: RequestError::new(
                ErrorCode::ServerNotInitialized,
                "no symbol index is loaded; run the SCIP aspect and call `jabar/loadIndex`".to_owned(),
            ),
        }
    }

    /// Notes the refusal in the record of the operation.
    pub fn record(&self, operation: &mut InFlight)
        ensures
            *final(operation) == (InFlight {
                outcome: Some(Outcome::Failed { failure: self.failure }),
                stale: if self.stale {
                    true
                } else {
                    old(operation).stale
                },
                ..*old(operation)
            }),
    {
        if self.stale {
            operation.mark_stale(true);
        }
        operation.mark_failed(self.failure);
    }
}

/// The file that a query is about, relative to the workspace.
pub open spec fn queried(root: Option<Seq<char>>, uri: Seq<char>) -> Option<Seq<char>> {
    match (root, crate::uri::read_uri(uri, crate::uri::named_path(uri))) {
        (Some(root), Ok(path)) => crate::sources::gather::relative_to(path, root),
        _ => None,
    }
}

/// Whether a relative path is, inside the workspace, that of the file which a URI
/// names.
pub open spec fn names_queried(
    root: Option<Seq<char>>,
    uri: Seq<char>,
    relative: Seq<char>,
) -> bool {
    match (root, crate::uri::read_uri(uri, crate::uri::named_path(uri))) {
        (Some(root), Ok(path)) => crate::sources::workspace_file(root, relative)
            == crate::vfs_path::plain_path(path),
        _ => false,
    }
}

/// Whether a query on a file can be answered, and of which file.
pub open spec fn admitted(indexed: bool, root: Option<Seq<char>>, uri: Seq<char>) -> Result<
    Seq<char>,
    RefusalView,
> {
    if !indexed {
        Err(no_index())
    } else {
        match queried(root, uri) {
            Some(relative) => Ok(relative),
            None => Err(not_inside(uri)),
        }
    }
}

/// Whether a query on a position can be answered: its coordinates must not refer
/// to source that is newer than the index.
pub open spec fn admitted_at(
    indexed: bool,
    root: Option<Seq<char>>,
    uri: Seq<char>,
    stale: Set<PathView>,
) -> Result<Seq<char>, RefusalView> {
    match admitted(indexed, root, uri) {
        Ok(relative) => if stale.contains(crate::sources::workspace_file(root->0, relative)) {
            Err(out_of_date(relative))
        } else {
            Ok(relative)
        },
        Err(refusal) => Err(refusal),
    }
}

/// The view of a decision on a query.
pub open spec fn decision(decided: Result<String, Refusal>) -> Result<Seq<char>, RefusalView> {
    match decided {
        Ok(relative) => Ok(relative@),
        Err(refusal) => Err(refusal@),
    }
}

/// The view of an optional root.
pub open spec fn root_of(root: Option<&AbsPathBuf>) -> Option<Seq<char>> {
    match root {
        Some(root) => Some(root@),
        None => None,
    }
}

/// Computes [`queried`].
fn find_file(root: Option<&AbsPathBuf>, uri: &str) -> (relative: Option<String>)
    ensures
        crate::config::text_of(relative) == queried(root_of(root), uri@),
        relative matches Some(relative) ==> names_queried(
            root_of(root),
            uri@,
            relative@,
        ),
{
    match root {
        Some(root) => match vfs_path(uri) {
            Ok(path) => match relative_path(&path, &root.as_path()) {
                Some(relative) => Some(relative.to_owned()),
                None => None,
            },
            Err(_) => None,
        },
        None => None,
    }
}

/// Decides whether a query on a file can be answered.
pub fn resolve_query(indexed: bool, root: Option<&AbsPathBuf>, uri: &str) -> (decided: Result<
    String,
    Refusal,
>)
    ensures
        decision(decided) == admitted(indexed, root_of(root), uri@),
        decided matches Ok(relative) ==> names_queried(
            root_of(root),
            uri@,
            relative@,
        ),
{
    if !indexed {
        return Err(Refusal::no_index());
    }
    match find_file(root, uri) {
        Some(relative) => Ok(relative),
        None => {
            let mut message = "`".to_owned();
            message.append(uri);
            message.append("` is not a file inside the workspace");
            Err(
                Refusal {
                    failure: Failure::BadRequest,
                    stale: false,
                    error: RequestError::new(ErrorCode::InvalidParams, message),
                },
            )
        },
    }
}

/// Decides whether a query on a position can be answered.
pub fn resolve_position(
    indexed: bool,
    root: Option<&AbsPathBuf>,
    uri: &str,
    sources: &Sources,
) -> (decided: Result<String, Refusal>)
    requires
        sources.wf(),
    ensures
        decision(decided) == admitted_at(indexed, root_of(root), uri@, sources@.stale),
        // However the URI spells the path of a stale file, it is not looked up.
        crate::uri::read_uri(uri@, crate::uri::named_path(uri@)) matches Ok(path)
            && sources@.stale.contains(crate::vfs_path::plain_path(path)) ==> decided is Err,
{
    let relative = match resolve_query(indexed, root, uri) {
        Ok(relative) => relative,
        Err(refusal) => {
            return Err(refusal);
        },
    };
    let base = match root {
        Some(base) => base,
        None => {
            return Ok(relative);
        },
    };
    let path = VfsPath::from_real(base.as_path().join(relative.as_str()));
    if sources.stale().contains(&path) {
        let mut message = "`".to_owned();
        message.append(relative.as_str());
        message.append(
            "` changed after the symbol index was built; rebuild the index before running a positional query",
        );
        return Err(
            Refusal {
                failure: Failure::IndexUnavailable,
                stale: true,
                error: RequestError::new(ErrorCode::ContentModified, message),
            },
        );
    }
    Ok(relative)
}

/// The symbol whose calls are asked for, or the refusal.
pub open spec fn admitted_calls(
    indexed: bool,
    root: Option<Seq<char>>,
    uri: Seq<char>,
    stale: Set<PathView>,
    symbol: Option<Seq<char>>,
) -> Result<Seq<char>, RefusalView> {
    match (admitted_at(indexed, root, uri, stale), symbol) {
        (Err(refusal), _) => Err(refusal),
        (Ok(_), Some(symbol)) => Ok(symbol),
        (Ok(_), None) => Err(not_prepared()),
    }
}

/// Decides whether the calls of an item can be answered. Its symbol was stashed
/// when the item was prepared: a client that fabricates one, or replays one from
/// a previous session, will not have it.
pub fn resolve_calls(
    indexed: bool,
    root: Option<&AbsPathBuf>,
    uri: &str,
    sources: &Sources,
    symbol: Option<String>,
) -> (decided: Result<String, Refusal>)
    requires
        sources.wf(),
    ensures
        decision(decided) == admitted_calls(
            indexed,
            root_of(root),
            uri@,
            sources@.stale,
            crate::config::text_of(symbol),
        ),
{
    if let Err(refusal) = resolve_position(indexed, root, uri, sources) {
        return Err(refusal);
    }
    match symbol {
        Some(symbol) => Ok(symbol),
        None => Err(Refusal::not_prepared()),
    }
}

/// Decides whether a search can be answered, which takes an index and a
/// workspace.
pub fn resolve_search(indexed: bool, rooted: bool) -> (decided: Result<(), Refusal>)
    ensures
        match decided {
            Ok(_) => indexed && rooted,
            Err(refusal) => (!indexed || !rooted) && refusal@ == no_index(),
        },
{
    if indexed && rooted {
        Ok(())
    } else {
        Err(Refusal::no_index())
    }
}

/// Without an index, every query is refused with an error that says so.
pub proof fn no_index_is_an_error(
    root: Option<Seq<char>>,
    uri: Seq<char>,
    stale: Set<PathView>,
)
    ensures
        admitted(false, root, uri) == Err::<Seq<char>, RefusalView>(no_index()),
        admitted_at(false, root, uri, stale) == Err::<Seq<char>, RefusalView>(no_index()),
{
}

/// A position in a file that is newer than the index is never looked up.
pub proof fn newer_source_is_not_looked_up(
    root: Seq<char>,
    uri: Seq<char>,
    stale: Set<PathView>,
    relative: Seq<char>,
)
    requires
        queried(Some(root), uri) == Some(relative),
        stale.contains(crate::sources::workspace_file(root, relative)),
    ensures
        admitted_at(true, Some(root), uri, stale) == Err::<Seq<char>, RefusalView>(
            out_of_date(relative),
        ),
{
}

/// A refusal is counted as a failure, never as an empty answer.
pub proof fn refusals_are_failures(
    indexed: bool,
    root: Option<Seq<char>>,
    uri: Seq<char>,
    stale: Set<PathView>,
    operation: InFlight,
    micros: u128,
)
    ensures
        admitted_at(indexed, root, uri, stale) matches Err(refusal)
            ==> !crate::telemetry::misleading(
            crate::telemetry::concluded(
                (InFlight {
                    outcome: Some(Outcome::Failed { failure: refusal.failure }),
                    stale: refusal.stale,
                    ..operation
                }),
                micros,
            ).outcome,
        ),
{
}

/// Where the declarations of a file are read from.
#[derive(Debug)]
pub enum OutlineSource {
    /// From the client's copy, which is the truth for an open file, even where
    /// it is empty or cannot be parsed.
    Client(String),
    /// From the file on disk, which is newer than the index. Where it cannot be
    /// read, it declares nothing, rather than what it once did.
    Disk,
    /// From the index.
    Index,
}

/// Decides where the declarations of a file are read from.
pub fn outline_source(sources: &Sources, root: &AbsPathBuf, relative: &str) -> (source:
    OutlineSource)
    requires
        sources.wf(),
        !crate::paths::absolute(relative@),
    ensures
        ({
            let path = crate::sources::workspace_file(root@, relative@);
            match source {
                OutlineSource::Client(text) => sources@.documents.contains_key(path) && text@
                    == sources@.documents[path].text,
                OutlineSource::Disk => !sources@.documents.contains_key(path)
                    && sources@.stale.contains(path),
                OutlineSource::Index => !sources@.documents.contains_key(path)
                    && !sources@.stale.contains(path),
            }
        }),
{
    let path = VfsPath::from_real(root.as_path().join(relative));
    if let Some(document) = sources.documents().get(&path) {
        return OutlineSource::Client(document.text.clone());
    }
    if sources.stale().contains(&path) {
        OutlineSource::Disk
    } else {
        OutlineSource::Index
    }
}

/// How an outline is counted. A file that the index does not cover is not one
/// that declares nothing.
pub fn outline_outcome(count: usize) -> (outcome: Outcome)
    ensures
        outcome == (if count == 0 {
            Outcome::Empty { reason: EmptyReason::FileNotIndexed }
        } else {
            Outcome::Answered { returned: count, total: count }
        }),
{
    if count == 0 {
        Outcome::Empty { reason: EmptyReason::FileNotIndexed }
    } else {
        Outcome::answered(count)
    }
}

/// What `jabar/references` says besides the locations.
#[derive(Debug)]
pub struct ReferenceReply {
    pub symbol: String,
    pub returned: usize,
    pub total: usize,
    pub truncated: bool,
}

impl ReferenceReply {
    /// A reply that names what was withheld.
    pub fn new(symbol: String, returned: usize, total: usize) -> (reply: ReferenceReply)
        ensures
            reply.symbol == symbol,
            reply.returned == returned,
            reply.total == total,
            reply.truncated == (returned < total),
    {
        ReferenceReply { symbol, returned, total, truncated: returned < total }
    }
}

/// The payload of [`STATUS_REQUEST`].
#[derive(Debug)]
pub struct Status {
    pub workspace_root: Option<String>,
    pub build_graph_available: bool,
    pub position_encoding: &'static str,
    pub index_loaded: bool,
    pub index_loading: bool,
    pub watching: bool,
    /// True when startup loaded the persisted built-index snapshot.
    pub index_cache_loaded: bool,
    /// Whether the snapshot was compared with the current shard metadata. This
    /// says nothing about whether sources have been rebuilt.
    pub shards_verified: bool,
    pub shard_refresh_mode: &'static str,
    /// Absent when sharing the workspace's default output base.
    pub output_base: Option<String>,
    pub index_targets: Vec<String>,
    pub indexed_definitions: usize,
    pub open_documents: usize,
    pub stale_documents: usize,
    pub vfs_files: usize,
    pub vfs_revision: u64,
    /// True when an unconsumed batch of changes remains.
    pub pending_changes: bool,
    pub health: Health,
}

/// Whether a status tells the state of the index.
pub open spec fn tells_session<I>(status: Status, s: SessionView<I>) -> bool {
    &&& status.index_loaded == (s.index is Some)
    &&& status.index_loading == (s.refresh_running || s.load_running)
    &&& status.watching == s.watching
    &&& status.index_cache_loaded == s.cache_hit
    &&& status.shards_verified == s.shards_verified
    &&& status.shard_refresh_mode@ == crate::session::steps::mode_of(s)
}

/// Whether a status tells the state of the sources.
pub open spec fn tells_sources(status: Status, s: SourcesView) -> bool {
    &&& status.open_documents == s.documents.len()
    &&& status.stale_documents == s.stale.len()
    &&& status.vfs_files == s.vfs.paths.len()
    &&& status.vfs_revision == s.vfs.revision
    &&& status.pending_changes == crate::vfs::has_waiting(s.vfs.pending)
}

/// The state of the server. `definitions` is how many the index has, where there
/// is one.
pub fn status<I>(
    session: &Session<I>,
    sources: &Sources,
    config: &Config,
    root: Option<&AbsPathBuf>,
    encoding: PositionEncoding,
    definitions: usize,
    health: Health,
) -> (status: Status)
    requires
        sources.wf(),
    ensures
        tells_session(status, session@),
        tells_sources(status, sources@),
        crate::config::text_of(status.workspace_root) == root_of(root),
        status.build_graph_available == (root is Some),
        status.position_encoding@ == crate::capabilities::encoding_name(encoding),
        crate::config::text_of(status.output_base) == config@.output_base,
        crate::text::texts(status.index_targets@) == config@.targets,
        status.indexed_definitions == (if session@.index is Some {
            definitions
        } else {
            0
        }),
        status.health == health,
{
    let workspace_root = match root {
        Some(root) => Some(root.as_str().to_owned()),
        None => None,
    };
    let loaded = session.index().is_some();
    Status {
        build_graph_available: root.is_some(),
        workspace_root,
        position_encoding: encoding.to_lsp(),
        index_loaded: loaded,
        index_loading: session.is_loading(),
        watching: session.is_watching(),
        index_cache_loaded: session.is_cache_hit(),
        shards_verified: session.are_shards_verified(),
        shard_refresh_mode: session.refresh_mode(),
        output_base: copy_text(&config.output_base),
        index_targets: copy_texts(&config.index.targets),
        indexed_definitions: if loaded {
            definitions
        } else {
            0
        },
        open_documents: sources.documents().len(),
        stale_documents: sources.stale().len(),
        vfs_files: sources.vfs().len(),
        vfs_revision: sources.vfs().revision(),
        pending_changes: sources.vfs().has_pending_changes(),
        health,
    }
}

/// The queries that the client is told of once there is an index.
pub open spec fn registered_methods() -> Seq<Seq<char>> {
    seq![
        "workspace/symbol"@,
        "textDocument/definition"@,
        "textDocument/references"@,
        "textDocument/hover"@,
        "textDocument/implementation"@,
        "textDocument/documentSymbol"@,
        "textDocument/prepareCallHierarchy"@,
    ]
}

/// The queries that the client is told of once there is an index, each with the
/// id it is registered under.
pub fn registrations() -> (registered: Vec<(String, String)>)
    ensures
        registered@.len() == registered_methods().len(),
        forall|i: int|
            0 <= i < registered@.len() ==> (#[trigger] registered@[i]).1@ == registered_methods()[i]
                && registered@[i].0@ == "jabar-"@ + registered_methods()[i],
{
    let mut methods: Vec<&'static str> = Vec::new();
    methods.push("workspace/symbol");
    methods.push("textDocument/definition");
    methods.push("textDocument/references");
    methods.push("textDocument/hover");
    methods.push("textDocument/implementation");
    methods.push("textDocument/documentSymbol");
    methods.push("textDocument/prepareCallHierarchy");
    let mut registered: Vec<(String, String)> = Vec::new();
    let mut i: usize = 0;
    while i < methods.len()
        invariant
            i <= methods@.len(),
            methods@.len() == registered_methods().len(),
            forall|k: int|
                0 <= k < methods@.len() ==> (#[trigger] methods@[k])@ == registered_methods()[k],
            registered@.len() == i,
            forall|k: int|
                0 <= k < i ==> (#[trigger] registered@[k]).1@ == registered_methods()[k]
                    && registered@[k].0@ == "jabar-"@ + registered_methods()[k],
        decreases methods@.len() - i,
    {
        let mut id = "jabar-".to_owned();
        id.append(methods[i]);
        registered.push((id, methods[i].to_owned()));
        i += 1;
    }
    registered
}

/// What the client is told of is served.
pub proof fn registered_queries_are_served(i: int)
    requires
        0 <= i < registered_methods().len(),
    ensures
        operation_of(registered_methods()[i]) is Some,
{
}

/// Whether a client that was told of these capabilities may send this request.
pub open spec fn offers(capabilities: Capabilities, method: Seq<char>) -> bool {
    ||| capabilities.workspace_symbol && method == "workspace/symbol"@
    ||| capabilities.definition && method == "textDocument/definition"@
    ||| capabilities.references && method == "textDocument/references"@
    ||| capabilities.document_symbol && method == "textDocument/documentSymbol"@
    ||| capabilities.implementation && method == "textDocument/implementation"@
    ||| capabilities.hover && method == "textDocument/hover"@
    ||| capabilities.call_hierarchy && (method == "textDocument/prepareCallHierarchy"@ || method
        == "callHierarchy/incomingCalls"@ || method == "callHierarchy/outgoingCalls"@)
    ||| capabilities.completion && method == "textDocument/completion"@
    ||| capabilities.signature_help && method == "textDocument/signatureHelp"@
    ||| capabilities.semantic_tokens && method == "textDocument/semanticTokens/full"@
    ||| capabilities.will_save_wait_until && method == "textDocument/willSaveWaitUntil"@
}

/// Whether a client that was told of these capabilities may send this
/// notification of what became of a document.
pub open spec fn listens_to(capabilities: Capabilities, method: Seq<char>) -> bool {
    ||| capabilities.open_close && (method == "textDocument/didOpen"@ || method
        == "textDocument/didClose"@)
    ||| capabilities.incremental_sync && method == "textDocument/didChange"@
    ||| capabilities.will_save && method == "textDocument/willSave"@
}

/// No request is advertised that cannot be served. Apart from those, only the
/// server's own requests are.
pub proof fn advertised_requests_are_served(encoding: PositionEncoding, method: Seq<char>)
    ensures
        offers(crate::capabilities::advertised(encoding), method) ==> operation_of(method) is Some,
        operation_of(method) is Some ==> offers(crate::capabilities::advertised(encoding), method) || method
            == "jabar/status"@ || method == "jabar/loadIndex"@ || method == "jabar/references"@,
{
}

/// No notification of what became of a document is advertised that is ignored.
pub proof fn advertised_notifications_are_heeded(encoding: PositionEncoding, method: Seq<char>)
    requires
        listens_to(crate::capabilities::advertised(encoding), method),
    ensures
        notice_of(method) !is Other,
{
}

} // verus!
