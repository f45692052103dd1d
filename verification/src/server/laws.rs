//! What a client's messages lead to, and how they are refused.
use vstd::prelude::*;

use crate::line_index::PositionEncoding;
use crate::protocol::ErrorCode;
use crate::server::{MessageKind, Notice, Operation, Status, TurnView};
use crate::session::SessionView;
use crate::telemetry::{Failure, Op};
use crate::vfs_path::PathView;

verus! {

/// The methods are told apart.
proof fn lemma_methods()
    ensures
        crate::server::operation_of("jabar/status"@) == Some(Operation::Status),
        crate::server::operation_of("jabar/loadIndex"@) == Some(Operation::LoadIndex),
        crate::server::operation_of("workspace/symbol"@) == Some(Operation::WorkspaceSymbol),
        crate::server::operation_of("textDocument/definition"@) == Some(Operation::GoToDefinition),
        crate::server::operation_of("textDocument/references"@) == Some(Operation::FindReferences),
        crate::server::operation_of("jabar/references"@) == Some(Operation::CountedReferences),
        crate::server::operation_of("textDocument/hover"@) == Some(Operation::Hover),
        crate::server::operation_of("textDocument/implementation"@) == Some(
            Operation::GoToImplementation,
        ),
        crate::server::operation_of("textDocument/documentSymbol"@) == Some(
            Operation::DocumentSymbol,
        ),
        crate::server::operation_of("textDocument/prepareCallHierarchy"@) == Some(
            Operation::PrepareCallHierarchy,
        ),
        crate::server::operation_of("callHierarchy/incomingCalls"@) == Some(
            Operation::IncomingCalls,
        ),
        crate::server::operation_of("callHierarchy/outgoingCalls"@) == Some(
            Operation::OutgoingCalls,
        ),
        crate::server::operation_of("shutdown"@) is None,
{
    reveal_strlit("jabar/status");
    reveal_strlit("jabar/loadIndex");
    reveal_strlit("workspace/symbol");
    reveal_strlit("textDocument/definition");
    reveal_strlit("textDocument/references");
    reveal_strlit("jabar/references");
    reveal_strlit("textDocument/hover");
    reveal_strlit("textDocument/implementation");
    reveal_strlit("textDocument/documentSymbol");
    reveal_strlit("textDocument/prepareCallHierarchy");
    reveal_strlit("callHierarchy/incomingCalls");
    reveal_strlit("callHierarchy/outgoingCalls");
    reveal_strlit("shutdown");
    assert("jabar/status"@.len() == 12);
    assert("jabar/loadIndex"@.len() == 15);
    assert("workspace/symbol"@.len() == 16);
    assert("textDocument/definition"@.len() == 23);
    assert("textDocument/references"@.len() == 23);
    assert("jabar/references"@.len() == 16);
    assert("textDocument/hover"@.len() == 18);
    assert("textDocument/implementation"@.len() == 27);
    assert("textDocument/documentSymbol"@.len() == 27);
    assert("textDocument/prepareCallHierarchy"@.len() == 33);
    assert("callHierarchy/incomingCalls"@.len() == 27);
    assert("callHierarchy/outgoingCalls"@.len() == 27);
    assert("shutdown"@.len() == 8);
    assert("workspace/symbol"@[0] == 'w' && "jabar/references"@[0] == 'j');
    assert("textDocument/definition"@[13] == 'd' && "textDocument/references"@[13] == 'r');
    assert("textDocument/implementation"@[13] == 'i' && "textDocument/documentSymbol"@[13] == 'd');
    assert("callHierarchy/incomingCalls"@[14] == 'i' && "callHierarchy/outgoingCalls"@[14] == 'o');
    assert("callHierarchy/incomingCalls"@[0] == 'c' && "callHierarchy/outgoingCalls"@[0] == 'c');
    assert("textDocument/implementation"@[0] == 't' && "textDocument/documentSymbol"@[0] == 't');
}

/// A request asks for the operation that its method names, and every operation
/// is asked for by one method alone.
pub proof fn requests_are_served_by_their_method(method: Seq<char>)
    ensures
        ({
            let turn = crate::server::received(MessageKind::Request, method, false);
            &&& turn == TurnView::Serve(Operation::Status) <==> method == "jabar/status"@
            &&& turn == TurnView::Serve(Operation::LoadIndex) <==> method == "jabar/loadIndex"@
            &&& turn == TurnView::Serve(Operation::WorkspaceSymbol) <==> method
                == "workspace/symbol"@
            &&& turn == TurnView::Serve(Operation::GoToDefinition) <==> method
                == "textDocument/definition"@
            &&& turn == TurnView::Serve(Operation::FindReferences) <==> method
                == "textDocument/references"@
            &&& turn == TurnView::Serve(Operation::CountedReferences) <==> method
                == "jabar/references"@
            &&& turn == TurnView::Serve(Operation::Hover) <==> method == "textDocument/hover"@
            &&& turn == TurnView::Serve(Operation::GoToImplementation) <==> method
                == "textDocument/implementation"@
            &&& turn == TurnView::Serve(Operation::DocumentSymbol) <==> method
                == "textDocument/documentSymbol"@
            &&& turn == TurnView::Serve(Operation::PrepareCallHierarchy) <==> method
                == "textDocument/prepareCallHierarchy"@
            &&& turn == TurnView::Serve(Operation::IncomingCalls) <==> method
                == "callHierarchy/incomingCalls"@
            &&& turn == TurnView::Serve(Operation::OutgoingCalls) <==> method
                == "callHierarchy/outgoingCalls"@
            &&& turn is Shutdown <==> method == "shutdown"@
            &&& turn is Serve || turn is Shutdown || turn is Refuse
        }),
{
    lemma_methods();
}

/// A request that no method names is refused as unknown, with its method in the
/// message. After the client announced its leave every request is refused as
/// invalid, and `shutdown` alone is still heeded.
pub proof fn refused_requests_get_an_error(method: Seq<char>)
    ensures
        crate::server::received(MessageKind::Request, method, false) matches TurnView::Refuse(
            error,
        ) ==> crate::protocol::code_number(error.code) == -32601 && error.message == "`"@ + method
            + "` is not implemented"@,
        method != "shutdown"@ ==> (crate::server::received(
            MessageKind::Request,
            method,
            true,
        ) matches TurnView::Refuse(error) && crate::protocol::code_number(error.code) == -32600),
        method == "shutdown"@ ==> crate::server::received(MessageKind::Request, method, true)
            is Shutdown,
{
    lemma_methods();
}

/// A notification is noted, whatever it is, but for the one to leave, which is
/// only in order once the leave was announced. What answers nothing that was
/// asked leads to nothing.
pub proof fn notifications_are_noted(method: Seq<char>, leaving: bool)
    ensures
        method != "exit"@ ==> crate::server::received(
            MessageKind::Notification,
            method,
            leaving,
        ) is Note,
        method == "exit"@ && leaving ==> crate::server::received(
            MessageKind::Notification,
            method,
            leaving,
        ) is Exit,
        method == "exit"@ && !leaving ==> crate::server::received(
            MessageKind::Notification,
            method,
            leaving,
        ) is ExitUnannounced,
        crate::server::received(MessageKind::Response, method, leaving) is Unsolicited,
{
}

/// What becomes of a document is told by four notifications.
pub proof fn document_notifications_are_told_apart(method: Seq<char>)
    ensures
        crate::server::notice_of(method) == Notice::DidOpen <==> method == "textDocument/didOpen"@,
        crate::server::notice_of(method) == Notice::DidChange <==> method
            == "textDocument/didChange"@,
        crate::server::notice_of(method) == Notice::DidClose <==> method
            == "textDocument/didClose"@,
        crate::server::notice_of(method) == Notice::DidSave <==> method == "textDocument/didSave"@,
{
    reveal_strlit("textDocument/didOpen");
    reveal_strlit("textDocument/didChange");
    reveal_strlit("textDocument/didClose");
    reveal_strlit("textDocument/didSave");
    assert("textDocument/didOpen"@.len() == 20);
    assert("textDocument/didChange"@.len() == 22);
    assert("textDocument/didClose"@.len() == 21);
    assert("textDocument/didSave"@.len() == 20);
    assert("textDocument/didOpen"@[16] == 'O' && "textDocument/didSave"@[16] == 'S');
}

/// A query is counted as what it is, and asking for the state is not counted.
pub proof fn queries_are_counted_as_what_they_are(operation: Operation)
    ensures
        crate::server::counted_as(operation) is None <==> operation is Status,
        operation is LoadIndex ==> crate::server::counted_as(operation) == Some(Op::IndexBuild),
        operation is WorkspaceSymbol ==> crate::server::counted_as(operation) == Some(
            Op::WorkspaceSymbol,
        ),
        operation is GoToDefinition ==> crate::server::counted_as(operation) == Some(
            Op::GoToDefinition,
        ),
        operation is FindReferences || operation is CountedReferences
            ==> crate::server::counted_as(operation) == Some(Op::FindReferences),
        operation is Hover ==> crate::server::counted_as(operation) == Some(Op::Hover),
        operation is GoToImplementation ==> crate::server::counted_as(operation) == Some(
            Op::GoToImplementation,
        ),
        operation is DocumentSymbol ==> crate::server::counted_as(operation) == Some(
            Op::DocumentSymbol,
        ),
        operation is PrepareCallHierarchy ==> crate::server::counted_as(operation) == Some(
            Op::PrepareCallHierarchy,
        ),
        operation is IncomingCalls ==> crate::server::counted_as(operation) == Some(
            Op::IncomingCalls,
        ),
        operation is OutgoingCalls ==> crate::server::counted_as(operation) == Some(
            Op::OutgoingCalls,
        ),
{
}

/// LSP's numbers for the errors.
pub proof fn errors_are_numbered(code: ErrorCode)
    ensures
        crate::protocol::code_number(code) == -32600 <==> code is InvalidRequest,
        crate::protocol::code_number(code) == -32601 <==> code is MethodNotFound,
        crate::protocol::code_number(code) == -32602 <==> code is InvalidParams,
        crate::protocol::code_number(code) == -32603 <==> code is InternalError,
        crate::protocol::code_number(code) == -32002 <==> code is ServerNotInitialized,
        crate::protocol::code_number(code) == -32800 <==> code is RequestCanceled,
        crate::protocol::code_number(code) == -32801 <==> code is ContentModified,
        crate::protocol::code_number(code) == -32803 <==> code is RequestFailed,
{
}

/// Without an index a query is refused as too early. With one, a query on what
/// is not inside the workspace is refused for what it asks, one on a position in
/// a file that is newer than the index is refused as out of date, and every
/// other is answered, on the file that its URI names.
pub proof fn queries_are_answered_or_refused(
    indexed: bool,
    root: Option<Seq<char>>,
    uri: Seq<char>,
    stale: Set<PathView>,
)
    ensures
        !indexed ==> (crate::server::admitted(indexed, root, uri) matches Err(refusal)
            && crate::protocol::code_number(refusal.error.code) == -32002
            && refusal.failure is IndexUnavailable && !refusal.stale),
        !indexed ==> crate::server::admitted_at(indexed, root, uri, stale)
            == crate::server::admitted(indexed, root, uri),
        indexed ==> match (root, crate::uri::read_uri(uri, crate::uri::named_path(uri))) {
            (Some(base), Ok(path)) => match crate::sources::gather::relative_to(path, base) {
                Some(relative) => {
                    &&& crate::server::admitted(indexed, root, uri) == Ok::<
                        Seq<char>,
                        crate::server::RefusalView,
                    >(relative)
                    &&& !stale.contains(crate::sources::workspace_file(base, relative))
                        ==> crate::server::admitted_at(indexed, root, uri, stale) == Ok::<
                        Seq<char>,
                        crate::server::RefusalView,
                    >(relative)
                    &&& stale.contains(crate::sources::workspace_file(base, relative)) ==> (
                    crate::server::admitted_at(indexed, root, uri, stale) matches Err(refusal)
                        && crate::protocol::code_number(refusal.error.code) == -32801
                        && refusal.stale && refusal.failure is IndexUnavailable)
                },
                None => lies_outside(root, uri, stale),
            },
            _ => lies_outside(root, uri, stale),
        },
{
}

/// Whether a query is refused for what it asks.
pub open spec fn lies_outside(
    root: Option<Seq<char>>,
    uri: Seq<char>,
    stale: Set<PathView>,
) -> bool {
    &&& crate::server::admitted(true, root, uri) matches Err(refusal)
        && crate::protocol::code_number(refusal.error.code) == -32602 && refusal.failure
        is BadRequest && !refusal.stale
    &&& crate::server::admitted_at(true, root, uri, stale) == crate::server::admitted(
        true,
        root,
        uri,
    )
}

/// Calls are looked up for an item that the server handed out, by its symbol, in
/// a file that can be asked about.
pub proof fn calls_are_looked_up_by_symbol(
    indexed: bool,
    root: Option<Seq<char>>,
    uri: Seq<char>,
    stale: Set<PathView>,
    symbol: Option<Seq<char>>,
)
    ensures
        crate::server::admitted_at(indexed, root, uri, stale) matches Err(refusal)
            ==> crate::server::admitted_calls(indexed, root, uri, stale, symbol) == Err::<
            Seq<char>,
            crate::server::RefusalView,
        >(refusal),
        crate::server::admitted_at(indexed, root, uri, stale) is Ok && symbol is Some
            ==> crate::server::admitted_calls(indexed, root, uri, stale, symbol) == Ok::<
            Seq<char>,
            crate::server::RefusalView,
        >(symbol->0),
        crate::server::admitted_at(indexed, root, uri, stale) is Ok && symbol is None ==> (
        crate::server::admitted_calls(indexed, root, uri, stale, symbol) matches Err(refusal)
            && crate::protocol::code_number(refusal.error.code) == -32602 && refusal.failure
            is BadRequest),
{
}

/// The status says that an index is loaded where there is one, and that one is
/// being loaded while a refresh or a load runs.
pub proof fn the_status_tells_of_the_index<I>(status: Status, s: SessionView<I>)
    requires
        crate::server::tells_session(status, s),
    ensures
        s.index is Some ==> status.index_loaded,
        s.index is None ==> !status.index_loaded,
        s.refresh_running ==> status.index_loading,
        s.load_running ==> status.index_loading,
        !s.refresh_running && !s.load_running ==> !status.index_loading,
        status.watching == s.watching,
        status.index_cache_loaded == s.cache_hit,
        status.shards_verified == s.shards_verified,
{
}

/// An encoding is advertised as it was negotiated, under the name that LSP gives
/// it.
pub proof fn the_negotiated_encoding_is_advertised(encoding: PositionEncoding)
    ensures
        crate::capabilities::advertised(encoding).position_encoding == encoding,
        encoding is Utf8 ==> crate::capabilities::encoding_name(encoding) == "utf-8"@,
        encoding is Utf16 ==> crate::capabilities::encoding_name(encoding) == "utf-16"@,
        crate::capabilities::advertised(encoding).incremental_sync,
        crate::capabilities::advertised(encoding).open_close,
        !crate::capabilities::advertised(encoding).save_includes_text,
{
}

} // verus!
