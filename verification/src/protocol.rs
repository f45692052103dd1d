//! What travels between the server and its client: request ids and errors.
use vstd::prelude::*;

use crate::text::same_text;

verus! {

/// What a client calls a request.
#[derive(Debug)]
pub enum RequestId {
    Number(i32),
    Text(String),
}

/// The view of a [`RequestId`].
pub enum RequestIdView {
    Number(i32),
    Text(Seq<char>),
}

impl View for RequestId {
    type V = RequestIdView;

    open spec fn view(&self) -> RequestIdView {
        match *self {
            RequestId::Number(number) => RequestIdView::Number(number),
            RequestId::Text(text) => RequestIdView::Text(text@),
        }
    }
}

impl RequestId {
    /// Whether two ids are the same.
    pub fn same(&self, other: &RequestId) -> (same: bool)
        ensures
            same == (self@ == other@),
    {
        match (self, other) {
            (RequestId::Number(a), RequestId::Number(b)) => *a == *b,
            (RequestId::Text(a), RequestId::Text(b)) => same_text(a, b),
            _ => false,
        }
    }

    /// A copy of the id.
    pub fn copy(&self) -> (out: RequestId)
        ensures
            out@ == self@,
    {
        match self {
            RequestId::Number(number) => RequestId::Number(*number),
            RequestId::Text(text) => RequestId::Text(text.clone()),
        }
    }
}

/// Why a request failed, as LSP distinguishes it.
#[derive(Copy, Clone, Debug, PartialEq, Eq, Structural)]
pub enum ErrorCode {
    InvalidRequest,
    MethodNotFound,
    InvalidParams,
    InternalError,
    ServerNotInitialized,
    RequestCanceled,
    ContentModified,
    RequestFailed,
}

/// The number that LSP gives an error.
pub open spec fn code_number(code: ErrorCode) -> int {
    match code {
        ErrorCode::InvalidRequest => -32600,
        ErrorCode::MethodNotFound => -32601,
        ErrorCode::InvalidParams => -32602,
        ErrorCode::InternalError => -32603,
        ErrorCode::ServerNotInitialized => -32002,
        ErrorCode::RequestCanceled => -32800,
        ErrorCode::ContentModified => -32801,
        ErrorCode::RequestFailed => -32803,
    }
}

impl ErrorCode {
    /// Computes [`code_number`].
    pub fn number(self) -> (number: i32)
        ensures
            number == code_number(self),
    {
        match self {
            ErrorCode::InvalidRequest => -32600,
            ErrorCode::MethodNotFound => -32601,
            ErrorCode::InvalidParams => -32602,
            ErrorCode::InternalError => -32603,
            ErrorCode::ServerNotInitialized => -32002,
            ErrorCode::RequestCanceled => -32800,
            ErrorCode::ContentModified => -32801,
            ErrorCode::RequestFailed => -32803,
        }
    }
}

/// An error that a client is sent.
#[derive(Debug)]
pub struct RequestError {
    pub code: ErrorCode,
    pub message: String,
}

/// The view of a [`RequestError`].
#[verifier::ext_equal]
pub struct ErrorView {
    pub code: ErrorCode,
    pub message: Seq<char>,
}

impl View for RequestError {
    type V = ErrorView;

    open spec fn view(&self) -> ErrorView {
        ErrorView { code: self.code, message: self.message@ }
    }
}

impl RequestError {
    /// An error with this code and message.
    pub fn new(code: ErrorCode, message: String) -> (error: RequestError)
        ensures
            error@ == (ErrorView { code, message: message@ }),
    {
        RequestError { code, message }
    }
}

} // verus!
