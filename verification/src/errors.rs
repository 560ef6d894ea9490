//! Error taxonomy of the transport layer and of the JSON-RPC client.

use vstd::prelude::*;

verus! {

/// Failure of a single HTTP request at the transport layer.
#[derive(Clone, Debug, PartialEq, Eq)]
pub enum HttpRequestError {
    /// The server answered with a non-2xx status code.
    HttpError(u16),
    /// The request did not complete within the configured timeout.
    Timeout,
    /// A network or socket problem, described by a UTF-8 message.
    TransportError(Vec<u8>),
    /// Any other failure, described by a UTF-8 message.
    UnknownError(Vec<u8>),
}

/// A JSON-RPC error object: `{ code, message, data? }`.
///
/// `data`, when present, holds the raw JSON text of the `data` member.
#[derive(Clone, Debug, PartialEq, Eq)]
pub struct JsonRpcError {
    pub code: i64,
    pub message: Vec<u8>,
    pub data: Option<Vec<u8>>,
}

/// Terminal failure of a JSON-RPC request.
#[derive(Clone, Debug, PartialEq, Eq)]
pub enum JsonRpcProviderClientError {
    /// The server answered with a JSON-RPC error object.
    JsonRpcError(JsonRpcError),
    /// The transport failed before a JSON-RPC response was obtained.
    BackendError(HttpRequestError),
    /// The response body could not be understood as a JSON-RPC response;
    /// the raw body text is kept for later inspection.
    SerdeJson { text: Vec<u8> },
}

/// What the retry policy decides about a failed attempt.
#[derive(Clone, Copy, Debug, PartialEq, Eq)]
pub enum RetryAction {
    NoRetry,
    /// Retry after waiting the given number of milliseconds.
    RetryAfter(u64),
}

/// The abstract content of a transport error.
pub enum HttpErrV {
    Http(u16),
    Timeout,
    Transport(Seq<u8>),
    Unknown(Seq<u8>),
}

/// The abstract content of a client error.
pub enum ErrV {
    Rpc { code: i64, message: Seq<u8>, data: Option<Seq<u8>> },
    Backend(HttpErrV),
    Serde(Seq<u8>),
}

/// The abstract content of an `HttpRequestError`.
pub open spec fn herrv(e: HttpRequestError) -> HttpErrV {
    match e {
        HttpRequestError::HttpError(s) => HttpErrV::Http(s),
        HttpRequestError::Timeout => HttpErrV::Timeout,
        HttpRequestError::TransportError(m) => HttpErrV::Transport(m@),
        HttpRequestError::UnknownError(m) => HttpErrV::Unknown(m@),
    }
}

/// The abstract content of a `JsonRpcProviderClientError`.
pub open spec fn errv(e: JsonRpcProviderClientError) -> ErrV {
    match e {
        JsonRpcProviderClientError::JsonRpcError(j) => ErrV::Rpc {
            code: j.code,
            message: j.message@,
            data: match j.data {
                Some(d) => Some(d@),
                None => None,
            },
        },
        JsonRpcProviderClientError::BackendError(b) => ErrV::Backend(herrv(b)),
        JsonRpcProviderClientError::SerdeJson { text } => ErrV::Serde(text@),
    }
}

} // verus!
