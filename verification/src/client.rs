//! The client's side of an exchange: the frame to send for an operation,
//! and what the answer means for it.
//!
//! The caller owns the connection: it sends the frame, reads one response,
//! and hands what it read to the function of the operation.

use crate::encoding::SerializationError;
use crate::protocol::request::{Request, RequestView};
use crate::protocol::response::{debug_text, Response};
use vstd::prelude::*;
use vstd::string::StringExecFns;

verus! {

/// How long the client waits for a connection, in milliseconds.
pub const CONNECT_TIMEOUT_MILLIS: u64 = 100;

/// Why an operation of the client failed.
#[derive(Debug)]
pub enum ClientError {
    /// The server answered with a failure; the text is the server's.
    ErrorResponse(String),
    /// The request could not be written; the text is the cause.
    RequestError(String),
    /// The response could not be read; the text is the cause.
    ResponseError(String),
    /// The server closed the connection without an answer.
    NoResponse,
    /// The server's answer does not fit the request.
    UnexpectedResponse(Response),
}

impl ClientError {
    /// The text shown for this error.
    pub open spec fn message(self) -> Seq<char> {
        match self {
            ClientError::ErrorResponse(text) => text@,
            ClientError::RequestError(cause) => "failed to write request, caused by "@ + cause@,
            ClientError::ResponseError(cause) => "failed to read response, caused by "@ + cause@,
            ClientError::NoResponse => "no response"@,
            ClientError::UnexpectedResponse(response) => "unexpected response, response was "@
                + debug_text(response@),
        }
    }

    /// The text, as a string.
    pub fn to_string(&self) -> (text: String)
        ensures
            text@ == self.message(),
    {
        match self {
            ClientError::ErrorResponse(text) => text.clone(),
            ClientError::RequestError(cause) => {
                let mut text = "failed to write request, caused by ".to_owned();
                text.append(cause.as_str());
                text
            },
            ClientError::ResponseError(cause) => {
                let mut text = "failed to read response, caused by ".to_owned();
                text.append(cause.as_str());
                text
            },
            ClientError::NoResponse => "no response".to_owned(),
            ClientError::UnexpectedResponse(response) => {
                let mut text = "unexpected response, response was ".to_owned();
                text.append(response.to_string().as_str());
                text
            },
        }
    }
}

/// What was read in answer to a request: a response, nothing because the
/// server closed the connection, or bytes that are no response.
pub type Answer = Result<Option<Response>, SerializationError>;

/// The frame of a request.
pub fn frame(request: &Request) -> (bytes: Vec<u8>)
    ensures
        bytes@ == request@.encode(),
        request@.encodable(),
{
    let mut bytes: Vec<u8> = Vec::new();
    let _ = request.to_writer(&mut bytes);
    assert(bytes@ =~= request@.encode());
    bytes
}

/// The frame that asks for the value of `key`.
pub fn get_request(key: String) -> (bytes: Vec<u8>)
    ensures
        bytes@ == (RequestView::Get { key: key@ }).encode(),
        (RequestView::Get { key: key@ }).encodable(),
{
    frame(&Request::Get { key })
}

/// The frame that sets the value of `key`.
pub fn set_request(key: String, value: String) -> (bytes: Vec<u8>)
    ensures
        bytes@ == (RequestView::Put { key: key@, value: value@ }).encode(),
        (RequestView::Put { key: key@, value: value@ }).encodable(),
{
    frame(&Request::Put { key, value })
}

/// The frame that removes `key`.
pub fn rm_request(key: String) -> (bytes: Vec<u8>)
    ensures
        bytes@ == (RequestView::Rm { key: key@ }).encode(),
        (RequestView::Rm { key: key@ }).encodable(),
{
    frame(&Request::Rm { key })
}

/// What the answer to a `Get` means: the value, or nothing for a key
/// without value.
pub fn get_result(answer: Answer) -> (r: Result<Option<String>, ClientError>)
    ensures
        match answer {
            Ok(Some(Response::Success(value))) => r == Ok::<Option<String>, ClientError>(value),
            Ok(Some(Response::Failure(text))) => r matches Err(ClientError::ErrorResponse(t))
                && t == text,
            Ok(None) => r matches Err(ClientError::NoResponse),
            Err(e) => r matches Err(ClientError::ResponseError(cause)) && cause@ == e.message(),
        },
{
    match answer {
        Ok(Some(Response::Success(value))) => Ok(value),
        Ok(Some(Response::Failure(text))) => Err(ClientError::ErrorResponse(text)),
        Ok(None) => Err(ClientError::NoResponse),
        Err(e) => Err(ClientError::ResponseError(e.to_string())),
    }
}

/// Whether `r` is what an answer means for an operation that gives no
/// value: done, unless the server reports a failure, is silent, cannot be
/// understood, or answers with a value, which does not fit.
pub open spec fn acknowledges(answer: Answer, r: Result<(), ClientError>) -> bool {
    match answer {
        Ok(Some(Response::Success(None))) => r is Ok,
        Ok(Some(Response::Success(Some(value)))) => r matches Err(
            ClientError::UnexpectedResponse(response),
        ) && response == Response::Success(Some(value)),
        Ok(Some(Response::Failure(text))) => r matches Err(ClientError::ErrorResponse(t)) && t
            == text,
        Ok(None) => r matches Err(ClientError::NoResponse),
        Err(e) => r matches Err(ClientError::ResponseError(cause)) && cause@ == e.message(),
    }
}

/// What the answer to a `Put` means.
pub fn set_result(answer: Answer) -> (r: Result<(), ClientError>)
    ensures
        acknowledges(answer, r),
{
    match answer {
        Ok(Some(Response::Success(None))) => Ok(()),
        Ok(Some(Response::Failure(text))) => Err(ClientError::ErrorResponse(text)),
        Ok(Some(response)) => Err(ClientError::UnexpectedResponse(response)),
        Ok(None) => Err(ClientError::NoResponse),
        Err(e) => Err(ClientError::ResponseError(e.to_string())),
    }
}

/// What the answer to an `Rm` means.
pub fn rm_result(answer: Answer) -> (r: Result<(), ClientError>)
    ensures
        acknowledges(answer, r),
{
    match answer {
        Ok(Some(Response::Success(None))) => Ok(()),
        Ok(Some(Response::Failure(text))) => Err(ClientError::ErrorResponse(text)),
        Ok(Some(response)) => Err(ClientError::UnexpectedResponse(response)),
        Ok(None) => Err(ClientError::NoResponse),
        Err(e) => Err(ClientError::ResponseError(e.to_string())),
    }
}

} // verus!
