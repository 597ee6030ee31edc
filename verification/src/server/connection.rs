//! One accepted connection: what the server does with the bytes that
//! arrive on it.
//!
//! A connection reads a request, handles it, writes the response and reads
//! again; when its peer is done it closes.  Between two steps it is either
//! reading a request or closing; handling and writing happen inside a step:
//! a step that finds a whole request hands it to the handler and gives the
//! response to write, after which the connection is reading again.
//!
//! The caller owns the socket: it asks the connection for the next step,
//! does what the step says, and reports what it read.

use crate::cursor::Cursor;
use crate::encoding::Decoded;
use crate::engine::KvsEngineError;
use crate::protocol::request::{decode_request, lemma_decode_bound, Request};
use crate::protocol::response::{Response, ResponseView};
use crate::server::handler::HandleRequest;
use vstd::prelude::*;
use vstd::slice::slice_to_vec;

verus! {

/// Where a connection stands between two steps.
#[derive(Clone, Copy, Debug, PartialEq, Eq, Structural)]
pub enum ConnectionState {
    /// Waiting for a request: more input is welcome.
    ReadingRequest,
    /// The peer is done: the connection is to be closed.
    Closing,
}

/// What the caller is to do next.
#[derive(Debug, PartialEq, Eq)]
pub enum Step {
    /// Read from the peer and report what arrived.
    Read,
    /// Write these bytes, a response, to the peer; then ask again.
    Write(Vec<u8>),
    /// Close the connection.
    Close,
}

/// What a [`Connection`] stands for.
pub struct ConnectionView {
    /// The bytes that arrived and have not been decoded yet.
    pub unread: Seq<u8>,
    /// Whether the peer has closed its side.
    pub ended: bool,
}

/// The state of one connection.
pub struct Connection {
    buffer: Vec<u8>,
    position: u64,
    ended: bool,
}

impl View for Connection {
    type V = ConnectionView;

    closed spec fn view(&self) -> ConnectionView {
        ConnectionView { unread: self.buffer@.skip(self.position as int), ended: self.ended }
    }
}

/// The response to bytes that are no request.
pub open spec fn invalid_request() -> ResponseView {
    ResponseView::Failure("invalid request"@)
}

/// The frame that answers what could not be read as a request.
pub fn invalid_request_frame() -> (bytes: Vec<u8>)
    ensures
        bytes@ == invalid_request().encode(),
{
    let response = Response::Failure("invalid request".to_owned());
    let mut bytes: Vec<u8> = Vec::new();
    let _ = response.to_writer(&mut bytes);
    assert(bytes@ =~= response@.encode());
    bytes
}

impl Connection {
    /// Whether the connection is well formed.  Every connection made by
    /// this module is.
    pub closed spec fn wf(&self) -> bool {
        self.position <= self.buffer@.len()
    }

    /// A connection that was just accepted.
    pub fn new() -> (connection: Connection)
        ensures
            connection.wf(),
            connection@ == (ConnectionView { unread: Seq::empty(), ended: false }),
    {
        let connection = Connection { buffer: Vec::new(), position: 0, ended: false };
        assert(connection@.unread =~= Seq::empty());
        connection
    }

    /// Where the connection stands.
    pub fn state(&self) -> (state: ConnectionState)
        ensures
            state == if self@.ended {
                ConnectionState::Closing
            } else {
                ConnectionState::ReadingRequest
            },
    {
        if self.ended {
            ConnectionState::Closing
        } else {
            ConnectionState::ReadingRequest
        }
    }

    /// Takes in what a read returned: the bytes that arrived, or none when
    /// the peer has closed its side.
    pub fn received(&mut self, bytes: &[u8])
        requires
            old(self).wf(),
        ensures
            final(self).wf(),
            final(self)@.unread == old(self)@.unread + bytes@,
            final(self)@.ended == (old(self)@.ended || bytes@.len() == 0),
    {
        if bytes.len() == 0 {
            self.ended = true;
            assert(self@.unread =~= old(self)@.unread + bytes@);
        } else {
            if self.position == self.buffer.len() as u64 {
                self.buffer.clear();
                self.position = 0;
            }
            let mut copy = slice_to_vec(bytes);
            self.buffer.append(&mut copy);
            assert(self@.unread =~= old(self)@.unread + bytes@);
        }
    }

    /// Decides the next step from the bytes that have arrived.
    ///
    /// A whole request at the front is taken out, handed to the handler,
    /// and its response is to be written.  Bytes that cannot be a request
    /// are taken out as far as they were examined and answered with
    /// `Failure("invalid request")`.  When the bytes end before a request
    /// does, more are to be read; once the peer has closed its side, what
    /// is left is dropped and the connection is to be closed.
    pub fn step<H: HandleRequest>(&mut self, handler: &mut H) -> (r: Result<Step, KvsEngineError>)
        requires
            old(self).wf(),
            old(handler).ready(),
        ensures
            final(self).wf(),
            final(handler).ready(),
            final(self)@.ended == old(self)@.ended,
            match decode_request(old(self)@.unread) {
                Decoded::Value { value: request, len } => {
                    &&& r matches Ok(Step::Write(bytes)) && exists|response: ResponseView|
                        bytes@ == response.encode() && #[trigger] old(handler).handled(
                            final(handler),
                            request,
                            response,
                        )
                    &&& final(self)@.unread == old(self)@.unread.skip(len as int)
                },
                Decoded::Invalid { kind: _, len } => {
                    &&& r matches Ok(Step::Write(bytes)) && bytes@ == invalid_request().encode()
                    &&& final(self)@.unread == old(self)@.unread.skip(len as int)
                    &&& *final(handler) == *old(handler)
                },
                Decoded::Incomplete => {
                    &&& r == Ok::<Step, KvsEngineError>(
                        if old(self)@.ended {
                            Step::Close
                        } else {
                            Step::Read
                        },
                    )
                    &&& final(self)@.unread == old(self)@.unread
                    &&& *final(handler) == *old(handler)
                },
            },
    {
        let mut reader = Cursor::new(self.buffer.as_slice());
        reader.seek(self.position);
        let ghost unread = self@.unread;
        assert(reader@.remaining() =~= unread);
        let decoded = Request::from_reader(&mut reader);
        let position = reader.position();
        let response = match decoded {
            Ok(Some(request)) => match handler.handle(request) {
                Ok(response) => response,
                Err(e) => {
                    return Err(e);
                },
            },
            Ok(None) => {
                return Ok(
                    if self.ended {
                        Step::Close
                    } else {
                        Step::Read
                    },
                );
            },
            Err(_) => {
                proof {
                    lemma_decode_bound(unread);
                }
                self.position = position;
                assert(self@.unread =~= unread.skip(position - old(self).position));
                return Ok(Step::Write(invalid_request_frame()));
            },
        };
        proof {
            lemma_decode_bound(unread);
        }
        self.position = position;
        assert(self@.unread =~= unread.skip(position - old(self).position));
        let mut bytes: Vec<u8> = Vec::new();
        let _ = response.to_writer(&mut bytes);
        assert(bytes@ =~= response@.encode());
        Ok(Step::Write(bytes))
    }
}

} // verus!
