//! What a client asks of the server.
//!
//! The variant index is 0 for `Put`, 1 for `Get` and 2 for `Rm`; the fields
//! are the key and, for `Put`, the value.

use crate::cursor::{lemma_remaining_after, Cursor};
use crate::encoding::{
    decode_str, decode_u32, encode_str, encode_u32, lemma_decode_encode_str,
    lemma_decode_encode_u32, str_encodable, write_str, write_u32, Decoded, ErrorKind,
    SerializationError,
};
use vstd::prelude::*;

verus! {

/// A request to the store.
#[derive(Eq, PartialEq, Clone, Debug)]
pub enum Request {
    /// Set the value of a key.
    Put { key: String, value: String },
    /// Ask for the value of a key.
    Get { key: String },
    /// Remove a key.
    Rm { key: String },
}

/// What a [`Request`] stands for.
pub enum RequestView {
    Put { key: Seq<char>, value: Seq<char> },
    Get { key: Seq<char> },
    Rm { key: Seq<char> },
}

impl View for Request {
    type V = RequestView;

    open spec fn view(&self) -> RequestView {
        match self {
            Request::Put { key, value } => RequestView::Put { key: key@, value: value@ },
            Request::Get { key } => RequestView::Get { key: key@ },
            Request::Rm { key } => RequestView::Rm { key: key@ },
        }
    }
}

impl RequestView {
    /// Whether each string is short enough for its length prefix.  Every
    /// `Request` in memory is.
    pub open spec fn encodable(self) -> bool {
        match self {
            RequestView::Put { key, value } => str_encodable(key) && str_encodable(value),
            RequestView::Get { key } => str_encodable(key),
            RequestView::Rm { key } => str_encodable(key),
        }
    }

    /// The bytes of the request on the wire.
    pub open spec fn encode(self) -> Seq<u8> {
        match self {
            RequestView::Put { key, value } => encode_u32(0) + encode_str(key) + encode_str(value),
            RequestView::Get { key } => encode_u32(1) + encode_str(key),
            RequestView::Rm { key } => encode_u32(2) + encode_str(key),
        }
    }
}

/// Decodes the fields of the variant with index `tag`.
pub open spec fn decode_request_fields(tag: u32, s: Seq<u8>) -> Decoded<RequestView> {
    match decode_str(s) {
        Decoded::Value { value: key, len: n } => {
            if tag == 0 {
                match decode_str(s.skip(n as int)) {
                    Decoded::Value { value, len: m } => Decoded::Value {
                        value: RequestView::Put { key, value },
                        len: n + m,
                    },
                    Decoded::Incomplete => Decoded::Incomplete,
                    Decoded::Invalid { kind, len: m } => Decoded::Invalid { kind, len: n + m },
                }
            } else if tag == 1 {
                Decoded::Value { value: RequestView::Get { key }, len: n }
            } else {
                Decoded::Value { value: RequestView::Rm { key }, len: n }
            }
        },
        Decoded::Incomplete => Decoded::Incomplete,
        Decoded::Invalid { kind, len } => Decoded::Invalid { kind, len },
    }
}

/// Decodes one request from the front of `s`.
pub open spec fn decode_request(s: Seq<u8>) -> Decoded<RequestView> {
    match decode_u32(s) {
        Decoded::Value { value: tag, len: _ } => {
            if tag <= 2 {
                decode_request_fields(tag, s.skip(4)).after(4)
            } else {
                Decoded::Invalid { kind: ErrorKind::InvalidVariant, len: 4 }
            }
        },
        _ => Decoded::Incomplete,
    }
}

/// Round trip: decoding an encoded request gives the request back,
/// whatever follows it.
pub proof fn lemma_decode_encode_request(request: RequestView, rest: Seq<u8>)
    requires
        request.encodable(),
    ensures
        decode_request(request.encode() + rest) == (Decoded::Value {
            value: request,
            len: request.encode().len(),
        }),
{
    let s = request.encode() + rest;
    match request {
        RequestView::Put { key, value } => {
            lemma_decode_encode_u32(0, encode_str(key) + encode_str(value) + rest);
            assert(s =~= encode_u32(0) + (encode_str(key) + encode_str(value) + rest));
            assert(s.skip(4) =~= encode_str(key) + (encode_str(value) + rest));
            lemma_decode_encode_str(key, encode_str(value) + rest);
            assert(s.skip(4).skip(encode_str(key).len() as int) =~= encode_str(value) + rest);
            lemma_decode_encode_str(value, rest);
        },
        RequestView::Get { key } => {
            lemma_decode_encode_u32(1, encode_str(key) + rest);
            assert(s =~= encode_u32(1) + (encode_str(key) + rest));
            assert(s.skip(4) =~= encode_str(key) + rest);
            lemma_decode_encode_str(key, rest);
        },
        RequestView::Rm { key } => {
            lemma_decode_encode_u32(2, encode_str(key) + rest);
            assert(s =~= encode_u32(2) + (encode_str(key) + rest));
            assert(s.skip(4) =~= encode_str(key) + rest);
            lemma_decode_encode_str(key, rest);
        },
    }
}

/// A decoding never takes more bytes than there are.
pub proof fn lemma_decode_bound(s: Seq<u8>)
    ensures
        match decode_request(s) {
            Decoded::Value { value: _, len } => len <= s.len(),
            Decoded::Invalid { kind: _, len } => len <= s.len(),
            Decoded::Incomplete => true,
        },
{
}

impl Request {
    /// Appends the request's frame to `writer`.  This never fails.
    pub fn to_writer(&self, writer: &mut Vec<u8>) -> (r: Result<(), SerializationError>)
        ensures
            r is Ok,
            final(writer)@ == old(writer)@ + self@.encode(),
            self@.encodable(),
    {
        match self {
            Request::Put { key, value } => {
                write_u32(writer, 0);
                write_str(writer, key.as_str());
                write_str(writer, value.as_str());
            },
            Request::Get { key } => {
                write_u32(writer, 1);
                write_str(writer, key.as_str());
            },
            Request::Rm { key } => {
                write_u32(writer, 2);
                write_str(writer, key.as_str());
            },
        }
        Ok(())
    }

    /// Reads one request.  Gives `None`, and does not move the reader, when
    /// the input ends before the frame does; fails, with the reader after
    /// the bytes that were examined, when the bytes cannot be a request.
    pub fn from_reader(reader: &mut Cursor) -> (r: Result<Option<Request>, SerializationError>)
        ensures
            match decode_request(old(reader)@.remaining()) {
                Decoded::Value { value, len } => {
                    &&& r matches Ok(Some(request)) && request@ == value
                    &&& final(reader)@ == old(reader)@.advance(len)
                },
                Decoded::Incomplete => r matches Ok(None) && final(reader)@ == old(reader)@,
                Decoded::Invalid { kind, len } => {
                    &&& r matches Err(e) && e.kind == kind
                    &&& final(reader)@ == old(reader)@.advance(len)
                },
            },
    {
        let start = reader.position();
        match Self::read_fields(reader) {
            Ok(request) => Ok(Some(request)),
            Err(e) => {
                if e.kind == ErrorKind::UnexpectedEof {
                    reader.seek(start);
                    Ok(None)
                } else {
                    Err(e)
                }
            },
        }
    }

    fn read_fields(reader: &mut Cursor) -> (r: Result<Request, SerializationError>)
        ensures
            final(reader)@.bytes == old(reader)@.bytes,
            match decode_request(old(reader)@.remaining()) {
                Decoded::Value { value, len } => {
                    &&& r matches Ok(request) && request@ == value
                    &&& final(reader)@ == old(reader)@.advance(len)
                },
                Decoded::Incomplete => r matches Err(e) && e.kind == ErrorKind::UnexpectedEof,
                Decoded::Invalid { kind, len } => {
                    &&& r matches Err(e) && e.kind == kind
                    &&& final(reader)@ == old(reader)@.advance(len)
                },
            },
    {
        let ghost s = reader@.remaining();
        let tag = reader.read_u32()?;
        proof {
            lemma_remaining_after(old(reader)@, 4);
        }
        if tag > 2 {
            return Err(SerializationError::new(ErrorKind::InvalidVariant));
        }
        let key = reader.read_string()?;
        proof {
            lemma_remaining_after(old(reader)@.advance(4), decode_str(s.skip(4))->Value_len);
        }
        if tag == 0 {
            let value = reader.read_string()?;
            Ok(Request::Put { key, value })
        } else if tag == 1 {
            Ok(Request::Get { key })
        } else {
            Ok(Request::Rm { key })
        }
    }
}

} // verus!
