//! What the server answers.
//!
//! The variant index is 0 for `Success`, followed by an optional string,
//! and 1 for `Failure`, followed by a string.

use crate::cursor::{lemma_remaining_after, Cursor};
use crate::encoding::{
    decode_option_str, decode_str, decode_u32, encode_option_str, encode_str, encode_u32,
    lemma_decode_encode_option_str, lemma_decode_encode_str, lemma_decode_encode_u32,
    option_view, str_encodable, write_option_str, write_str, write_u32, Decoded, ErrorKind,
    SerializationError,
};
use vstd::prelude::*;

verus! {

/// The answer to a request.
#[derive(Eq, PartialEq, Clone, Debug)]
pub enum Response {
    /// The request was carried out.  A `Get` that found its key carries the
    /// value; a `Get` that found none, a `Put` and an `Rm` carry nothing.
    Success(Option<String>),
    /// The request failed; the text says why.
    Failure(String),
}

/// What a [`Response`] stands for.
pub enum ResponseView {
    Success(Option<Seq<char>>),
    Failure(Seq<char>),
}

impl View for Response {
    type V = ResponseView;

    open spec fn view(&self) -> ResponseView {
        match self {
            Response::Success(value) => ResponseView::Success(option_view(*value)),
            Response::Failure(message) => ResponseView::Failure(message@),
        }
    }
}

impl ResponseView {
    /// Whether each string is short enough for its length prefix.  Every
    /// `Response` in memory is.
    pub open spec fn encodable(self) -> bool {
        match self {
            ResponseView::Success(Some(value)) => str_encodable(value),
            ResponseView::Success(None) => true,
            ResponseView::Failure(message) => str_encodable(message),
        }
    }

    /// The bytes of the response on the wire.
    pub open spec fn encode(self) -> Seq<u8> {
        match self {
            ResponseView::Success(value) => encode_u32(0) + encode_option_str(value),
            ResponseView::Failure(message) => encode_u32(1) + encode_str(message),
        }
    }
}

/// Decodes the field of a `Success`.
pub open spec fn decode_success(s: Seq<u8>) -> Decoded<ResponseView> {
    match decode_option_str(s) {
        Decoded::Value { value, len } => Decoded::Value {
            value: ResponseView::Success(value),
            len,
        },
        Decoded::Incomplete => Decoded::Incomplete,
        Decoded::Invalid { kind, len } => Decoded::Invalid { kind, len },
    }
}

/// Decodes the field of a `Failure`.
pub open spec fn decode_failure(s: Seq<u8>) -> Decoded<ResponseView> {
    match decode_str(s) {
        Decoded::Value { value, len } => Decoded::Value {
            value: ResponseView::Failure(value),
            len,
        },
        Decoded::Incomplete => Decoded::Incomplete,
        Decoded::Invalid { kind, len } => Decoded::Invalid { kind, len },
    }
}

/// Decodes one response from the front of `s`.
pub open spec fn decode_response(s: Seq<u8>) -> Decoded<ResponseView> {
    match decode_u32(s) {
        Decoded::Value { value: tag, len: _ } => {
            if tag == 0 {
                decode_success(s.skip(4)).after(4)
            } else if tag == 1 {
                decode_failure(s.skip(4)).after(4)
            } else {
                Decoded::Invalid { kind: ErrorKind::InvalidVariant, len: 4 }
            }
        },
        _ => Decoded::Incomplete,
    }
}

/// Round trip: decoding an encoded response gives the response back,
/// whatever follows it.
pub proof fn lemma_decode_encode_response(response: ResponseView, rest: Seq<u8>)
    requires
        response.encodable(),
    ensures
        decode_response(response.encode() + rest) == (Decoded::Value {
            value: response,
            len: response.encode().len(),
        }),
{
    let s = response.encode() + rest;
    match response {
        ResponseView::Success(value) => {
            lemma_decode_encode_u32(0, encode_option_str(value) + rest);
            assert(s =~= encode_u32(0) + (encode_option_str(value) + rest));
            assert(s.skip(4) =~= encode_option_str(value) + rest);
            lemma_decode_encode_option_str(value, rest);
        },
        ResponseView::Failure(message) => {
            lemma_decode_encode_u32(1, encode_str(message) + rest);
            assert(s =~= encode_u32(1) + (encode_str(message) + rest));
            assert(s.skip(4) =~= encode_str(message) + rest);
            lemma_decode_encode_str(message, rest);
        },
    }
}

/// The text of a response as `Debug` formatting writes it.
pub uninterp spec fn debug_text(response: ResponseView) -> Seq<char>;

/// `format!` with `{:?}`: the response as its derived `Debug` writes it,
/// the variant's name and, in brackets, its field.
#[verifier::external_body]
fn format_debug(response: &Response) -> (text: String)
    ensures
        text@ == debug_text(response@),
{
    format!("{:?}", response)
}

impl Response {
    /// The text shown for the response.
    pub fn to_string(&self) -> (text: String)
        ensures
            text@ == debug_text(self@),
    {
        format_debug(self)
    }

    /// Appends the response's frame to `writer`.  This never fails.
    pub fn to_writer(&self, writer: &mut Vec<u8>) -> (r: Result<(), SerializationError>)
        ensures
            r is Ok,
            final(writer)@ == old(writer)@ + self@.encode(),
            self@.encodable(),
    {
        match self {
            Response::Success(value) => {
                write_u32(writer, 0);
                write_option_str(writer, value);
            },
            Response::Failure(message) => {
                write_u32(writer, 1);
                write_str(writer, message.as_str());
            },
        }
        Ok(())
    }

    /// Reads one response.  Gives `None`, and does not move the reader,
    /// when the input ends before the frame does; fails, with the reader
    /// after the bytes that were examined, when the bytes cannot be a
    /// response.
    pub fn from_reader(reader: &mut Cursor) -> (r: Result<Option<Response>, SerializationError>)
        ensures
            match decode_response(old(reader)@.remaining()) {
                Decoded::Value { value, len } => {
                    &&& r matches Ok(Some(response)) && response@ == value
                    &&& final(reader)@ == old(reader)@.advance(len)
                },
                Decoded::Incomplete => r matches Ok(None) && final(reader)@ == old(reader)@,
                Decoded::Invalid { kind, len } => {
                    &&& r matches Err(e) && e.kind == kind
                    &&& final(reader)@ == old(reader)@.advance(len)
                },
            },
    {
        let start = reader.position();
        match Self::read_fields(reader) {
            Ok(response) => Ok(Some(response)),
            Err(e) => {
                if e.kind == ErrorKind::UnexpectedEof {
                    reader.seek(start);
                    Ok(None)
                } else {
                    Err(e)
                }
            },
        }
    }

    fn read_fields(reader: &mut Cursor) -> (r: Result<Response, SerializationError>)
        ensures
            final(reader)@.bytes == old(reader)@.bytes,
            match decode_response(old(reader)@.remaining()) {
                Decoded::Value { value, len } => {
                    &&& r matches Ok(response) && response@ == value
                    &&& final(reader)@ == old(reader)@.advance(len)
                },
                Decoded::Incomplete => r matches Err(e) && e.kind == ErrorKind::UnexpectedEof,
                Decoded::Invalid { kind, len } => {
                    &&& r matches Err(e) && e.kind == kind
                    &&& final(reader)@ == old(reader)@.advance(len)
                },
            },
    {
        let tag = reader.read_u32()?;
        proof {
            lemma_remaining_after(old(reader)@, 4);
        }
        if tag == 0 {
            let value = reader.read_option_string()?;
            Ok(Response::Success(value))
        } else if tag == 1 {
            let message = reader.read_string()?;
            Ok(Response::Failure(message))
        } else {
            Err(SerializationError::new(ErrorKind::InvalidVariant))
        }
    }
}

} // verus!
