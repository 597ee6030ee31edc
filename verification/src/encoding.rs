//! The binary layout shared by log records and wire frames.
//!
//! Every value is laid out with fixed-width little-endian integers: an
//! enum's variant is a `u32` index, a string is a `u64` byte count followed
//! by its UTF-8 bytes, and an optional value is a one-byte flag followed by
//! the value when the flag is 1.  A value therefore announces its own
//! length, and values can follow one another without a separator.

use vstd::bytes::*;
use vstd::prelude::*;
use vstd::slice::*;
use vstd::string::*;
use vstd::utf8::*;

verus! {

/// Why a sequence of bytes could not be decoded.
#[derive(Clone, Copy, Debug, PartialEq, Eq, Structural)]
pub enum ErrorKind {
    /// The input ended before the value was complete.
    UnexpectedEof,
    /// An enum's variant index names no variant.
    InvalidVariant,
    /// The flag of an optional value is neither 0 nor 1.
    InvalidOptionTag,
    /// A string's bytes are not valid UTF-8.
    InvalidUtf8,
}

/// What decoding one value from the front of a byte sequence yields.
pub enum Decoded<T> {
    /// A value, and the number of bytes it took.
    Value { value: T, len: nat },
    /// The bytes end before the value does.
    Incomplete,
    /// The bytes cannot be a value; `len` bytes were examined to find out.
    Invalid { kind: ErrorKind, len: nat },
}

impl<T> Decoded<T> {
    /// The same decoding, found after `n` bytes that were decoded before it.
    pub open spec fn after(self, n: nat) -> Decoded<T> {
        match self {
            Decoded::Value { value, len } => Decoded::Value { value, len: n + len },
            Decoded::Incomplete => Decoded::Incomplete,
            Decoded::Invalid { kind, len } => Decoded::Invalid { kind, len: n + len },
        }
    }
}

/// The four bytes of a `u32`, least significant first.
pub open spec fn encode_u32(x: u32) -> Seq<u8> {
    spec_u32_to_le_bytes(x)
}

/// Decodes a `u32` from the first four bytes.
pub open spec fn decode_u32(s: Seq<u8>) -> Decoded<u32> {
    if s.len() < 4 {
        Decoded::Incomplete
    } else {
        Decoded::Value { value: spec_u32_from_le_bytes(s.subrange(0, 4)), len: 4 }
    }
}

/// The eight bytes of a `u64`, least significant first.
pub open spec fn encode_u64(x: u64) -> Seq<u8> {
    spec_u64_to_le_bytes(x)
}

/// Decodes a `u64` from the first eight bytes.
pub open spec fn decode_u64(s: Seq<u8>) -> Decoded<u64> {
    if s.len() < 8 {
        Decoded::Incomplete
    } else {
        Decoded::Value { value: spec_u64_from_le_bytes(s.subrange(0, 8)), len: 8 }
    }
}

/// Decoding an encoded `u32` gives it back, whatever follows it.
pub proof fn lemma_decode_encode_u32(x: u32, rest: Seq<u8>)
    ensures
        decode_u32(encode_u32(x) + rest) == (Decoded::Value { value: x, len: 4 }),
        encode_u32(x).len() == 4,
{
    lemma_auto_spec_u32_to_from_le_bytes();
    assert((encode_u32(x) + rest).subrange(0, 4) =~= encode_u32(x));
}

/// A decoded `u32`'s bytes are exactly its encoding.
pub proof fn lemma_encode_decode_u32(s: Seq<u8>)
    requires
        decode_u32(s) is Value,
    ensures
        s.subrange(0, 4) == encode_u32(decode_u32(s)->Value_value),
        decode_u32(s)->Value_len == 4,
        4 <= s.len(),
{
    lemma_auto_spec_u32_to_from_le_bytes();
}

/// Whether a string is short enough for its byte count to fit the length
/// prefix.
pub open spec fn str_encodable(chars: Seq<char>) -> bool {
    encode_utf8(chars).len() <= u64::MAX
}

/// The bytes of a string: the count of its UTF-8 bytes as a `u64`, then
/// those bytes.
pub open spec fn encode_str(chars: Seq<char>) -> Seq<u8> {
    encode_u64(encode_utf8(chars).len() as u64) + encode_utf8(chars)
}

/// Decodes a string: the byte count, then that many bytes, which must be
/// valid UTF-8.
pub open spec fn decode_str(s: Seq<u8>) -> Decoded<Seq<char>> {
    match decode_u64(s) {
        Decoded::Value { value: n, len: _ } => {
            if s.len() - 8 < n {
                Decoded::Incomplete
            } else if !valid_utf8(s.subrange(8, 8 + n)) {
                Decoded::Invalid { kind: ErrorKind::InvalidUtf8, len: (8 + n) as nat }
            } else {
                Decoded::Value { value: decode_utf8(s.subrange(8, 8 + n)), len: (8 + n) as nat }
            }
        },
        _ => Decoded::Incomplete,
    }
}

/// Decoding an encoded string gives the string back, whatever follows it.
pub proof fn lemma_decode_encode_str(chars: Seq<char>, rest: Seq<u8>)
    requires
        str_encodable(chars),
    ensures
        decode_str(encode_str(chars) + rest) == (Decoded::Value {
            value: chars,
            len: encode_str(chars).len(),
        }),
        encode_str(chars).len() == 8 + encode_utf8(chars).len(),
{
    lemma_auto_spec_u64_to_from_le_bytes();
    let body = encode_utf8(chars);
    let n = body.len() as u64;
    let s = encode_str(chars) + rest;
    assert(s.subrange(0, 8) =~= encode_u64(n));
    assert(s.subrange(8, 8 + n) =~= body);
    encode_utf8_valid_utf8(chars);
    encode_utf8_decode_utf8(chars);
}

/// A decoded string's bytes are exactly its encoding.
pub proof fn lemma_encode_decode_str(s: Seq<u8>)
    requires
        decode_str(s) is Value,
    ensures
        s.subrange(0, decode_str(s)->Value_len as int) == encode_str(decode_str(s)->Value_value),
        str_encodable(decode_str(s)->Value_value),
        decode_str(s)->Value_len <= s.len(),
{
    lemma_auto_spec_u64_to_from_le_bytes();
    let n = spec_u64_from_le_bytes(s.subrange(0, 8));
    let body = s.subrange(8, 8 + n);
    decode_utf8_encode_utf8(body);
    assert(encode_u64(n) == s.subrange(0, 8));
    assert(s.subrange(0, 8 + n) =~= s.subrange(0, 8) + body);
}

/// The bytes of an optional string: a zero byte for none, else a one byte
/// and the string.
pub open spec fn encode_option_str(value: Option<Seq<char>>) -> Seq<u8> {
    match value {
        None => seq![0u8],
        Some(chars) => seq![1u8] + encode_str(chars),
    }
}

/// Decodes an optional string: the flag byte and, if it is 1, the string.
pub open spec fn decode_option_str(s: Seq<u8>) -> Decoded<Option<Seq<char>>> {
    if s.len() < 1 {
        Decoded::Incomplete
    } else if s[0] == 0 {
        Decoded::Value { value: None, len: 1 }
    } else if s[0] == 1 {
        match decode_str(s.skip(1)) {
            Decoded::Value { value, len } => Decoded::Value { value: Some(value), len: 1 + len },
            Decoded::Incomplete => Decoded::Incomplete,
            Decoded::Invalid { kind, len } => Decoded::Invalid { kind, len: 1 + len },
        }
    } else {
        Decoded::Invalid { kind: ErrorKind::InvalidOptionTag, len: 1 }
    }
}

/// Decoding an encoded optional string gives it back, whatever follows it.
pub proof fn lemma_decode_encode_option_str(value: Option<Seq<char>>, rest: Seq<u8>)
    requires
        value matches Some(chars) ==> str_encodable(chars),
    ensures
        decode_option_str(encode_option_str(value) + rest) == (Decoded::Value {
            value,
            len: encode_option_str(value).len(),
        }),
{
    match value {
        None => {},
        Some(chars) => {
            lemma_decode_encode_str(chars, rest);
            assert((encode_option_str(value) + rest).skip(1) =~= encode_str(chars) + rest);
        },
    }
}

/// What a reader reports for a decoding: the value, or the kind of failure.
pub open spec fn outcome<T>(d: Decoded<T>) -> Result<T, ErrorKind> {
    match d {
        Decoded::Value { value, len: _ } => Ok(value),
        Decoded::Incomplete => Err(ErrorKind::UnexpectedEof),
        Decoded::Invalid { kind, len: _ } => Err(kind),
    }
}

/// How many bytes a reader moves past for a decoding: the value's bytes,
/// the examined bytes of an invalid value, and none when the input is too
/// short.
pub open spec fn consumed<T>(d: Decoded<T>) -> nat {
    match d {
        Decoded::Value { value: _, len } => len,
        Decoded::Incomplete => 0,
        Decoded::Invalid { kind: _, len } => len,
    }
}

/// A failure to decode a record or a frame.
#[derive(Clone, Copy, Debug, PartialEq, Eq, Structural)]
pub struct SerializationError {
    pub kind: ErrorKind,
}

impl SerializationError {
    /// The failure of a kind.
    pub fn new(kind: ErrorKind) -> (e: SerializationError)
        ensures
            e.kind == kind,
    {
        SerializationError { kind }
    }

    /// The text shown for this error.
    pub open spec fn message(self) -> Seq<char> {
        match self.kind {
            ErrorKind::UnexpectedEof => "unexpected end of input"@,
            ErrorKind::InvalidVariant => "invalid variant index"@,
            ErrorKind::InvalidOptionTag => "invalid option tag"@,
            ErrorKind::InvalidUtf8 => "string is not valid utf8"@,
        }
    }

    /// The text, as a string.
    pub fn to_string(&self) -> (text: String)
        ensures
            text@ == self.message(),
    {
        match self.kind {
            ErrorKind::UnexpectedEof => "unexpected end of input".to_owned(),
            ErrorKind::InvalidVariant => "invalid variant index".to_owned(),
            ErrorKind::InvalidOptionTag => "invalid option tag".to_owned(),
            ErrorKind::InvalidUtf8 => "string is not valid utf8".to_owned(),
        }
    }
}

/// Appends the little-endian bytes of `x`.
pub fn write_u32(writer: &mut Vec<u8>, x: u32)
    ensures
        final(writer)@ == old(writer)@ + encode_u32(x),
{
    let mut bytes = u32_to_le_bytes(x);
    writer.append(&mut bytes);
}

/// Appends the little-endian bytes of `x`.
pub fn write_u64(writer: &mut Vec<u8>, x: u64)
    ensures
        final(writer)@ == old(writer)@ + encode_u64(x),
{
    let mut bytes = u64_to_le_bytes(x);
    writer.append(&mut bytes);
}

/// Appends an optional string: a zero byte for none, else a one byte and
/// the string.
pub fn write_option_str(writer: &mut Vec<u8>, value: &Option<String>)
    ensures
        final(writer)@ == old(writer)@ + encode_option_str(option_view(*value)),
        value matches Some(s) ==> str_encodable(s@),
{
    match value {
        None => {
            writer.push(0);
            assert(writer@ =~= old(writer)@ + seq![0u8]);
        },
        Some(s) => {
            writer.push(1);
            write_str(writer, s.as_str());
            assert(writer@ =~= old(writer)@ + (seq![1u8] + encode_str(s@)));
        },
    }
}

/// What an optional string stands for.
pub open spec fn option_view(value: Option<String>) -> Option<Seq<char>> {
    match value {
        None => None,
        Some(s) => Some(s@),
    }
}

/// Appends a string: its byte count, then its UTF-8 bytes.
pub fn write_str(writer: &mut Vec<u8>, s: &str)
    ensures
        final(writer)@ == old(writer)@ + encode_str(s@),
        str_encodable(s@),
{
    let body = s.as_bytes();
    write_u64(writer, body.len() as u64);
    let mut copy = slice_to_vec(body);
    writer.append(&mut copy);
}

} // verus!
