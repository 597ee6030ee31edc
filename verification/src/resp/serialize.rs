//! Writing RESP values.
//!
//! A simple string is written as `+`, its text and a CRLF; a bulk string
//! as `$`, the number of its characters, a CRLF, its text and a CRLF.  Of
//! an error only the CRLF is written.  Integers and arrays are not written
//! by this serializer.

use crate::resp::decimal::{decimal_digits, write_decimal};
use vstd::prelude::*;
use vstd::slice::slice_to_vec;
use vstd::string::StrSliceExecFns;
use vstd::utf8::encode_utf8;

verus! {

/// The values of RESP.
#[derive(Eq, PartialEq, Debug)]
pub enum Type {
    SimpleString(String),
    Error(String),
    Integer(i32),
    BulkString(String),
    Array(Vec<Type>),
}

/// Why a value could not be written.
#[derive(Debug)]
pub enum Error {
    /// A sequence was started without saying how many elements it has.
    ExpectedKnownLength,
}

/// The kinds of string that the serializer writes.
#[derive(Clone, Copy, Debug, PartialEq, Eq, Structural)]
pub enum TypeIdent {
    SimpleString,
    Error,
    BulkString,
}

/// The bytes that end a line.
pub open spec fn crlf() -> Seq<u8> {
    seq![13u8, 10u8]
}

/// What `serialize_str` writes for a string of a kind.
pub open spec fn encode_str(ty: TypeIdent, text: Seq<char>) -> Seq<u8> {
    match ty {
        TypeIdent::SimpleString => seq![43u8] + encode_utf8(text),
        TypeIdent::BulkString => seq![36u8] + decimal_digits(text.len()) + crlf() + encode_utf8(
            text,
        ),
        TypeIdent::Error => Seq::empty(),
    }
}

/// What is written for a string of a kind: the string and a CRLF.
pub open spec fn encode_variant(ty: TypeIdent, text: Seq<char>) -> Seq<u8> {
    encode_str(ty, text) + crlf()
}

/// What opens a sequence of `len` elements.
pub open spec fn encode_seq_start(len: usize) -> Seq<u8> {
    seq![42u8] + decimal_digits(len as nat) + crlf()
}

fn write_crlf(writer: &mut Vec<u8>)
    ensures
        final(writer)@ == old(writer)@ + crlf(),
{
    writer.push(13);
    writer.push(10);
    assert(writer@ =~= old(writer)@ + crlf());
}

fn write_text(writer: &mut Vec<u8>, text: &str)
    ensures
        final(writer)@ == old(writer)@ + encode_utf8(text@),
{
    let mut bytes = slice_to_vec(text.as_bytes());
    writer.append(&mut bytes);
}

/// A writer of RESP values into a buffer.
pub struct Serializer {
    pub writer: Vec<u8>,
    pub ty: Option<TypeIdent>,
}

impl Serializer {
    /// A serializer that writes behind what `writer` holds.
    pub fn new(writer: Vec<u8>) -> (serializer: Serializer)
        ensures
            serializer.writer@ == writer@,
            serializer.ty is None,
    {
        Serializer { writer, ty: None }
    }

    /// Writes a string of the kind that was last announced.
    pub fn serialize_str(&mut self, v: &str)
        requires
            old(self).ty is Some,
        ensures
            final(self).ty == old(self).ty,
            final(self).writer@ == old(self).writer@ + encode_str(old(self).ty->Some_0, v@),
    {
        match self.ty {
            Some(TypeIdent::SimpleString) => {
                self.writer.push(43);
                write_text(&mut self.writer, v);
                assert(self.writer@ =~= old(self).writer@ + (seq![43u8] + encode_utf8(v@)));
            },
            Some(TypeIdent::BulkString) => {
                self.writer.push(36);
                let len = v.unicode_len();
                write_decimal(&mut self.writer, len);
                write_crlf(&mut self.writer);
                write_text(&mut self.writer, v);
                assert(self.writer@ =~= old(self).writer@ + (seq![36u8] + decimal_digits(
                    v@.len(),
                ) + crlf() + encode_utf8(v@)));
            },
            Some(TypeIdent::Error) => {
                assert(self.writer@ =~= old(self).writer@ + Seq::<u8>::empty());
            },
            None => {},
        }
    }

    /// Announces the kind of a string and writes it, with the CRLF that
    /// ends it.
    pub fn serialize_newtype_variant(&mut self, variant: TypeIdent, value: &str)
        ensures
            final(self).ty == Some(variant),
            final(self).writer@ == old(self).writer@ + encode_variant(variant, value@),
    {
        self.ty = Some(variant);
        self.serialize_str(value);
        write_crlf(&mut self.writer);
        assert(self.writer@ =~= old(self).writer@ + (encode_str(variant, value@) + crlf()));
    }

    /// Opens a sequence: `*`, the number of its elements and a CRLF.  Fails
    /// if the number is not given.
    pub fn serialize_seq(&mut self, len: Option<usize>) -> (r: Result<(), Error>)
        ensures
            final(self).ty == old(self).ty,
            match len {
                Some(n) => r is Ok && final(self).writer@ == old(self).writer@ + encode_seq_start(
                    n,
                ),
                None => r is Err && final(self).writer@ == old(self).writer@ + seq![42u8],
            },
    {
        self.writer.push(42);
        let n = match len {
            Some(n) => n,
            None => {
                assert(self.writer@ =~= old(self).writer@ + seq![42u8]);
                return Err(Error::ExpectedKnownLength);
            },
        };
        write_decimal(&mut self.writer, n);
        write_crlf(&mut self.writer);
        assert(self.writer@ =~= old(self).writer@ + (seq![42u8] + decimal_digits(n as nat)
            + crlf()));
        Ok(())
    }
}

/// What `to_writer` writes for a value that it can write.
pub open spec fn encode_type(value: Type) -> Seq<u8> {
    match value {
        Type::SimpleString(text) => encode_variant(TypeIdent::SimpleString, text@),
        Type::BulkString(text) => encode_variant(TypeIdent::BulkString, text@),
        Type::Error(text) => encode_variant(TypeIdent::Error, text@),
        _ => Seq::empty(),
    }
}

/// Writes a string value behind what `writer` holds.  Integers and arrays
/// cannot be written.
pub fn to_writer(writer: &mut Vec<u8>, value: &Type) -> (r: Result<(), Error>)
    requires
        !(value is Integer),
        !(value is Array),
    ensures
        r is Ok,
        final(writer)@ == old(writer)@ + encode_type(*value),
{
    let mut buffer: Vec<u8> = Vec::new();
    let mut serializer = Serializer::new(buffer);
    match value {
        Type::SimpleString(text) => {
            serializer.serialize_newtype_variant(TypeIdent::SimpleString, text.as_str());
        },
        Type::BulkString(text) => {
            serializer.serialize_newtype_variant(TypeIdent::BulkString, text.as_str());
        },
        Type::Error(text) => {
            serializer.serialize_newtype_variant(TypeIdent::Error, text.as_str());
        },
        _ => {},
    }
    let mut written = serializer.writer;
    assert(written@ =~= encode_type(*value));
    writer.append(&mut written);
    Ok(())
}

} // verus!
