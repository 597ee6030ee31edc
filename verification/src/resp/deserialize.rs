//! Reading RESP values.
//!
//! A value starts with a byte that tells its type: `+` a simple string,
//! `-` an error, `:` an integer, `$` a bulk string and `*` an array.  Simple
//! strings, errors and integers run to the next CRLF.  A bulk string and an
//! array carry a length that runs to the next CRLF; a bulk string then
//! holds that many bytes and a CRLF, an array that many values.

use crate::cursor::{lemma_remaining_after, string_from_utf8, Cursor, CursorView};
use crate::resp::decimal::{parse_i32, parse_usize, read_i32, read_usize};
use vstd::prelude::*;
use vstd::slice::slice_to_vec;
use vstd::utf8::{decode_utf8, valid_utf8};

verus! {

/// Why a value could not be read.
#[derive(Eq, PartialEq, Debug)]
pub enum Error {
    /// The input ended where a byte was needed.
    ExpectedByte,
    /// A number was needed; `found` is what stood in its place.
    ExpectedDigits { found: String },
    /// The bytes of a string are not valid UTF-8.
    ExpectedUtf8Encoded,
    /// An integer was asked for and the value is of another type.
    ExpectedIntegerTypeIdent,
    /// A string was asked for and the value is of another type.
    ExpectedStringTypeIdent,
    /// An array was asked for and the value is of another type.
    ExpectedArrayIdent,
    /// Any other failure, in words.
    Other(String),
}

/// What an [`Error`] stands for.
pub enum ErrorView {
    ExpectedByte,
    ExpectedDigits { found: Seq<char> },
    ExpectedUtf8Encoded,
    ExpectedIntegerTypeIdent,
    ExpectedStringTypeIdent,
    ExpectedArrayIdent,
    Other(Seq<char>),
}

impl View for Error {
    type V = ErrorView;

    open spec fn view(&self) -> ErrorView {
        match self {
            Error::ExpectedByte => ErrorView::ExpectedByte,
            Error::ExpectedDigits { found } => ErrorView::ExpectedDigits { found: found@ },
            Error::ExpectedUtf8Encoded => ErrorView::ExpectedUtf8Encoded,
            Error::ExpectedIntegerTypeIdent => ErrorView::ExpectedIntegerTypeIdent,
            Error::ExpectedStringTypeIdent => ErrorView::ExpectedStringTypeIdent,
            Error::ExpectedArrayIdent => ErrorView::ExpectedArrayIdent,
            Error::Other(text) => ErrorView::Other(text@),
        }
    }
}

/// The error for a first byte that tells no type.
pub open spec fn unknown_type() -> ErrorView {
    ErrorView::Other("unknown type"@)
}

/// What reading from the front of a byte sequence yields: a value or an
/// error, and the number of bytes read to get there.
pub enum Parsed<T> {
    Value { value: T, len: nat },
    Failed { error: ErrorView, len: nat },
}

impl<T> Parsed<T> {
    /// The number of bytes read.
    pub open spec fn len(self) -> nat {
        match self {
            Parsed::Value { value: _, len } => len,
            Parsed::Failed { error: _, len } => len,
        }
    }
}

/// How far a read that stops after the first CRLF goes, given that it has
/// found none in the first `n` bytes: past the first CRLF, or to the end
/// of the input.
pub open spec fn line_end(s: Seq<u8>, n: int) -> int
    decreases s.len() - n,
{
    if n >= s.len() {
        s.len() as int
    } else if n >= 1 && s[n - 1] == 13 && s[n] == 10 {
        n + 1
    } else {
        line_end(s, n + 1)
    }
}

/// A line stops inside the input.
pub proof fn lemma_line_end(s: Seq<u8>, n: int)
    requires
        0 <= n <= s.len(),
    ensures
        n <= line_end(s, n) <= s.len(),
    decreases s.len() - n,
{
    if n < s.len() && !(n >= 1 && s[n - 1] == 13 && s[n] == 10) {
        lemma_line_end(s, n + 1);
    }
}

/// The bytes without their last two, which are taken for a CRLF; fewer
/// than two bytes stay as they are.
pub open spec fn trimmed(s: Seq<u8>) -> Seq<u8> {
    if s.len() >= 2 {
        s.take(s.len() - 2)
    } else {
        s
    }
}

/// The first line of `s` without its CRLF.
pub open spec fn first_line(s: Seq<u8>) -> Seq<u8> {
    trimmed(s.take(line_end(s, 0)))
}

/// The length of a bulk string or of an array.
#[derive(Clone, Copy, Debug, PartialEq, Eq, Structural)]
pub struct TypeLength(pub usize);

/// The type of a value, with its length where the type has one.
#[derive(Clone, Copy, Debug, PartialEq, Eq, Structural)]
pub enum TypeIdent {
    SimpleString,
    Error,
    Integer,
    BulkString(TypeLength),
    Array(TypeLength),
}

/// Reads a length from the first line of `s`.
pub open spec fn parse_length(s: Seq<u8>) -> Parsed<TypeLength> {
    let len = line_end(s, 0) as nat;
    if len < 2 {
        Parsed::Failed { error: ErrorView::ExpectedByte, len }
    } else if !valid_utf8(first_line(s)) {
        Parsed::Failed { error: ErrorView::ExpectedUtf8Encoded, len }
    } else {
        match parse_usize(first_line(s)) {
            Some(value) => Parsed::Value { value: TypeLength(value), len },
            None => Parsed::Failed {
                error: ErrorView::ExpectedDigits { found: decode_utf8(first_line(s)) },
                len,
            },
        }
    }
}

/// Reads the type of the value at the front of `s`.
pub open spec fn parse_ident(s: Seq<u8>) -> Parsed<TypeIdent> {
    if s.len() == 0 {
        Parsed::Failed { error: ErrorView::ExpectedByte, len: 0 }
    } else if s[0] == 43 {
        Parsed::Value { value: TypeIdent::SimpleString, len: 1 }
    } else if s[0] == 45 {
        Parsed::Value { value: TypeIdent::Error, len: 1 }
    } else if s[0] == 58 {
        Parsed::Value { value: TypeIdent::Integer, len: 1 }
    } else if s[0] == 36 {
        match parse_length(s.skip(1)) {
            Parsed::Value { value, len } => Parsed::Value {
                value: TypeIdent::BulkString(value),
                len: 1 + len,
            },
            Parsed::Failed { error, len } => Parsed::Failed { error, len: 1 + len },
        }
    } else if s[0] == 42 {
        match parse_length(s.skip(1)) {
            Parsed::Value { value, len } => Parsed::Value {
                value: TypeIdent::Array(value),
                len: 1 + len,
            },
            Parsed::Failed { error, len } => Parsed::Failed { error, len: 1 + len },
        }
    } else {
        Parsed::Failed { error: unknown_type(), len: 1 }
    }
}

/// Reads the text of the first line of `s`.
pub open spec fn parse_line(s: Seq<u8>) -> Parsed<Seq<char>> {
    let len = line_end(s, 0) as nat;
    if valid_utf8(first_line(s)) {
        Parsed::Value { value: decode_utf8(first_line(s)), len }
    } else {
        Parsed::Failed { error: ErrorView::ExpectedUtf8Encoded, len }
    }
}

/// Reads the text of the next `size` bytes without their last two, which
/// are taken for a CRLF.  Nothing is read if fewer bytes are left.
pub open spec fn parse_exact(s: Seq<u8>, size: nat) -> Parsed<Seq<char>> {
    if size > s.len() {
        Parsed::Failed { error: ErrorView::ExpectedByte, len: 0 }
    } else if valid_utf8(trimmed(s.take(size as int))) {
        Parsed::Value { value: decode_utf8(trimmed(s.take(size as int))), len: size }
    } else {
        Parsed::Failed { error: ErrorView::ExpectedUtf8Encoded, len: size }
    }
}

/// Reads a string: a simple string, an error or a bulk string.
pub open spec fn parse_string(s: Seq<u8>) -> Parsed<Seq<char>> {
    match parse_ident(s) {
        Parsed::Value { value: ident, len } => {
            let rest = s.skip(len as int);
            match ident {
                TypeIdent::SimpleString | TypeIdent::Error => match parse_line(rest) {
                    Parsed::Value { value, len: n } => Parsed::Value { value, len: len + n },
                    Parsed::Failed { error, len: n } => Parsed::Failed { error, len: len + n },
                },
                TypeIdent::BulkString(TypeLength(size)) => match parse_exact(
                    rest,
                    (size + 2) as nat,
                ) {
                    Parsed::Value { value, len: n } => Parsed::Value { value, len: len + n },
                    Parsed::Failed { error, len: n } => Parsed::Failed { error, len: len + n },
                },
                _ => Parsed::Failed { error: ErrorView::ExpectedStringTypeIdent, len },
            }
        },
        Parsed::Failed { error, len } => Parsed::Failed { error, len },
    }
}

/// Reads an integer.
pub open spec fn parse_integer(s: Seq<u8>) -> Parsed<i32> {
    match parse_ident(s) {
        Parsed::Value { value: TypeIdent::Integer, len } => {
            let rest = s.skip(len as int);
            let n = line_end(rest, 0) as nat;
            if !valid_utf8(first_line(rest)) {
                Parsed::Failed { error: ErrorView::ExpectedUtf8Encoded, len: len + n }
            } else {
                match parse_i32(first_line(rest)) {
                    Some(value) => Parsed::Value { value, len: len + n },
                    None => Parsed::Failed {
                        error: ErrorView::ExpectedDigits { found: decode_utf8(first_line(rest)) },
                        len: len + n,
                    },
                }
            }
        },
        Parsed::Value { value: _, len } => Parsed::Failed {
            error: ErrorView::ExpectedIntegerTypeIdent,
            len,
        },
        Parsed::Failed { error, len } => Parsed::Failed { error, len },
    }
}

/// Reads `count` strings, one after another.
pub open spec fn parse_strings(s: Seq<u8>, count: nat) -> Parsed<Seq<Seq<char>>>
    decreases count,
{
    if count == 0 {
        Parsed::Value { value: Seq::empty(), len: 0 }
    } else {
        match parse_string(s) {
            Parsed::Value { value: first, len } => {
                if len <= s.len() {
                    match parse_strings(s.skip(len as int), (count - 1) as nat) {
                        Parsed::Value { value: rest, len: n } => Parsed::Value {
                            value: seq![first] + rest,
                            len: len + n,
                        },
                        Parsed::Failed { error, len: n } => Parsed::Failed { error, len: len + n },
                    }
                } else {
                    Parsed::Failed { error: ErrorView::ExpectedByte, len }
                }
            },
            Parsed::Failed { error, len } => Parsed::Failed { error, len },
        }
    }
}

/// Reads an array of strings.
pub open spec fn parse_string_array(s: Seq<u8>) -> Parsed<Seq<Seq<char>>> {
    match parse_ident(s) {
        Parsed::Value { value: TypeIdent::Array(TypeLength(count)), len } => {
            match parse_strings(s.skip(len as int), count as nat) {
                Parsed::Value { value, len: n } => Parsed::Value { value, len: len + n },
                Parsed::Failed { error, len: n } => Parsed::Failed { error, len: len + n },
            }
        },
        Parsed::Value { value: _, len } => Parsed::Failed {
            error: ErrorView::ExpectedArrayIdent,
            len,
        },
        Parsed::Failed { error, len } => Parsed::Failed { error, len },
    }
}

/// What a list of strings stands for.
pub open spec fn texts(strings: Seq<String>) -> Seq<Seq<char>> {
    Seq::new(strings.len(), |i: int| strings[i]@)
}

/// Whether a read that parses `parsed` from what `before` had left gave
/// `r` and left the reader at `after`.
pub open spec fn read_value<T>(
    before: CursorView,
    after: CursorView,
    parsed: Parsed<T>,
    r: Result<T, Error>,
) -> bool {
    &&& after == before.advance(parsed.len())
    &&& match parsed {
        Parsed::Value { value, len: _ } => r matches Ok(v) && v == value,
        Parsed::Failed { error, len: _ } => r matches Err(e) && e@ == error,
    }
}

/// The same for a read that gives text.
pub open spec fn read_text(
    before: CursorView,
    after: CursorView,
    parsed: Parsed<Seq<char>>,
    r: Result<String, Error>,
) -> bool {
    &&& after == before.advance(parsed.len())
    &&& match parsed {
        Parsed::Value { value, len: _ } => r matches Ok(text) && text@ == value,
        Parsed::Failed { error, len: _ } => r matches Err(e) && e@ == error,
    }
}

/// The same for a read that gives a list of texts.
pub open spec fn read_texts(
    before: CursorView,
    after: CursorView,
    parsed: Parsed<Seq<Seq<char>>>,
    r: Result<Vec<String>, Error>,
) -> bool {
    &&& after == before.advance(parsed.len())
    &&& match parsed {
        Parsed::Value { value, len: _ } => r matches Ok(strings) && texts(strings@) == value,
        Parsed::Failed { error, len: _ } => r matches Err(e) && e@ == error,
    }
}

/// Removes a trailing CRLF: the last two bytes, whatever they are.
pub fn trim_crlf(buf: &mut Vec<u8>)
    ensures
        final(buf)@ == trimmed(old(buf)@),
{
    let len = buf.len();
    if len >= 2 {
        buf.truncate(len - 2);
    }
}

/// Reads up to and including the next CRLF, or to the end of the input.
pub fn read_until_crlf(reader: &mut Cursor) -> (buf: Vec<u8>)
    ensures
        buf@ == old(reader)@.remaining().take(line_end(old(reader)@.remaining(), 0)),
        buf@.len() == line_end(old(reader)@.remaining(), 0),
        final(reader)@ == old(reader)@.advance(buf@.len()),
{
    let ghost s = reader@.remaining();
    let mut buf: Vec<u8> = Vec::new();
    proof {
        assert(buf@ =~= s.take(0));
    }
    loop
        invariant_except_break
            reader@ == old(reader)@.advance(buf@.len()),
            buf@ == s.take(buf@.len() as int),
            line_end(s, buf@.len() as int) == line_end(s, 0),
        invariant
            s == old(reader)@.remaining(),
            buf@.len() <= s.len(),
        ensures
            reader@ == old(reader)@.advance(buf@.len()),
            buf@ == s.take(buf@.len() as int),
            buf@.len() == line_end(s, 0),
        decreases s.len() - buf@.len(),
    {
        let ghost n = buf@.len() as int;
        proof {
            lemma_remaining_after(old(reader)@, n as nat);
        }
        match reader.read_byte() {
            Some(byte) => {
                buf.push(byte);
                assert(buf@ =~= s.take(n + 1));
                let len = buf.len();
                if len >= 2 && buf[len - 2] == 13 && buf[len - 1] == 10 {
                    break ;
                }
            },
            None => {
                break ;
            },
        }
    }
    buf
}

/// Turns bytes into text.
fn text_of(bytes: Vec<u8>) -> (r: Result<String, Error>)
    ensures
        match r {
            Ok(text) => valid_utf8(bytes@) && text@ == decode_utf8(bytes@),
            Err(e) => !valid_utf8(bytes@) && e@ == ErrorView::ExpectedUtf8Encoded,
        },
{
    match string_from_utf8(bytes) {
        Some(text) => Ok(text),
        None => Err(Error::ExpectedUtf8Encoded),
    }
}

/// Reads the next line as text, without its CRLF.
pub fn read_to_string_until_crlf(reader: &mut Cursor) -> (r: Result<String, Error>)
    ensures
        read_text(old(reader)@, final(reader)@, parse_line(old(reader)@.remaining()), r),
{
    let mut buf = read_until_crlf(reader);
    trim_crlf(&mut buf);
    text_of(buf)
}

/// Reads `size` bytes and takes all but the last two, where a CRLF is to
/// stand, as text.  Reads nothing if fewer bytes are left.
pub fn read_exact_size_to_string(reader: &mut Cursor, size: usize) -> (r: Result<String, Error>)
    ensures
        read_text(
            old(reader)@,
            final(reader)@,
            parse_exact(old(reader)@.remaining(), size as nat),
            r,
        ),
{
    let bytes = match reader.read_exact(size) {
        Some(bytes) => bytes,
        None => {
            return Err(Error::ExpectedByte);
        },
    };
    let mut buf = slice_to_vec(bytes);
    trim_crlf(&mut buf);
    text_of(buf)
}

impl TypeLength {
    /// Reads a length: the digits of the next line.
    pub fn read(reader: &mut Cursor) -> (r: Result<TypeLength, Error>)
        ensures
            read_value(old(reader)@, final(reader)@, parse_length(old(reader)@.remaining()), r),
    {
        let mut buf = read_until_crlf(reader);
        if buf.len() < 2 {
            return Err(Error::ExpectedByte);
        }
        trim_crlf(&mut buf);
        let ghost line = buf@;
        let text = text_of(buf)?;
        proof {
            vstd::utf8::decode_utf8_encode_utf8(line);
        }
        match read_usize(text.as_str().as_bytes()) {
            Some(value) => Ok(TypeLength(value)),
            None => Err(Error::ExpectedDigits { found: text }),
        }
    }
}

impl TypeIdent {
    /// Reads the type of the next value, and its length if the type has
    /// one.
    pub fn read(reader: &mut Cursor) -> (r: Result<TypeIdent, Error>)
        ensures
            read_value(old(reader)@, final(reader)@, parse_ident(old(reader)@.remaining()), r),
    {
        let first = match reader.read_byte() {
            Some(byte) => byte,
            None => {
                return Err(Error::ExpectedByte);
            },
        };
        proof {
            lemma_remaining_after(old(reader)@, 1);
        }
        if first == 43 {
            Ok(TypeIdent::SimpleString)
        } else if first == 45 {
            Ok(TypeIdent::Error)
        } else if first == 58 {
            Ok(TypeIdent::Integer)
        } else if first == 36 {
            let length = TypeLength::read(reader)?;
            Ok(TypeIdent::BulkString(length))
        } else if first == 42 {
            let length = TypeLength::read(reader)?;
            Ok(TypeIdent::Array(length))
        } else {
            Err(Error::Other("unknown type".to_owned()))
        }
    }
}

/// A reader of RESP values.
pub struct Deserializer<'de> {
    reader: Cursor<'de>,
}

impl<'de> View for Deserializer<'de> {
    type V = CursorView;

    closed spec fn view(&self) -> CursorView {
        self.reader@
    }
}

impl<'de> Deserializer<'de> {
    /// A deserializer at the start of `input`.
    pub fn from_reader(input: &'de [u8]) -> (deserializer: Deserializer<'de>)
        ensures
            deserializer@ == (CursorView { bytes: input@, position: 0 }),
    {
        Deserializer { reader: Cursor::new(input) }
    }

    /// How many bytes of the input have been read.
    pub fn position(&self) -> (p: u64)
        ensures
            p == self@.position,
    {
        self.reader.position()
    }

    /// Reads an integer: a value of type `:` whose line is a number.
    pub fn deserialize_i32(&mut self) -> (r: Result<i32, Error>)
        ensures
            read_value(old(self)@, final(self)@, parse_integer(old(self)@.remaining()), r),
    {
        let ghost s = self@.remaining();
        let ident = TypeIdent::read(&mut self.reader)?;
        proof {
            lemma_ident_bound(s);
            lemma_remaining_after(old(self)@, parse_ident(s).len());
        }
        match ident {
            TypeIdent::Integer => {
                let mut buf = read_until_crlf(&mut self.reader);
                trim_crlf(&mut buf);
                let ghost line = buf@;
                let text = text_of(buf)?;
                proof {
                    vstd::utf8::decode_utf8_encode_utf8(line);
                }
                match read_i32(text.as_str().as_bytes()) {
                    Some(value) => Ok(value),
                    None => Err(Error::ExpectedDigits { found: text }),
                }
            },
            _ => Err(Error::ExpectedIntegerTypeIdent),
        }
    }

    /// Reads a string: a simple string, an error or a bulk string.
    pub fn deserialize_string(&mut self) -> (r: Result<String, Error>)
        ensures
            read_text(old(self)@, final(self)@, parse_string(old(self)@.remaining()), r),
    {
        read_string(&mut self.reader)
    }

    /// Reads the type of an array and gives the number of its elements,
    /// which are then read one by one.
    pub fn deserialize_seq(&mut self) -> (r: Result<usize, Error>)
        ensures
            final(self)@ == old(self)@.advance(parse_ident(old(self)@.remaining()).len()),
            match parse_ident(old(self)@.remaining()) {
                Parsed::Value { value: TypeIdent::Array(TypeLength(count)), len: _ } => r == Ok::<
                    usize,
                    Error,
                >(count),
                Parsed::Value { value: _, len: _ } => r matches Err(e) && e@
                    == ErrorView::ExpectedArrayIdent,
                Parsed::Failed { error, len: _ } => r matches Err(e) && e@ == error,
            },
    {
        read_array_len(&mut self.reader)
    }

    /// Reads an array of strings.
    pub fn deserialize_strings(&mut self) -> (r: Result<Vec<String>, Error>)
        ensures
            read_texts(old(self)@, final(self)@, parse_string_array(old(self)@.remaining()), r),
    {
        read_strings(&mut self.reader)
    }
}

/// Reads an array of strings.
pub fn read_strings(reader: &mut Cursor) -> (r: Result<Vec<String>, Error>)
    ensures
        read_texts(
            old(reader)@,
            final(reader)@,
            parse_string_array(old(reader)@.remaining()),
            r,
        ),
{
    let ghost s = reader@.remaining();
    let count = read_array_len(reader)?;
    proof {
        lemma_ident_bound(s);
        lemma_remaining_after(old(reader)@, parse_ident(s).len());
    }
    let mut array = Array::new(count);
    let mut strings: Vec<String> = Vec::new();
    let ghost start = reader@;
    let ghost input = reader@.remaining();
    proof {
        assert(texts(strings@) =~= Seq::empty());
        assert(input.skip(0) =~= input);
    }
    loop
        invariant
            s == old(reader)@.remaining(),
            parse_ident(s) matches Parsed::Value {
                value: TypeIdent::Array(TypeLength(n)),
                len: _,
            } && n == count,
            start == old(reader)@.advance(parse_ident(s).len()),
            input == s.skip(parse_ident(s).len() as int),
            array.len() == count,
            array.taken() <= array.len(),
            strings.len() == array.taken(),
            reader@.bytes == start.bytes,
            reader@.position >= start.position,
            reader@.position - start.position <= input.len(),
            input == start.remaining(),
            parse_strings(input, count as nat) == match parse_strings(
                input.skip(reader@.position - start.position),
                (count - array.taken()) as nat,
            ) {
                Parsed::Value { value, len } => Parsed::Value {
                    value: texts(strings@) + value,
                    len: (reader@.position - start.position + len) as nat,
                },
                Parsed::Failed { error, len } => Parsed::Failed {
                    error,
                    len: (reader@.position - start.position + len) as nat,
                },
            },
        ensures
            array.taken() == array.len(),
        decreases array.len() - array.taken(),
    {
        let ghost done = (reader@.position - start.position) as nat;
        let ghost rest = input.skip(done as int);
        proof {
            lemma_remaining_after(start, done);
            lemma_string_bound(rest);
        }
        if !array.next_element() {
            break ;
        }
        let ghost before = texts(strings@);
        match read_string(reader) {
            Ok(text) => {
                proof {
                    let len = parse_string(rest).len();
                    assert(rest.skip(len as int) =~= input.skip((done + len) as int));
                    assert(texts(strings@.push(text)) =~= before.push(text@));
                    match parse_strings(rest.skip(len as int), (count - array.taken()) as nat) {
                        Parsed::Value { value, len: _ } => {
                            assert(before + (seq![text@] + value) =~= before.push(text@) + value);
                        },
                        Parsed::Failed { error: _, len: _ } => {},
                    }
                }
                strings.push(text);
            },
            Err(e) => {
                proof {
                    let failed = parse_string(rest);
                    assert(failed is Failed);
                    assert(parse_strings(rest, (count - array.taken() + 1) as nat)
                        == Parsed::<Seq<Seq<char>>>::Failed {
                        error: failed->Failed_error,
                        len: failed.len(),
                    });
                }
                return Err(e);
            },
        }
    }
    proof {
        assert(texts(strings@) + Seq::<Seq<char>>::empty() =~= texts(strings@));
    }
    Ok(strings)
}

/// Reads the type of an array and gives the number of its elements.
pub fn read_array_len(reader: &mut Cursor) -> (r: Result<usize, Error>)
    ensures
        final(reader)@ == old(reader)@.advance(parse_ident(old(reader)@.remaining()).len()),
        match parse_ident(old(reader)@.remaining()) {
            Parsed::Value { value: TypeIdent::Array(TypeLength(count)), len: _ } => r == Ok::<
                usize,
                Error,
            >(count),
            Parsed::Value { value: _, len: _ } => r matches Err(e) && e@
                == ErrorView::ExpectedArrayIdent,
            Parsed::Failed { error, len: _ } => r matches Err(e) && e@ == error,
        },
{
    match TypeIdent::read(reader)? {
        TypeIdent::Array(TypeLength(count)) => Ok(count),
        _ => Err(Error::ExpectedArrayIdent),
    }
}

/// Reads a string: a simple string, an error or a bulk string.
pub fn read_string(reader: &mut Cursor) -> (r: Result<String, Error>)
    ensures
        read_text(old(reader)@, final(reader)@, parse_string(old(reader)@.remaining()), r),
{
    let ghost s = reader@.remaining();
    let ident = TypeIdent::read(reader)?;
    proof {
        lemma_ident_bound(s);
        lemma_remaining_after(old(reader)@, parse_ident(s).len());
    }
    match ident {
        TypeIdent::SimpleString | TypeIdent::Error => read_to_string_until_crlf(reader),
        TypeIdent::BulkString(TypeLength(size)) => {
            let left = reader.remaining();
            if left < 2 || size > left - 2 {
                Err(Error::ExpectedByte)
            } else {
                read_exact_size_to_string(reader, size + 2)
            }
        },
        _ => Err(Error::ExpectedStringTypeIdent),
    }
}

/// Reading a type stays inside the input.
pub proof fn lemma_ident_bound(s: Seq<u8>)
    ensures
        parse_ident(s).len() <= s.len(),
{
    if s.len() > 0 {
        lemma_line_end(s.skip(1), 0);
    }
}

/// Reading a string stays inside the input.
pub proof fn lemma_string_bound(s: Seq<u8>)
    ensures
        parse_string(s).len() <= s.len(),
{
    lemma_ident_bound(s);
    let len = parse_ident(s).len();
    lemma_line_end(s.skip(len as int), 0);
}

/// The walk over the elements of an array: how many it has and how many
/// were handed out.
pub struct Array {
    length: usize,
    element_count: usize,
}

impl Array {
    #[verifier::type_invariant]
    spec fn counted(&self) -> bool {
        self.element_count <= self.length
    }

    /// How many elements the array has.
    pub closed spec fn len(&self) -> nat {
        self.length as nat
    }

    /// How many elements were handed out.
    pub closed spec fn taken(&self) -> nat {
        self.element_count as nat
    }

    /// The walk over an array of `length` elements, none handed out yet.
    pub fn new(length: usize) -> (array: Array)
        ensures
            array.len() == length,
            array.taken() == 0,
    {
        Array { length, element_count: 0 }
    }

    /// How many elements the array has.
    pub fn length(&self) -> (n: usize)
        ensures
            n == self.len(),
    {
        self.length
    }

    /// How many elements were handed out.
    pub fn element_count(&self) -> (n: usize)
        ensures
            n == self.taken(),
            self.taken() <= self.len(),
    {
        proof {
            use_type_invariant(self);
        }
        self.element_count
    }

    /// Hands out the next element, if one is left: says whether the caller
    /// is to read one more element.
    pub fn next_element(&mut self) -> (more: bool)
        ensures
            final(self).len() == old(self).len(),
            more == (old(self).taken() < old(self).len()),
            final(self).taken() == if more {
                old(self).taken() + 1
            } else {
                old(self).taken()
            },
            final(self).taken() <= final(self).len(),
    {
        proof {
            use_type_invariant(&*self);
        }
        if self.element_count == self.length {
            return false;
        }
        self.element_count = self.element_count + 1;
        true
    }
}

} // verus!
