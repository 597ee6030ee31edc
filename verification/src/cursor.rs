//! A read position over a buffer of bytes.

use crate::encoding::{
    consumed, decode_option_str, decode_str, decode_u32, decode_u64, option_view, outcome,
    Decoded, ErrorKind, SerializationError,
};
use vstd::bytes::*;
use vstd::prelude::*;
use vstd::slice::*;
use vstd::utf8::*;

verus! {

/// What a [`Cursor`] stands for: the bytes it reads and how far it has come.
pub struct CursorView {
    pub bytes: Seq<u8>,
    pub position: nat,
}

impl CursorView {
    /// The bytes not read yet; none once the position is at or past the end.
    pub open spec fn remaining(self) -> Seq<u8> {
        if self.position <= self.bytes.len() {
            self.bytes.skip(self.position as int)
        } else {
            Seq::empty()
        }
    }

    /// The same bytes with the position moved forward by `n`.
    pub open spec fn advance(self, n: nat) -> CursorView {
        CursorView { bytes: self.bytes, position: self.position + n }
    }
}

/// What is left after moving `n` bytes into what was left before.
pub proof fn lemma_remaining_after(c: CursorView, n: nat)
    requires
        n <= c.remaining().len(),
    ensures
        c.advance(n).remaining() == c.remaining().skip(n as int),
{
    assert(c.advance(n).remaining() =~= c.remaining().skip(n as int));
}

/// A reader over a borrowed buffer.  The position may be set anywhere; past
/// the end nothing is left to read.
pub struct Cursor<'a> {
    bytes: &'a [u8],
    position: u64,
}

impl<'a> View for Cursor<'a> {
    type V = CursorView;

    closed spec fn view(&self) -> CursorView {
        CursorView { bytes: self.bytes@, position: self.position as nat }
    }
}

/// `String::from_utf8`: the string that the bytes encode in UTF-8, or
/// nothing when they are not valid UTF-8.
#[verifier::external_body]
pub(crate) fn string_from_utf8(bytes: Vec<u8>) -> (r: Option<String>)
    ensures
        match r {
            Some(s) => valid_utf8(bytes@) && s@ == decode_utf8(bytes@),
            None => !valid_utf8(bytes@),
        },
{
    String::from_utf8(bytes).ok()
}

/// Whether a read that decodes `d` from what `before` had left gave `r` and
/// left the cursor at `after`.
pub open spec fn read_as<T>(
    before: CursorView,
    after: CursorView,
    d: Decoded<T>,
    r: Result<T, SerializationError>,
) -> bool {
    &&& after == before.advance(consumed(d))
    &&& match r {
        Ok(v) => outcome(d) == Ok::<T, ErrorKind>(v),
        Err(e) => outcome(d) == Err::<T, ErrorKind>(e.kind),
    }
}

impl<'a> Cursor<'a> {
    /// A cursor at the start of `bytes`.
    pub fn new(bytes: &'a [u8]) -> (c: Cursor<'a>)
        ensures
            c@ == (CursorView { bytes: bytes@, position: 0 }),
    {
        Cursor { bytes, position: 0 }
    }

    /// The offset of the next byte to read.
    pub fn position(&self) -> (p: u64)
        ensures
            p == self@.position,
    {
        self.position
    }

    /// Moves to an offset from the start of the buffer.
    pub fn seek(&mut self, position: u64)
        ensures
            final(self)@ == (CursorView { bytes: old(self)@.bytes, position: position as nat }),
    {
        self.position = position;
    }

    /// The number of bytes left to read.
    pub fn remaining(&self) -> (n: usize)
        ensures
            n == self@.remaining().len(),
            n > 0 ==> self@.position + n == self@.bytes.len(),
            self@.bytes.len() <= usize::MAX,
    {
        let len = self.bytes.len();
        if self.position <= len as u64 {
            len - self.position as usize
        } else {
            0
        }
    }

    /// Whether nothing is left to read.
    pub fn is_at_end(&self) -> (b: bool)
        ensures
            b == (self@.remaining().len() == 0),
    {
        self.remaining() == 0
    }

    /// Reads one byte, if any is left.
    pub fn read_byte(&mut self) -> (r: Option<u8>)
        ensures
            match r {
                Some(byte) => {
                    &&& old(self)@.remaining().len() > 0 && byte == old(self)@.remaining()[0]
                    &&& final(self)@ == old(self)@.advance(1)
                },
                None => old(self)@.remaining().len() == 0 && final(self)@ == old(self)@,
            },
    {
        if self.remaining() < 1 {
            return None;
        }
        let byte = self.bytes[self.position as usize];
        self.position = self.position + 1;
        Some(byte)
    }

    /// Reads the next `n` bytes, if that many are left.
    pub fn read_exact(&mut self, n: usize) -> (r: Option<&'a [u8]>)
        ensures
            match r {
                Some(bytes) => {
                    &&& n <= old(self)@.remaining().len()
                    &&& bytes@ == old(self)@.remaining().take(n as int)
                    &&& final(self)@ == old(self)@.advance(n as nat)
                },
                None => n > old(self)@.remaining().len() && final(self)@ == old(self)@,
            },
    {
        if self.remaining() < n {
            return None;
        }
        if n == 0 {
            let bytes = slice_subrange(self.bytes, 0, 0);
            assert(bytes@ =~= self@.remaining().take(0));
            return Some(bytes);
        }
        let start = self.position as usize;
        let bytes = slice_subrange(self.bytes, start, start + n);
        assert(bytes@ =~= self@.remaining().take(n as int));
        self.position = self.position + n as u64;
        Some(bytes)
    }

    /// Reads a little-endian `u32`.
    pub fn read_u32(&mut self) -> (r: Result<u32, SerializationError>)
        ensures
            read_as(old(self)@, final(self)@, decode_u32(old(self)@.remaining()), r),
    {
        if self.remaining() < 4 {
            return Err(SerializationError::new(ErrorKind::UnexpectedEof));
        }
        let start = self.position as usize;
        let field = slice_subrange(self.bytes, start, start + 4);
        assert(field@ =~= self@.remaining().subrange(0, 4));
        self.position = self.position + 4;
        Ok(u32_from_le_bytes(field))
    }

    /// Reads a little-endian `u64`.
    pub fn read_u64(&mut self) -> (r: Result<u64, SerializationError>)
        ensures
            read_as(old(self)@, final(self)@, decode_u64(old(self)@.remaining()), r),
    {
        if self.remaining() < 8 {
            return Err(SerializationError::new(ErrorKind::UnexpectedEof));
        }
        let start = self.position as usize;
        let field = slice_subrange(self.bytes, start, start + 8);
        assert(field@ =~= self@.remaining().subrange(0, 8));
        self.position = self.position + 8;
        Ok(u64_from_le_bytes(field))
    }

    /// Reads an optional string: a flag byte, and the string if the flag is
    /// 1.  When the input ends inside the string the cursor stands after
    /// the flag.
    pub fn read_option_string(&mut self) -> (r: Result<Option<String>, SerializationError>)
        ensures
            final(self)@.bytes == old(self)@.bytes,
            !(decode_option_str(old(self)@.remaining()) is Incomplete) ==> final(self)@ == old(
                self,
            )@.advance(consumed(decode_option_str(old(self)@.remaining()))),
            match r {
                Ok(value) => outcome(decode_option_str(old(self)@.remaining())) == Ok::<
                    Option<Seq<char>>,
                    ErrorKind,
                >(option_view(value)),
                Err(e) => outcome(decode_option_str(old(self)@.remaining())) == Err::<
                    Option<Seq<char>>,
                    ErrorKind,
                >(e.kind),
            },
    {
        if self.remaining() < 1 {
            return Err(SerializationError::new(ErrorKind::UnexpectedEof));
        }
        let flag = self.bytes[self.position as usize];
        assert(flag == self@.remaining()[0]);
        self.position = self.position + 1;
        assert(self@.remaining() =~= old(self)@.remaining().skip(1));
        if flag == 0 {
            Ok(None)
        } else if flag == 1 {
            match self.read_string() {
                Ok(s) => Ok(Some(s)),
                Err(e) => Err(e),
            }
        } else {
            Err(SerializationError::new(ErrorKind::InvalidOptionTag))
        }
    }

    /// Reads a string: its byte count, then that many bytes of UTF-8.
    pub fn read_string(&mut self) -> (r: Result<String, SerializationError>)
        ensures
            final(self)@ == old(self)@.advance(consumed(decode_str(old(self)@.remaining()))),
            match r {
                Ok(s) => outcome(decode_str(old(self)@.remaining())) == Ok::<Seq<char>, ErrorKind>(
                    s@,
                ),
                Err(e) => outcome(decode_str(old(self)@.remaining())) == Err::<
                    Seq<char>,
                    ErrorKind,
                >(e.kind),
            },
    {
        let start = self.position;
        let ghost input = self@.remaining();
        let n = self.read_u64()?;
        proof {
            lemma_remaining_after(old(self)@, 8);
        }
        if (self.remaining() as u64) < n {
            self.position = start;
            return Err(SerializationError::new(ErrorKind::UnexpectedEof));
        }
        let from = self.position as usize;
        let body = slice_subrange(self.bytes, from, from + n as usize);
        assert(body@ =~= input.subrange(8, 8 + n));
        self.position = self.position + n;
        match string_from_utf8(slice_to_vec(body)) {
            Some(s) => Ok(s),
            None => Err(SerializationError::new(ErrorKind::InvalidUtf8)),
        }
    }
}

} // verus!
