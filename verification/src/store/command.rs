//! The records of the log and their binary form.
//!
//! A record is a `u32` variant index, 0 for `Put` and 1 for `Rm`, followed
//! by the record's strings in order: key and value for `Put`, key for `Rm`.

use crate::cursor::{lemma_remaining_after, Cursor, CursorView};
use crate::encoding::{
    consumed, decode_str, decode_u32, encode_str, encode_u32, lemma_decode_encode_str,
    lemma_decode_encode_u32, lemma_encode_decode_str, lemma_encode_decode_u32, outcome,
    str_encodable, write_str, write_u32, Decoded, ErrorKind, SerializationError,
};
use vstd::prelude::*;

verus! {

/// Gives a key a value.
#[derive(Debug)]
pub struct Put {
    pub key: String,
    pub value: String,
}

/// Takes a key away.
#[derive(Debug)]
pub struct Rm {
    pub key: String,
}

/// One entry of the log.
#[derive(Debug)]
pub enum Command {
    Put(Put),
    Rm(Rm),
}

/// What a [`Command`] stands for.
pub enum Record {
    Put { key: Seq<char>, value: Seq<char> },
    Rm { key: Seq<char> },
}

impl View for Command {
    type V = Record;

    open spec fn view(&self) -> Record {
        match self {
            Command::Put(put) => Record::Put { key: put.key@, value: put.value@ },
            Command::Rm(rm) => Record::Rm { key: rm.key@ },
        }
    }
}

impl Record {
    /// The key that the record speaks of.
    pub open spec fn key(self) -> Seq<char> {
        match self {
            Record::Put { key, value: _ } => key,
            Record::Rm { key } => key,
        }
    }

    /// Whether each string is short enough for its length prefix.  Every
    /// `Command` in memory is.
    pub open spec fn encodable(self) -> bool {
        match self {
            Record::Put { key, value } => str_encodable(key) && str_encodable(value),
            Record::Rm { key } => str_encodable(key),
        }
    }

    /// The bytes of the record in the log.
    pub open spec fn encode(self) -> Seq<u8> {
        match self {
            Record::Put { key, value } => encode_u32(0) + encode_str(key) + encode_str(value),
            Record::Rm { key } => encode_u32(1) + encode_str(key),
        }
    }
}

/// Decodes the strings of a `Put` record.
pub open spec fn decode_set_fields(s: Seq<u8>) -> Decoded<Record> {
    match decode_str(s) {
        Decoded::Value { value: key, len: n } => match decode_str(s.skip(n as int)) {
            Decoded::Value { value, len: m } => Decoded::Value {
                value: Record::Put { key, value },
                len: n + m,
            },
            Decoded::Incomplete => Decoded::Incomplete,
            Decoded::Invalid { kind, len: m } => Decoded::Invalid { kind, len: n + m },
        },
        Decoded::Incomplete => Decoded::Incomplete,
        Decoded::Invalid { kind, len } => Decoded::Invalid { kind, len },
    }
}

/// Decodes the string of an `Rm` record.
pub open spec fn decode_rm_fields(s: Seq<u8>) -> Decoded<Record> {
    match decode_str(s) {
        Decoded::Value { value: key, len } => Decoded::Value { value: Record::Rm { key }, len },
        Decoded::Incomplete => Decoded::Incomplete,
        Decoded::Invalid { kind, len } => Decoded::Invalid { kind, len },
    }
}

/// Decodes one record from the front of `s`.
pub open spec fn decode_record(s: Seq<u8>) -> Decoded<Record> {
    match decode_u32(s) {
        Decoded::Value { value: tag, len: _ } => {
            if tag == 0 {
                decode_set_fields(s.skip(4)).after(4)
            } else if tag == 1 {
                decode_rm_fields(s.skip(4)).after(4)
            } else {
                Decoded::Invalid { kind: ErrorKind::InvalidVariant, len: 4 }
            }
        },
        _ => Decoded::Incomplete,
    }
}

/// Decoding an encoded record gives the record back, whatever follows it:
/// records need no separator.
pub proof fn lemma_decode_encode_record(r: Record, rest: Seq<u8>)
    requires
        r.encodable(),
    ensures
        decode_record(r.encode() + rest) == (Decoded::Value { value: r, len: r.encode().len() }),
        r.encode().len() >= 12,
{
    let s = r.encode() + rest;
    match r {
        Record::Put { key, value } => {
            lemma_decode_encode_u32(0, encode_str(key) + encode_str(value) + rest);
            assert(s =~= encode_u32(0) + (encode_str(key) + encode_str(value) + rest));
            assert(s.skip(4) =~= encode_str(key) + (encode_str(value) + rest));
            lemma_decode_encode_str(key, encode_str(value) + rest);
            assert(s.skip(4).skip(encode_str(key).len() as int) =~= encode_str(value) + rest);
            lemma_decode_encode_str(value, rest);
        },
        Record::Rm { key } => {
            lemma_decode_encode_u32(1, encode_str(key) + rest);
            assert(s =~= encode_u32(1) + (encode_str(key) + rest));
            assert(s.skip(4) =~= encode_str(key) + rest);
            lemma_decode_encode_str(key, rest);
        },
    }
}

/// The bytes that a record was decoded from are exactly its encoding.
pub proof fn lemma_encode_decode_record(s: Seq<u8>)
    requires
        decode_record(s) is Value,
    ensures
        s.subrange(0, decode_record(s)->Value_len as int) == decode_record(s)->Value_value.encode(),
        decode_record(s)->Value_value.encodable(),
        decode_record(s)->Value_len <= s.len(),
{
    lemma_encode_decode_u32(s);
    let tag = decode_u32(s)->Value_value;
    let t = s.skip(4);
    let len = decode_record(s)->Value_len as int;
    if tag == 0 {
        lemma_encode_decode_str(t);
        let n = decode_str(t)->Value_len as int;
        lemma_encode_decode_str(t.skip(n));
        let m = decode_str(t.skip(n))->Value_len as int;
        assert(s.subrange(0, len) =~= s.subrange(0, 4) + t.subrange(0, n) + t.skip(n).subrange(
            0,
            m,
        ));
    } else {
        lemma_encode_decode_str(t);
        let n = decode_str(t)->Value_len as int;
        assert(s.subrange(0, len) =~= s.subrange(0, 4) + t.subrange(0, n));
    }
}

/// Bytes after a record do not change how it decodes.
pub proof fn lemma_decode_record_extend(s: Seq<u8>, extra: Seq<u8>)
    requires
        decode_record(s) is Value,
    ensures
        decode_record(s + extra) == decode_record(s),
{
    lemma_encode_decode_record(s);
    let r = decode_record(s)->Value_value;
    let len = decode_record(s)->Value_len as int;
    lemma_decode_encode_record(r, s.skip(len) + extra);
    assert(s + extra =~= r.encode() + (s.skip(len) + extra));
}

/// Whether reading one record from what `before` had left gave `r` and left
/// the reader at `after`.
pub open spec fn reads_record(
    before: CursorView,
    after: CursorView,
    r: Result<Command, SerializationError>,
) -> bool {
    match decode_record(before.remaining()) {
        Decoded::Value { value, len } => {
            &&& r matches Ok(command) && command@ == value
            &&& after == before.advance(len)
        },
        Decoded::Incomplete => {
            &&& r matches Err(e) && e.kind == ErrorKind::UnexpectedEof
            &&& after == before
        },
        Decoded::Invalid { kind, len } => {
            &&& r matches Err(e) && e.kind == kind
            &&& after == before.advance(len)
        },
    }
}

impl Command {
    /// Appends the record's bytes to `writer`.  This never fails.
    pub fn serialize_into(&self, writer: &mut Vec<u8>) -> (r: Result<(), SerializationError>)
        ensures
            r is Ok,
            final(writer)@ == old(writer)@ + self@.encode(),
            self@.encodable(),
    {
        match self {
            Command::Put(put) => {
                write_u32(writer, 0);
                write_str(writer, put.key.as_str());
                write_str(writer, put.value.as_str());
            },
            Command::Rm(rm) => {
                write_u32(writer, 1);
                write_str(writer, rm.key.as_str());
            },
        }
        Ok(())
    }

    /// Reads one record.  On success the reader stands right after it; when
    /// the input ends too early, which is a failure, the reader does not
    /// move; on bytes that cannot be a record the reader stands after the
    /// bytes that were examined.
    pub fn deserialize_from(reader: &mut Cursor) -> (r: Result<Command, SerializationError>)
        ensures
            reads_record(old(reader)@, final(reader)@, r),
    {
        let start = reader.position();
        let result = Self::read_fields(reader);
        if let Err(e) = &result {
            if e.kind == ErrorKind::UnexpectedEof {
                reader.seek(start);
            }
        }
        result
    }

    /// Reads the next record of a log.  Gives `None` at the end of the
    /// log, where no byte is left; fails on bytes that are no record, among
    /// them a record that is cut short.
    pub fn read_next(reader: &mut Cursor) -> (r: Result<Option<Command>, SerializationError>)
        ensures
            if old(reader)@.remaining().len() == 0 {
                r matches Ok(None) && final(reader)@ == old(reader)@
            } else {
                match r {
                    Ok(found) => found matches Some(command) && reads_record(
                        old(reader)@,
                        final(reader)@,
                        Ok(command),
                    ),
                    Err(e) => reads_record(old(reader)@, final(reader)@, Err(e)),
                }
            },
    {
        if reader.is_at_end() {
            return Ok(None);
        }
        match Self::deserialize_from(reader) {
            Ok(command) => Ok(Some(command)),
            Err(e) => Err(e),
        }
    }

    fn read_fields(reader: &mut Cursor) -> (r: Result<Command, SerializationError>)
        ensures
            final(reader)@.bytes == old(reader)@.bytes,
            !(decode_record(old(reader)@.remaining()) is Incomplete) ==> final(reader)@
                == old(reader)@.advance(consumed(decode_record(old(reader)@.remaining()))),
            match r {
                Ok(command) => outcome(decode_record(old(reader)@.remaining())) == Ok::<
                    Record,
                    ErrorKind,
                >(command@),
                Err(e) => outcome(decode_record(old(reader)@.remaining())) == Err::<
                    Record,
                    ErrorKind,
                >(e.kind),
            },
    {
        let ghost s = reader@.remaining();
        let tag = reader.read_u32()?;
        proof {
            lemma_remaining_after(old(reader)@, 4);
        }
        if tag == 0 {
            let key = reader.read_string()?;
            proof {
                lemma_remaining_after(old(reader)@.advance(4), decode_str(s.skip(4))->Value_len);
            }
            let value = reader.read_string()?;
            Ok(Command::Put(Put { key, value }))
        } else if tag == 1 {
            let key = reader.read_string()?;
            Ok(Command::Rm(Rm { key }))
        } else {
            Err(SerializationError::new(ErrorKind::InvalidVariant))
        }
    }
}

} // verus!
