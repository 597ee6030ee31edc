//! What a log means: the records that its bytes hold, the index that
//! replaying them builds, and the contents that they leave.

use crate::encoding::{Decoded, ErrorKind};
use crate::store::command::{
    decode_record, lemma_decode_encode_record, lemma_decode_record_extend,
    lemma_encode_decode_record, Record,
};
use vstd::prelude::*;

verus! {

/// The bytes of a sequence of records written one after another.
pub open spec fn encode_log(records: Seq<Record>) -> Seq<u8>
    decreases records.len(),
{
    if records.len() == 0 {
        Seq::empty()
    } else {
        encode_log(records.drop_last()) + records.last().encode()
    }
}

/// The records that a log holds, read from its first byte to its last, or
/// the failure of the first record that cannot be read.
pub open spec fn parse_log(log: Seq<u8>) -> Result<Seq<Record>, ErrorKind>
    decreases log.len(),
{
    if log.len() == 0 {
        Ok(Seq::empty())
    } else {
        match decode_record(log) {
            Decoded::Value { value, len } => {
                if 0 < len <= log.len() {
                    match parse_log(log.skip(len as int)) {
                        Ok(rest) => Ok(seq![value] + rest),
                        Err(kind) => Err(kind),
                    }
                } else {
                    Err(ErrorKind::UnexpectedEof)
                }
            },
            Decoded::Incomplete => Err(ErrorKind::UnexpectedEof),
            Decoded::Invalid { kind, len: _ } => Err(kind),
        }
    }
}

/// Whether every record can be written.
pub open spec fn all_encodable(records: Seq<Record>) -> bool {
    forall|i: int| 0 <= i < records.len() ==> (#[trigger] records[i]).encodable()
}

/// The offset at which record `i` starts.
pub open spec fn offset_of(records: Seq<Record>, i: int) -> nat {
    encode_log(records.take(i)).len()
}

/// The index that replaying the records from an empty map builds: a `Put`
/// maps its key to the offset of the record, an `Rm` erases its key.
pub open spec fn index_of(records: Seq<Record>) -> Map<Seq<char>, u64>
    decreases records.len(),
{
    if records.len() == 0 {
        Map::empty()
    } else {
        let before = records.drop_last();
        match records.last() {
            Record::Put { key, value: _ } => index_of(before).insert(
                key,
                encode_log(before).len() as u64,
            ),
            Record::Rm { key } => index_of(before).remove(key),
        }
    }
}

/// The key-value map that the records leave: a `Put` gives its key a value,
/// an `Rm` erases its key.
pub open spec fn contents_of(records: Seq<Record>) -> Map<Seq<char>, Seq<char>>
    decreases records.len(),
{
    if records.len() == 0 {
        Map::empty()
    } else {
        let before = records.drop_last();
        match records.last() {
            Record::Put { key, value } => contents_of(before).insert(key, value),
            Record::Rm { key } => contents_of(before).remove(key),
        }
    }
}

/// The key-value map that a log leaves; empty for a log that cannot be read.
pub open spec fn log_contents(log: Seq<u8>) -> Map<Seq<char>, Seq<char>> {
    match parse_log(log) {
        Ok(records) => contents_of(records),
        Err(_) => Map::empty(),
    }
}

/// Writing two runs of records one after the other is writing their
/// concatenation.
pub proof fn lemma_encode_log_concat(a: Seq<Record>, b: Seq<Record>)
    ensures
        encode_log(a + b) == encode_log(a) + encode_log(b),
    decreases b.len(),
{
    if b.len() == 0 {
        assert(a + b =~= a);
        assert(encode_log(a) + encode_log(b) =~= encode_log(a));
    } else {
        lemma_encode_log_concat(a, b.drop_last());
        assert((a + b).drop_last() =~= a + b.drop_last());
        assert(encode_log(a + b) =~= encode_log(a) + encode_log(b));
    }
}

/// A log that can be read is exactly the bytes of its records.
pub proof fn lemma_parse_log_exact(log: Seq<u8>)
    requires
        parse_log(log) is Ok,
    ensures
        encode_log(parse_log(log)->Ok_0) == log,
        all_encodable(parse_log(log)->Ok_0),
    decreases log.len(),
{
    if log.len() == 0 {
        assert(encode_log(Seq::<Record>::empty()) =~= log);
    } else {
        let first = decode_record(log)->Value_value;
        let len = decode_record(log)->Value_len as int;
        let rest = parse_log(log.skip(len))->Ok_0;
        lemma_encode_decode_record(log);
        lemma_parse_log_exact(log.skip(len));
        lemma_encode_log_concat(seq![first], rest);
        assert(seq![first].drop_last() =~= Seq::<Record>::empty());
        assert(encode_log(seq![first]) =~= first.encode()) by {
            reveal_with_fuel(encode_log, 2);
        }
        assert(log =~= log.subrange(0, len) + log.skip(len));
    }
}

/// Appending a record's bytes to a readable log appends the record.
pub proof fn lemma_parse_log_append(log: Seq<u8>, record: Record)
    requires
        parse_log(log) is Ok,
        record.encodable(),
    ensures
        parse_log(log + record.encode()) == Ok::<Seq<Record>, ErrorKind>(
            parse_log(log)->Ok_0.push(record),
        ),
    decreases log.len(),
{
    let extended = log + record.encode();
    reveal_with_fuel(parse_log, 2);
    if log.len() == 0 {
        lemma_decode_encode_record(record, Seq::empty());
        assert(extended =~= record.encode() + Seq::<u8>::empty());
        assert(extended.skip(record.encode().len() as int) =~= Seq::<u8>::empty());
        assert(seq![record] + Seq::<Record>::empty() =~= Seq::<Record>::empty().push(record));
    } else {
        let first = decode_record(log)->Value_value;
        let len = decode_record(log)->Value_len as int;
        let rest = parse_log(log.skip(len))->Ok_0;
        lemma_decode_record_extend(log, record.encode());
        lemma_parse_log_append(log.skip(len), record);
        assert(extended.skip(len) =~= log.skip(len) + record.encode());
        assert(seq![first] + rest.push(record) =~= (seq![first] + rest).push(record));
    }
}

/// Reading back what was written gives the records that were written.
pub proof fn lemma_parse_encode_log(records: Seq<Record>)
    requires
        all_encodable(records),
    ensures
        parse_log(encode_log(records)) == Ok::<Seq<Record>, ErrorKind>(records),
    decreases records.len(),
{
    if records.len() == 0 {
        assert(records =~= Seq::empty());
    } else {
        lemma_parse_encode_log(records.drop_last());
        lemma_parse_log_append(encode_log(records.drop_last()), records.last());
        assert(records.drop_last().push(records.last()) =~= records);
    }
}

/// Reading a log is reading its front, then the rest.
pub proof fn lemma_parse_log_split(log: Seq<u8>, front: Seq<Record>, at: int)
    requires
        0 <= at <= log.len(),
        all_encodable(front),
        log.take(at) == encode_log(front),
    ensures
        parse_log(log) == match parse_log(log.skip(at)) {
            Ok(rest) => Ok::<Seq<Record>, ErrorKind>(front + rest),
            Err(kind) => Err(kind),
        },
    decreases front.len(),
{
    if front.len() == 0 {
        assert(log.take(at).len() == 0);
        assert(log.skip(at) =~= log);
        match parse_log(log) {
            Ok(rest) => assert(front + rest =~= rest),
            Err(_) => {},
        }
    } else {
        let last = front.last();
        let before = front.drop_last();
        let start = encode_log(before).len() as int;
        let tail = log.skip(start);
        let rest = log.skip(at);
        assert(log.take(at).len() == start + last.encode().len());
        assert(log.take(start) == encode_log(before)) by {
            assert(log.take(start) =~= log.take(at).take(start));
            assert(log.take(at).take(start) =~= encode_log(before));
        }
        lemma_parse_log_split(log, before, start);
        assert(tail == last.encode() + rest) by {
            assert(log.take(at).skip(start) =~= last.encode());
            assert(tail =~= log.take(at).skip(start) + rest);
        }
        lemma_decode_encode_record(last, rest);
        assert(tail.skip(last.encode().len() as int) == rest) by {
            assert(tail.skip(last.encode().len() as int) =~= rest);
        }
        assert(parse_log(tail) == match parse_log(rest) {
            Ok(more) => Ok::<Seq<Record>, ErrorKind>(seq![last] + more),
            Err(kind) => Err(kind),
        });
        match parse_log(rest) {
            Ok(more) => assert(before + (seq![last] + more) =~= front + more),
            Err(_) => {},
        }
    }
}

/// The position of the last record that speaks of `key`, or -1 when none
/// does.
pub open spec fn last_mention(records: Seq<Record>, key: Seq<char>) -> int
    decreases records.len(),
{
    if records.len() == 0 {
        -1
    } else if records.last().key() == key {
        records.len() - 1
    } else {
        last_mention(records.drop_last(), key)
    }
}

/// The last mention of a key is a record with that key, and no later record
/// has it.
pub proof fn lemma_last_mention(records: Seq<Record>, key: Seq<char>)
    ensures
        -1 <= last_mention(records, key) < records.len(),
        last_mention(records, key) >= 0 ==> records[last_mention(records, key)].key() == key,
        forall|j: int|
            last_mention(records, key) < j < records.len() ==> (#[trigger] records[j]).key() != key,
    decreases records.len(),
{
    if records.len() > 0 && records.last().key() != key {
        lemma_last_mention(records.drop_last(), key);
        assert forall|j: int| last_mention(records, key) < j < records.len() implies (
        #[trigger] records[j]).key() != key by {
            if j < records.len() - 1 {
                assert(records.drop_last()[j] == records[j]);
            }
        }
    }
}

/// Records start one after the other: a later record starts after an
/// earlier one has ended.
pub proof fn lemma_offsets_increase(records: Seq<Record>, i: int, j: int)
    requires
        0 <= i < j <= records.len(),
    ensures
        offset_of(records, i) + records[i].encode().len() <= offset_of(records, j),
    decreases j - i,
{
    assert(records.take(j).drop_last() =~= records.take(j - 1));
    if i < j - 1 {
        lemma_offsets_increase(records, i, j - 1);
    }
}

/// At the offset where a record starts, the log decodes to that record.
pub proof fn lemma_decode_at_offset(records: Seq<Record>, i: int)
    requires
        all_encodable(records),
        0 <= i < records.len(),
    ensures
        offset_of(records, i) + records[i].encode().len() <= encode_log(records).len(),
        decode_record(encode_log(records).skip(offset_of(records, i) as int)) == (Decoded::Value {
            value: records[i],
            len: records[i].encode().len(),
        }),
{
    let front = records.take(i + 1);
    let back = records.skip(i + 1);
    lemma_encode_log_concat(front, back);
    assert(front + back =~= records);
    assert(front.drop_last() =~= records.take(i));
    let tail = encode_log(records).skip(offset_of(records, i) as int);
    assert(tail =~= records[i].encode() + encode_log(back));
    lemma_decode_encode_record(records[i], encode_log(back));
}

/// What the index and the contents hold for a key is decided by the last
/// record that speaks of it: both hold the key exactly when that record is
/// a `Put`, the index then holds its offset and the contents its value.
pub proof fn lemma_index_of(records: Seq<Record>, key: Seq<char>)
    requires
        encode_log(records).len() <= u64::MAX,
    ensures
        index_of(records).contains_key(key) <==> last_mention(records, key) >= 0
            && records[last_mention(records, key)] is Put,
        contents_of(records).contains_key(key) <==> index_of(records).contains_key(key),
        index_of(records).contains_key(key) ==> {
            &&& index_of(records)[key] == offset_of(records, last_mention(records, key))
            &&& contents_of(records)[key] == records[last_mention(records, key)]->Put_value
        },
    decreases records.len(),
{
    if records.len() > 0 {
        let before = records.drop_last();
        assert(records.take(records.len() - 1) =~= before);
        if records.last().key() != key {
            lemma_index_of(before, key);
            lemma_last_mention(before, key);
            let j = last_mention(before, key);
            if j >= 0 {
                assert(records.take(j) =~= before.take(j));
            }
        }
    }
}

} // verus!
