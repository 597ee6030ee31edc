//! What holds of the store across operations, stated over the bytes of the
//! log and the contents they leave.

use crate::encoding::Decoded;
use crate::store::command::{decode_record, Record};
use crate::store::compaction::{
    compacted, lemma_compacted_len, lemma_compaction_keeps_contents, lemma_record_not_empty,
};
use crate::store::log::{
    encode_log, index_of, last_mention, lemma_decode_at_offset, lemma_index_of,
    lemma_last_mention, lemma_parse_encode_log, lemma_parse_log_append, lemma_parse_log_exact,
    log_contents, parse_log,
};
use crate::store::{log_after_remove, log_after_set, KvStore};
use vstd::prelude::*;

verus! {

/// A `set` leaves a log that can be read, is no longer than the log with
/// the record added, and holds the contents of before with the key set to
/// the value, whether the log was compacted or not.
pub proof fn lemma_set(log: Seq<u8>, key: Seq<char>, value: Seq<char>)
    requires
        parse_log(log) is Ok,
        (Record::Put { key, value }).encodable(),
        log.len() + (Record::Put { key, value }).encode().len() <= u64::MAX,
    ensures
        parse_log(log_after_set(log, key, value)) is Ok,
        log_after_set(log, key, value).len() <= log.len() + (Record::Put {
            key,
            value,
        }).encode().len(),
        log_contents(log_after_set(log, key, value)) == log_contents(log).insert(key, value),
{
    let record = Record::Put { key, value };
    let records = parse_log(log)->Ok_0.push(record);
    lemma_parse_log_append(log, record);
    lemma_parse_log_exact(log + record.encode());
    assert(records.drop_last() =~= parse_log(log)->Ok_0);
    lemma_compaction_keeps_contents(records);
    lemma_compacted_len(records, index_of(records));
    lemma_parse_encode_log(compacted(records, index_of(records)));
}

/// A `remove` that found its key leaves a log that can be read and holds
/// the contents of before without the key.
pub proof fn lemma_remove(log: Seq<u8>, key: Seq<char>)
    requires
        parse_log(log) is Ok,
        (Record::Rm { key }).encodable(),
    ensures
        parse_log(log_after_remove(log, key)) is Ok,
        log_contents(log_after_remove(log, key)) == log_contents(log).remove(key),
{
    let record = Record::Rm { key };
    lemma_parse_log_append(log, record);
    assert(parse_log(log)->Ok_0.push(record).drop_last() =~= parse_log(log)->Ok_0);
}

/// Overwrite: after two `set`s of one key, the key has the second value.
pub proof fn lemma_overwrite(log: Seq<u8>, key: Seq<char>, first: Seq<char>, second: Seq<char>)
    requires
        parse_log(log) is Ok,
        (Record::Put { key, value: first }).encodable(),
        (Record::Put { key, value: second }).encodable(),
        log.len() + (Record::Put { key, value: first }).encode().len() + (Record::Put {
            key,
            value: second,
        }).encode().len() <= u64::MAX,
    ensures
        log_contents(log_after_set(log_after_set(log, key, first), key, second)).contains_key(key),
        log_contents(log_after_set(log_after_set(log, key, first), key, second))[key] == second,
{
    lemma_set(log, key, first);
    lemma_set(log_after_set(log, key, first), key, second);
}

/// Remove: after a `set` and a `remove` of one key, the key has no value,
/// so that a second `remove` finds nothing to remove.
pub proof fn lemma_set_then_remove(log: Seq<u8>, key: Seq<char>, value: Seq<char>)
    requires
        parse_log(log) is Ok,
        (Record::Put { key, value }).encodable(),
        log.len() + (Record::Put { key, value }).encode().len() <= u64::MAX,
    ensures
        !log_contents(log_after_remove(log_after_set(log, key, value), key)).contains_key(key),
{
    lemma_set(log, key, value);
    lemma_remove(log_after_set(log, key, value), key);
}

/// An operation that changes the store.
pub enum Operation {
    /// `set(key, value)`.
    Put { key: Seq<char>, value: Seq<char> },
    /// `remove(key)`.
    Remove { key: Seq<char> },
}

impl Operation {
    /// The record that the operation writes when it writes one.
    pub open spec fn record(self) -> Record {
        match self {
            Operation::Put { key, value } => Record::Put { key, value },
            Operation::Remove { key } => Record::Rm { key },
        }
    }

    /// What the operation makes of the contents: a `set` gives the key the
    /// value; a `remove` takes the key away, and changes nothing, failing
    /// with `KeyNotFound`, if the key has no value.
    pub open spec fn apply(self, contents: Map<Seq<char>, Seq<char>>) -> Map<
        Seq<char>,
        Seq<char>,
    > {
        match self {
            Operation::Put { key, value } => contents.insert(key, value),
            Operation::Remove { key } => contents.remove(key),
        }
    }

    /// The log that the operation leaves: that of `set`, compacted where it
    /// has outgrown the threshold, or that of `remove`, which writes only
    /// if the key has a value.
    pub open spec fn write(self, log: Seq<u8>) -> Seq<u8> {
        match self {
            Operation::Put { key, value } => log_after_set(log, key, value),
            Operation::Remove { key } => if log_contents(log).contains_key(key) {
                log_after_remove(log, key)
            } else {
                log
            },
        }
    }
}

/// The contents after a run of operations, one after the other.
pub open spec fn contents_after(
    contents: Map<Seq<char>, Seq<char>>,
    operations: Seq<Operation>,
) -> Map<Seq<char>, Seq<char>>
    decreases operations.len(),
{
    if operations.len() == 0 {
        contents
    } else {
        contents_after(operations[0].apply(contents), operations.drop_first())
    }
}

/// The log after a run of operations, one after the other.
pub open spec fn log_after(log: Seq<u8>, operations: Seq<Operation>) -> Seq<u8>
    decreases operations.len(),
{
    if operations.len() == 0 {
        log
    } else {
        log_after(operations[0].write(log), operations.drop_first())
    }
}

/// The bytes that a run of operations can add to the log at most.
pub open spec fn written_at_most(operations: Seq<Operation>) -> nat
    decreases operations.len(),
{
    if operations.len() == 0 {
        0
    } else {
        operations[0].record().encode().len() + written_at_most(operations.drop_first())
    }
}

/// Whether the record of every operation can be written.
pub open spec fn all_writable(operations: Seq<Operation>) -> bool {
    forall|i: int| 0 <= i < operations.len() ==> (#[trigger] operations[i]).record().encodable()
}

/// Whatever is set and removed, in whatever order, and wherever the log is
/// compacted on the way: the log that is left can be read, and a store
/// opened on it holds what the operations make of the contents.
pub proof fn lemma_operations(log: Seq<u8>, operations: Seq<Operation>)
    requires
        parse_log(log) is Ok,
        all_writable(operations),
        log.len() + written_at_most(operations) <= u64::MAX,
    ensures
        parse_log(log_after(log, operations)) is Ok,
        log_after(log, operations).len() <= log.len() + written_at_most(operations),
        log_contents(log_after(log, operations)) == contents_after(
            log_contents(log),
            operations,
        ),
    decreases operations.len(),
{
    if operations.len() > 0 {
        let first = operations[0];
        let rest = operations.drop_first();
        assert(first.record().encodable());
        assert(all_writable(rest)) by {
            assert forall|i: int| 0 <= i < rest.len() implies (
            #[trigger] rest[i]).record().encodable() by {
                assert(rest[i] == operations[i + 1]);
            }
        }
        match first {
            Operation::Put { key, value } => {
                lemma_set(log, key, value);
            },
            Operation::Remove { key } => {
                if log_contents(log).contains_key(key) {
                    lemma_remove(log, key);
                } else {
                    assert(log_contents(log).remove(key) =~= log_contents(log));
                }
            },
        }
        lemma_operations(first.write(log), rest);
    }
}

/// The index points at what gives each key its value: at the offset that
/// the index holds for a key, the log decodes to a `Put` of this key with
/// the value that the key has.
pub proof fn lemma_index_points_at_values(log: Seq<u8>, key: Seq<char>)
    requires
        parse_log(log) is Ok,
        log.len() <= u64::MAX,
        index_of(parse_log(log)->Ok_0).contains_key(key),
    ensures
        log_contents(log).contains_key(key),
        index_of(parse_log(log)->Ok_0)[key] < log.len(),
        decode_record(log.skip(index_of(parse_log(log)->Ok_0)[key] as int)) matches Decoded::Value {
            value,
            len: _,
        } && value == (Record::Put { key, value: log_contents(log)[key] }),
{
    let records = parse_log(log)->Ok_0;
    lemma_parse_log_exact(log);
    lemma_index_of(records, key);
    lemma_last_mention(records, key);
    lemma_decode_at_offset(records, last_mention(records, key));
    lemma_record_not_empty(records[last_mention(records, key)]);
}

/// Persistence: the log that a store leaves behind can be opened again, and
/// a store opened on it holds the same contents.
pub proof fn lemma_reopen(closed: KvStore, reopened: KvStore)
    requires
        closed.wf(),
        reopened.log_view() == closed.log_view(),
    ensures
        parse_log(closed.log_view()) is Ok,
        reopened@ == closed@,
{
    closed.lemma_wf_log();
}

/// Compaction safety: a log and its compaction answer every key alike.
pub proof fn lemma_compaction_safe(log: Seq<u8>)
    requires
        parse_log(log) is Ok,
        log.len() <= u64::MAX,
    ensures
        ({
            let records = parse_log(log)->Ok_0;
            let rewritten = encode_log(compacted(records, index_of(records)));
            &&& parse_log(rewritten) is Ok
            &&& log_contents(rewritten) == log_contents(log)
            &&& rewritten.len() <= log.len()
        }),
{
    let records = parse_log(log)->Ok_0;
    lemma_parse_log_exact(log);
    lemma_compaction_keeps_contents(records);
    lemma_compacted_len(records, index_of(records));
    lemma_parse_encode_log(compacted(records, index_of(records)));
}

} // verus!
