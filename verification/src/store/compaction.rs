//! Compaction: rewriting the log so that it holds only the records that
//! still give a key its value.

use crate::cursor::Cursor;
use crate::store::command::{
    decode_record, lemma_decode_encode_record, lemma_encode_decode_record, Command, Record,
};
use crate::store::error::KvStoreError;
use crate::store::index::Index;
use crate::store::log::{
    all_encodable, contents_of, encode_log, index_of, last_mention, lemma_index_of,
    lemma_last_mention, lemma_offsets_increase, lemma_parse_log_split, offset_of, parse_log,
};
use vstd::prelude::*;
use vstd::set_lib::lemma_subset_equality;

verus! {

/// Whether record `i` is the one that the index points at for its key: a
/// `Put` whose key the index maps to the record's offset.
pub open spec fn retained(records: Seq<Record>, index: Map<Seq<char>, u64>, i: int) -> bool {
    &&& records[i] is Put
    &&& index.contains_key(records[i].key())
    &&& index[records[i].key()] == offset_of(records, i)
}

/// The records that compaction keeps, in the order of the log.
pub open spec fn compacted(records: Seq<Record>, index: Map<Seq<char>, u64>) -> Seq<Record>
    decreases records.len(),
{
    if records.len() == 0 {
        Seq::empty()
    } else {
        let before = compacted(records.drop_last(), index);
        if retained(records, index, records.len() - 1) {
            before.push(records.last())
        } else {
            before
        }
    }
}

/// Whether every key of the index points at a `Put` record of the log that
/// has this key.
pub open spec fn in_sync(records: Seq<Record>, index: Map<Seq<char>, u64>) -> bool {
    forall|key: Seq<char>| #[trigger]
        index.contains_key(key) ==> exists|i: int|
            0 <= i < records.len() && #[trigger] retained(records, index, i) && records[i].key()
                == key
}

/// Whether a record is retained depends only on the records up to it.
pub proof fn lemma_retained_prefix(
    records: Seq<Record>,
    index: Map<Seq<char>, u64>,
    n: int,
    i: int,
)
    requires
        0 <= i < n <= records.len(),
    ensures
        retained(records.take(n), index, i) == retained(records, index, i),
{
    assert(records.take(n).take(i) =~= records.take(i));
}

/// Compaction keeps records that can be written.
pub proof fn lemma_compacted_encodable(records: Seq<Record>, index: Map<Seq<char>, u64>)
    requires
        all_encodable(records),
    ensures
        all_encodable(compacted(records, index)),
    decreases records.len(),
{
    if records.len() > 0 {
        lemma_compacted_encodable(records.drop_last(), index);
    }
}

/// Compaction does not make a log longer.
pub proof fn lemma_compacted_len(records: Seq<Record>, index: Map<Seq<char>, u64>)
    ensures
        encode_log(compacted(records, index)).len() <= encode_log(records).len(),
    decreases records.len(),
{
    if records.len() > 0 {
        lemma_compacted_len(records.drop_last(), index);
        let before = compacted(records.drop_last(), index);
        assert(before.push(records.last()).drop_last() =~= before);
    }
}

/// A record has at least one byte.
pub proof fn lemma_record_not_empty(r: Record)
    requires
        r.encodable(),
    ensures
        r.encode().len() > 0,
{
    lemma_decode_encode_record(r, Seq::empty());
}

/// Records are ordered as their offsets are.
pub proof fn lemma_offset_order(records: Seq<Record>, i: int, j: int)
    requires
        all_encodable(records),
        0 <= i < records.len(),
        0 <= j <= records.len(),
    ensures
        offset_of(records, i) < offset_of(records, j) <==> i < j,
{
    lemma_record_not_empty(records[i]);
    if i < j {
        lemma_offsets_increase(records, i, j);
    } else if j < i {
        lemma_record_not_empty(records[j]);
        lemma_offsets_increase(records, j, i);
    }
}

/// The keys whose defining record lies among the first `n`.
pub open spec fn settled(records: Seq<Record>, n: int) -> Set<Seq<char>> {
    Set::new(
        |key: Seq<char>|
            index_of(records).contains_key(key) && index_of(records)[key] < offset_of(records, n),
    )
}

proof fn lemma_settled(records: Seq<Record>, n: int, key: Seq<char>)
    requires
        all_encodable(records),
        encode_log(records).len() <= u64::MAX,
        0 <= n <= records.len(),
        index_of(records).contains_key(key),
    ensures
        settled(records, n).contains(key) <==> last_mention(records, key) < n,
        0 <= last_mention(records, key) < records.len(),
        records[last_mention(records, key)] is Put,
        records[last_mention(records, key)].key() == key,
        index_of(records)[key] == offset_of(records, last_mention(records, key)),
{
    lemma_index_of(records, key);
    lemma_last_mention(records, key);
    lemma_offset_order(records, last_mention(records, key), n);
}

proof fn lemma_compacted_contents(records: Seq<Record>, n: int)
    requires
        all_encodable(records),
        encode_log(records).len() <= u64::MAX,
        0 <= n <= records.len(),
    ensures
        contents_of(compacted(records.take(n), index_of(records))) == contents_of(
            records.take(n),
        ).restrict(settled(records, n)),
    decreases n,
{
    let index = index_of(records);
    let prefix = records.take(n);
    if n == 0 {
        assert(contents_of(prefix).restrict(settled(records, n)) =~= Map::empty());
    } else {
        let before = records.take(n - 1);
        let last = records[n - 1];
        lemma_compacted_contents(records, n - 1);
        assert(prefix.drop_last() =~= before);
        lemma_retained_prefix(records, index, n, n - 1);
        let kept = contents_of(compacted(before, index));
        assert forall|key: Seq<char>| index.contains_key(key) implies (settled(
            records,
            n,
        ).contains(key) <==> settled(records, n - 1).contains(key) || (retained(
            records,
            index,
            n - 1,
        ) && key == last.key())) by {
            lemma_settled(records, n, key);
            lemma_settled(records, n - 1, key);
            lemma_offset_order(records, last_mention(records, key), n - 1);
            lemma_offset_order(records, n - 1, last_mention(records, key));
        }
        if index.contains_key(last.key()) {
            lemma_settled(records, n - 1, last.key());
            lemma_last_mention(records, last.key());
        }
        if retained(records, index, n - 1) {
            assert(compacted(prefix, index).drop_last() =~= compacted(before, index));
            assert(settled(records, n) =~= settled(records, n - 1).insert(last.key()));
            assert(contents_of(compacted(prefix, index)) =~= contents_of(prefix).restrict(
                settled(records, n),
            ));
        } else {
            assert(settled(records, n) =~= settled(records, n - 1));
            assert(!settled(records, n - 1).contains(last.key()));
            assert(contents_of(compacted(prefix, index)) =~= contents_of(prefix).restrict(
                settled(records, n),
            ));
        }
    }
}

/// Compaction is safe: the records that compaction keeps under the log's
/// own index leave the same contents as the whole log, and that index is in
/// sync with the log.
pub proof fn lemma_compaction_keeps_contents(records: Seq<Record>)
    requires
        all_encodable(records),
        encode_log(records).len() <= u64::MAX,
    ensures
        contents_of(compacted(records, index_of(records))) == contents_of(records),
        all_encodable(compacted(records, index_of(records))),
        in_sync(records, index_of(records)),
{
    let index = index_of(records);
    let n = records.len() as int;
    lemma_compacted_contents(records, n);
    lemma_compacted_encodable(records, index);
    assert(records.take(n) =~= records);
    assert forall|key: Seq<char>| #[trigger] index.contains_key(key) implies exists|i: int|
        0 <= i < records.len() && #[trigger] retained(records, index, i) && records[i].key()
            == key by {
        lemma_settled(records, n, key);
        assert(retained(records, index, last_mention(records, key)));
    }
    assert forall|key: Seq<char>| contents_of(records).contains_key(key) implies settled(
        records,
        n,
    ).contains(key) by {
        lemma_index_of(records, key);
        lemma_settled(records, n, key);
    }
    assert(contents_of(records).restrict(settled(records, n)) =~= contents_of(records));
}

/// Counting the retained records tells whether the index is in sync: each
/// retained record stands for a key of its own, so all keys are accounted
/// for exactly when there are as many retained records as keys.
proof fn lemma_sync_by_count(
    records: Seq<Record>,
    index: Map<Seq<char>, u64>,
    seen: Set<Seq<char>>,
)
    requires
        index.dom().finite(),
        seen.finite(),
        forall|key: Seq<char>| #[trigger]
            seen.contains(key) ==> index.contains_key(key) && exists|i: int|
                0 <= i < records.len() && #[trigger] retained(records, index, i)
                    && records[i].key() == key,
        forall|i: int|
            0 <= i < records.len() && #[trigger] retained(records, index, i) ==> seen.contains(
                records[i].key(),
            ),
    ensures
        in_sync(records, index) <==> seen.len() == index.len(),
{
    assert(seen.subset_of(index.dom()));
    if in_sync(records, index) {
        assert forall|key: Seq<char>| index.dom().contains(key) implies seen.contains(key) by {
            assert(index.contains_key(key));
            let i = choose|i: int|
                0 <= i < records.len() && #[trigger] retained(records, index, i)
                    && records[i].key() == key;
            assert(seen.contains(records[i].key()));
        }
        assert(seen =~= index.dom());
    }
    if seen.len() == index.len() {
        lemma_subset_equality(seen, index.dom());
        assert(seen =~= index.dom());
        assert forall|key: Seq<char>| #[trigger] index.contains_key(key) implies exists|i: int|
            0 <= i < records.len() && #[trigger] retained(records, index, i) && records[i].key()
                == key by {
            assert(seen.contains(key));
        }
    }
}

/// What a sequence of commands stands for.
pub open spec fn views(commands: Seq<Command>) -> Seq<Record> {
    Seq::new(commands.len(), |i: int| commands[i]@)
}

/// Reads `log` from its first byte and returns the records that `index`
/// points at, in the order of the log.
///
/// A record that cannot be decoded fails with `Serialization`; an index
/// with a key that does not point at a `Put` record of this key fails with
/// `IndexDesynced`.
pub fn live_commands(log: &[u8], index: &Index) -> (r: Result<Vec<Command>, KvStoreError>)
    requires
        index.wf(),
    ensures
        match parse_log(log@) {
            Err(kind) => r matches Err(KvStoreError::Serialization(e)) && e.kind == kind,
            Ok(records) => if in_sync(records, index@) {
                &&& r matches Ok(commands) && views(commands@) == compacted(records, index@)
                &&& compacted(records, index@).len() == index@.len()
            } else {
                r matches Err(KvStoreError::IndexDesynced)
            },
        },
{
    let mut commands: Vec<Command> = Vec::new();
    let ghost bytes = log@;
    let ghost mut done: Seq<Record> = Seq::empty();
    let ghost mut seen: Set<Seq<char>> = Set::empty();
    let mut reader = Cursor::new(log);
    proof {
        assert(bytes.take(0) =~= encode_log(done));
        assert(views(commands@) =~= compacted(done, index@));
    }
    loop
        invariant
            log@ == bytes,
            index.wf(),
            reader@.bytes == bytes,
            reader@.position <= bytes.len(),
            all_encodable(done),
            bytes.take(reader@.position as int) == encode_log(done),
            views(commands@) == compacted(done, index@),
            seen.finite(),
            commands.len() == seen.len(),
            forall|key: Seq<char>| #[trigger]
                seen.contains(key) ==> index@.contains_key(key) && index@[key] < reader@.position
                    && exists|i: int|
                    0 <= i < done.len() && #[trigger] retained(done, index@, i) && done[i].key()
                        == key,
            forall|i: int|
                0 <= i < done.len() && #[trigger] retained(done, index@, i) ==> seen.contains(
                    done[i].key(),
                ),
        ensures
            reader@.position == bytes.len(),
        decreases bytes.len() - reader@.position,
    {
        let offset = reader.position();
        let ghost rest = reader@.remaining();
        proof {
            lemma_parse_log_split(bytes, done, offset as int);
        }
        match Command::read_next(&mut reader) {
            Ok(Some(command)) => {
                let live = match &command {
                    Command::Put(put) => match index.get(put.key.as_str()) {
                        Some(at) => *at == offset,
                        None => false,
                    },
                    Command::Rm(_) => false,
                };
                let ghost next = done.push(command@);
                proof {
                    lemma_encode_decode_record(rest);
                    lemma_record_not_empty(command@);
                    let len = decode_record(rest)->Value_len as int;
                    assert(bytes.take(offset + len) =~= bytes.take(offset as int) + rest.subrange(
                        0,
                        len,
                    ));
                    assert(next.drop_last() =~= done);
                    assert(next.take(done.len() as int) =~= done);
                    assert(live == retained(next, index@, done.len() as int));
                    assert forall|i: int| 0 <= i < done.len() implies retained(next, index@, i)
                        == retained(done, index@, i) by {
                        lemma_retained_prefix(next, index@, done.len() as int, i);
                    }
                    done = next;
                }
                if live {
                    proof {
                        seen = seen.insert(command@.key());
                        assert(views(commands@.push(command)) =~= views(commands@).push(command@));
                    }
                    commands.push(command);
                }
            },
            Ok(None) => {
                break ;
            },
            Err(e) => {
                return Err(KvStoreError::Serialization(e));
            },
        }
    }
    proof {
        lemma_parse_log_split(bytes, done, bytes.len() as int);
        assert(bytes.skip(bytes.len() as int) =~= Seq::<u8>::empty());
        assert(done + Seq::<Record>::empty() =~= done);
        lemma_sync_by_count(done, index@, seen);
    }
    if commands.len() != index.len() {
        return Err(KvStoreError::IndexDesynced);
    }
    Ok(commands)
}

/// Rewrites `log` so that it holds only the records that `index` points
/// at, in the order they had.
///
/// The failures are those of [`live_commands`]; on failure the log is left
/// as it was.
pub fn compact(log: &mut Vec<u8>, index: &Index) -> (r: Result<(), KvStoreError>)
    requires
        index.wf(),
    ensures
        match parse_log(old(log)@) {
            Err(kind) => {
                &&& r matches Err(KvStoreError::Serialization(e)) && e.kind == kind
                &&& final(log)@ == old(log)@
            },
            Ok(records) => if in_sync(records, index@) {
                r is Ok && final(log)@ == encode_log(compacted(records, index@))
            } else {
                r matches Err(KvStoreError::IndexDesynced) && final(log)@ == old(log)@
            },
        },
{
    let commands = match live_commands(log.as_slice(), index) {
        Ok(commands) => commands,
        Err(e) => {
            return Err(e);
        },
    };
    let mut out: Vec<u8> = Vec::new();
    let mut i: usize = 0;
    while i < commands.len()
        invariant
            i <= commands.len(),
            out@ == encode_log(views(commands@).take(i as int)),
        decreases commands.len() - i,
    {
        let _ = commands[i].serialize_into(&mut out);
        proof {
            let written = views(commands@).take(i + 1);
            assert(written.drop_last() =~= views(commands@).take(i as int));
        }
        i = i + 1;
    }
    proof {
        assert(views(commands@).take(i as int) =~= views(commands@));
    }
    *log = out;
    Ok(())
}

} // verus!
