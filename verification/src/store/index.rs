//! The in-memory index: for every key that has a value, the offset of the
//! record that gave it.

use crate::cursor::Cursor;
use crate::store::command::{decode_record, lemma_encode_decode_record, Command, Record};
use crate::store::error::KvStoreError;
use crate::store::log::{
    all_encodable, encode_log, index_of, lemma_parse_log_split, parse_log,
};
use vstd::hash_map::StringHashMap;
use vstd::prelude::*;

verus! {

/// A map from keys to offsets into the log.
pub struct Index {
    map: StringHashMap<u64>,
}

impl View for Index {
    type V = Map<Seq<char>, u64>;

    closed spec fn view(&self) -> Map<Seq<char>, u64> {
        self.map@
    }
}

impl Index {
    /// Whether the index is well formed: it holds finitely many keys.
    /// Every index made by this module is.
    pub open spec fn wf(&self) -> bool {
        self@.dom().finite()
    }

    /// An index without keys.
    pub fn new() -> (index: Index)
        ensures
            index.wf(),
            index@ == Map::<Seq<char>, u64>::empty(),
    {
        Index { map: StringHashMap::new() }
    }

    /// The number of keys.
    pub fn len(&self) -> (n: usize)
        ensures
            n == self@.len(),
    {
        self.map.len()
    }

    /// Whether the index has no keys.
    pub fn is_empty(&self) -> (b: bool)
        ensures
            b == (self@.len() == 0),
    {
        self.len() == 0
    }

    /// Whether `key` has an offset.
    pub fn contains_key(&self, key: &str) -> (b: bool)
        ensures
            b == self@.contains_key(key@),
    {
        self.map.contains_key(key)
    }

    /// The offset of `key`, if it has one.
    pub fn get(&self, key: &str) -> (offset: Option<&u64>)
        ensures
            match offset {
                Some(o) => self@.contains_key(key@) && *o == self@[key@],
                None => !self@.contains_key(key@),
            },
    {
        self.map.get(key)
    }

    /// Gives `key` an offset, in place of the one it had.
    pub fn insert(&mut self, key: String, offset: u64)
        requires
            old(self).wf(),
        ensures
            final(self).wf(),
            final(self)@ == old(self)@.insert(key@, offset),
    {
        self.map.insert(key, offset);
    }

    /// Takes `key` out of the index.
    pub fn remove(&mut self, key: &str)
        requires
            old(self).wf(),
        ensures
            final(self).wf(),
            final(self)@ == old(self)@.remove(key@),
    {
        self.map.remove(key);
    }
}

/// Replays a log from its first byte and returns the index it builds.  A
/// record that cannot be decoded fails the whole replay: nothing is
/// silently cut off.
pub fn build_index(reader: &mut Cursor) -> (r: Result<Index, KvStoreError>)
    ensures
        final(reader)@.bytes == old(reader)@.bytes,
        match parse_log(old(reader)@.bytes) {
            Ok(records) => {
                &&& r matches Ok(index) && index.wf() && index@ == index_of(records)
                &&& final(reader)@.position == old(reader)@.bytes.len()
            },
            Err(kind) => r matches Err(KvStoreError::Serialization(e)) && e.kind == kind,
        },
{
    let ghost bytes = reader@.bytes;
    let ghost mut done: Seq<Record> = Seq::empty();
    reader.seek(0);
    let mut index = Index::new();
    proof {
        assert(bytes.take(0) =~= encode_log(done));
    }
    loop
        invariant
            bytes == old(reader)@.bytes,
            reader@.bytes == bytes,
            reader@.position <= bytes.len(),
            all_encodable(done),
            bytes.take(reader@.position as int) == encode_log(done),
            index@ == index_of(done),
            index.wf(),
        ensures
            reader@.position == bytes.len(),
        decreases bytes.len() - reader@.position,
    {
        let offset = reader.position();
        let ghost rest = reader@.remaining();
        proof {
            lemma_parse_log_split(bytes, done, offset as int);
        }
        match Command::read_next(reader) {
            Ok(Some(command)) => {
                proof {
                    lemma_encode_decode_record(rest);
                    let len = decode_record(rest)->Value_len as int;
                    assert(bytes.take(offset + len) =~= bytes.take(offset as int) + rest.subrange(
                        0,
                        len,
                    ));
                    assert(done.push(command@).drop_last() =~= done);
                    done = done.push(command@);
                }
                match command {
                    Command::Put(put) => index.insert(put.key, offset),
                    Command::Rm(rm) => index.remove(rm.key.as_str()),
                }
            },
            Ok(None) => {
                break ;
            },
            Err(e) => {
                return Err(KvStoreError::Serialization(e));
            },
        }
    }
    proof {
        lemma_parse_log_split(bytes, done, bytes.len() as int);
        assert(bytes.skip(bytes.len() as int) =~= Seq::<u8>::empty());
        assert(done + Seq::<Record>::empty() =~= done);
    }
    Ok(index)
}

} // verus!
