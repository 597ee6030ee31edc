//! The storage engine: a log of records and an index into it.
//!
//! The engine works on the bytes of the log and never touches a file.  Its
//! caller reads the log file before the store is opened and, after each
//! write, makes the change that the operation reports durable.

pub mod command;
pub mod compaction;
pub mod error;
pub mod index;
pub mod laws;
pub mod log;

use crate::cursor::Cursor;
use crate::store::command::{Command, Put, Record, Rm};
use crate::store::compaction::{
    compact, compacted, lemma_compaction_keeps_contents, live_commands, views,
};
use crate::store::error::KvStoreError;
use crate::store::index::{build_index, Index};
use crate::store::log::{
    contents_of, encode_log, index_of, last_mention, lemma_decode_at_offset, lemma_index_of,
    lemma_last_mention, lemma_parse_encode_log, lemma_parse_log_append, lemma_parse_log_exact,
    log_contents, parse_log,
};
use vstd::prelude::*;

verus! {

/// The name of the log file inside the store's directory.
pub const LOG_FILE_NAME: &'static str = "log.kvs";

/// The name of the file beside the log file in which a compacted log is
/// written before it takes the log file's place.
pub const LOG_TEMP_FILE_NAME: &'static str = "log.kvs.tmp";

/// The size in bytes above which a write compacts the log.
pub const COMPACTION_THRESHOLD: u64 = 1048576;

/// What was found at the path that a store is opened at.
pub enum DataDir {
    /// The path is not an existing directory.
    NotADirectory,
    /// The path is a directory; `log` holds the bytes of its log file, none
    /// if the file was missing and has been created.
    Directory { log: Vec<u8> },
}

/// What a write did to the log, for the caller to make durable.
#[derive(Clone, Copy, Debug, PartialEq, Eq, Structural)]
pub enum LogChange {
    /// One record was added; it starts at offset `from`, where the log
    /// ended before.
    Appended { from: u64 },
    /// The log was compacted: all of it is to be replaced.
    Rewritten,
}

/// The log after `set`: the log with a `Put` record added, or the
/// compaction of that when it has outgrown the threshold.
pub open spec fn log_after_set(log: Seq<u8>, key: Seq<char>, value: Seq<char>) -> Seq<u8> {
    let appended = log + (Record::Put { key, value }).encode();
    match parse_log(appended) {
        Ok(records) if appended.len() > COMPACTION_THRESHOLD => encode_log(
            compacted(records, index_of(records)),
        ),
        _ => appended,
    }
}

/// The log after a `remove` that found its key: the log with an `Rm` record
/// added.
pub open spec fn log_after_remove(log: Seq<u8>, key: Seq<char>) -> Seq<u8> {
    log + (Record::Rm { key }).encode()
}

/// A key-value store: string keys with string values, kept in a log.
pub struct KvStore {
    log: Vec<u8>,
    index: Index,
}

impl View for KvStore {
    type V = Map<Seq<char>, Seq<char>>;

    /// The value of every key that has one.
    open spec fn view(&self) -> Map<Seq<char>, Seq<char>> {
        log_contents(self.log_view())
    }
}

impl KvStore {
    /// The bytes of the log.
    pub closed spec fn log_view(&self) -> Seq<u8> {
        self.log@
    }

    /// Whether the store is well formed: its log can be read, and its index
    /// is the one that replaying the log builds.
    pub closed spec fn wf(&self) -> bool {
        &&& self.index.wf()
        &&& parse_log(self.log@) matches Ok(records) && self.index@ == index_of(records)
    }

    /// In a well-formed store the log can be read.
    pub proof fn lemma_wf_log(&self)
        requires
            self.wf(),
        ensures
            parse_log(self.log_view()) is Ok,
    {
    }

    /// Opens a store on what was found at its path.  Fails with
    /// `InvalidPath` if that is not a directory, and with `Serialization`
    /// if the log holds a record that cannot be decoded.
    pub fn open(found: DataDir) -> (r: Result<KvStore, KvStoreError>)
        ensures
            match found {
                DataDir::NotADirectory => r matches Err(KvStoreError::InvalidPath),
                DataDir::Directory { log } => match parse_log(log@) {
                    Ok(_) => r matches Ok(store) && store.wf() && store.log_view() == log@,
                    Err(kind) => r matches Err(KvStoreError::Serialization(e)) && e.kind == kind,
                },
            },
    {
        match found {
            DataDir::NotADirectory => Err(KvStoreError::InvalidPath),
            DataDir::Directory { log } => {
                let mut reader = Cursor::new(log.as_slice());
                match build_index(&mut reader) {
                    Ok(index) => Ok(KvStore { log, index }),
                    Err(e) => Err(e),
                }
            },
        }
    }

    /// The bytes of the log, as they are to stand in the log file.  The log
    /// of a well-formed store can be read.
    pub fn log(&self) -> (bytes: &[u8])
        ensures
            bytes@ == self.log_view(),
            self.wf() ==> parse_log(bytes@) is Ok,
    {
        self.log.as_slice()
    }

    /// Closes the store and hands out the bytes of its log, on which a
    /// well-formed store can be opened again.
    pub fn into_log(self) -> (bytes: Vec<u8>)
        ensures
            bytes@ == self.log_view(),
            self.wf() ==> parse_log(bytes@) is Ok,
    {
        self.log
    }

    /// Sets the value of a key, in place of the one it had.
    ///
    /// A `Put` record is appended to the log and the index updated; if the
    /// log is then longer than the threshold, it is compacted and the index
    /// rebuilt.  This never fails.
    pub fn set(&mut self, key: String, value: String) -> (r: Result<LogChange, KvStoreError>)
        requires
            old(self).wf(),
        ensures
            final(self).wf(),
            final(self).log_view() == log_after_set(old(self).log_view(), key@, value@),
            final(self)@ == old(self)@.insert(key@, value@),
            r matches Ok(change) && change == (if old(self).log_view().len() + (Record::Put {
                key: key@,
                value: value@,
            }).encode().len() > COMPACTION_THRESHOLD {
                LogChange::Rewritten
            } else {
                LogChange::Appended { from: old(self).log_view().len() as u64 }
            }),
    {
        let offset = self.log.len() as u64;
        let command = Command::Put(Put { key: key.clone(), value });
        let ghost before = parse_log(self.log@)->Ok_0;
        let _ = command.serialize_into(&mut self.log);
        self.index.insert(key, offset);
        let ghost records = before.push(command@);
        let size = self.log.len() as u64;
        proof {
            lemma_parse_log_append(old(self).log@, command@);
            lemma_parse_log_exact(old(self).log@);
            lemma_parse_log_exact(self.log@);
            assert(records.drop_last() =~= before);
        }
        if size > COMPACTION_THRESHOLD {
            proof {
                lemma_compaction_keeps_contents(records);
                lemma_parse_encode_log(compacted(records, index_of(records)));
            }
            match compact(&mut self.log, &self.index) {
                Ok(()) => {},
                Err(e) => {
                    return Err(e);
                },
            }
            let mut reader = Cursor::new(self.log.as_slice());
            match build_index(&mut reader) {
                Ok(index) => {
                    self.index = index;
                },
                Err(e) => {
                    return Err(e);
                },
            }
            Ok(LogChange::Rewritten)
        } else {
            Ok(LogChange::Appended { from: offset })
        }
    }

    /// The value of a key, or `None` when it has none.  On a well-formed
    /// store this never fails.
    pub fn get(&self, key: String) -> (r: Result<Option<String>, KvStoreError>)
        requires
            self.wf(),
        ensures
            r matches Ok(found) && match found {
                Some(value) => self@.contains_key(key@) && self@[key@] == value@,
                None => !self@.contains_key(key@),
            },
    {
        let ghost records = parse_log(self.log@)->Ok_0;
        proof {
            lemma_buffer_bound(&self.log);
            lemma_parse_log_exact(self.log@);
            lemma_index_of(records, key@);
            lemma_last_mention(records, key@);
        }
        let offset = match self.index.get(key.as_str()) {
            Some(offset) => *offset,
            None => {
                return Ok(None);
            },
        };
        proof {
            lemma_decode_at_offset(records, last_mention(records, key@));
        }
        let mut reader = Cursor::new(self.log.as_slice());
        reader.seek(offset);
        match Command::deserialize_from(&mut reader) {
            Ok(Command::Put(put)) => Ok(Some(put.value)),
            Ok(_) => Err(KvStoreError::IndexDesynced),
            Err(e) => Err(KvStoreError::Serialization(e)),
        }
    }

    /// Removes a key.  Fails with `KeyNotFound`, and writes nothing, if the
    /// key has no value; otherwise an `Rm` record is appended to the log
    /// and the key erased from the index.
    pub fn remove(&mut self, key: String) -> (r: Result<LogChange, KvStoreError>)
        requires
            old(self).wf(),
        ensures
            final(self).wf(),
            match r {
                Ok(change) => {
                    &&& old(self)@.contains_key(key@)
                    &&& final(self).log_view() == log_after_remove(old(self).log_view(), key@)
                    &&& final(self)@ == old(self)@.remove(key@)
                    &&& change == (LogChange::Appended { from: old(self).log_view().len() as u64 })
                },
                Err(e) => {
                    &&& !old(self)@.contains_key(key@)
                    &&& final(self).log_view() == old(self).log_view()
                    &&& e matches KvStoreError::KeyNotFound { key: missing } && missing@ == key@
                },
            },
    {
        let ghost before = parse_log(self.log@)->Ok_0;
        proof {
            lemma_buffer_bound(&self.log);
            lemma_parse_log_exact(self.log@);
            lemma_index_of(before, key@);
        }
        if !self.index.contains_key(key.as_str()) {
            return Err(KvStoreError::KeyNotFound { key });
        }
        let offset = self.log.len() as u64;
        let command = Command::Rm(Rm { key });
        let _ = command.serialize_into(&mut self.log);
        match &command {
            Command::Rm(rm) => self.index.remove(rm.key.as_str()),
            Command::Put(_) => {},
        }
        proof {
            lemma_parse_log_append(old(self).log@, command@);
            assert(before.push(command@).drop_last() =~= before);
        }
        Ok(LogChange::Appended { from: offset })
    }

    /// Every key with its value, once, in the order of the records that
    /// gave them.  On a well-formed store this never fails.
    pub fn list(&self) -> (r: Result<Vec<(String, String)>, KvStoreError>)
        requires
            self.wf(),
        ensures
            r matches Ok(entries) && parse_log(self.log_view()) matches Ok(records) && {
                let live = compacted(records, index_of(records));
                &&& entries.len() == live.len()
                &&& forall|i: int|
                    0 <= i < entries.len() ==> (#[trigger] live[i]) == (Record::Put {
                        key: entries[i].0@,
                        value: entries[i].1@,
                    })
                &&& contents_of(live) == self@
                &&& entries.len() == self@.len()
            },
    {
        let ghost records = parse_log(self.log@)->Ok_0;
        proof {
            lemma_buffer_bound(&self.log);
            lemma_parse_log_exact(self.log@);
            lemma_compaction_keeps_contents(records);
            assert(self@.dom() =~= self.index@.dom()) by {
                assert forall|key: Seq<char>|
                    self@.dom().contains(key) == self.index@.dom().contains(key) by {
                    lemma_index_of(records, key);
                }
            }
        }
        let commands = match live_commands(self.log.as_slice(), &self.index) {
            Ok(commands) => commands,
            Err(e) => {
                return Err(e);
            },
        };
        let ghost live = compacted(records, index_of(records));
        proof {
            lemma_compacted_are_puts(records, index_of(records));
        }
        let mut entries: Vec<(String, String)> = Vec::new();
        let mut i: usize = 0;
        while i < commands.len()
            invariant
                i <= commands.len(),
                views(commands@) == live,
                forall|j: int| 0 <= j < live.len() ==> (#[trigger] live[j]) is Put,
                entries.len() == i,
                forall|j: int|
                    0 <= j < i ==> (#[trigger] live[j]) == (Record::Put {
                        key: entries[j].0@,
                        value: entries[j].1@,
                    }),
            decreases commands.len() - i,
        {
            assert(live[i as int] == commands[i as int]@);
            match &commands[i] {
                Command::Put(put) => {
                    entries.push((put.key.clone(), put.value.clone()));
                },
                Command::Rm(_) => {},
            }
            i = i + 1;
        }
        Ok(entries)
    }
}

/// Compaction keeps `Put` records only.
pub proof fn lemma_compacted_are_puts(records: Seq<Record>, index: Map<Seq<char>, u64>)
    ensures
        forall|j: int|
            0 <= j < compacted(records, index).len() ==> (#[trigger] compacted(
                records,
                index,
            )[j]) is Put,
    decreases records.len(),
{
    if records.len() > 0 {
        lemma_compacted_are_puts(records.drop_last(), index);
    }
}

/// A buffer in memory is no longer than the largest offset.
proof fn lemma_buffer_bound(buffer: &Vec<u8>)
    ensures
        buffer@.len() <= u64::MAX,
{
    assert(buffer@.len() == buffer.len());
}

} // verus!
