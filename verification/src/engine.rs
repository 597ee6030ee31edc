//! The contract between the server and a storage engine.

use crate::store::error::KvStoreError;
use crate::store::{log_after_remove, log_after_set, KvStore};
use vstd::prelude::*;
use vstd::string::StringExecFns;

verus! {

/// Why an engine could not carry out an operation.
#[derive(Debug)]
pub enum KvsEngineError {
    /// The key to remove has no value.
    EntryNotFound { key: String },
    /// Any other failure; the text is the cause.
    Other(String),
}

impl KvsEngineError {
    /// The text shown for this error.
    pub open spec fn message(self) -> Seq<char> {
        match self {
            KvsEngineError::EntryNotFound { key } => "entry with key `"@ + key@ + "` not found"@,
            KvsEngineError::Other(cause) => cause@,
        }
    }

    /// The text, as a string.
    pub fn to_string(&self) -> (text: String)
        ensures
            text@ == self.message(),
    {
        match self {
            KvsEngineError::EntryNotFound { key } => {
                let mut text = "entry with key `".to_owned();
                text.append(key.as_str());
                text.append("` not found");
                text
            },
            KvsEngineError::Other(cause) => cause.clone(),
        }
    }
}

impl From<KvStoreError> for KvsEngineError {
    /// A missing key stays a missing key; of any other failure the text is
    /// kept.
    fn from(value: KvStoreError) -> (e: KvsEngineError)
        ensures
            converts(value, e),
    {
        match value {
            KvStoreError::KeyNotFound { key } => KvsEngineError::EntryNotFound { key },
            other => KvsEngineError::Other(other.to_string()),
        }
    }
}

/// Whether `e` is what the store's failure `value` becomes for the server.
pub open spec fn converts(value: KvStoreError, e: KvsEngineError) -> bool {
    match value {
        KvStoreError::KeyNotFound { key } => e == (KvsEngineError::EntryNotFound { key }),
        other => e matches KvsEngineError::Other(cause) && cause@ == other.message(),
    }
}

impl vstd::std_specs::convert::FromSpecImpl<KvStoreError> for KvsEngineError {
    /// The result holds a text that is made anew, so it is stated by
    /// [`converts`], over what the text says, and not as a value.
    open spec fn obeys_from_spec() -> bool {
        false
    }

    open spec fn from_spec(value: KvStoreError) -> KvsEngineError {
        match value {
            KvStoreError::KeyNotFound { key } => KvsEngineError::EntryNotFound { key },
            KvStoreError::Io(cause) => KvsEngineError::Other(cause),
            _ => KvsEngineError::Other(arbitrary()),
        }
    }
}

/// What a removal amounts to for an engine that reports whether the key
/// had a value before: done if it had one, `EntryNotFound` if it had none.
pub fn removal_result(found: bool, key: &str) -> (r: Result<(), KvsEngineError>)
    ensures
        match r {
            Ok(_) => found,
            Err(e) => {
                &&& !found
                &&& e matches KvsEngineError::EntryNotFound { key: missing } && missing@ == key@
            },
        },
{
    if found {
        Ok(())
    } else {
        Err(KvsEngineError::EntryNotFound { key: key.to_owned() })
    }
}

/// A storage engine: string keys with string values.
///
/// An engine may keep an invariant of its own, `valid`, which every
/// operation needs and keeps.  It may also say what its operations do, by
/// the relations `did_set`, `did_get` and `did_remove` between the engine
/// before the call, the engine after it, the arguments and the result.  An
/// engine that states nothing promises nothing: what the server answers is
/// then decided from what the engine returns alone.
pub trait KvsEngine {
    /// The engine's own invariant; none unless the engine states one.
    open spec fn valid(&self) -> bool {
        true
    }

    /// What `set` does; anything unless the engine states it.
    open spec fn did_set(
        &self,
        after: &Self,
        key: Seq<char>,
        value: Seq<char>,
        r: Result<(), KvsEngineError>,
    ) -> bool {
        true
    }

    /// What `get` does; anything unless the engine states it.
    open spec fn did_get(
        &self,
        after: &Self,
        key: Seq<char>,
        r: Result<Option<String>, KvsEngineError>,
    ) -> bool {
        true
    }

    /// What `remove` does; anything unless the engine states it.
    open spec fn did_remove(
        &self,
        after: &Self,
        key: Seq<char>,
        r: Result<(), KvsEngineError>,
    ) -> bool {
        true
    }

    /// Sets the value of a key.
    fn set(&mut self, key: String, value: String) -> (r: Result<(), KvsEngineError>)
        requires
            old(self).valid(),
        ensures
            final(self).valid(),
            old(self).did_set(final(self), key@, value@, r),
    ;

    /// The value of a key, or `None` when it has none.
    fn get(&mut self, key: &str) -> (r: Result<Option<String>, KvsEngineError>)
        requires
            old(self).valid(),
        ensures
            final(self).valid(),
            old(self).did_get(final(self), key@, r),
    ;

    /// Removes a key; fails with `EntryNotFound` when it has no value.
    fn remove(&mut self, key: &str) -> (r: Result<(), KvsEngineError>)
        requires
            old(self).valid(),
        ensures
            final(self).valid(),
            old(self).did_remove(final(self), key@, r),
    ;
}

/// An engine in a box is the engine.
impl<T: KvsEngine> KvsEngine for Box<T> {
    open spec fn valid(&self) -> bool {
        (**self).valid()
    }

    open spec fn did_set(
        &self,
        after: &Self,
        key: Seq<char>,
        value: Seq<char>,
        r: Result<(), KvsEngineError>,
    ) -> bool {
        (**self).did_set(&**after, key, value, r)
    }

    open spec fn did_get(
        &self,
        after: &Self,
        key: Seq<char>,
        r: Result<Option<String>, KvsEngineError>,
    ) -> bool {
        (**self).did_get(&**after, key, r)
    }

    open spec fn did_remove(
        &self,
        after: &Self,
        key: Seq<char>,
        r: Result<(), KvsEngineError>,
    ) -> bool {
        (**self).did_remove(&**after, key, r)
    }

    fn set(&mut self, key: String, value: String) -> (r: Result<(), KvsEngineError>) {
        (**self).set(key, value)
    }

    fn get(&mut self, key: &str) -> (r: Result<Option<String>, KvsEngineError>) {
        (**self).get(key)
    }

    fn remove(&mut self, key: &str) -> (r: Result<(), KvsEngineError>) {
        (**self).remove(key)
    }
}

/// The store as an engine, to the letter of its own operations: `set` and
/// `get` never fail, and `remove` fails, with `EntryNotFound`, exactly when
/// the key has no value.
impl KvsEngine for KvStore {
    open spec fn valid(&self) -> bool {
        self.wf()
    }

    open spec fn did_set(
        &self,
        after: &Self,
        key: Seq<char>,
        value: Seq<char>,
        r: Result<(), KvsEngineError>,
    ) -> bool {
        &&& r is Ok
        &&& after.log_view() == log_after_set(self.log_view(), key, value)
        &&& after@ == self@.insert(key, value)
    }

    open spec fn did_get(
        &self,
        after: &Self,
        key: Seq<char>,
        r: Result<Option<String>, KvsEngineError>,
    ) -> bool {
        &&& after.log_view() == self.log_view()
        &&& r matches Ok(found) && match found {
            Some(value) => self@.contains_key(key) && self@[key] == value@,
            None => !self@.contains_key(key),
        }
    }

    open spec fn did_remove(
        &self,
        after: &Self,
        key: Seq<char>,
        r: Result<(), KvsEngineError>,
    ) -> bool {
        match r {
            Ok(_) => {
                &&& self@.contains_key(key)
                &&& after.log_view() == log_after_remove(self.log_view(), key)
                &&& after@ == self@.remove(key)
            },
            Err(e) => {
                &&& !self@.contains_key(key)
                &&& after.log_view() == self.log_view()
                &&& e matches KvsEngineError::EntryNotFound { key: missing } && missing@ == key
            },
        }
    }

    fn set(&mut self, key: String, value: String) -> (r: Result<(), KvsEngineError>) {
        match KvStore::set(self, key, value) {
            Ok(_) => Ok(()),
            Err(e) => Err(KvsEngineError::from(e)),
        }
    }

    fn get(&mut self, key: &str) -> (r: Result<Option<String>, KvsEngineError>) {
        match KvStore::get(self, key.to_owned()) {
            Ok(found) => Ok(found),
            Err(e) => Err(KvsEngineError::from(e)),
        }
    }

    fn remove(&mut self, key: &str) -> (r: Result<(), KvsEngineError>) {
        match KvStore::remove(self, key.to_owned()) {
            Ok(_) => Ok(()),
            Err(e) => Err(KvsEngineError::from(e)),
        }
    }
}

} // verus!
