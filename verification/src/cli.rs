//! What the commands of the command line print and how they exit.

use crate::store::error::KvStoreError;
use vstd::prelude::*;
use vstd::string::StringExecFns;

verus! {

/// What a command leaves behind: a line on standard output, if it prints
/// one, and its exit code.
#[derive(Debug, PartialEq, Eq)]
pub struct Outcome {
    pub output: Option<String>,
    pub exit_code: i32,
}

/// The line that tells of a key without value.
pub open spec fn key_not_found() -> Seq<char> {
    "Key not found"@
}

/// The outcome of `get`: the value, or `Key not found` for a key without
/// value; the exit code is 0 either way.
pub fn get_outcome(found: Option<String>) -> (outcome: Outcome)
    ensures
        outcome.exit_code == 0,
        outcome.output matches Some(line) && line@ == match found {
            Some(value) => value@,
            None => key_not_found(),
        },
{
    match found {
        Some(value) => Outcome { output: Some(value), exit_code: 0 },
        None => Outcome { output: Some("Key not found".to_owned()), exit_code: 0 },
    }
}

/// The outcome of `rm`: nothing and exit code 0 when the key was removed,
/// `Key not found` and exit code 1 when it had no value.  Any other failure
/// is handed on.
pub fn rm_outcome(result: Result<(), KvStoreError>) -> (r: Result<Outcome, KvStoreError>)
    ensures
        match result {
            Ok(_) => r matches Ok(outcome) && outcome.output is None && outcome.exit_code == 0,
            Err(KvStoreError::KeyNotFound { key: _ }) => r matches Ok(outcome)
                && outcome.exit_code == 1 && (outcome.output matches Some(line) && line@
                == key_not_found()),
            Err(e) => r == Err::<Outcome, KvStoreError>(e),
        },
{
    match result {
        Ok(_) => Ok(Outcome { output: None, exit_code: 0 }),
        Err(KvStoreError::KeyNotFound { key: _ }) => Ok(
            Outcome { output: Some("Key not found".to_owned()), exit_code: 1 },
        ),
        Err(e) => Err(e),
    }
}

/// The line that `list` prints for an entry.
pub fn list_line(key: &str, value: &str) -> (line: String)
    ensures
        line@ == key@ + " -> "@ + value@,
{
    let mut line = key.to_owned();
    line.append(" -> ");
    line.append(value);
    line
}

} // verus!
