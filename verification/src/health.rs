//! Whether the process is in good health, judged by its number of threads.
//!
//! The kernel reports on a process in one line of fields with a space
//! between them; the twentieth is the number of threads.

use crate::text::{chars_of, field_bounds, nth_field, parse_unsigned, unsigned_from_text};
use vstd::prelude::*;
use vstd::string::StringExecFns;

verus! {

/// Which field of the kernel's report holds the number of threads, counted
/// from 0.
pub const THREADS_FIELD: usize = 19;

/// The number of threads from which on a process counts as unwell.
pub const TOO_MANY_THREADS: u64 = 10000;

/// Why the number of threads could not be read.
#[derive(Clone, Copy, Debug, PartialEq, Eq, Structural)]
pub enum StatError {
    /// The report has fewer than twenty fields.
    NoSuchField,
    /// The twentieth field is no number.
    NotANumber,
}

impl StatError {
    /// The text shown for the error.
    pub open spec fn message_text(self) -> Seq<char> {
        match self {
            StatError::NoSuchField => "No 20th element in /proc/stat"@,
            StatError::NotANumber => "Not a number"@,
        }
    }

    /// The text shown for the error.
    pub fn message(&self) -> (text: String)
        ensures
            text@ == self.message_text(),
    {
        match self {
            StatError::NoSuchField => String::from_str("No 20th element in /proc/stat"),
            StatError::NotANumber => String::from_str("Not a number"),
        }
    }
}

/// The number of threads that a report states.
pub open spec fn threads_in(stat: Seq<char>) -> Result<u64, StatError> {
    match nth_field(stat, ' ', THREADS_FIELD as nat) {
        None => Err(StatError::NoSuchField),
        Some(field) => match unsigned_from_text(field, u64::MAX as nat) {
            None => Err(StatError::NotANumber),
            Some(threads) => Ok(threads as u64),
        },
    }
}

/// Reads the number of threads from the kernel's report on the process.
pub fn num_threads(stat: &str) -> (threads: Result<u64, StatError>)
    ensures
        threads == threads_in(stat@),
{
    let chars = chars_of(stat);
    match field_bounds(&chars, ' ', THREADS_FIELD) {
        None => Err(StatError::NoSuchField),
        Some((from, to)) => match parse_unsigned(&chars, from, to, u64::MAX) {
            None => Err(StatError::NotANumber),
            Some(threads) => Ok(threads),
        },
    }
}

/// The status with which the process answers when asked whether it is
/// alive: 200 where the number of threads is known and below
/// [`TOO_MANY_THREADS`], 500 otherwise.
pub fn liveness(threads: Result<u64, StatError>) -> (status: u16)
    ensures
        status == (if threads is Ok && threads->Ok_0 < TOO_MANY_THREADS {
            200u16
        } else {
            500u16
        }),
{
    match threads {
        Ok(threads) => if threads < TOO_MANY_THREADS {
            200
        } else {
            500
        },
        Err(_) => 500,
    }
}

} // verus!
