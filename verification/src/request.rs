//! The course of a request, step by step.
//!
//! A request runs inside a transaction of the store, but for a request that
//! asks about the schema itself, which touches no data.  Beginning,
//! running and committing are the caller's work; what to do next, given what
//! happened last, is decided here.

use vstd::prelude::*;
use vstd::string::StringExecFns;

verus! {

/// The name by which a request asks about the schema.
pub const INTROSPECTION: &'static str = "IntrospectionQuery";

/// What happened last in the course of a request.
#[derive(Clone, Debug, PartialEq, Eq)]
pub enum Happened {
    /// The request arrived, under the given operation name.
    Arrived(Option<String>),
    /// The store began a transaction, or failed to.
    Began(bool),
    /// The request ran outside of any transaction.
    Ran,
    /// The request ran inside the transaction.
    RanInside,
    /// The store committed the transaction, or failed to.
    Committed(bool),
}

/// What to do next in the course of a request.
#[derive(Clone, Copy, Debug, PartialEq, Eq, Structural)]
pub enum Next {
    /// Run the request as it is.
    Run,
    /// Have the store begin a transaction.
    Begin,
    /// Run the request inside the transaction.
    RunInside,
    /// Have the store commit the transaction.
    Commit,
    /// Answer with what the run gave.
    Answer,
    /// Note that the commit failed, and answer with what the run gave.
    AnswerAfterFailedCommit,
    /// Answer that the transaction could not be begun.
    Refuse,
}

/// The answer to a request whose transaction could not be begun.
pub const BEGIN_FAILED: &'static str = "Transaction begin failed";

/// Whether a request under the given operation name asks about the schema.
pub open spec fn is_introspection(operation_name: Option<String>) -> bool {
    operation_name matches Some(name) && name@ == INTROSPECTION@
}

/// What follows on what happened.
pub open spec fn follows(happened: Happened) -> Next {
    match happened {
        Happened::Arrived(operation_name) => if is_introspection(operation_name) {
            Next::Run
        } else {
            Next::Begin
        },
        Happened::Began(true) => Next::RunInside,
        Happened::Began(false) => Next::Refuse,
        Happened::Ran => Next::Answer,
        Happened::RanInside => Next::Commit,
        Happened::Committed(true) => Next::Answer,
        Happened::Committed(false) => Next::AnswerAfterFailedCommit,
    }
}

/// Decides the next step of a request from what happened last.
pub fn graphql(happened: &Happened) -> (next: Next)
    ensures
        next == follows(*happened),
{
    match happened {
        Happened::Arrived(None) => Next::Begin,
        Happened::Arrived(Some(name)) => {
            let introspection = String::from_str(INTROSPECTION);
            if *name == introspection {
                Next::Run
            } else {
                Next::Begin
            }
        },
        Happened::Began(true) => Next::RunInside,
        Happened::Began(false) => Next::Refuse,
        Happened::Ran => Next::Answer,
        Happened::RanInside => Next::Commit,
        Happened::Committed(true) => Next::Answer,
        Happened::Committed(false) => Next::AnswerAfterFailedCommit,
    }
}

} // verus!
