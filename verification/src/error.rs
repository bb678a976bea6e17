//! The errors that a query for posts can end in.

use crate::post_cursor::PostCursorError;
use vstd::prelude::*;
use vstd::string::StringExecFns;

verus! {

/// Why a query could not be answered.
#[derive(Clone, Copy, Debug, PartialEq, Eq, Structural)]
pub enum QueryError {
    /// `first` was negative.
    NegativeFirst,
    /// `last` was negative.
    NegativeLast,
    /// A cursor could not be read.
    Cursor(PostCursorError),
    /// The store failed.  What it said stays with the store.
    Database,
    /// The oldest of all posts could not be found.
    NoMin,
    /// The newest of all posts could not be found.
    NoMax,
    /// A post of the window has no date.
    NoDate,
    /// A post of the window has no id.
    NoId,
    /// A year and a month, or what was to be reckoned from them, is no date.
    InvalidDate,
    /// A post has no index image.
    NoIndexImage,
    /// The images stored with a post are neither a list nor an object.
    InvalidData,
    /// The image of an author was not among the selected columns.
    ImageNotSelected,
}

impl QueryError {
    /// The text shown for the error.
    pub open spec fn message_text(self) -> Seq<char> {
        match self {
            QueryError::NegativeFirst => "The \"first\" parameter must be a non-negative number"@,
            QueryError::NegativeLast => "The \"last\" parameter must be a non-negative number"@,
            QueryError::Cursor(error) => error.message_text(),
            QueryError::Database => "Database error"@,
            QueryError::NoMin => "Could not get min value"@,
            QueryError::NoMax => "Could not get max value"@,
            QueryError::NoDate => "No date found"@,
            QueryError::NoId => "No id found"@,
            QueryError::InvalidDate => "invalid date"@,
            QueryError::NoIndexImage => "No index image found"@,
            QueryError::InvalidData => "invalid data in database"@,
            QueryError::ImageNotSelected => "Database error: image not selected"@,
        }
    }

    /// The text shown for the error.
    pub fn message(&self) -> (text: String)
        ensures
            text@ == self.message_text(),
    {
        match self {
            QueryError::NegativeFirst => String::from_str(
                "The \"first\" parameter must be a non-negative number",
            ),
            QueryError::NegativeLast => String::from_str(
                "The \"last\" parameter must be a non-negative number",
            ),
            QueryError::Cursor(error) => error.message(),
            QueryError::Database => String::from_str("Database error"),
            QueryError::NoMin => String::from_str("Could not get min value"),
            QueryError::NoMax => String::from_str("Could not get max value"),
            QueryError::NoDate => String::from_str("No date found"),
            QueryError::NoId => String::from_str("No id found"),
            QueryError::InvalidDate => String::from_str("invalid date"),
            QueryError::NoIndexImage => String::from_str("No index image found"),
            QueryError::InvalidData => String::from_str("invalid data in database"),
            QueryError::ImageNotSelected => String::from_str("Database error: image not selected"),
        }
    }

    /// Whether the error is due to what the caller sent, as opposed to the
    /// store or what it holds.
    pub open spec fn caused_by_input(self) -> bool {
        self is NegativeFirst || self is NegativeLast || self is Cursor
    }

    /// Whether the error is due to what the caller sent, as opposed to the
    /// store or what it holds.
    pub fn is_input_error(&self) -> (b: bool)
        ensures
            b == self.caused_by_input(),
    {
        match self {
            QueryError::NegativeFirst | QueryError::NegativeLast | QueryError::Cursor(_) => true,
            _ => false,
        }
    }
}

/// The error for a failure of the store.  What the store reported is
/// dropped, so that nothing of its inner workings reaches the caller.
pub fn db_error<E>(error: E) -> (wrapped: QueryError)
    ensures
        wrapped == QueryError::Database,
{
    QueryError::Database
}

} // verus!
