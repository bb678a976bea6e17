//! A column value that may not have been selected.

use vstd::prelude::*;

verus! {

/// Why a column of a row gave no value.
#[derive(Clone, Copy, Debug, PartialEq, Eq, Structural)]
pub enum ColumnError {
    /// The store holds no value in the column.
    Null,
    /// The column is not part of the row, or holds a value of another kind.
    Missing,
}

/// A value read from a row in which its column may be absent.
///
/// `Maybe` is a thin wrapper over `Option`: `None` stands for a column that
/// was not part of the projection (or could not be read), `Some` for a value
/// that was.
#[derive(Clone, Copy, Debug, PartialEq, Eq, PartialOrd, Ord, Hash)]
pub struct Maybe<T> {
    pub option: Option<T>,
}

impl<T> Maybe<T> {
    /// Wraps an optional column value.
    pub fn new(option: Option<T>) -> (maybe: Self)
        ensures
            maybe.option == option,
    {
        Maybe { option }
    }

    /// The value, if there is one.
    pub fn deref(&self) -> (option: &Option<T>)
        ensures
            *option == self.option,
    {
        &self.option
    }

    /// What a column that was read by name stands for: its value where it
    /// could be read, nothing where it could not.
    pub fn try_get(column: Result<T, ColumnError>) -> (maybe: Self)
        ensures
            maybe.option == (match column {
                Ok(value) => Some(value),
                Err(_) => None,
            }),
    {
        match column {
            Ok(value) => Maybe { option: Some(value) },
            Err(_) => Maybe { option: None },
        }
    }

    /// What a column that was read by index stands for: its value where it
    /// could be read, `default` where the store holds no value, nothing where
    /// the column is not there.
    pub fn try_get_by(column: Result<T, ColumnError>, default: T) -> (maybe: Self)
        ensures
            maybe.option == (match column {
                Ok(value) => Some(value),
                Err(ColumnError::Null) => Some(default),
                Err(ColumnError::Missing) => None,
            }),
    {
        match column {
            Ok(value) => Maybe { option: Some(value) },
            Err(ColumnError::Null) => Maybe { option: Some(default) },
            Err(ColumnError::Missing) => Maybe { option: None },
        }
    }
}

} // verus!
