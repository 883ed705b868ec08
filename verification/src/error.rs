use vstd::prelude::*;

verus! {

/// The error taxonomy of the library; every fallible operation reports one of
/// these.
#[derive(Clone, Copy, Debug, PartialEq, Eq, Structural)]
pub enum ReviseError {
    /// A referenced id was absent from the store.
    NotFound(i64),
    /// The underlying storage could not complete an operation, for example
    /// because a uniqueness constraint was violated or an id counter was
    /// exhausted.
    PersistenceFailure,
    /// Authored card content was missing a `title` or `deck` header field.
    ValidationFailure,
    /// A review commit was requested with a rating outside `1..=4`.
    InvalidRating,
    /// The external editor process could not be started.
    EditorLaunchFailure,
}

pub type ReviseResult<T> = Result<T, ReviseError>;

} // verus!
