//! The error taxonomy every operation of this layer can surface.

use vstd::prelude::*;

verus! {

/// The kinds of failure an operation can report: the addressed entity is
/// absent, the caller is authenticated but lacks the required role, no valid
/// identity was supplied, or the storage layer failed.
#[derive(Clone, Copy, Debug, PartialEq, Eq, Structural)]
pub enum AppError {
    NotFound,
    Forbidden,
    Unauthenticated,
    Internal,
}

impl AppError {
    /// The HTTP status code conventionally used for each error kind.
    pub fn status_code(&self) -> (code: u16)
        ensures
            self is NotFound ==> code == 404,
            self is Forbidden ==> code == 403,
            self is Unauthenticated ==> code == 401,
            self is Internal ==> code == 500,
    {
        match self {
            AppError::NotFound => 404,
            AppError::Forbidden => 403,
            AppError::Unauthenticated => 401,
            AppError::Internal => 500,
        }
    }
}

} // verus!
