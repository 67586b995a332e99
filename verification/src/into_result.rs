//! Normalizing the outcome of a unit of work.
//!
//! A session's unit of work may hand back nothing, an `Option`, or a
//! `Result`; all three are normalized to one success-or-message shape, so
//! a single reporting path can handle whatever the caller wrote.

use vstd::prelude::*;

use crate::document_error::{spec_message, DocumentError};

verus! {

/// Types a unit of work may return.  `spec_outcome` is the normalized
/// meaning; `into_result` computes it, carrying the failure as the
/// message to report.
pub trait IntoResult: Sized {
    /// The normalized meaning of this outcome.
    spec fn spec_outcome(self) -> Result<(), Seq<char>>;

    /// Normalize to success or a failure message.
    fn into_result(self) -> (r: Result<(), String>)
        ensures
            (match self.spec_outcome() {
                Ok(u) => r is Ok,
                Err(m) => r matches Err(s) && s@ == m,
            }),
    ;
}

impl IntoResult for () {
    open spec fn spec_outcome(self) -> Result<(), Seq<char>> {
        Result::Ok(())
    }

    fn into_result(self) -> (r: Result<(), String>) {
        Result::Ok(())
    }
}

impl<T> IntoResult for Option<T> {
    open spec fn spec_outcome(self) -> Result<(), Seq<char>> {
        match self {
            Option::Some(_) => Result::Ok(()),
            Option::None => Result::Err("NoneError: expected Some(...), got None."@),
        }
    }

    fn into_result(self) -> (r: Result<(), String>) {
        match self {
            Option::Some(_) => Result::Ok(()),
            Option::None => Result::Err(
                String::from_str("NoneError: expected Some(...), got None."),
            ),
        }
    }
}

impl<T> IntoResult for Result<T, DocumentError> {
    open spec fn spec_outcome(self) -> Result<(), Seq<char>> {
        match self {
            Result::Ok(_) => Result::Ok(()),
            Result::Err(e) => Result::Err(spec_message(e)),
        }
    }

    fn into_result(self) -> (r: Result<(), String>) {
        match self {
            Result::Ok(_) => Result::Ok(()),
            Result::Err(e) => Result::Err(e.message()),
        }
    }
}

} // verus!
