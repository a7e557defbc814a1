//! The one error every app command reports: a message the window shows as
//! it is.

use vstd::prelude::*;

use crate::text::string_of;

verus! {

/// A command failure, as the window receives it.
#[derive(Debug, Clone, PartialEq, Eq)]
pub struct AppError {
    /// Human-readable, already-localised message.
    pub message: String,
}

impl AppError {
    /// An error carrying `message`.
    pub fn new(message: &str) -> (e: AppError)
        ensures
            e.message@ == message@,
    {
        AppError { message: string_of(message) }
    }
}

} // verus!
