//! The error that operations on the store give.
use vstd::prelude::*;

verus! {

/// An error with a message and no kind of its own.
#[derive(Debug, PartialEq, Eq)]
pub struct StoreError {
    pub message: String,
}

/// The error with the given message.
pub fn other_error(msg: String) -> (r: StoreError)
    ensures
        r.message@ == msg@,
{
    StoreError { message: msg }
}

} // verus!
