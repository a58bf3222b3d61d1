//! The library's error type.

use vstd::prelude::*;

verus! {

/// An error surfaced to the caller.  Transport and I/O failures are wrapped
/// into the message by the code that performs them.
#[derive(Debug)]
pub enum OssError {
    Message(String),
}

impl OssError {
    /// The error text.
    pub fn message(&self) -> (r: &String)
        ensures
            *self == OssError::Message(*r),
    {
        match self {
            OssError::Message(s) => s,
        }
    }
}

} // verus!
