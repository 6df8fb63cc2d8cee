//! A general error carrying a message.
use vstd::prelude::*;

verus! {

/// An error described by a message.
#[derive(Debug)]
pub struct GeneralError {
    details: String,
}

impl GeneralError {
    /// The message this error carries.
    pub closed spec fn details(&self) -> Seq<char> {
        self.details@
    }

    pub fn new(msg: &str) -> (r: Self)
        ensures
            r.details() == msg@,
    {
        GeneralError { details: msg.to_string() }
    }

    /// The message, as the error's text form.
    pub fn message(&self) -> (r: String)
        ensures
            r@ == self.details(),
    {
        self.details.clone()
    }
}

/// Failures at the byte-encoding boundary.
#[derive(Debug, PartialEq, Eq, Structural)]
pub enum CodecError {
    /// The value could not be encoded.
    EncodingError,
    /// The bytes are malformed, truncated, carry trailing bytes, or do not
    /// describe a valid value.
    DecodingError,
}

} // verus!
