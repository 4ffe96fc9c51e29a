//! The error that the model's checks return.

use vstd::prelude::*;

verus! {

/// Why a description was rejected. Each variant carries a message for the
/// person who wrote the description.
#[derive(Debug)]
pub enum ModelError {
    /// A worker's resources break one of the rules of a descriptor.
    GenericError(String),
    /// A job definition is malformed or breaks one of the rules of its shape.
    DeserializationError(String),
}

impl ModelError {
    /// The message that the error carries.
    pub open spec fn message(self) -> Seq<char> {
        match self {
            ModelError::GenericError(text) => text@,
            ModelError::DeserializationError(text) => text@,
        }
    }

    /// The message that the error carries.
    pub fn to_string(&self) -> (text: String)
        ensures
            text@ == self.message(),
    {
        match self {
            ModelError::GenericError(text) => text.clone(),
            ModelError::DeserializationError(text) => text.clone(),
        }
    }
}

} // verus!
