//! Error kinds shared by the models and the codec.

use vstd::prelude::*;

verus! {

/// What can go wrong while building, encoding, decoding or checking a model.
#[derive(Debug, Clone, PartialEq, Eq)]
pub enum ModelsError {
    /// The value cannot be written in the compact format.
    SerializeError(String),
    /// The bytes are malformed, truncated or larger than a configured cap.
    DeserializeError(String),
    /// A digest could not be rebuilt from its bytes or its text.
    HashError,
    /// A signature does not match the signed message and key, or a key is unusable.
    InvalidSignature,
    /// A textual identifier carries another prefix than the expected one
    /// (expected, found).
    WrongPrefix(String, String),
}

impl ModelsError {
    /// True for the decoding failures.
    pub open spec fn is_deserialize(self) -> bool {
        self is DeserializeError
    }

    /// True for the encoding failures.
    pub open spec fn is_serialize(self) -> bool {
        self is SerializeError
    }
}

/// A decoding failure with the given reason.
pub fn deserialize_error(reason: &str) -> (e: ModelsError)
    ensures
        e matches ModelsError::DeserializeError(s) && s@ == reason@,
{
    ModelsError::DeserializeError(reason.to_owned())
}

/// An encoding failure with the given reason.
pub fn serialize_error(reason: &str) -> (e: ModelsError)
    ensures
        e matches ModelsError::SerializeError(s) && s@ == reason@,
{
    ModelsError::SerializeError(reason.to_owned())
}

} // verus!
