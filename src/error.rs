use vstd::prelude::*;

verus! {

/// Failure while turning a record into canonical JSON text.
#[derive(Debug, Clone, PartialEq, Eq)]
pub enum SerializationError {
    /// The record holds a value that canonical JSON cannot express
    /// (a timestamp outside the representable range).
    Unrepresentable,
}

/// Failure while reading a record or a byte blob back from text.
#[derive(Debug, Clone, PartialEq, Eq)]
pub enum DeserializationError {
    /// The text holds a character outside the URL-safe base64 alphabet.
    Alphabet,
    /// The text does not decode to exactly the required number of bytes.
    Length,
    /// The text does not have the shape of the expected record.
    Schema(String),
}

} // verus!
