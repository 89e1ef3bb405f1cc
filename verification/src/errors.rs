//! Error types of the codec.

use vstd::prelude::*;

verus! {

/// Why an encode call refused a batch.
#[derive(Debug, Clone, Copy, PartialEq, Eq, Structural)]
pub enum EncodeError {
    /// The batch holds more rows than a row group counter can address.
    BatchTooLarge,
    /// A record breaks the schema's shape: a fixed-width byte field of the
    /// wrong length, or a variable-length field too long for its length
    /// prefix.
    MalformedRecord,
}

/// Why a decode call refused a byte stream.
#[derive(Debug, Clone, Copy, PartialEq, Eq, Structural)]
pub enum DecodeError {
    /// The bytes are not a container this codec wrote: bad magic, a
    /// truncated stream, a corrupt presence byte, or trailing garbage.
    Malformed,
    /// The container's schema block does not match the schema of the
    /// requested record type.
    SchemaMismatch,
    /// A physically widened integer does not fit back into its logical
    /// width; narrowing is rejected rather than truncated.
    ValueOutOfRange,
}

impl EncodeError {
    /// A short human-readable description.
    pub fn describe(&self) -> String {
        match self {
            EncodeError::BatchTooLarge => "batch holds too many rows".to_owned(),
            EncodeError::MalformedRecord => "record does not fit its schema".to_owned(),
        }
    }
}

impl DecodeError {
    /// A short human-readable description.
    pub fn describe(&self) -> String {
        match self {
            DecodeError::Malformed => "byte stream is not a valid container".to_owned(),
            DecodeError::SchemaMismatch => "container schema does not match the record type".to_owned(),
            DecodeError::ValueOutOfRange => "widened integer exceeds its logical width".to_owned(),
        }
    }
}

} // verus!
