//! Runtime support for generated code: the decoding interface that
//! generated types implement.

use vstd::prelude::*;

verus! {

/// Any error a [`Deserialize`] implementation can report.
#[derive(Debug, Clone, PartialEq)]
pub enum DeserializeError {
    Custom(String),
}

/// Deserialize something from its binary form, returning the value and the
/// rest of the buffer.
pub trait Deserialize<'de>: Sized {
    fn deserialize(buffer: &'de [u8]) -> Result<(Self, &'de [u8]), DeserializeError>;
}

} // verus!
