//! Errors of the codecs.

use crate::types::Type;
use vstd::prelude::*;

verus! {

/// Why a column could not be encoded or decoded.
#[derive(Debug, PartialEq, Eq)]
pub enum Error {
    /// No codec handles the type at this point; carries the type as given.
    UnsupportedType(Type),
    /// The array's layout is not one the selected codec accepts; the message
    /// lists every layout it accepts.
    ArrowSerialize(String),
    /// The bytes do not hold a column of the expected type.
    ArrowDeserialize(String),
}

} // verus!
