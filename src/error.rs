//! What can go wrong when a message is read or built.
use vstd::prelude::*;

verus! {

/// The level of a message at which a length check failed.
#[derive(Debug, Clone, Copy, PartialEq, Eq, Structural)]
pub enum Part {
    /// The fixed message header.
    Header,
    /// An attribute of the top-level stream.
    Attribute,
    /// An entry of the nested statistics stream.
    Stats2Entry,
    /// The legacy statistics record.
    Stats,
    /// The one-byte hardware offload flag.
    HwOffload,
}

/// Why a message could not be read, or an options value could not be built.
#[derive(Debug, Clone, Copy, PartialEq, Eq, Structural)]
pub enum DecodeError {
    /// A declared or required length does not fit the bytes at hand.
    Length(Part),
    /// The kind attribute does not hold UTF-8 text.
    InvalidKindText,
    /// An options value was asked for a kind that has no encoding here.
    UnsupportedKind,
}

} // verus!
