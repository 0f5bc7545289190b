//! The closed failure taxonomies of the engine.  Errors are returned as
//! values; nothing in this crate uses them for control flow elsewhere.

use vstd::prelude::*;

verus! {

/// Why a decode failed.  A failed decode is fatal for the whole operation:
/// the decoder's stream position is unspecified afterwards and the instance
/// must be discarded.
#[derive(Clone, Copy, PartialEq, Eq, Structural, Debug)]
pub enum DecodeError {
    /// The byte-budget accountant would have exceeded the configured limit
    /// (or its counter would have overflowed).
    LimitExceeded,
    /// The reader could not supply the requested bytes.
    UnexpectedEnd,
    /// A well-delimited value was read but is not a valid encoding: a width
    /// tag that no encoder emits, a non-minimal integer encoding, an
    /// out-of-range variant index or scalar, or an invalid text byte
    /// sequence.
    InvalidValue,
    /// The requested operation is not expressible in this format (for
    /// example a self-describing "decode whatever is there" request).
    Unsupported,
}

/// Why an encode failed.
#[derive(Clone, Copy, PartialEq, Eq, Structural, Debug)]
pub enum EncodeError {
    /// The sink could not accept the bytes: the total written would not fit
    /// in the sink's address space.
    SinkFull,
}

} // verus!
