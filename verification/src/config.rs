//! Decode/encode policy: byte order, integer width strategy, and an optional
//! ceiling on the number of bytes one decode session may commit to reading.

use vstd::prelude::*;

verus! {

/// Byte order used for multi-byte integers.
#[derive(Clone, Copy, PartialEq, Eq, Structural, Debug)]
pub enum Endianness {
    Little,
    Big,
}

/// How integers and container lengths are laid out on the wire.
#[derive(Clone, Copy, PartialEq, Eq, Structural, Debug)]
pub enum IntWidth {
    /// Every integer takes exactly as many bytes as its type is wide.
    Fixed,
    /// Small values take one byte; larger values take a one-byte width tag
    /// followed by a 2-, 4- or 8-byte payload.
    Variable,
}

/// Optional ceiling on the bytes a single decode session may claim.
#[derive(Clone, Copy, PartialEq, Eq, Structural, Debug)]
pub enum Limit {
    Unbounded,
    Bounded(usize),
}

/// A pure, stateless policy object shared read-only by every encode and
/// decode operation that uses it.
#[derive(Clone, Copy, PartialEq, Eq, Structural, Debug)]
pub struct Config {
    pub endianness: Endianness,
    pub int_width: IntWidth,
    pub limit: Limit,
}

impl Config {
    /// Little-endian, variable-width integers, no decode budget.
    pub fn standard() -> (c: Config)
        ensures
            c == (Config {
                endianness: Endianness::Little,
                int_width: IntWidth::Variable,
                limit: Limit::Unbounded,
            }),
    {
        Config { endianness: Endianness::Little, int_width: IntWidth::Variable, limit: Limit::Unbounded }
    }

    /// The same policy with a byte budget of `l`.
    pub fn with_limit(self, l: usize) -> (c: Config)
        ensures
            c == (Config { limit: Limit::Bounded(l), ..self }),
    {
        Config { limit: Limit::Bounded(l), ..self }
    }

    /// The same policy with big-endian byte order.
    pub fn with_big_endian(self) -> (c: Config)
        ensures
            c == (Config { endianness: Endianness::Big, ..self }),
    {
        Config { endianness: Endianness::Big, ..self }
    }

    /// The same policy with fixed-width integer encoding.
    pub fn with_fixed_int_encoding(self) -> (c: Config)
        ensures
            c == (Config { int_width: IntWidth::Fixed, ..self }),
    {
        Config { int_width: IntWidth::Fixed, ..self }
    }
}

} // verus!
