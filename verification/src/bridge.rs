//! The decode-side decisions behind a generic visitor-driven
//! deserialization protocol.
//!
//! An adapter can serve a visitor-based data-binding framework purely in
//! terms of this engine: primitives decode directly, an optional value is a
//! one-byte discriminant and then the payload, an enum value is a variant
//! index checked against the variant count, sequences and maps follow the
//! container protocol with a remaining-count state machine, and requests
//! the format cannot answer — "decode whatever is there", identifiers,
//! "ignore the rest" — are refused outright, since the format is not
//! self-describing and never silently skips bytes.  Everything here is the
//! decision logic; the visitor plumbing itself lives outside the verified
//! engine.

use vstd::prelude::*;

use crate::de::DecoderImpl;
use crate::error::DecodeError;
use crate::wire::{lemma_pow256_8, lemma_uint_outcome_bound, uint_outcome, word_outcome};

verus! {

/// Decode the one-byte discriminant of an optional value: 0 is absent, 1 is
/// present (the payload follows), anything else is invalid.
pub fn decode_option_variant<'de, Ctx>(d: &mut DecoderImpl<'de, Ctx>) -> (r: Result<
    bool,
    DecodeError,
>)
    requires
        old(d).wf(),
    ensures
        old(d).frames(*final(d)),
        match word_outcome(old(d).remaining(), old(d).claimed(), old(d).config, 1) {
            Ok((v, used)) => if v <= 1 {
                r matches Ok(present) && present == (v == 1) && old(d).advanced_by(
                    *final(d),
                    used,
                )
            } else {
                r == Err::<bool, DecodeError>(DecodeError::InvalidValue)
            },
            Err(e) => r == Err::<bool, DecodeError>(e) && *final(d) == *old(d),
        },
{
    proof {
        lemma_pow256_8();
        if old(d).remaining().len() >= 1 {
            crate::wire::lemma_word_val_single(
                old(d).remaining().take(1),
                old(d).config.endianness,
            );
        }
    }
    let v = d.decode_word(1)?;
    if v > 1 {
        return Err(DecodeError::InvalidValue);
    }
    Ok(v == 1)
}

/// Decode an enum's variant index — a 32-bit unsigned integer under the
/// configured width policy — and reject an index at or past the declared
/// variant count as an invalid encoding.
pub fn decode_variant_index<'de, Ctx>(d: &mut DecoderImpl<'de, Ctx>, variants: u32) -> (r: Result<
    u32,
    DecodeError,
>)
    requires
        old(d).wf(),
    ensures
        old(d).frames(*final(d)),
        match uint_outcome(old(d).remaining(), old(d).claimed(), old(d).config, 4) {
            Ok((v, used)) => if v < variants {
                r matches Ok(idx) && idx as nat == v && old(d).advanced_by(*final(d), used)
            } else {
                r == Err::<u32, DecodeError>(DecodeError::InvalidValue)
            },
            Err(e) => r == Err::<u32, DecodeError>(e),
        },
{
    proof {
        lemma_pow256_8();
        lemma_uint_outcome_bound(old(d).remaining(), old(d).claimed(), old(d).config, 4);
    }
    let v = d.decode_uint(4)?;
    if v >= variants as u64 {
        return Err(DecodeError::InvalidValue);
    }
    Ok(v as u32)
}

/// Refuse a request the format cannot answer: it is not self-describing,
/// so nothing can be decoded without a declared shape, no identifiers
/// travel on the wire, and remaining data is never silently skipped.
pub fn reject_self_describing<T>() -> (r: Result<T, DecodeError>)
    ensures
        r == Err::<T, DecodeError>(DecodeError::Unsupported),
{
    Err(DecodeError::Unsupported)
}

/// The remaining-count state machine behind sequence and map access: a
/// tuple or struct visit hands out exactly the declared number of element
/// slots, a sequence or map visit the number read from the stream.
pub struct BridgeAccess {
    pub remaining: usize,
}

impl BridgeAccess {
    /// Start handing out `len` slots.
    pub fn new(len: usize) -> (r: BridgeAccess)
        ensures
            r.remaining == len,
    {
        BridgeAccess { remaining: len }
    }

    /// Claim the next slot: true and one fewer remaining while any are
    /// left, false (and no change) once exhausted.
    pub fn take_slot(&mut self) -> (r: bool)
        ensures
            r == (old(self).remaining > 0),
            r ==> final(self).remaining == old(self).remaining - 1,
            !r ==> final(self).remaining == old(self).remaining,
    {
        if self.remaining > 0 {
            self.remaining = self.remaining - 1;
            true
        } else {
            false
        }
    }

    /// How many slots are left: the hint handed to the visitor.
    pub fn size_hint(&self) -> (r: usize)
        ensures
            r == self.remaining,
    {
        self.remaining
    }
}

} // verus!
