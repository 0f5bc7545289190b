//! A compact, schema-less binary wire format with budgeted decoding.
//!
//! Values are written as fixed- or variable-width integers, length-prefixed
//! containers and raw byte runs, according to a [`config::Config`] chosen per
//! call.  Decoding tracks every byte it commits to against an optional byte
//! budget, so a hostile length field is rejected before it can drive an
//! allocation or a loop.

pub mod bridge;
pub mod codec;
pub mod config;
pub mod cont;
pub mod de;
pub mod enc;
pub mod error;
pub mod generate;
pub mod parse;
pub mod prim;
pub mod text;
pub mod token;
pub mod wire;

pub use codec::{
    decode_from_slice, decode_from_slice_with_context, encode_to_vec, lemma_round_trip,
    lemma_wire_unambiguous, Codec,
};
pub use config::Config;
pub use error::{DecodeError, EncodeError};
pub use text::borrow_decode_from_slice;
