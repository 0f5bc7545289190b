//! [`Codec`] for the primitive types.
//!
//! Unsigned integers follow the configured width policy directly.  Signed
//! integers ride the same unsigned layouts through the zigzag map, which
//! sends small magnitudes of either sign to small unsigned values.  `bool`
//! is one byte, 0 or 1.  `char` travels as its 32-bit scalar value, and a
//! decoder rejects anything that is not a Unicode scalar.

use vstd::prelude::*;

use crate::codec::Codec;
use crate::config::Config;
use crate::de::DecoderImpl;
use crate::enc::{EncoderImpl, Writer};
use crate::error::{DecodeError, EncodeError};
use crate::wire::{
    len_wire, lemma_len_outcome_parse, lemma_parse_len_sound, lemma_parse_len_wire,
    lemma_parse_uint_sound, lemma_parse_uint_wire, lemma_pow256_8, lemma_uint_outcome_bound,
    lemma_uint_outcome_parse, parse_len, parse_uint, pow256, uint_wire,
};

verus! {

impl Codec for u8 {
    open spec fn vwire(v: u8, cfg: Config) -> Seq<u8> {
        uint_wire(v as nat, 1, cfg)
    }

    open spec fn v_valid(v: u8) -> bool {
        true
    }

    open spec fn parse(bytes: Seq<u8>, cfg: Config) -> Option<(u8, nat)> {
        match parse_uint(bytes, cfg, 1) {
            Some((v, n)) => Some((v as u8, n)),
            None => None,
        }
    }

    open spec fn spec_footprint() -> nat {
        1
    }

    fn footprint() -> (n: usize) {
        1
    }

    open spec fn peak(bytes: Seq<u8>, cfg: Config) -> nat {
        match parse_uint(bytes, cfg, 1) {
            Some((v, n)) => n,
            None => 0,
        }
    }

    proof fn lemma_peak_bound(bytes: Seq<u8>, cfg: Config) {
    }

    proof fn lemma_parse_wire(v: u8, cfg: Config, rest: Seq<u8>) {
        lemma_pow256_8();
        lemma_parse_uint_wire(v as nat, 1, cfg, rest);
    }

    proof fn lemma_parse_sound(bytes: Seq<u8>, cfg: Config) {
        lemma_pow256_8();
        lemma_parse_uint_sound(bytes, cfg, 1);
    }

    fn encode<W: Writer>(&self, enc: &mut EncoderImpl<W>) -> (r: Result<(), EncodeError>) {
        proof {
            lemma_pow256_8();
        }
        enc.encode_uint(*self as u64, 1)
    }

    fn decode<'de, Ctx>(d: &mut DecoderImpl<'de, Ctx>) -> (r: Result<u8, DecodeError>) {
        proof {
            lemma_pow256_8();
            crate::wire::lemma_uint_outcome_budget(
                old(d).remaining(),
                old(d).claimed(),
                old(d).config,
                1,
            );
            lemma_uint_outcome_parse(old(d).remaining(), old(d).claimed(), old(d).config, 1);
        }
        let v = d.decode_uint(1)?;
        Ok(v as u8)
    }
}

impl Codec for u16 {
    open spec fn vwire(v: u16, cfg: Config) -> Seq<u8> {
        uint_wire(v as nat, 2, cfg)
    }

    open spec fn v_valid(v: u16) -> bool {
        true
    }

    open spec fn parse(bytes: Seq<u8>, cfg: Config) -> Option<(u16, nat)> {
        match parse_uint(bytes, cfg, 2) {
            Some((v, n)) => Some((v as u16, n)),
            None => None,
        }
    }

    open spec fn spec_footprint() -> nat {
        2
    }

    fn footprint() -> (n: usize) {
        2
    }

    open spec fn peak(bytes: Seq<u8>, cfg: Config) -> nat {
        match parse_uint(bytes, cfg, 2) {
            Some((v, n)) => n,
            None => 0,
        }
    }

    proof fn lemma_peak_bound(bytes: Seq<u8>, cfg: Config) {
    }

    proof fn lemma_parse_wire(v: u16, cfg: Config, rest: Seq<u8>) {
        lemma_pow256_8();
        lemma_parse_uint_wire(v as nat, 2, cfg, rest);
    }

    proof fn lemma_parse_sound(bytes: Seq<u8>, cfg: Config) {
        lemma_pow256_8();
        lemma_parse_uint_sound(bytes, cfg, 2);
    }

    fn encode<W: Writer>(&self, enc: &mut EncoderImpl<W>) -> (r: Result<(), EncodeError>) {
        proof {
            lemma_pow256_8();
        }
        enc.encode_uint(*self as u64, 2)
    }

    fn decode<'de, Ctx>(d: &mut DecoderImpl<'de, Ctx>) -> (r: Result<u16, DecodeError>) {
        proof {
            lemma_pow256_8();
            crate::wire::lemma_uint_outcome_budget(
                old(d).remaining(),
                old(d).claimed(),
                old(d).config,
                2,
            );
            lemma_uint_outcome_parse(old(d).remaining(), old(d).claimed(), old(d).config, 2);
        }
        let v = d.decode_uint(2)?;
        Ok(v as u16)
    }
}

impl Codec for u32 {
    open spec fn vwire(v: u32, cfg: Config) -> Seq<u8> {
        uint_wire(v as nat, 4, cfg)
    }

    open spec fn v_valid(v: u32) -> bool {
        true
    }

    open spec fn parse(bytes: Seq<u8>, cfg: Config) -> Option<(u32, nat)> {
        match parse_uint(bytes, cfg, 4) {
            Some((v, n)) => Some((v as u32, n)),
            None => None,
        }
    }

    open spec fn spec_footprint() -> nat {
        4
    }

    fn footprint() -> (n: usize) {
        4
    }

    open spec fn peak(bytes: Seq<u8>, cfg: Config) -> nat {
        match parse_uint(bytes, cfg, 4) {
            Some((v, n)) => n,
            None => 0,
        }
    }

    proof fn lemma_peak_bound(bytes: Seq<u8>, cfg: Config) {
    }

    proof fn lemma_parse_wire(v: u32, cfg: Config, rest: Seq<u8>) {
        lemma_pow256_8();
        lemma_parse_uint_wire(v as nat, 4, cfg, rest);
    }

    proof fn lemma_parse_sound(bytes: Seq<u8>, cfg: Config) {
        lemma_pow256_8();
        lemma_parse_uint_sound(bytes, cfg, 4);
    }

    fn encode<W: Writer>(&self, enc: &mut EncoderImpl<W>) -> (r: Result<(), EncodeError>) {
        proof {
            lemma_pow256_8();
        }
        enc.encode_uint(*self as u64, 4)
    }

    fn decode<'de, Ctx>(d: &mut DecoderImpl<'de, Ctx>) -> (r: Result<u32, DecodeError>) {
        proof {
            lemma_pow256_8();
            crate::wire::lemma_uint_outcome_budget(
                old(d).remaining(),
                old(d).claimed(),
                old(d).config,
                4,
            );
            lemma_uint_outcome_parse(old(d).remaining(), old(d).claimed(), old(d).config, 4);
        }
        let v = d.decode_uint(4)?;
        Ok(v as u32)
    }
}

impl Codec for u64 {
    open spec fn vwire(v: u64, cfg: Config) -> Seq<u8> {
        uint_wire(v as nat, 8, cfg)
    }

    open spec fn v_valid(v: u64) -> bool {
        true
    }

    open spec fn parse(bytes: Seq<u8>, cfg: Config) -> Option<(u64, nat)> {
        match parse_uint(bytes, cfg, 8) {
            Some((v, n)) => Some((v as u64, n)),
            None => None,
        }
    }

    open spec fn spec_footprint() -> nat {
        8
    }

    fn footprint() -> (n: usize) {
        8
    }

    open spec fn peak(bytes: Seq<u8>, cfg: Config) -> nat {
        match parse_uint(bytes, cfg, 8) {
            Some((v, n)) => n,
            None => 0,
        }
    }

    proof fn lemma_peak_bound(bytes: Seq<u8>, cfg: Config) {
    }

    proof fn lemma_parse_wire(v: u64, cfg: Config, rest: Seq<u8>) {
        lemma_pow256_8();
        lemma_parse_uint_wire(v as nat, 8, cfg, rest);
    }

    proof fn lemma_parse_sound(bytes: Seq<u8>, cfg: Config) {
        lemma_pow256_8();
        lemma_parse_uint_sound(bytes, cfg, 8);
    }

    fn encode<W: Writer>(&self, enc: &mut EncoderImpl<W>) -> (r: Result<(), EncodeError>) {
        proof {
            lemma_pow256_8();
        }
        enc.encode_uint(*self as u64, 8)
    }

    fn decode<'de, Ctx>(d: &mut DecoderImpl<'de, Ctx>) -> (r: Result<u64, DecodeError>) {
        proof {
            lemma_pow256_8();
            crate::wire::lemma_uint_outcome_budget(
                old(d).remaining(),
                old(d).claimed(),
                old(d).config,
                8,
            );
            lemma_uint_outcome_parse(old(d).remaining(), old(d).claimed(), old(d).config, 8);
        }
        let v = d.decode_uint(8)?;
        Ok(v as u64)
    }
}

impl Codec for usize {
    open spec fn vwire(v: usize, cfg: Config) -> Seq<u8> {
        len_wire(v as nat, cfg)
    }

    open spec fn v_valid(v: usize) -> bool {
        true
    }

    open spec fn parse(bytes: Seq<u8>, cfg: Config) -> Option<(usize, nat)> {
        match parse_len(bytes, cfg) {
            Some((v, n)) => Some((v as usize, n)),
            None => None,
        }
    }

    open spec fn spec_footprint() -> nat {
        8
    }

    fn footprint() -> (n: usize) {
        8
    }

    open spec fn peak(bytes: Seq<u8>, cfg: Config) -> nat {
        match parse_len(bytes, cfg) {
            Some((v, n)) => n,
            None => 0,
        }
    }

    proof fn lemma_peak_bound(bytes: Seq<u8>, cfg: Config) {
    }

    proof fn lemma_parse_wire(v: usize, cfg: Config, rest: Seq<u8>) {
        lemma_parse_len_wire(v as nat, cfg, rest);
    }

    proof fn lemma_parse_sound(bytes: Seq<u8>, cfg: Config) {
        lemma_parse_len_sound(bytes, cfg);
    }

    fn encode<W: Writer>(&self, enc: &mut EncoderImpl<W>) -> (r: Result<(), EncodeError>) {
        enc.encode_len(*self)
    }

    fn decode<'de, Ctx>(d: &mut DecoderImpl<'de, Ctx>) -> (r: Result<usize, DecodeError>) {
        proof {
            lemma_len_outcome_parse(old(d).remaining(), old(d).claimed(), old(d).config);
            crate::wire::lemma_len_outcome_budget(
                old(d).remaining(),
                old(d).claimed(),
                old(d).config,
            );
        }
        let v = d.decode_len()?;
        Ok(v)
    }
}

impl Codec for bool {
    open spec fn vwire(v: bool, cfg: Config) -> Seq<u8> {
        seq![if v { 1u8 } else { 0u8 }]
    }

    open spec fn v_valid(v: bool) -> bool {
        true
    }

    open spec fn parse(bytes: Seq<u8>, cfg: Config) -> Option<(bool, nat)> {
        if bytes.len() >= 1 && bytes[0] <= 1 {
            Some((bytes[0] == 1, 1))
        } else {
            None
        }
    }

    open spec fn spec_footprint() -> nat {
        1
    }

    fn footprint() -> (n: usize) {
        1
    }

    open spec fn peak(bytes: Seq<u8>, cfg: Config) -> nat {
        if Self::parse(bytes, cfg) is Some {
            1
        } else {
            0
        }
    }

    proof fn lemma_peak_bound(bytes: Seq<u8>, cfg: Config) {
    }

    proof fn lemma_parse_wire(v: bool, cfg: Config, rest: Seq<u8>) {
        let w = Self::vwire(v, cfg);
        assert((w + rest)[0] == w[0]);
    }

    proof fn lemma_parse_sound(bytes: Seq<u8>, cfg: Config) {
        if Self::parse(bytes, cfg) is Some {
            let (v, n) = Self::parse(bytes, cfg)->Some_0;
            assert(Self::vwire(v, cfg) =~= bytes.take(1));
        }
    }

    fn encode<W: Writer>(&self, enc: &mut EncoderImpl<W>) -> (r: Result<(), EncodeError>) {
        proof {
            lemma_pow256_8();
        }
        let byte: u64 = if *self {
            1
        } else {
            0
        };
        let r = enc.encode_uint(byte, 1);
        proof {
            assert(uint_wire(byte as nat, 1, old(enc).config) =~= Self::vwire(
                *self,
                old(enc).config,
            ));
        }
        r
    }

    fn decode<'de, Ctx>(d: &mut DecoderImpl<'de, Ctx>) -> (r: Result<bool, DecodeError>) {
        proof {
            lemma_pow256_8();
            if old(d).remaining().len() >= 1 {
                crate::wire::lemma_word_val_single(
                    old(d).remaining().take(1),
                    old(d).config.endianness,
                );
            }
        }
        let v = d.decode_word(1)?;
        if v > 1 {
            return Err(DecodeError::InvalidValue);
        }
        Ok(v == 1)
    }
}

/// The zigzag map: signed values interleaved onto the unsigned line, so
/// small magnitudes of either sign get small unsigned values (0, -1, 1, -2,
/// 2, ... become 0, 1, 2, 3, 4, ...).
pub open spec fn zigzag(v: int) -> nat {
    if v >= 0 {
        (2 * v) as nat
    } else {
        (-2 * v - 1) as nat
    }
}

/// The inverse of the zigzag map.
pub open spec fn unzigzag(u: nat) -> int {
    if u % 2 == 0 {
        (u / 2) as int
    } else {
        -(((u + 1) / 2) as int)
    }
}

pub proof fn lemma_zigzag_round(v: int)
    ensures
        unzigzag(zigzag(v)) == v,
{
}

pub proof fn lemma_unzigzag_round(u: nat)
    ensures
        zigzag(unzigzag(u)) == u,
{
}

/// Zigzag is a bijection between the two's-complement range of a `w`-byte
/// signed type and the unsigned values below `pow256(w)`.
pub proof fn lemma_zigzag_width(v: int, w: nat)
    requires
        -(pow256(w) / 2) <= v < pow256(w) / 2,
        pow256(w) % 2 == 0,
    ensures
        zigzag(v) < pow256(w),
{
}

pub proof fn lemma_unzigzag_width(u: nat, w: nat)
    requires
        u < pow256(w),
        pow256(w) % 2 == 0,
    ensures
        -(pow256(w) / 2) <= unzigzag(u) < pow256(w) / 2,
{
}

/// The zigzag map, executably.
pub fn zigzag_enc(v: i64) -> (u: u64)
    ensures
        u as nat == zigzag(v as int),
{
    if v >= 0 {
        (v as u64) * 2
    } else {
        let m = -(v + 1);
        (m as u64) * 2 + 1
    }
}

/// The inverse zigzag map, executably.
pub fn zigzag_dec(u: u64) -> (v: i64)
    ensures
        v as int == unzigzag(u as nat),
{
    if u % 2 == 0 {
        (u / 2) as i64
    } else {
        -((u / 2) as i64) - 1
    }
}

impl Codec for i8 {
    open spec fn vwire(v: i8, cfg: Config) -> Seq<u8> {
        uint_wire(zigzag(v as int), 1, cfg)
    }

    open spec fn v_valid(v: i8) -> bool {
        true
    }

    open spec fn parse(bytes: Seq<u8>, cfg: Config) -> Option<(i8, nat)> {
        match parse_uint(bytes, cfg, 1) {
            Some((v, n)) => Some((unzigzag(v) as i8, n)),
            None => None,
        }
    }

    open spec fn spec_footprint() -> nat {
        1
    }

    fn footprint() -> (n: usize) {
        1
    }

    open spec fn peak(bytes: Seq<u8>, cfg: Config) -> nat {
        match parse_uint(bytes, cfg, 1) {
            Some((v, n)) => n,
            None => 0,
        }
    }

    proof fn lemma_peak_bound(bytes: Seq<u8>, cfg: Config) {
    }

    proof fn lemma_parse_wire(v: i8, cfg: Config, rest: Seq<u8>) {
        lemma_pow256_8();
        lemma_zigzag_width(v as int, 1);
        lemma_parse_uint_wire(zigzag(v as int), 1, cfg, rest);
        lemma_zigzag_round(v as int);
    }

    proof fn lemma_parse_sound(bytes: Seq<u8>, cfg: Config) {
        lemma_pow256_8();
        lemma_parse_uint_sound(bytes, cfg, 1);
        if parse_uint(bytes, cfg, 1) is Some {
            let (v, n) = parse_uint(bytes, cfg, 1)->Some_0;
            lemma_unzigzag_width(v, 1);
            lemma_unzigzag_round(v);
        }
    }

    fn encode<W: Writer>(&self, enc: &mut EncoderImpl<W>) -> (r: Result<(), EncodeError>) {
        proof {
            lemma_pow256_8();
            lemma_zigzag_width(*self as int, 1);
        }
        enc.encode_uint(zigzag_enc(*self as i64), 1)
    }

    fn decode<'de, Ctx>(d: &mut DecoderImpl<'de, Ctx>) -> (r: Result<i8, DecodeError>) {
        proof {
            lemma_pow256_8();
            crate::wire::lemma_uint_outcome_budget(
                old(d).remaining(),
                old(d).claimed(),
                old(d).config,
                1,
            );
            lemma_uint_outcome_parse(old(d).remaining(), old(d).claimed(), old(d).config, 1);
            lemma_uint_outcome_bound(
                old(d).remaining(),
                old(d).claimed(),
                old(d).config,
                1,
            );
        }
        let u = d.decode_uint(1)?;
        proof {
            lemma_unzigzag_width(u as nat, 1);
        }
        Ok(zigzag_dec(u) as i8)
    }
}

impl Codec for i16 {
    open spec fn vwire(v: i16, cfg: Config) -> Seq<u8> {
        uint_wire(zigzag(v as int), 2, cfg)
    }

    open spec fn v_valid(v: i16) -> bool {
        true
    }

    open spec fn parse(bytes: Seq<u8>, cfg: Config) -> Option<(i16, nat)> {
        match parse_uint(bytes, cfg, 2) {
            Some((v, n)) => Some((unzigzag(v) as i16, n)),
            None => None,
        }
    }

    open spec fn spec_footprint() -> nat {
        2
    }

    fn footprint() -> (n: usize) {
        2
    }

    open spec fn peak(bytes: Seq<u8>, cfg: Config) -> nat {
        match parse_uint(bytes, cfg, 2) {
            Some((v, n)) => n,
            None => 0,
        }
    }

    proof fn lemma_peak_bound(bytes: Seq<u8>, cfg: Config) {
    }

    proof fn lemma_parse_wire(v: i16, cfg: Config, rest: Seq<u8>) {
        lemma_pow256_8();
        lemma_zigzag_width(v as int, 2);
        lemma_parse_uint_wire(zigzag(v as int), 2, cfg, rest);
        lemma_zigzag_round(v as int);
    }

    proof fn lemma_parse_sound(bytes: Seq<u8>, cfg: Config) {
        lemma_pow256_8();
        lemma_parse_uint_sound(bytes, cfg, 2);
        if parse_uint(bytes, cfg, 2) is Some {
            let (v, n) = parse_uint(bytes, cfg, 2)->Some_0;
            lemma_unzigzag_width(v, 2);
            lemma_unzigzag_round(v);
        }
    }

    fn encode<W: Writer>(&self, enc: &mut EncoderImpl<W>) -> (r: Result<(), EncodeError>) {
        proof {
            lemma_pow256_8();
            lemma_zigzag_width(*self as int, 2);
        }
        enc.encode_uint(zigzag_enc(*self as i64), 2)
    }

    fn decode<'de, Ctx>(d: &mut DecoderImpl<'de, Ctx>) -> (r: Result<i16, DecodeError>) {
        proof {
            lemma_pow256_8();
            crate::wire::lemma_uint_outcome_budget(
                old(d).remaining(),
                old(d).claimed(),
                old(d).config,
                2,
            );
            lemma_uint_outcome_parse(old(d).remaining(), old(d).claimed(), old(d).config, 2);
            lemma_uint_outcome_bound(
                old(d).remaining(),
                old(d).claimed(),
                old(d).config,
                2,
            );
        }
        let u = d.decode_uint(2)?;
        proof {
            lemma_unzigzag_width(u as nat, 2);
        }
        Ok(zigzag_dec(u) as i16)
    }
}

impl Codec for i32 {
    open spec fn vwire(v: i32, cfg: Config) -> Seq<u8> {
        uint_wire(zigzag(v as int), 4, cfg)
    }

    open spec fn v_valid(v: i32) -> bool {
        true
    }

    open spec fn parse(bytes: Seq<u8>, cfg: Config) -> Option<(i32, nat)> {
        match parse_uint(bytes, cfg, 4) {
            Some((v, n)) => Some((unzigzag(v) as i32, n)),
            None => None,
        }
    }

    open spec fn spec_footprint() -> nat {
        4
    }

    fn footprint() -> (n: usize) {
        4
    }

    open spec fn peak(bytes: Seq<u8>, cfg: Config) -> nat {
        match parse_uint(bytes, cfg, 4) {
            Some((v, n)) => n,
            None => 0,
        }
    }

    proof fn lemma_peak_bound(bytes: Seq<u8>, cfg: Config) {
    }

    proof fn lemma_parse_wire(v: i32, cfg: Config, rest: Seq<u8>) {
        lemma_pow256_8();
        lemma_zigzag_width(v as int, 4);
        lemma_parse_uint_wire(zigzag(v as int), 4, cfg, rest);
        lemma_zigzag_round(v as int);
    }

    proof fn lemma_parse_sound(bytes: Seq<u8>, cfg: Config) {
        lemma_pow256_8();
        lemma_parse_uint_sound(bytes, cfg, 4);
        if parse_uint(bytes, cfg, 4) is Some {
            let (v, n) = parse_uint(bytes, cfg, 4)->Some_0;
            lemma_unzigzag_width(v, 4);
            lemma_unzigzag_round(v);
        }
    }

    fn encode<W: Writer>(&self, enc: &mut EncoderImpl<W>) -> (r: Result<(), EncodeError>) {
        proof {
            lemma_pow256_8();
            lemma_zigzag_width(*self as int, 4);
        }
        enc.encode_uint(zigzag_enc(*self as i64), 4)
    }

    fn decode<'de, Ctx>(d: &mut DecoderImpl<'de, Ctx>) -> (r: Result<i32, DecodeError>) {
        proof {
            lemma_pow256_8();
            crate::wire::lemma_uint_outcome_budget(
                old(d).remaining(),
                old(d).claimed(),
                old(d).config,
                4,
            );
            lemma_uint_outcome_parse(old(d).remaining(), old(d).claimed(), old(d).config, 4);
            lemma_uint_outcome_bound(
                old(d).remaining(),
                old(d).claimed(),
                old(d).config,
                4,
            );
        }
        let u = d.decode_uint(4)?;
        proof {
            lemma_unzigzag_width(u as nat, 4);
        }
        Ok(zigzag_dec(u) as i32)
    }
}

impl Codec for i64 {
    open spec fn vwire(v: i64, cfg: Config) -> Seq<u8> {
        uint_wire(zigzag(v as int), 8, cfg)
    }

    open spec fn v_valid(v: i64) -> bool {
        true
    }

    open spec fn parse(bytes: Seq<u8>, cfg: Config) -> Option<(i64, nat)> {
        match parse_uint(bytes, cfg, 8) {
            Some((v, n)) => Some((unzigzag(v) as i64, n)),
            None => None,
        }
    }

    open spec fn spec_footprint() -> nat {
        8
    }

    fn footprint() -> (n: usize) {
        8
    }

    open spec fn peak(bytes: Seq<u8>, cfg: Config) -> nat {
        match parse_uint(bytes, cfg, 8) {
            Some((v, n)) => n,
            None => 0,
        }
    }

    proof fn lemma_peak_bound(bytes: Seq<u8>, cfg: Config) {
    }

    proof fn lemma_parse_wire(v: i64, cfg: Config, rest: Seq<u8>) {
        lemma_pow256_8();
        lemma_zigzag_width(v as int, 8);
        lemma_parse_uint_wire(zigzag(v as int), 8, cfg, rest);
        lemma_zigzag_round(v as int);
    }

    proof fn lemma_parse_sound(bytes: Seq<u8>, cfg: Config) {
        lemma_pow256_8();
        lemma_parse_uint_sound(bytes, cfg, 8);
        if parse_uint(bytes, cfg, 8) is Some {
            let (v, n) = parse_uint(bytes, cfg, 8)->Some_0;
            lemma_unzigzag_width(v, 8);
            lemma_unzigzag_round(v);
        }
    }

    fn encode<W: Writer>(&self, enc: &mut EncoderImpl<W>) -> (r: Result<(), EncodeError>) {
        proof {
            lemma_pow256_8();
            lemma_zigzag_width(*self as int, 8);
        }
        enc.encode_uint(zigzag_enc(*self as i64), 8)
    }

    fn decode<'de, Ctx>(d: &mut DecoderImpl<'de, Ctx>) -> (r: Result<i64, DecodeError>) {
        proof {
            lemma_pow256_8();
            crate::wire::lemma_uint_outcome_budget(
                old(d).remaining(),
                old(d).claimed(),
                old(d).config,
                8,
            );
            lemma_uint_outcome_parse(old(d).remaining(), old(d).claimed(), old(d).config, 8);
            lemma_uint_outcome_bound(
                old(d).remaining(),
                old(d).claimed(),
                old(d).config,
                8,
            );
        }
        let u = d.decode_uint(8)?;
        proof {
            lemma_unzigzag_width(u as nat, 8);
        }
        Ok(zigzag_dec(u) as i64)
    }
}

/// Relies on `char::from_u32`: returns `Some` exactly for Unicode scalar
/// values (not a surrogate, at most `char::MAX`), and the returned `char`
/// has that scalar value.
#[verifier::external_body]
fn char_from_u32(v: u32) -> (r: Option<char>)
    ensures
        match r {
            Some(c) => vstd::utf8::is_scalar(v) && c as u32 == v,
            None => !vstd::utf8::is_scalar(v),
        },
{
    char::from_u32(v)
}

impl Codec for char {
    open spec fn vwire(v: char, cfg: Config) -> Seq<u8> {
        uint_wire((v as u32) as nat, 4, cfg)
    }

    open spec fn v_valid(v: char) -> bool {
        true
    }

    open spec fn parse(bytes: Seq<u8>, cfg: Config) -> Option<(char, nat)> {
        match parse_uint(bytes, cfg, 4) {
            Some((v, n)) => if vstd::utf8::is_scalar(v as u32) {
                Some(((v as u32) as char, n))
            } else {
                None
            },
            None => None,
        }
    }

    open spec fn spec_footprint() -> nat {
        4
    }

    fn footprint() -> (n: usize) {
        4
    }

    open spec fn peak(bytes: Seq<u8>, cfg: Config) -> nat {
        match parse_uint(bytes, cfg, 4) {
            Some((v, n)) => n,
            None => 0,
        }
    }

    proof fn lemma_peak_bound(bytes: Seq<u8>, cfg: Config) {
    }

    proof fn lemma_parse_wire(v: char, cfg: Config, rest: Seq<u8>) {
        lemma_pow256_8();
        lemma_parse_uint_wire((v as u32) as nat, 4, cfg, rest);
        vstd::utf8::char_is_scalar(v);
        vstd::utf8::char_u32_cast(v, v as u32);
    }

    proof fn lemma_parse_sound(bytes: Seq<u8>, cfg: Config) {
        lemma_pow256_8();
        lemma_parse_uint_sound(bytes, cfg, 4);
        if parse_uint(bytes, cfg, 4) is Some {
            let (v, n) = parse_uint(bytes, cfg, 4)->Some_0;
            if vstd::utf8::is_scalar(v as u32) {
                vstd::utf8::char_u32_cast((v as u32) as char, v as u32);
            }
        }
    }

    fn encode<W: Writer>(&self, enc: &mut EncoderImpl<W>) -> (r: Result<(), EncodeError>) {
        proof {
            lemma_pow256_8();
        }
        enc.encode_uint((*self as u32) as u64, 4)
    }

    fn decode<'de, Ctx>(d: &mut DecoderImpl<'de, Ctx>) -> (r: Result<char, DecodeError>) {
        proof {
            lemma_pow256_8();
            crate::wire::lemma_uint_outcome_budget(
                old(d).remaining(),
                old(d).claimed(),
                old(d).config,
                4,
            );
            lemma_uint_outcome_parse(old(d).remaining(), old(d).claimed(), old(d).config, 4);
            lemma_uint_outcome_bound(
                old(d).remaining(),
                old(d).claimed(),
                old(d).config,
                4,
            );
        }
        let u = d.decode_uint(4)?;
        match char_from_u32(u as u32) {
            Some(c) => {
                proof {
                    vstd::utf8::char_u32_cast(c, u as u32);
                }
                Ok(c)
            },
            None => Err(DecodeError::InvalidValue),
        }
    }
}

} // verus!
