//! The wire format, as mathematics.
//!
//! Integers are laid out either fixed-width (as many bytes as the type is
//! wide, in the configured byte order) or variable-width.  The
//! variable-width layout is: a value up to 250 is a single byte; larger
//! values are a one-byte width tag (251 for 2 payload bytes, 252 for 4,
//! 253 for 8) followed by the payload in the configured byte order.  An
//! encoder always emits the smallest layout that fits, and a decoder rejects
//! any other: the format is canonical, so every value has exactly one
//! encoding and every encoding parses back to the value it came from.
//!
//! `..._outcome` functions state exactly what a budgeted decoder does on any
//! input: the value and the bytes consumed, or the precise error.  Every
//! byte is claimed against the budget before it is read, so the outcome also
//! fixes when `LimitExceeded` preempts `UnexpectedEnd`.

use vstd::arithmetic::div_mod::{
    lemma_breakdown, lemma_div_denominator, lemma_div_multiples_vanish, lemma_mod_multiples_vanish,
};
use vstd::prelude::*;

use crate::config::{Config, Endianness, IntWidth, Limit};
use crate::error::DecodeError;

verus! {

/// 256 to the n-th power: the number of distinct n-byte words.
pub open spec fn pow256(n: nat) -> nat
    decreases n,
{
    if n == 0 {
        1
    } else {
        256 * pow256((n - 1) as nat)
    }
}

pub proof fn lemma_pow256_pos(n: nat)
    ensures
        pow256(n) >= 1,
    decreases n,
{
    if n > 0 {
        lemma_pow256_pos((n - 1) as nat);
    }
}

pub proof fn lemma_pow256_mono(m: nat, n: nat)
    requires
        m <= n,
    ensures
        pow256(m) <= pow256(n),
    decreases n,
{
    if m < n {
        lemma_pow256_mono(m, (n - 1) as nat);
        lemma_pow256_pos((n - 1) as nat);
    }
}

pub proof fn lemma_pow256_8()
    ensures
        pow256(1) == 0x100,
        pow256(2) == 0x1_0000,
        pow256(4) == 0x1_0000_0000,
        pow256(8) == 0x1_0000_0000_0000_0000,
{
    reveal_with_fuel(pow256, 9);
}

/// The little-endian bytes of `v`, `n` of them, least significant first.
pub open spec fn le_bytes(v: nat, n: nat) -> Seq<u8>
    decreases n,
{
    if n == 0 {
        Seq::empty()
    } else {
        seq![(v % 256) as u8] + le_bytes(v / 256, (n - 1) as nat)
    }
}

/// The value of a little-endian byte string.
pub open spec fn le_val(s: Seq<u8>) -> nat
    decreases s.len(),
{
    if s.len() == 0 {
        0nat
    } else {
        (s[0] as nat) + 256 * le_val(s.skip(1))
    }
}

pub proof fn lemma_le_bytes_len(v: nat, n: nat)
    ensures
        le_bytes(v, n).len() == n,
    decreases n,
{
    if n > 0 {
        lemma_le_bytes_len(v / 256, (n - 1) as nat);
    }
}

/// Appending one more significant byte extends the little-endian layout at
/// the high end.
pub proof fn lemma_le_bytes_snoc(v: nat, n: nat)
    ensures
        le_bytes(v, n + 1) == le_bytes(v, n).push(((v / pow256(n)) % 256) as u8),
    decreases n,
{
    if n == 0 {
        assert(v / pow256(0) == v) by (nonlinear_arith)
            requires
                pow256(0) == 1,
        ;
        assert(le_bytes(v / 256, 0) =~= Seq::<u8>::empty());
        assert(le_bytes(v, 1) =~= le_bytes(v, 0).push(((v / pow256(0)) % 256) as u8));
    } else {
        lemma_le_bytes_snoc(v / 256, (n - 1) as nat);
        lemma_pow256_pos((n - 1) as nat);
        lemma_div_denominator(v as int, 256, pow256((n - 1) as nat) as int);
        assert((v / 256) / pow256((n - 1) as nat) == v / pow256(n));
        assert(le_bytes(v, n + 1) =~= le_bytes(v, n).push(((v / pow256(n)) % 256) as u8));
    }
}

pub proof fn lemma_le_val_bound(s: Seq<u8>)
    ensures
        le_val(s) < pow256(s.len()),
    decreases s.len(),
{
    if s.len() > 0 {
        lemma_le_val_bound(s.skip(1));
        assert((s[0] as nat) + 256 * le_val(s.skip(1)) < 256 * pow256((s.len() - 1) as nat))
            by (nonlinear_arith)
            requires
                s[0] < 256,
                le_val(s.skip(1)) < pow256((s.len() - 1) as nat),
        ;
    }
}

/// Reading back the little-endian bytes of `v` gives `v` again.
pub proof fn lemma_le_val_of_le_bytes(v: nat, n: nat)
    requires
        v < pow256(n),
    ensures
        le_val(le_bytes(v, n)) == v,
    decreases n,
{
    if n == 0 {
    } else {
        let s = le_bytes(v, n);
        lemma_le_bytes_len(v / 256, (n - 1) as nat);
        assert(s.skip(1) =~= le_bytes(v / 256, (n - 1) as nat));
        assert(v / 256 < pow256((n - 1) as nat)) by (nonlinear_arith)
            requires
                v < pow256(n),
                pow256(n) == 256 * pow256((n - 1) as nat),
        ;
        lemma_le_val_of_le_bytes(v / 256, (n - 1) as nat);
        assert(le_val(s) == (v % 256) + 256 * (v / 256));
        vstd::arithmetic::div_mod::lemma_fundamental_div_mod(v as int, 256);
    }
}

/// Laying out the value of a byte string gives the same bytes: the layout
/// is a bijection between values below `pow256(n)` and `n`-byte strings.
pub proof fn lemma_le_bytes_of_le_val(s: Seq<u8>)
    ensures
        le_bytes(le_val(s), s.len()) == s,
    decreases s.len(),
{
    if s.len() == 0 {
        assert(le_bytes(le_val(s), 0) =~= s);
    } else {
        let v = le_val(s);
        let rest = le_val(s.skip(1));
        lemma_mod_multiples_vanish(rest as int, s[0] as int, 256);
        assert(v % 256 == s[0]);
        lemma_div_multiples_vanish(rest as int, 256);
        vstd::arithmetic::div_mod::lemma_dividing_sums(s[0] as int, (256 * rest) as int, 256, 0);
        assert(v / 256 == rest) by {
            assert((s[0] as int) / 256 == 0);
            assert((s[0] as nat + 256 * rest) as int == s[0] as int + (256 * rest) as int);
            vstd::arithmetic::div_mod::lemma_hoist_over_denominator(s[0] as int, rest as int, 256);
        }
        lemma_le_bytes_of_le_val(s.skip(1));
        assert(le_bytes(v, s.len()) =~= s);
    }
}

/// The bytes of an `n`-byte word holding `v`, in byte order `e`.
pub open spec fn word_wire(v: nat, n: nat, e: Endianness) -> Seq<u8> {
    match e {
        Endianness::Little => le_bytes(v, n),
        Endianness::Big => le_bytes(v, n).reverse(),
    }
}

/// The value of an `n`-byte word read in byte order `e`.
pub open spec fn word_val(s: Seq<u8>, e: Endianness) -> nat {
    match e {
        Endianness::Little => le_val(s),
        Endianness::Big => le_val(s.reverse()),
    }
}

pub proof fn lemma_word_wire_len(v: nat, n: nat, e: Endianness)
    ensures
        word_wire(v, n, e).len() == n,
{
    lemma_le_bytes_len(v, n);
}

pub proof fn lemma_word_round_trip(v: nat, n: nat, e: Endianness)
    requires
        v < pow256(n),
    ensures
        word_wire(v, n, e).len() == n,
        word_val(word_wire(v, n, e), e) == v,
    decreases n,
{
    lemma_le_bytes_len(v, n);
    lemma_le_val_of_le_bytes(v, n);
    if e is Big {
        assert(le_bytes(v, n).reverse().reverse() =~= le_bytes(v, n));
    }
}

pub proof fn lemma_word_wire_of_val(s: Seq<u8>, e: Endianness)
    ensures
        word_wire(word_val(s, e), s.len(), e) == s,
{
    match e {
        Endianness::Little => {
            lemma_le_bytes_of_le_val(s);
        },
        Endianness::Big => {
            lemma_le_bytes_of_le_val(s.reverse());
            assert(le_bytes(le_val(s.reverse()), s.len()).reverse() =~= s.reverse().reverse());
            assert(s.reverse().reverse() =~= s);
        },
    }
}

pub proof fn lemma_word_val_bound(s: Seq<u8>, e: Endianness)
    ensures
        word_val(s, e) < pow256(s.len()),
{
    match e {
        Endianness::Little => lemma_le_val_bound(s),
        Endianness::Big => lemma_le_val_bound(s.reverse()),
    }
}

/// A one-byte word is its own value in either byte order.
pub proof fn lemma_word_val_single(s: Seq<u8>, e: Endianness)
    requires
        s.len() == 1,
    ensures
        word_val(s, e) == s[0],
{
    assert(s.reverse() =~= s);
    assert(s.skip(1) =~= Seq::<u8>::empty());
    assert(le_val(s.skip(1)) == 0);
}

/// Largest value the variable-width layout packs into a single byte.
pub open spec fn spec_single_byte_max() -> nat {
    250
}

/// The variable-width layout of `v`: minimal, hence canonical.
pub open spec fn varint_wire(v: nat, e: Endianness) -> Seq<u8> {
    if v <= 250 {
        seq![v as u8]
    } else if v < pow256(2) {
        seq![251u8] + word_wire(v, 2, e)
    } else if v < pow256(4) {
        seq![252u8] + word_wire(v, 4, e)
    } else {
        seq![253u8] + word_wire(v, 8, e)
    }
}

/// Payload width of a variable-width tag byte; 0 for tags that no encoder
/// emits (254 and 255).
pub open spec fn tag_width(tag: u8) -> nat {
    if tag == 251 {
        2nat
    } else if tag == 252 {
        4nat
    } else {
        8nat
    }
}

/// Smallest value that needs the payload width of `tag`: anything below it
/// fits a narrower layout, so a decoder rejects it as non-canonical.
pub open spec fn tag_min(tag: u8) -> nat {
    if tag == 251 {
        251nat
    } else if tag == 252 {
        pow256(2)
    } else {
        pow256(4)
    }
}

/// The wire bytes of an unsigned integer whose type is `n` bytes wide.
/// Single-byte types are always one raw byte; wider types follow the
/// configured width policy.
pub open spec fn uint_wire(v: nat, n: nat, cfg: Config) -> Seq<u8> {
    if n == 1 {
        seq![v as u8]
    } else {
        match cfg.int_width {
            IntWidth::Fixed => word_wire(v, n, cfg.endianness),
            IntWidth::Variable => varint_wire(v, cfg.endianness),
        }
    }
}

/// Whether a claim of `n` more bytes fits the budget.
pub open spec fn budget_ok(claimed: nat, n: nat, cfg: Config) -> bool {
    match cfg.limit {
        Limit::Bounded(l) => claimed + n <= l,
        Limit::Unbounded => true,
    }
}

/// The same policy with the budget removed.
pub open spec fn no_limit(cfg: Config) -> Config {
    Config { limit: Limit::Unbounded, ..cfg }
}

/// What a budgeted read of an `n`-byte word does: claim `n`, then read.
pub open spec fn word_outcome(bytes: Seq<u8>, claimed: nat, cfg: Config, n: nat) -> Result<
    (nat, nat),
    DecodeError,
> {
    if !budget_ok(claimed, n, cfg) {
        Err(DecodeError::LimitExceeded)
    } else if bytes.len() < n {
        Err(DecodeError::UnexpectedEnd)
    } else {
        Ok((word_val(bytes.take(n as int), cfg.endianness), n))
    }
}

/// What a budgeted variable-width read does: claim and read the first byte;
/// if it is a width tag, claim and read the payload; reject the two unused
/// tags and any non-minimal layout.
pub open spec fn varint_outcome(bytes: Seq<u8>, claimed: nat, cfg: Config) -> Result<
    (nat, nat),
    DecodeError,
> {
    if !budget_ok(claimed, 1, cfg) {
        Err(DecodeError::LimitExceeded)
    } else if bytes.len() < 1 {
        Err(DecodeError::UnexpectedEnd)
    } else {
        let tag = bytes[0];
        if tag <= 250 {
            Ok((tag as nat, 1))
        } else if tag >= 254 {
            Err(DecodeError::InvalidValue)
        } else {
            let w = tag_width(tag);
            if !budget_ok(claimed + 1, w, cfg) {
                Err(DecodeError::LimitExceeded)
            } else if bytes.len() < 1 + w {
                Err(DecodeError::UnexpectedEnd)
            } else {
                let v = word_val(bytes.subrange(1, 1 + w as int), cfg.endianness);
                if v < tag_min(tag) {
                    Err(DecodeError::InvalidValue)
                } else {
                    Ok((v, 1 + w))
                }
            }
        }
    }
}

/// What a budgeted decode of an unsigned integer of type width `n` does,
/// including the rejection of values too large for the type.
pub open spec fn uint_outcome(bytes: Seq<u8>, claimed: nat, cfg: Config, n: nat) -> Result<
    (nat, nat),
    DecodeError,
> {
    if n == 1 {
        word_outcome(bytes, claimed, cfg, 1)
    } else {
        match cfg.int_width {
            IntWidth::Fixed => word_outcome(bytes, claimed, cfg, n),
            IntWidth::Variable => match varint_outcome(bytes, claimed, cfg) {
                Ok((v, used)) => if v < pow256(n) {
                    Ok((v, used))
                } else {
                    Err(DecodeError::InvalidValue)
                },
                Err(e) => Err(e),
            },
        }
    }
}

/// The budget-free reading of an unsigned integer: the parse function of
/// the format proper.
pub open spec fn parse_uint(bytes: Seq<u8>, cfg: Config, n: nat) -> Option<(nat, nat)> {
    match uint_outcome(bytes, 0, no_limit(cfg), n) {
        Ok(r) => Some(r),
        Err(_) => None,
    }
}

/// Container lengths travel as 64-bit unsigned integers; one that does not
/// fit this machine's `usize` is rejected.
pub open spec fn len_outcome(bytes: Seq<u8>, claimed: nat, cfg: Config) -> Result<
    (nat, nat),
    DecodeError,
> {
    match uint_outcome(bytes, claimed, cfg, 8) {
        Ok((v, used)) => if v <= usize::MAX {
            Ok((v, used))
        } else {
            Err(DecodeError::InvalidValue)
        },
        Err(e) => Err(e),
    }
}

/// The wire bytes of a container length.
pub open spec fn len_wire(l: nat, cfg: Config) -> Seq<u8> {
    uint_wire(l, 8, cfg)
}

/// The budget-free reading of a container length.
pub open spec fn parse_len(bytes: Seq<u8>, cfg: Config) -> Option<(nat, nat)> {
    match len_outcome(bytes, 0, no_limit(cfg)) {
        Ok(r) => Some(r),
        Err(_) => None,
    }
}

pub proof fn lemma_len_outcome_parse(bytes: Seq<u8>, claimed: nat, cfg: Config)
    ensures
        len_outcome(bytes, claimed, cfg) matches Ok(r) ==> parse_len(bytes, cfg) == Some(r),
        len_outcome(bytes, claimed, cfg) matches Err(e) && e != DecodeError::LimitExceeded
            ==> parse_len(bytes, cfg) is None,
        cfg.limit is Unbounded ==> (parse_len(bytes, cfg) matches Some(r) ==> len_outcome(
            bytes,
            claimed,
            cfg,
        ) == Ok::<(nat, nat), DecodeError>(r)),
        cfg.limit is Unbounded ==> (len_outcome(bytes, claimed, cfg) is Err <==> parse_len(
            bytes,
            cfg,
        ) is None),
{
    lemma_uint_outcome_parse(bytes, claimed, cfg, 8);
}

pub proof fn lemma_parse_len_wire(l: nat, cfg: Config, rest: Seq<u8>)
    requires
        l <= usize::MAX,
    ensures
        parse_len(len_wire(l, cfg) + rest, cfg) == Some((l, len_wire(l, cfg).len())),
{
    lemma_pow256_8();
    lemma_parse_uint_wire(l, 8, cfg, rest);
}

pub proof fn lemma_parse_len_sound(bytes: Seq<u8>, cfg: Config)
    ensures
        parse_len(bytes, cfg) matches Some((l, used)) ==> {
            &&& used <= bytes.len()
            &&& l <= usize::MAX
            &&& len_wire(l, cfg) == bytes.take(used as int)
            &&& len_wire(l, cfg).len() == used
        },
{
    lemma_parse_uint_sound(bytes, cfg, 8);
}

/// A value read for a type of width `n` fits in `n` bytes.
pub proof fn lemma_uint_outcome_bound(bytes: Seq<u8>, claimed: nat, cfg: Config, n: nat)
    requires
        n == 1 || n == 2 || n == 4 || n == 8,
    ensures
        uint_outcome(bytes, claimed, cfg, n) matches Ok((v, used)) ==> v < pow256(n),
{
    let e = cfg.endianness;
    lemma_pow256_8();
    if uint_outcome(bytes, claimed, cfg, n) is Ok {
        if n == 1 {
            lemma_word_val_bound(bytes.take(1), e);
        } else {
            match cfg.int_width {
                IntWidth::Fixed => {
                    lemma_word_val_bound(bytes.take(n as int), e);
                },
                IntWidth::Variable => {
                    let tag = bytes[0];
                    if tag <= 250 {
                        lemma_pow256_mono(1, n);
                    }
                },
            }
        }
    }
}

/// Conversely, a parseable integer whose full cost fits the budget is read
/// successfully: the claims come in stages, but each stage is within the
/// total.
pub proof fn lemma_uint_outcome_budget(bytes: Seq<u8>, claimed: nat, cfg: Config, n: nat)
    ensures
        parse_uint(bytes, cfg, n) matches Some((v, used)) ==> (budget_ok(claimed, used, cfg)
            ==> uint_outcome(bytes, claimed, cfg, n) == Ok::<(nat, nat), DecodeError>((v, used))),
{
}

/// The same, for container lengths.
pub proof fn lemma_len_outcome_budget(bytes: Seq<u8>, claimed: nat, cfg: Config)
    ensures
        parse_len(bytes, cfg) matches Some((v, used)) ==> (budget_ok(claimed, used, cfg)
            ==> len_outcome(bytes, claimed, cfg) == Ok::<(nat, nat), DecodeError>((v, used))),
{
    lemma_uint_outcome_budget(bytes, claimed, cfg, 8);
}

/// The budget never changes what value is read, only whether reading is
/// allowed to finish: a successful budgeted outcome is the parse.
pub proof fn lemma_uint_outcome_parse(bytes: Seq<u8>, claimed: nat, cfg: Config, n: nat)
    ensures
        uint_outcome(bytes, claimed, cfg, n) matches Ok(r) ==> parse_uint(bytes, cfg, n) == Some(
            r,
        ),
        uint_outcome(bytes, claimed, cfg, n) matches Err(e) && e != DecodeError::LimitExceeded
            ==> parse_uint(bytes, cfg, n) is None,
        cfg.limit is Unbounded ==> (parse_uint(bytes, cfg, n) matches Some(r) ==> uint_outcome(
            bytes,
            claimed,
            cfg,
            n,
        ) == Ok::<(nat, nat), DecodeError>(r)),
        cfg.limit is Unbounded ==> (uint_outcome(bytes, claimed, cfg, n) is Err <==> parse_uint(
            bytes,
            cfg,
            n,
        ) is None),
{
}

/// Round trip: the canonical layout of any in-range value, followed by
/// anything, parses back to that value and consumes exactly the layout.
pub proof fn lemma_parse_uint_wire(v: nat, n: nat, cfg: Config, rest: Seq<u8>)
    requires
        v < pow256(n),
        n == 1 || n == 2 || n == 4 || n == 8,
    ensures
        parse_uint(uint_wire(v, n, cfg) + rest, cfg, n) == Some((v, uint_wire(v, n, cfg).len())),
{
    let e = cfg.endianness;
    let w = uint_wire(v, n, cfg);
    let bytes = w + rest;
    lemma_pow256_8();
    if n == 1 {
        let s1 = seq![v as u8];
        assert(bytes.take(1) =~= s1);
        assert(le_val(s1) == v) by {
            assert(s1.skip(1) =~= Seq::<u8>::empty());
            assert(le_val(s1.skip(1)) == 0);
            assert(s1[0] == v as u8);
        }
        if e is Big {
            assert(s1.reverse() =~= s1);
        }
    } else {
        match cfg.int_width {
            IntWidth::Fixed => {
                lemma_word_round_trip(v, n, e);
                assert(bytes.take(n as int) =~= w);
            },
            IntWidth::Variable => {
                if v <= 250 {
                    assert(bytes[0] == v as u8);
                    assert(v as u8 <= 250);
                } else {
                    let pw = if v < pow256(2) {
                        2nat
                    } else if v < pow256(4) {
                        4nat
                    } else {
                        8nat
                    };
                    let tag: u8 = if pw == 2 {
                        251
                    } else if pw == 4 {
                        252
                    } else {
                        253
                    };
                    lemma_word_round_trip(v, pw, e);
                    assert(w =~= seq![tag] + word_wire(v, pw, e));
                    assert(bytes[0] == tag);
                    assert(bytes.len() >= 1 + pw);
                    assert(bytes.subrange(1, 1 + pw as int) =~= word_wire(v, pw, e));
                    assert(word_val(bytes.subrange(1, 1 + pw as int), e) == v);
                    assert(v >= tag_min(tag));
                    assert(v < pow256(n)) by {
                        lemma_pow256_mono(pw, n);
                    }
                }
            },
        }
    }
}

/// Soundness: whatever parses was the canonical layout of the value read.
pub proof fn lemma_parse_uint_sound(bytes: Seq<u8>, cfg: Config, n: nat)
    requires
        n == 1 || n == 2 || n == 4 || n == 8,
    ensures
        parse_uint(bytes, cfg, n) matches Some((v, used)) ==> {
            &&& used <= bytes.len()
            &&& v < pow256(n)
            &&& uint_wire(v, n, cfg) == bytes.take(used as int)
            &&& uint_wire(v, n, cfg).len() == used
        },
{
    let e = cfg.endianness;
    lemma_pow256_8();
    if parse_uint(bytes, cfg, n) is Some {
        let (v, used) = parse_uint(bytes, cfg, n)->Some_0;
        if n == 1 {
            lemma_word_val_bound(bytes.take(1), e);
            lemma_word_wire_of_val(bytes.take(1), e);
            assert(uint_wire(v, 1, cfg) =~= bytes.take(1)) by {
                if e is Little {
                    assert(le_bytes(v, 1) =~= seq![(v % 256) as u8]);
                } else {
                    assert(le_bytes(v, 1) =~= seq![(v % 256) as u8]);
                    assert(le_bytes(v, 1).reverse() =~= seq![(v % 256) as u8]);
                }
                assert(seq![(v % 256) as u8] =~= seq![v as u8]);
                assert(bytes.take(1) =~= seq![bytes[0]]);
                assert(word_val(bytes.take(1), e) == bytes[0]) by {
                    assert(seq![bytes[0]].reverse() =~= seq![bytes[0]]);
                    assert(le_val(seq![bytes[0]]) == bytes[0]) by {
                        assert(seq![bytes[0]].skip(1) =~= Seq::<u8>::empty());
                    }
                }
            }
        } else {
            match cfg.int_width {
                IntWidth::Fixed => {
                    lemma_word_val_bound(bytes.take(n as int), e);
                    lemma_word_wire_of_val(bytes.take(n as int), e);
                },
                IntWidth::Variable => {
                    let tag = bytes[0];
                    if tag <= 250 {
                        assert(v == tag as nat && used == 1);
                        assert(varint_wire(v, e) =~= seq![tag]);
                        assert(bytes.take(1) =~= seq![tag]);
                        lemma_pow256_mono(1, n);
                    } else {
                        let w = tag_width(tag);
                        let payload = bytes.subrange(1, 1 + w as int);
                        lemma_word_val_bound(payload, e);
                        lemma_word_wire_of_val(payload, e);
                        assert(v >= tag_min(tag));
                        assert(varint_wire(v, e) =~= seq![tag] + payload);
                        assert(bytes.take(used as int) =~= seq![tag] + payload);
                    }
                },
            }
        }
    }
}

} // verus!
