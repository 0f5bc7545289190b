//! Text on the wire: a length-prefixed UTF-8 byte run.
//!
//! Text rides the raw-byte fast path of the container protocol — the length
//! prefix is pre-claimed as the exact cost and the run is read in one pull —
//! followed by a UTF-8 validity check.  Owned decoding copies the bytes into
//! a `String`; borrowing decoding hands out a `&str` into the input buffer,
//! and `Cow<'_, str>` supports both disciplines on the same wire shape.

use vstd::prelude::*;
use vstd::string::StringSliceAdditionalSpecFns;
use vstd::utf8::{decode_utf8, encode_utf8, valid_utf8};

use std::borrow::Cow;

use crate::codec::Codec;
use crate::config::Config;
use crate::de::DecoderImpl;
use crate::enc::{EncoderImpl, Writer};
use crate::error::{DecodeError, EncodeError};
use crate::wire::{
    budget_ok, len_outcome, len_wire, lemma_len_outcome_parse, lemma_parse_len_sound,
    lemma_parse_len_wire, parse_len,
};

verus! {

/// The wire bytes of a piece of text: its UTF-8 byte count, then the bytes.
pub open spec fn text_wire(v: Seq<char>, cfg: Config) -> Seq<u8> {
    len_wire(encode_utf8(v).len(), cfg) + encode_utf8(v)
}

/// Views of text values that exist on this machine: the UTF-8 form fits in
/// one allocation.
pub open spec fn text_valid(v: Seq<char>) -> bool {
    encode_utf8(v).len() <= usize::MAX
}

/// Read one piece of text off the front of `bytes`.
pub open spec fn text_parse(bytes: Seq<u8>, cfg: Config) -> Option<(Seq<char>, nat)> {
    match parse_len(bytes, cfg) {
        Some((count, k)) => {
            let body = bytes.skip(k as int).take(count as int);
            if bytes.len() - k >= count && valid_utf8(body) {
                Some((decode_utf8(body), (k + count) as nat))
            } else {
                None
            }
        },
        None => None,
    }
}

/// What a budgeted decode of text does on any input: the value and the
/// bytes consumed, or the precise error — the budget first (the length
/// prefix by its own stages, then the body pre-claimed in full), then the
/// input running out, then UTF-8 validity (`InvalidValue`, the
/// invalid-encoded-value of the taxonomy).
pub open spec fn text_outcome(bytes: Seq<u8>, claimed: nat, cfg: Config) -> Result<
    (Seq<char>, nat),
    DecodeError,
> {
    match len_outcome(bytes, claimed, cfg) {
        Ok((count, k)) => if !budget_ok(claimed + k, count, cfg) {
            Err(DecodeError::LimitExceeded)
        } else if bytes.len() - k < count {
            Err(DecodeError::UnexpectedEnd)
        } else if !valid_utf8(bytes.skip(k as int).take(count as int)) {
            Err(DecodeError::InvalidValue)
        } else {
            Ok((decode_utf8(bytes.skip(k as int).take(count as int)), (k + count) as nat))
        },
        Err(e) => Err(e),
    }
}

/// Round trip for text.
pub proof fn lemma_text_parse_wire(v: Seq<char>, cfg: Config, rest: Seq<u8>)
    requires
        text_valid(v),
    ensures
        text_parse(text_wire(v, cfg) + rest, cfg) == Some((v, text_wire(v, cfg).len())),
{
    let body = encode_utf8(v);
    let lw = len_wire(body.len(), cfg);
    let bytes = text_wire(v, cfg) + rest;
    assert(bytes =~= lw + (body + rest));
    lemma_parse_len_wire(body.len(), cfg, body + rest);
    assert(bytes.skip(lw.len() as int) =~= body + rest);
    assert(bytes.skip(lw.len() as int).take(body.len() as int) =~= body);
    vstd::utf8::encode_utf8_valid_utf8(v);
    vstd::utf8::encode_utf8_decode_utf8(v);
}

/// Soundness for text.
pub proof fn lemma_text_parse_sound(bytes: Seq<u8>, cfg: Config)
    ensures
        text_parse(bytes, cfg) matches Some((v, n)) ==> {
            &&& n <= bytes.len()
            &&& text_valid(v)
            &&& text_wire(v, cfg) == bytes.take(n as int)
        },
{
    lemma_parse_len_sound(bytes, cfg);
    if text_parse(bytes, cfg) is Some {
        let (count, k) = parse_len(bytes, cfg)->Some_0;
        let body = bytes.skip(k as int).take(count as int);
        vstd::utf8::decode_utf8_encode_utf8(body);
        assert(bytes.take((k + count) as int) =~= bytes.take(k as int) + body);
    }
}

/// Relies on `core::str::from_utf8`: `Ok` exactly when the bytes are valid
/// UTF-8, and the returned `str` is backed by exactly those bytes.
#[verifier::external_body]
pub(crate) fn str_from_utf8(v: &[u8]) -> (r: Option<&str>)
    ensures
        match r {
            Some(s) => valid_utf8(v@) && s.spec_bytes() == v@,
            None => !valid_utf8(v@),
        },
{
    core::str::from_utf8(v).ok()
}

impl Codec for String {
    open spec fn vwire(v: Seq<char>, cfg: Config) -> Seq<u8> {
        text_wire(v, cfg)
    }

    open spec fn v_valid(v: Seq<char>) -> bool {
        text_valid(v)
    }

    open spec fn parse(bytes: Seq<u8>, cfg: Config) -> Option<(Seq<char>, nat)> {
        text_parse(bytes, cfg)
    }

    open spec fn spec_footprint() -> nat {
        24
    }

    fn footprint() -> (n: usize) {
        24
    }

    open spec fn peak(bytes: Seq<u8>, cfg: Config) -> nat {
        match text_parse(bytes, cfg) {
            Some((v, n)) => n,
            None => 0,
        }
    }

    proof fn lemma_peak_bound(bytes: Seq<u8>, cfg: Config) {
    }

    proof fn lemma_parse_wire(v: Seq<char>, cfg: Config, rest: Seq<u8>) {
        lemma_text_parse_wire(v, cfg, rest);
    }

    proof fn lemma_parse_sound(bytes: Seq<u8>, cfg: Config) {
        lemma_text_parse_sound(bytes, cfg);
    }

    fn encode<W: Writer>(&self, enc: &mut EncoderImpl<W>) -> (r: Result<(), EncodeError>) {
        encode_str(self.as_str(), enc)
    }

    fn decode<'de, Ctx>(d: &mut DecoderImpl<'de, Ctx>) -> (r: Result<String, DecodeError>) {
        let s = borrow_decode_str(d)?;
        Ok(s.to_owned())
    }
}

/// Append a piece of text to the encoder's sink: byte count, then the
/// UTF-8 bytes, in one write each.
pub fn encode_str<W: Writer>(s: &str, enc: &mut EncoderImpl<W>) -> (r: Result<(), EncodeError>)
    requires
        old(enc).wf(),
    ensures
        final(enc).wf(),
        final(enc).config == old(enc).config,
        r is Ok ==> final(enc).sink() == old(enc).sink() + text_wire(s@, old(enc).config)
            && text_valid(s@),
        r is Err ==> old(enc).sink().len() + text_wire(s@, old(enc).config).len() > usize::MAX,
{
    let ghost cfg = enc.config;
    let ghost sink0 = enc.sink();
    let bytes = s.as_bytes();
    match enc.encode_len(bytes.len()) {
        Ok(()) => {},
        Err(e) => {
            return Err(e);
        },
    }
    match enc.write_bytes(bytes) {
        Ok(()) => {
            proof {
                assert(sink0 + len_wire(bytes@.len(), cfg) + bytes@ =~= sink0 + text_wire(
                    s@,
                    cfg,
                ));
            }
            Ok(())
        },
        Err(e) => Err(e),
    }
}

/// Decode a piece of text as a zero-copy slice of the input buffer, valid
/// for the buffer's lifetime.  Budget behaviour is the raw-byte fast path:
/// the length prefix is pre-claimed as the exact cost, so a hostile count
/// fails before anything is read or allocated.
pub fn borrow_decode_str<'de, Ctx>(d: &mut DecoderImpl<'de, Ctx>) -> (r: Result<
    &'de str,
    DecodeError,
>)
    requires
        old(d).wf(),
    ensures
        old(d).frames(*final(d)),
        r matches Ok(s) ==> (text_parse(old(d).remaining(), old(d).config) matches Some((pv, n))
            && pv == s@ && old(d).advanced_by(*final(d), n)),
        old(d).config.limit is Unbounded ==> (r is Err <==> text_parse(
            old(d).remaining(),
            old(d).config,
        ) is None),
        r is Err && text_parse(old(d).remaining(), old(d).config) is Some ==> r == Err::<
            &'de str,
            DecodeError,
        >(DecodeError::LimitExceeded),
        (match len_outcome(old(d).remaining(), old(d).claimed(), old(d).config) {
            Ok((l, k)) => !budget_ok(old(d).claimed() + k, l, old(d).config) ==> r == Err::<
                &'de str,
                DecodeError,
            >(DecodeError::LimitExceeded) && final(d).reader.pos == old(d).reader.pos + k,
            Err(_) => true,
        }),
        text_parse(old(d).remaining(), old(d).config) matches Some((pv, n)) ==> (budget_ok(
            old(d).claimed(),
            n,
            old(d).config,
        ) ==> r is Ok),
        (match text_outcome(old(d).remaining(), old(d).claimed(), old(d).config) {
            Ok((v, n)) => r matches Ok(s) && s@ == v && old(d).advanced_by(*final(d), n),
            Err(e) => r == Err::<&'de str, DecodeError>(e),
        }),
{
    proof {
        lemma_len_outcome_parse(old(d).remaining(), old(d).claimed(), old(d).config);
        crate::wire::lemma_len_outcome_budget(old(d).remaining(), old(d).claimed(), old(d).config);
    }
    let ghost pre = *old(d);
    let len = d.decode_len()?;
    let ghost k = (d.reader.pos - pre.reader.pos) as nat;
    let ghost d1 = *d;
    proof {
        pre.lemma_advance_remaining(d1, k);
    }
    let body = d.read_exact(len)?;
    match str_from_utf8(body) {
        Some(s) => {
            proof {
                pre.lemma_advance_trans(d1, *d, k, len as nat);
                assert(s@ == decode_utf8(body@)) by {
                    vstd::utf8::encode_utf8_decode_utf8(s@);
                }
            }
            Ok(s)
        },
        None => Err(DecodeError::InvalidValue),
    }
}

impl<'c> Codec for Cow<'c, str> {
    open spec fn vwire(v: Seq<char>, cfg: Config) -> Seq<u8> {
        text_wire(v, cfg)
    }

    open spec fn v_valid(v: Seq<char>) -> bool {
        text_valid(v)
    }

    open spec fn parse(bytes: Seq<u8>, cfg: Config) -> Option<(Seq<char>, nat)> {
        text_parse(bytes, cfg)
    }

    open spec fn spec_footprint() -> nat {
        24
    }

    fn footprint() -> (n: usize) {
        24
    }

    open spec fn peak(bytes: Seq<u8>, cfg: Config) -> nat {
        match text_parse(bytes, cfg) {
            Some((v, n)) => n,
            None => 0,
        }
    }

    proof fn lemma_peak_bound(bytes: Seq<u8>, cfg: Config) {
    }

    proof fn lemma_parse_wire(v: Seq<char>, cfg: Config, rest: Seq<u8>) {
        lemma_text_parse_wire(v, cfg, rest);
    }

    proof fn lemma_parse_sound(bytes: Seq<u8>, cfg: Config) {
        lemma_text_parse_sound(bytes, cfg);
    }

    fn encode<W: Writer>(&self, enc: &mut EncoderImpl<W>) -> (r: Result<(), EncodeError>) {
        encode_str(cow_as_str(self), enc)
    }

    fn decode<'de, Ctx>(d: &mut DecoderImpl<'de, Ctx>) -> (r: Result<Cow<'c, str>, DecodeError>) {
        let s = borrow_decode_str(d)?;
        Ok(cow_from_string(s.to_owned()))
    }
}

/// Decode text as a `Cow` borrowing from the input buffer — the zero-copy
/// discipline on the same wire shape as the owned decode.
pub fn borrow_decode_cow<'de, Ctx>(d: &mut DecoderImpl<'de, Ctx>) -> (r: Result<
    Cow<'de, str>,
    DecodeError,
>)
    requires
        old(d).wf(),
    ensures
        old(d).frames(*final(d)),
        r matches Ok(v) ==> (text_parse(old(d).remaining(), old(d).config) matches Some((pv, n))
            && pv == v.deep_view() && old(d).advanced_by(*final(d), n)),
        old(d).config.limit is Unbounded ==> (r is Err <==> text_parse(
            old(d).remaining(),
            old(d).config,
        ) is None),
        r is Err && text_parse(old(d).remaining(), old(d).config) is Some ==> r == Err::<
            Cow<'de, str>,
            DecodeError,
        >(DecodeError::LimitExceeded),
        text_parse(old(d).remaining(), old(d).config) matches Some((pv, n)) ==> (budget_ok(
            old(d).claimed(),
            n,
            old(d).config,
        ) ==> r is Ok),
        (match text_outcome(old(d).remaining(), old(d).claimed(), old(d).config) {
            Ok((v, n)) => r matches Ok(c) && c.deep_view() == v && old(d).advanced_by(
                *final(d),
                n,
            ),
            Err(e) => r == Err::<Cow<'de, str>, DecodeError>(e),
        }),
{
    let s = borrow_decode_str(d)?;
    Ok(cow_from_str(s))
}

/// Decode text from the front of `slice` without copying it: the returned
/// `Cow` borrows from `slice` and is valid for its lifetime.  Returns the
/// value with the number of bytes read.
pub fn borrow_decode_from_slice<'de>(slice: &'de [u8], config: Config) -> (r: Result<
    (Cow<'de, str>, usize),
    DecodeError,
>)
    ensures
        r matches Ok((v, consumed)) ==> (text_parse(slice@, config) matches Some((pv, n)) && pv
            == v.deep_view() && n == consumed),
        config.limit is Unbounded ==> (r is Err <==> text_parse(slice@, config) is None),
        r matches Err(e) ==> (text_parse(slice@, config) is Some ==> e
            == DecodeError::LimitExceeded),
        text_parse(slice@, config) matches Some((pv, n)) ==> (budget_ok(0, n, config) ==> r
            is Ok),
{
    let reader = crate::de::SliceReader::new(slice);
    let mut decoder = DecoderImpl::<()>::new(reader, config, ());
    match borrow_decode_cow(&mut decoder) {
        Ok(v) => Ok((v, decoder.reader.pos)),
        Err(e) => Err(e),
    }
}

/// Relies on `Cow::Borrowed` holding the given slice as-is.
#[verifier::external_body]
fn cow_from_str<'c>(s: &'c str) -> (r: Cow<'c, str>)
    ensures
        r.deep_view() == s@,
{
    Cow::Borrowed(s)
}

/// Relies on `Cow::Owned` holding the given string as-is.
#[verifier::external_body]
fn cow_from_string<'c>(s: String) -> (r: Cow<'c, str>)
    ensures
        r.deep_view() == s@,
{
    Cow::Owned(s)
}

/// Relies on `Cow::as_ref` returning the borrowed or owned text unchanged.
#[verifier::external_body]
fn cow_as_str<'a, 'c>(c: &'a Cow<'c, str>) -> (r: &'a str)
    ensures
        r@ == c.deep_view(),
{
    c.as_ref()
}

} // verus!
