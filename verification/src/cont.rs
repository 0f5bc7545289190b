//! The length-prefixed container protocol, with its claim/refund budget
//! dance and the raw-byte fast path.
//!
//! Every variable-length value is written as its element count followed by
//! the elements in order.  Decoding first reads the count, then immediately
//! claims `count * footprint` against the byte budget — one coarse check
//! that rejects a hostile count before any allocation or loop.  The loop
//! then refunds each element's share just before decoding it, and the
//! element decode re-claims what it actually consumes, so the total claimed
//! after a successful decode equals the bytes truly consumed, never the
//! coarse bound.  A run of single-byte elements skips the loop: after the
//! pre-claim, which is the exact cost there, the run is read in one pull.

use vstd::prelude::*;

use crate::codec::Codec;
use crate::config::{Config, Limit};
use crate::de::DecoderImpl;
use crate::enc::{EncoderImpl, Writer};
use crate::error::{DecodeError, EncodeError};
use crate::wire::{
    budget_ok, len_outcome, len_wire, lemma_len_outcome_parse, lemma_parse_len_sound,
    lemma_parse_len_wire, lemma_pow256_8, lemma_word_val_single, parse_len,
};

verus! {

/// The concatenated wire bytes of a sequence of element views.
pub open spec fn wire_elems<T: Codec>(vs: Seq<<T as DeepView>::V>, cfg: Config) -> Seq<u8>
    decreases vs.len(),
{
    if vs.len() == 0 {
        Seq::empty()
    } else {
        T::vwire(vs[0], cfg) + wire_elems::<T>(vs.skip(1), cfg)
    }
}

/// Every element view is the view of a real element.
pub open spec fn elems_valid<T: Codec>(vs: Seq<<T as DeepView>::V>) -> bool {
    forall|i: int| 0 <= i < vs.len() ==> T::v_valid(#[trigger] vs[i])
}

/// Read exactly `count` elements off the front of `bytes`.
pub open spec fn parse_elems<T: Codec>(bytes: Seq<u8>, cfg: Config, count: nat) -> Option<
    (Seq<<T as DeepView>::V>, nat),
>
    decreases count,
{
    if count == 0 {
        Some((Seq::empty(), 0))
    } else {
        match T::parse(bytes, cfg) {
            Some((v, n)) => match parse_elems::<T>(
                bytes.skip(n as int),
                cfg,
                (count - 1) as nat,
            ) {
                Some((vs, m)) => Some((seq![v] + vs, n + m)),
                None => None,
            },
            None => None,
        }
    }
}

/// Round trip for element runs: the concatenated encodings of `count`
/// elements, followed by anything, parse back to the same elements.
pub proof fn lemma_parse_wire_elems<T: Codec>(
    vs: Seq<<T as DeepView>::V>,
    cfg: Config,
    rest: Seq<u8>,
)
    requires
        elems_valid::<T>(vs),
    ensures
        parse_elems::<T>(wire_elems::<T>(vs, cfg) + rest, cfg, vs.len()) == Some(
            (vs, wire_elems::<T>(vs, cfg).len()),
        ),
    decreases vs.len(),
{
    if vs.len() == 0 {
        assert(wire_elems::<T>(vs, cfg) + rest =~= rest);
        assert(vs =~= Seq::<<T as DeepView>::V>::empty());
    } else {
        let w0 = T::vwire(vs[0], cfg);
        let tail = vs.skip(1);
        let wr = wire_elems::<T>(tail, cfg);
        let bytes = wire_elems::<T>(vs, cfg) + rest;
        assert(bytes =~= w0 + (wr + rest));
        T::lemma_parse_wire(vs[0], cfg, wr + rest);
        assert(bytes.skip(w0.len() as int) =~= wr + rest);
        assert(elems_valid::<T>(tail)) by {
            assert(forall|i: int|
                0 <= i < tail.len() ==> #[trigger] tail[i] == vs[i + 1] && T::v_valid(vs[i + 1]));
        }
        lemma_parse_wire_elems::<T>(tail, cfg, rest);
        assert(seq![vs[0]] + tail =~= vs);
    }
}

/// Soundness for element runs: whatever parses as `count` elements was
/// their concatenated canonical encoding.
pub proof fn lemma_parse_elems_sound<T: Codec>(bytes: Seq<u8>, cfg: Config, count: nat)
    ensures
        parse_elems::<T>(bytes, cfg, count) matches Some((vs, m)) ==> {
            &&& vs.len() == count
            &&& m <= bytes.len()
            &&& elems_valid::<T>(vs)
            &&& wire_elems::<T>(vs, cfg) == bytes.take(m as int)
        },
    decreases count,
{
    if count == 0 {
        assert(wire_elems::<T>(Seq::empty(), cfg) =~= bytes.take(0));
    } else if parse_elems::<T>(bytes, cfg, count) is Some {
        let (v, n) = T::parse(bytes, cfg)->Some_0;
        T::lemma_parse_sound(bytes, cfg);
        let tail_bytes = bytes.skip(n as int);
        lemma_parse_elems_sound::<T>(tail_bytes, cfg, (count - 1) as nat);
        let (vs1, m1) = parse_elems::<T>(tail_bytes, cfg, (count - 1) as nat)->Some_0;
        let vs = seq![v] + vs1;
        assert(vs.skip(1) =~= vs1);
        assert(vs[0] == v);
        assert(elems_valid::<T>(vs)) by {
            assert(forall|i: int| 1 <= i < vs.len() ==> vs[i] == vs1[i - 1]);
        }
        assert(bytes.take((n + m1) as int) =~= bytes.take(n as int) + tail_bytes.take(m1 as int));
        assert(wire_elems::<T>(vs, cfg) =~= T::vwire(v, cfg) + wire_elems::<T>(vs1, cfg));
    }
}

/// An upper bound on the interim claims of decoding `count` elements: each
/// element's own bound, summed (the coarse pre-claim is accounted by the
/// container itself).
pub open spec fn peak_elems<T: Codec>(bytes: Seq<u8>, cfg: Config, count: nat) -> nat
    decreases count,
{
    if count == 0 {
        0
    } else {
        match T::parse(bytes, cfg) {
            Some((v, n)) => T::peak(bytes, cfg) + peak_elems::<T>(
                bytes.skip(n as int),
                cfg,
                (count - 1) as nat,
            ),
            None => 0,
        }
    }
}

/// The interim bound of an element run covers at least its consumed bytes.
pub proof fn lemma_peak_elems_bound<T: Codec>(bytes: Seq<u8>, cfg: Config, count: nat)
    ensures
        parse_elems::<T>(bytes, cfg, count) matches Some((vs, m)) ==> m <= peak_elems::<T>(
            bytes,
            cfg,
            count,
        ),
    decreases count,
{
    if count > 0 && parse_elems::<T>(bytes, cfg, count) is Some {
        let (v, n) = T::parse(bytes, cfg)->Some_0;
        T::lemma_peak_bound(bytes, cfg);
        lemma_peak_elems_bound::<T>(bytes.skip(n as int), cfg, (count - 1) as nat);
    }
}

/// A run of single-byte elements parses as exactly the first `count` bytes:
/// the element-by-element loop and the raw-byte fast path read the same
/// value from the same input.
pub proof fn lemma_byte_run_fast_path(bytes: Seq<u8>, cfg: Config, count: nat)
    ensures
        parse_elems::<u8>(bytes, cfg, count) == (if bytes.len() >= count {
            Some((bytes.take(count as int), count))
        } else {
            Option::<(Seq<u8>, nat)>::None
        }),
    decreases count,
{
    lemma_pow256_8();
    if count == 0 {
        assert(bytes.take(0) =~= Seq::<u8>::empty());
    } else {
        if bytes.len() >= 1 {
            lemma_word_val_single(bytes.take(1), cfg.endianness);
            assert(<u8 as Codec>::parse(bytes, cfg) == Some((bytes[0], 1nat)));
            lemma_byte_run_fast_path(bytes.skip(1), cfg, (count - 1) as nat);
            if bytes.len() >= count {
                assert(seq![bytes[0]] + bytes.skip(1).take(count - 1) =~= bytes.take(count as int));
            }
        } else {
            assert(<u8 as Codec>::parse(bytes, cfg) is None);
        }
    }
}

/// What a budgeted decode of a raw byte run does on any input: the run and
/// the bytes consumed, or the precise error — the budget first (the length
/// prefix by its own stages, then the run pre-claimed as its exact cost),
/// then the input running out.
pub open spec fn byte_run_outcome(bytes: Seq<u8>, claimed: nat, cfg: Config) -> Result<
    (Seq<u8>, nat),
    DecodeError,
> {
    match len_outcome(bytes, claimed, cfg) {
        Ok((count, k)) => if !budget_ok(claimed + k, count, cfg) {
            Err(DecodeError::LimitExceeded)
        } else if bytes.len() - k < count {
            Err(DecodeError::UnexpectedEnd)
        } else {
            Ok((bytes.skip(k as int).take(count as int), (k + count) as nat))
        },
        Err(e) => Err(e),
    }
}

/// Decode a byte run as a zero-copy slice of the input buffer, valid for
/// the buffer's lifetime: the borrowing discipline on the same wire shape
/// and budget behaviour as [`decode_byte_vec`].
pub fn borrow_decode_bytes<'de, Ctx>(d: &mut DecoderImpl<'de, Ctx>) -> (r: Result<
    &'de [u8],
    DecodeError,
>)
    requires
        old(d).wf(),
    ensures
        old(d).frames(*final(d)),
        r matches Ok(s) ==> (<Vec<u8> as Codec>::parse(old(d).remaining(), old(d).config)
            matches Some((pv, n)) && pv == s@ && old(d).advanced_by(*final(d), n)),
        old(d).config.limit is Unbounded ==> (r is Err <==> <Vec<u8> as Codec>::parse(
            old(d).remaining(),
            old(d).config,
        ) is None),
        r is Err && <Vec<u8> as Codec>::parse(old(d).remaining(), old(d).config) is Some ==> r
            == Err::<&'de [u8], DecodeError>(DecodeError::LimitExceeded),
        (match len_outcome(old(d).remaining(), old(d).claimed(), old(d).config) {
            Ok((l, k)) => budget_ok(old(d).claimed() + k, l, old(d).config) && old(
                d,
            ).remaining().len() >= k + l ==> r is Ok,
            Err(_) => true,
        }),
        (match byte_run_outcome(old(d).remaining(), old(d).claimed(), old(d).config) {
            Ok((v, n)) => r matches Ok(s) && s@ == v && old(d).advanced_by(*final(d), n),
            Err(e) => r == Err::<&'de [u8], DecodeError>(e),
        }),
{
    proof {
        lemma_len_outcome_parse(old(d).remaining(), old(d).claimed(), old(d).config);
    }
    let ghost pre = *old(d);
    let len = d.decode_len()?;
    let ghost k = (d.reader.pos - pre.reader.pos) as nat;
    let ghost d1 = *d;
    proof {
        pre.lemma_advance_remaining(d1, k);
        lemma_byte_run_fast_path(d1.remaining(), pre.config, len as nat);
    }
    let s = d.read_exact(len)?;
    proof {
        pre.lemma_advance_trans(d1, *d, k, len as nat);
    }
    Ok(s)
}

/// A run of single-byte elements is its own encoding: the wire bytes of a
/// byte sequence are the bytes themselves.
pub proof fn lemma_byte_run_wire(s: Seq<u8>, cfg: Config)
    ensures
        wire_elems::<u8>(s, cfg) == s,
    decreases s.len(),
{
    if s.len() == 0 {
        assert(wire_elems::<u8>(s, cfg) =~= s);
    } else {
        lemma_byte_run_wire(s.skip(1), cfg);
        assert(<u8 as Codec>::vwire(s[0], cfg) =~= seq![s[0]]);
        assert(wire_elems::<u8>(s, cfg) =~= s);
    }
}

/// Encode a byte run without the per-element loop: the count, then the
/// whole run in one write.  Produces exactly the bytes `Vec<u8>`'s
/// element-by-element `encode` produces (see [`lemma_byte_run_wire`]).
pub fn encode_byte_slice<W: Writer>(v: &[u8], enc: &mut EncoderImpl<W>) -> (r: Result<
    (),
    EncodeError,
>)
    requires
        old(enc).wf(),
    ensures
        final(enc).wf(),
        final(enc).config == old(enc).config,
        r is Ok ==> final(enc).sink() == old(enc).sink() + <Vec<u8> as Codec>::vwire(
            v@,
            old(enc).config,
        ),
        r is Err ==> old(enc).sink().len() + <Vec<u8> as Codec>::vwire(
            v@,
            old(enc).config,
        ).len() > usize::MAX,
{
    proof {
        lemma_byte_run_wire(v@, old(enc).config);
    }
    let ghost cfg = enc.config;
    let ghost sink0 = enc.sink();
    match enc.encode_len(v.len()) {
        Ok(()) => {},
        Err(e) => {
            return Err(e);
        },
    }
    match enc.write_bytes(v) {
        Ok(()) => {
            proof {
                assert(sink0 + len_wire(v@.len(), cfg) + v@ =~= sink0 + <Vec<u8> as Codec>::vwire(
                    v@,
                    cfg,
                ));
            }
            Ok(())
        },
        Err(e) => Err(e),
    }
}

/// Decode a length-prefixed sequence through the claim/refund protocol.
///
/// This is the generic loop behind `Vec<T>`'s [`Codec`] implementation,
/// with the budget defense stated explicitly: when a limit is configured
/// and the declared count times the element footprint does not fit the
/// remaining budget (or overflows), the decode fails with `LimitExceeded`
/// with the reader still positioned right after the length prefix — no
/// element is read, nothing is allocated.  On success the net claim equals
/// the bytes actually consumed.
pub fn decode_vec<'de, Ctx, T: Codec>(d: &mut DecoderImpl<'de, Ctx>) -> (r: Result<
    Vec<T>,
    DecodeError,
>)
    requires
        old(d).wf(),
    ensures
        old(d).frames(*final(d)),
        r matches Ok(v) ==> (<Vec<T> as Codec>::parse(old(d).remaining(), old(d).config)
            matches Some((pv, n)) && pv == v.deep_view() && old(d).advanced_by(*final(d), n)),
        old(d).config.limit is Unbounded ==> (r is Err <==> <Vec<T> as Codec>::parse(
            old(d).remaining(),
            old(d).config,
        ) is None),
        r is Err && <Vec<T> as Codec>::parse(old(d).remaining(), old(d).config) is Some ==> r
            == Err::<Vec<T>, DecodeError>(DecodeError::LimitExceeded),
        (match len_outcome(old(d).remaining(), old(d).claimed(), old(d).config) {
            Ok((l, k)) => old(d).config.limit is Bounded && (l * T::spec_footprint() > usize::MAX
                || !budget_ok(old(d).claimed() + k, l * T::spec_footprint(), old(d).config)) ==> r
                == Err::<Vec<T>, DecodeError>(DecodeError::LimitExceeded)
                && final(d).reader.pos == old(d).reader.pos + k,
            Err(_) => true,
        }),
        <Vec<T> as Codec>::parse(old(d).remaining(), old(d).config) is Some && budget_ok(
            old(d).claimed(),
            <Vec<T> as Codec>::peak(old(d).remaining(), old(d).config),
            old(d).config,
        ) ==> r is Ok,
{
    proof {
        lemma_len_outcome_parse(old(d).remaining(), old(d).claimed(), old(d).config);
        crate::wire::lemma_len_outcome_budget(old(d).remaining(), old(d).claimed(), old(d).config);
    }
    let ghost pre = *old(d);
    let ghost owed = <Vec<T> as Codec>::parse(pre.remaining(), pre.config) is Some && budget_ok(
        pre.claimed(),
        <Vec<T> as Codec>::peak(pre.remaining(), pre.config),
        pre.config,
    );
    let len = d.decode_len()?;
    let ghost k = (d.reader.pos - pre.reader.pos) as nat;
    let ghost d1 = *d;
    let ghost elems_bytes = d1.remaining();
    proof {
        pre.lemma_advance_remaining(d1, k);
    }
    let fp = T::footprint();
    let is_limited = match d.config.limit {
        Limit::Bounded(_) => true,
        Limit::Unbounded => false,
    };
    if is_limited {
        let total = match len.checked_mul(fp) {
            Some(t) => t,
            None => {
                proof {
                    if owed {
                        assert(len as nat * (fp as nat) <= <Vec<T> as Codec>::peak(
                            pre.remaining(),
                            pre.config,
                        ));
                        assert(false);
                    }
                }
                return Err(DecodeError::LimitExceeded);
            },
        };
        match d.claim_bytes_read(total) {
            Ok(()) => {},
            Err(e) => {
                proof {
                    if owed {
                        assert(k + len as nat * (fp as nat) <= <Vec<T> as Codec>::peak(
                            pre.remaining(),
                            pre.config,
                        ));
                        assert(false);
                    }
                }
                return Err(e);
            },
        }
    }
    let ghost lenn = len as nat;
    let mut out: Vec<T> = Vec::with_capacity(len);
    let mut i: usize = 0;
    proof {
        assert(out.deep_view() =~= Seq::<<T as DeepView>::V>::empty());
    }
    while i < len
        invariant
            pre == *old(d),
            pre.wf(),
            i <= len,
            d.wf(),
            T::spec_footprint() == fp,
            pre.config.limit is Bounded ==> (len as nat) * (fp as nat) <= usize::MAX && budget_ok(
                pre.claimed() + k,
                (len as nat) * (fp as nat),
                pre.config,
            ),
            d.config == pre.config,
            d.context == pre.context,
            d.reader.bytes@ == pre.reader.bytes@,
            d.reader.pos >= d1.reader.pos,
            d1.reader.pos == pre.reader.pos + k,
            d1.remaining() == elems_bytes,
            d1.wf(),
            elems_bytes == pre.remaining().skip(k as int),
            len_outcome(pre.remaining(), pre.claimed(), pre.config) == Ok::<
                (nat, nat),
                DecodeError,
            >((len as nat, k)),
            d.remaining() == elems_bytes.skip((d.reader.pos - d1.reader.pos) as int),
            out.deep_view().len() == i,
            match pre.config.limit {
                Limit::Bounded(_) => d.bytes_claimed == pre.bytes_claimed + k + (len - i) * fp + (
                d.reader.pos - d1.reader.pos),
                Limit::Unbounded => d.bytes_claimed == pre.bytes_claimed,
            },
            match parse_elems::<T>(d.remaining(), pre.config, (len - i) as nat) {
                Some((vs_rest, m_rest)) => parse_elems::<T>(elems_bytes, pre.config, len as nat)
                    == Some(
                    (out.deep_view() + vs_rest, (d.reader.pos - d1.reader.pos + m_rest) as nat),
                ),
                None => parse_elems::<T>(elems_bytes, pre.config, len as nat) is None,
            },
            owed == (<Vec<T> as Codec>::parse(pre.remaining(), pre.config) is Some && budget_ok(
                pre.claimed(),
                <Vec<T> as Codec>::peak(pre.remaining(), pre.config),
                pre.config,
            )),
            owed ==> <Vec<T> as Codec>::peak(pre.remaining(), pre.config) == k + (len as nat) * (
            fp as nat) + peak_elems::<T>(elems_bytes, pre.config, len as nat),
            owed ==> (d.reader.pos - d1.reader.pos) + peak_elems::<T>(
                d.remaining(),
                pre.config,
                (len - i) as nat,
            ) <= peak_elems::<T>(elems_bytes, pre.config, len as nat),
        decreases len - i,
    {
        proof {
            assert((len - i) * fp >= fp) by (nonlinear_arith)
                requires
                    len - i >= 1,
                    fp >= 0,
            ;
            assert((len - i) * fp - fp == (len - (i + 1)) * fp) by (nonlinear_arith);
        }
        d.unclaim_bytes_read(fp);
        let ghost at_elem = *d;
        match T::decode(d) {
            Ok(v) => {
                proof {
                    let (dv, n) = T::parse(at_elem.remaining(), pre.config)->Some_0;
                    at_elem.lemma_advance_remaining(*d, n);
                    let ghost old_out_view = out.deep_view();
                    assert(d.remaining() =~= elems_bytes.skip(
                        (d.reader.pos - d1.reader.pos) as int,
                    ));
                    // One unfolding of the element run at this position.
                    assert(parse_elems::<T>(at_elem.remaining(), pre.config, (len - i) as nat)
                        == match parse_elems::<T>(d.remaining(), pre.config, (len - i - 1) as nat) {
                        Some((vs1, m1)) => Some::<(Seq<<T as DeepView>::V>, nat)>(
                            (seq![dv] + vs1, (n + m1) as nat),
                        ),
                        None => None::<(Seq<<T as DeepView>::V>, nat)>,
                    });
                }
                let ghost old_out = out;
                out.push(v);
                i = i + 1;
                proof {
                    if owed {
                        let (dv, n) = T::parse(at_elem.remaining(), pre.config)->Some_0;
                        T::lemma_peak_bound(at_elem.remaining(), pre.config);
                        assert(peak_elems::<T>(at_elem.remaining(), pre.config, (len - i + 1) as nat)
                            == T::peak(at_elem.remaining(), pre.config) + peak_elems::<T>(
                            d.remaining(),
                            pre.config,
                            (len - i) as nat,
                        ));
                    }
                    assert(out.deep_view() =~= old_out.deep_view().push(v.deep_view()));
                    match parse_elems::<T>(d.remaining(), pre.config, (len - i) as nat) {
                        Some((vs_rest, m_rest)) => {
                            assert(out.deep_view() + vs_rest =~= old_out.deep_view() + (seq![
                                v.deep_view(),
                            ] + vs_rest));
                        },
                        None => {},
                    }
                }
            },
            Err(e) => {
                proof {
                    lemma_len_outcome_parse(pre.remaining(), pre.claimed(), pre.config);
                    if <Vec<T> as Codec>::parse(pre.remaining(), pre.config) is Some {
                        assert(parse_elems::<T>(elems_bytes, pre.config, len as nat) is Some);
                        assert(T::parse(at_elem.remaining(), pre.config) is Some);
                    }
                    if owed {
                        assert(T::parse(at_elem.remaining(), pre.config) is Some);
                        assert(peak_elems::<T>(at_elem.remaining(), pre.config, (len - i) as nat)
                            >= T::peak(at_elem.remaining(), pre.config));
                        assert((len - i - 1) * fp <= (len as nat) * (fp as nat))
                            by (nonlinear_arith)
                            requires
                                0 <= len - i - 1 <= len,
                                fp >= 0,
                        ;
                        assert(budget_ok(
                            at_elem.claimed(),
                            T::peak(at_elem.remaining(), pre.config),
                            pre.config,
                        ));
                        assert(false);
                    }
                    if pre.config.limit is Unbounded {
                        assert(T::parse(at_elem.remaining(), pre.config) is None);
                        assert(parse_elems::<T>(at_elem.remaining(), pre.config, (len - i) as nat)
                            is None);
                        assert(<Vec<T> as Codec>::parse(pre.remaining(), pre.config) is None);
                    }
                }
                return Err(e);
            },
        }
    }
    proof {
        lemma_len_outcome_parse(pre.remaining(), pre.claimed(), pre.config);
        let consumed = (d.reader.pos - d1.reader.pos) as nat;
        assert(parse_elems::<T>(d.remaining(), pre.config, 0) == Some(
            (Seq::<<T as DeepView>::V>::empty(), 0nat),
        ));
        assert(out.deep_view() + Seq::<<T as DeepView>::V>::empty() =~= out.deep_view());
        assert(parse_elems::<T>(elems_bytes, pre.config, len as nat) == Some(
            (out.deep_view(), consumed),
        ));
        assert(<Vec<T> as Codec>::parse(pre.remaining(), pre.config) == Some(
            (out.deep_view(), (k + consumed) as nat),
        ));
        assert(i == len);
        assert((len - i) * fp == 0) by (nonlinear_arith)
            requires
                i == len,
        ;
        assert(d.reader.pos == pre.reader.pos + k + consumed);
        assert(pre.advanced_by(*d, (k + consumed) as nat));
    }
    Ok(out)
}

/// Encode a length-prefixed sequence: the element count, then each element
/// in order.
pub fn encode_vec<W: Writer, T: Codec>(v: &Vec<T>, enc: &mut EncoderImpl<W>) -> (r: Result<
    (),
    EncodeError,
>)
    requires
        old(enc).wf(),
    ensures
        final(enc).wf(),
        final(enc).config == old(enc).config,
        r is Ok ==> final(enc).sink() == old(enc).sink() + <Vec<T> as Codec>::vwire(
            v.deep_view(),
            old(enc).config,
        ) && <Vec<T> as Codec>::v_valid(v.deep_view()),
        r is Err ==> old(enc).sink().len() + <Vec<T> as Codec>::vwire(
            v.deep_view(),
            old(enc).config,
        ).len() > usize::MAX,
{
    let ghost cfg = enc.config;
    let ghost sink0 = enc.sink();
    let ghost vs = v.deep_view();
    let len = v.len();
    match enc.encode_len(len) {
        Ok(()) => {},
        Err(e) => {
            return Err(e);
        },
    }
    let mut i: usize = 0;
    while i < len
        invariant
            i <= len,
            len == vs.len(),
            vs == v.deep_view(),
            cfg == enc.config,
            cfg == old(enc).config,
            sink0 == old(enc).sink(),
            elems_valid::<T>(vs.take(i as int)),
            enc.wf(),
            enc.sink() == sink0 + len_wire(len as nat, cfg) + wire_elems::<T>(
                vs.take(i as int),
                cfg,
            ),
        decreases len - i,
    {
        proof {
            lemma_wire_elems_split::<T>(vs, cfg, i as int);
            assert(vs.skip(i as int)[0] == vs[i as int]);
            assert(vs.skip(i as int).skip(1) =~= vs.skip(i as int + 1));
            lemma_wire_elems_split::<T>(vs, cfg, i as int + 1);
            assert(v.deep_view()[i as int] == v@[i as int].deep_view());
        }
        let e = &v[i];
        match e.encode(enc) {
            Ok(()) => {},
            Err(err) => {
                proof {
                    lemma_wire_elems_split::<T>(vs, cfg, i as int);
                    assert(wire_elems::<T>(vs.skip(i as int), cfg) == T::vwire(vs[i as int], cfg)
                        + wire_elems::<T>(vs.skip(i as int + 1), cfg));
                }
                return Err(err);
            },
        }
        i = i + 1;
        proof {
            assert(sink0 + len_wire(len as nat, cfg) + wire_elems::<T>(
                vs.take(i - 1 as int),
                cfg,
            ) + T::vwire(vs[i - 1 as int], cfg) =~= sink0 + len_wire(len as nat, cfg) + (
            wire_elems::<T>(vs.take(i - 1 as int), cfg) + T::vwire(vs[i - 1 as int], cfg)));
            assert(wire_elems::<T>(vs.take(i as int), cfg) =~= wire_elems::<T>(
                vs.take(i - 1 as int),
                cfg,
            ) + T::vwire(vs[i - 1 as int], cfg)) by {
                lemma_wire_elems_split::<T>(vs.take(i as int), cfg, i - 1 as int);
                assert(vs.take(i as int).take(i - 1 as int) =~= vs.take(i - 1 as int));
                assert(vs.take(i as int).skip(i - 1 as int) =~= seq![vs[i - 1 as int]]);
                assert(wire_elems::<T>(seq![vs[i - 1 as int]], cfg) =~= T::vwire(
                    vs[i - 1 as int],
                    cfg,
                )) by {
                    assert(seq![vs[i - 1 as int]].skip(1) =~= Seq::<<T as DeepView>::V>::empty());
                    assert(wire_elems::<T>(Seq::<<T as DeepView>::V>::empty(), cfg)
                        =~= Seq::<u8>::empty());
                }
            }
        }
    }
    proof {
        assert(vs.take(len as int) =~= vs);
        assert(sink0 + len_wire(len as nat, cfg) + wire_elems::<T>(vs, cfg) =~= sink0 + (len_wire(
            len as nat,
            cfg,
        ) + wire_elems::<T>(vs, cfg)));
    }
    Ok(())
}

/// An element run's encoding splits at any element boundary.
pub proof fn lemma_wire_elems_split<T: Codec>(vs: Seq<<T as DeepView>::V>, cfg: Config, i: int)
    requires
        0 <= i <= vs.len(),
    ensures
        wire_elems::<T>(vs, cfg) == wire_elems::<T>(vs.take(i), cfg) + wire_elems::<T>(
            vs.skip(i),
            cfg,
        ),
    decreases i,
{
    if i == 0 {
        assert(vs.take(0) =~= Seq::<<T as DeepView>::V>::empty());
        assert(vs.skip(0) =~= vs);
        assert(wire_elems::<T>(vs, cfg) =~= wire_elems::<T>(vs.take(0), cfg) + wire_elems::<T>(
            vs.skip(0),
            cfg,
        ));
    } else {
        let tail = vs.skip(1);
        assert(vs.take(i)[0] == vs[0]);
        assert(vs.take(i).skip(1) =~= tail.take(i - 1));
        assert(vs.skip(i) =~= tail.skip(i - 1));
        lemma_wire_elems_split::<T>(tail, cfg, i - 1);
        assert(wire_elems::<T>(vs, cfg) =~= wire_elems::<T>(vs.take(i), cfg) + wire_elems::<T>(
            vs.skip(i),
            cfg,
        ));
    }
}

impl<T: Codec> Codec for Vec<T> {
    open spec fn vwire(v: Seq<<T as DeepView>::V>, cfg: Config) -> Seq<u8> {
        len_wire(v.len(), cfg) + wire_elems::<T>(v, cfg)
    }

    open spec fn v_valid(v: Seq<<T as DeepView>::V>) -> bool {
        v.len() <= usize::MAX && elems_valid::<T>(v)
    }

    open spec fn parse(bytes: Seq<u8>, cfg: Config) -> Option<(Seq<<T as DeepView>::V>, nat)> {
        match parse_len(bytes, cfg) {
            Some((count, k)) => match parse_elems::<T>(bytes.skip(k as int), cfg, count) {
                Some((vs, m)) => Some((vs, (k + m) as nat)),
                None => None,
            },
            None => None,
        }
    }

    open spec fn spec_footprint() -> nat {
        24
    }

    fn footprint() -> (n: usize) {
        24
    }

    open spec fn peak(bytes: Seq<u8>, cfg: Config) -> nat {
        match parse_len(bytes, cfg) {
            Some((count, k)) => k + count * T::spec_footprint() + peak_elems::<T>(
                bytes.skip(k as int),
                cfg,
                count,
            ),
            None => 0,
        }
    }

    proof fn lemma_peak_bound(bytes: Seq<u8>, cfg: Config) {
        if parse_len(bytes, cfg) is Some {
            let (count, k) = parse_len(bytes, cfg)->Some_0;
            lemma_peak_elems_bound::<T>(bytes.skip(k as int), cfg, count);
        }
    }

    proof fn lemma_parse_wire(v: Seq<<T as DeepView>::V>, cfg: Config, rest: Seq<u8>) {
        let lw = len_wire(v.len(), cfg);
        let we = wire_elems::<T>(v, cfg);
        let bytes = Self::vwire(v, cfg) + rest;
        assert(bytes =~= lw + (we + rest));
        lemma_parse_len_wire(v.len(), cfg, we + rest);
        assert(bytes.skip(lw.len() as int) =~= we + rest);
        lemma_parse_wire_elems::<T>(v, cfg, rest);
    }

    proof fn lemma_parse_sound(bytes: Seq<u8>, cfg: Config) {
        lemma_parse_len_sound(bytes, cfg);
        if parse_len(bytes, cfg) is Some {
            let (count, k) = parse_len(bytes, cfg)->Some_0;
            lemma_parse_elems_sound::<T>(bytes.skip(k as int), cfg, count);
            if parse_elems::<T>(bytes.skip(k as int), cfg, count) is Some {
                let (vs, m) = parse_elems::<T>(bytes.skip(k as int), cfg, count)->Some_0;
                assert(bytes.take((k + m) as int) =~= bytes.take(k as int) + bytes.skip(
                    k as int,
                ).take(m as int));
                assert(Self::vwire(vs, cfg) =~= len_wire(vs.len(), cfg) + wire_elems::<T>(
                    vs,
                    cfg,
                ));
            }
        }
    }

    fn encode<W: Writer>(&self, enc: &mut EncoderImpl<W>) -> (r: Result<(), EncodeError>) {
        encode_vec(self, enc)
    }

    fn decode<'de, Ctx>(d: &mut DecoderImpl<'de, Ctx>) -> (r: Result<Vec<T>, DecodeError>) {
        decode_vec(d)
    }
}

impl<T: Codec> Codec for Option<T> {
    open spec fn vwire(v: Option<<T as DeepView>::V>, cfg: Config) -> Seq<u8> {
        match v {
            None => seq![0u8],
            Some(x) => seq![1u8] + T::vwire(x, cfg),
        }
    }

    open spec fn v_valid(v: Option<<T as DeepView>::V>) -> bool {
        match v {
            None => true,
            Some(x) => T::v_valid(x),
        }
    }

    open spec fn parse(bytes: Seq<u8>, cfg: Config) -> Option<(Option<<T as DeepView>::V>, nat)> {
        if bytes.len() < 1 {
            None
        } else if bytes[0] == 0 {
            Some((None, 1))
        } else if bytes[0] == 1 {
            match T::parse(bytes.skip(1), cfg) {
                Some((x, n)) => Some((Some(x), (1 + n) as nat)),
                None => None,
            }
        } else {
            None
        }
    }

    open spec fn spec_footprint() -> nat {
        if T::spec_footprint() + 1 > usize::MAX {
            usize::MAX as nat
        } else {
            T::spec_footprint() + 1
        }
    }

    fn footprint() -> (n: usize) {
        let f = T::footprint();
        if f == usize::MAX {
            f
        } else {
            f + 1
        }
    }

    open spec fn peak(bytes: Seq<u8>, cfg: Config) -> nat {
        if bytes.len() >= 1 && bytes[0] == 0 {
            1
        } else if bytes.len() >= 1 && bytes[0] == 1 {
            1 + T::peak(bytes.skip(1), cfg)
        } else {
            0
        }
    }

    proof fn lemma_peak_bound(bytes: Seq<u8>, cfg: Config) {
        if Self::parse(bytes, cfg) is Some && bytes[0] == 1 {
            T::lemma_peak_bound(bytes.skip(1), cfg);
        }
    }

    proof fn lemma_parse_wire(v: Option<<T as DeepView>::V>, cfg: Config, rest: Seq<u8>) {
        match v {
            None => {
                let bytes = Self::vwire(v, cfg) + rest;
                assert(bytes[0] == 0);
            },
            Some(x) => {
                let w = T::vwire(x, cfg);
                let bytes = Self::vwire(v, cfg) + rest;
                assert(bytes =~= seq![1u8] + (w + rest));
                assert(bytes[0] == 1);
                assert(bytes.skip(1) =~= w + rest);
                T::lemma_parse_wire(x, cfg, rest);
            },
        }
    }

    proof fn lemma_parse_sound(bytes: Seq<u8>, cfg: Config) {
        if Self::parse(bytes, cfg) is Some {
            if bytes[0] == 0 {
                assert(Self::vwire(None, cfg) =~= bytes.take(1));
            } else {
                T::lemma_parse_sound(bytes.skip(1), cfg);
                let (x, n) = T::parse(bytes.skip(1), cfg)->Some_0;
                assert(Self::vwire(Some(x), cfg) =~= bytes.take(1 + n as int)) by {
                    assert(bytes.skip(1).take(n as int) =~= bytes.take(1 + n as int).skip(1));
                    assert(Self::vwire(Some(x), cfg) =~= seq![1u8] + bytes.skip(1).take(n as int));
                    assert(bytes.take(1 + n as int) =~= seq![bytes[0]] + bytes.take(1 + n as int).skip(1));
                }
            }
        }
    }

    fn encode<W: Writer>(&self, enc: &mut EncoderImpl<W>) -> (r: Result<(), EncodeError>) {
        proof {
            lemma_pow256_8();
        }
        let ghost cfg = enc.config;
        match self {
            None => {
                let r = enc.encode_uint(0, 1);
                proof {
                    assert(crate::wire::uint_wire(0, 1, cfg) =~= Self::vwire(
                        self.deep_view(),
                        cfg,
                    ));
                }
                r
            },
            Some(x) => {
                let ghost sink0 = enc.sink();
                match enc.encode_uint(1, 1) {
                    Ok(()) => {},
                    Err(e) => {
                        proof {
                            assert(Self::vwire(self.deep_view(), cfg).len() >= 1);
                        }
                        return Err(e);
                    },
                }
                proof {
                    assert(crate::wire::uint_wire(1, 1, cfg) =~= seq![1u8]);
                }
                match x.encode(enc) {
                    Ok(()) => {
                        proof {
                            assert(sink0 + seq![1u8] + T::vwire(x.deep_view(), cfg) =~= sink0
                                + Self::vwire(self.deep_view(), cfg));
                        }
                        Ok(())
                    },
                    Err(e) => {
                        proof {
                            assert(Self::vwire(self.deep_view(), cfg).len() == 1 + T::vwire(
                                x.deep_view(),
                                cfg,
                            ).len());
                        }
                        Err(e)
                    },
                }
            },
        }
    }

    fn decode<'de, Ctx>(d: &mut DecoderImpl<'de, Ctx>) -> (r: Result<Option<T>, DecodeError>) {
        proof {
            lemma_pow256_8();
            if old(d).remaining().len() >= 1 {
                lemma_word_val_single(old(d).remaining().take(1), old(d).config.endianness);
            }
        }
        let ghost pre = *old(d);
        let ghost owed = Self::parse(pre.remaining(), pre.config) is Some && budget_ok(
            pre.claimed(),
            Self::peak(pre.remaining(), pre.config),
            pre.config,
        );
        let tag = d.decode_word(1)?;
        let ghost d1 = *d;
        proof {
            pre.lemma_advance_remaining(d1, 1);
        }
        if tag == 0 {
            return Ok(None);
        }
        if tag != 1 {
            return Err(DecodeError::InvalidValue);
        }
        proof {
            if owed {
                assert(budget_ok(
                    d1.claimed(),
                    T::peak(d1.remaining(), pre.config),
                    pre.config,
                ));
            }
        }
        match T::decode(d) {
            Ok(x) => {
                proof {
                    let (xv, n) = T::parse(d1.remaining(), pre.config)->Some_0;
                    pre.lemma_advance_trans(d1, *d, 1, n);
                }
                Ok(Some(x))
            },
            Err(e) => Err(e),
        }
    }
}

impl<A: Codec, B: Codec> Codec for (A, B) {
    open spec fn vwire(v: (<A as DeepView>::V, <B as DeepView>::V), cfg: Config) -> Seq<u8> {
        A::vwire(v.0, cfg) + B::vwire(v.1, cfg)
    }

    open spec fn v_valid(v: (<A as DeepView>::V, <B as DeepView>::V)) -> bool {
        A::v_valid(v.0) && B::v_valid(v.1)
    }

    open spec fn parse(bytes: Seq<u8>, cfg: Config) -> Option<
        ((<A as DeepView>::V, <B as DeepView>::V), nat),
    > {
        match A::parse(bytes, cfg) {
            Some((a, n)) => match B::parse(bytes.skip(n as int), cfg) {
                Some((b, m)) => Some(((a, b), (n + m) as nat)),
                None => None,
            },
            None => None,
        }
    }

    open spec fn spec_footprint() -> nat {
        if A::spec_footprint() + B::spec_footprint() > usize::MAX {
            usize::MAX as nat
        } else {
            A::spec_footprint() + B::spec_footprint()
        }
    }

    fn footprint() -> (n: usize) {
        let a = A::footprint();
        let b = B::footprint();
        match a.checked_add(b) {
            Some(s) => s,
            None => usize::MAX,
        }
    }

    open spec fn peak(bytes: Seq<u8>, cfg: Config) -> nat {
        match A::parse(bytes, cfg) {
            Some((a, n)) => A::peak(bytes, cfg) + B::peak(bytes.skip(n as int), cfg),
            None => 0,
        }
    }

    proof fn lemma_peak_bound(bytes: Seq<u8>, cfg: Config) {
        if Self::parse(bytes, cfg) is Some {
            let (a, n) = A::parse(bytes, cfg)->Some_0;
            A::lemma_peak_bound(bytes, cfg);
            B::lemma_peak_bound(bytes.skip(n as int), cfg);
        }
    }

    proof fn lemma_parse_wire(v: (<A as DeepView>::V, <B as DeepView>::V), cfg: Config, rest: Seq<u8>) {
        let wa = A::vwire(v.0, cfg);
        let wb = B::vwire(v.1, cfg);
        let bytes = Self::vwire(v, cfg) + rest;
        assert(bytes =~= wa + (wb + rest));
        A::lemma_parse_wire(v.0, cfg, wb + rest);
        assert(bytes.skip(wa.len() as int) =~= wb + rest);
        B::lemma_parse_wire(v.1, cfg, rest);
    }

    proof fn lemma_parse_sound(bytes: Seq<u8>, cfg: Config) {
        if Self::parse(bytes, cfg) is Some {
            A::lemma_parse_sound(bytes, cfg);
            let (a, n) = A::parse(bytes, cfg)->Some_0;
            B::lemma_parse_sound(bytes.skip(n as int), cfg);
            let (b, m) = B::parse(bytes.skip(n as int), cfg)->Some_0;
            assert(bytes.take((n + m) as int) =~= bytes.take(n as int) + bytes.skip(n as int).take(
                m as int,
            ));
        }
    }

    fn encode<W: Writer>(&self, enc: &mut EncoderImpl<W>) -> (r: Result<(), EncodeError>) {
        let ghost cfg = enc.config;
        let ghost sink0 = enc.sink();
        match self.0.encode(enc) {
            Ok(()) => {},
            Err(e) => {
                return Err(e);
            },
        }
        match self.1.encode(enc) {
            Ok(()) => {
                proof {
                    assert(sink0 + A::vwire(self.0.deep_view(), cfg) + B::vwire(
                        self.1.deep_view(),
                        cfg,
                    ) =~= sink0 + Self::vwire(self.deep_view(), cfg));
                }
                Ok(())
            },
            Err(e) => Err(e),
        }
    }

    fn decode<'de, Ctx>(d: &mut DecoderImpl<'de, Ctx>) -> (r: Result<(A, B), DecodeError>) {
        let ghost pre = *old(d);
        let ghost owed = Self::parse(pre.remaining(), pre.config) is Some && budget_ok(
            pre.claimed(),
            Self::peak(pre.remaining(), pre.config),
            pre.config,
        );
        proof {
            if owed {
                A::lemma_peak_bound(pre.remaining(), pre.config);
                assert(budget_ok(pre.claimed(), A::peak(pre.remaining(), pre.config), pre.config));
            }
        }
        let a = A::decode(d)?;
        let ghost d1 = *d;
        let ghost n = (d1.reader.pos - pre.reader.pos) as nat;
        proof {
            pre.lemma_advance_remaining(d1, n);
            if owed {
                A::lemma_peak_bound(pre.remaining(), pre.config);
                assert(budget_ok(
                    d1.claimed(),
                    B::peak(d1.remaining(), pre.config),
                    pre.config,
                ));
            }
        }
        match B::decode(d) {
            Ok(b) => {
                proof {
                    let (bv, m) = B::parse(d1.remaining(), pre.config)->Some_0;
                    pre.lemma_advance_trans(d1, *d, n, m);
                }
                Ok((a, b))
            },
            Err(e) => Err(e),
        }
    }
}

/// The raw-byte fast path: decode a `Vec<u8>` without the per-element loop.
///
/// After the length prefix, the pre-claim of `len` bytes is the exact cost
/// of the run, so nothing is refunded: the run is claimed and read in one
/// pull.  The contract is the same as the generic loop's — the two are
/// interchangeable (see [`lemma_byte_run_fast_path`]).
pub fn decode_byte_vec<'de, Ctx>(d: &mut DecoderImpl<'de, Ctx>) -> (r: Result<
    Vec<u8>,
    DecodeError,
>)
    requires
        old(d).wf(),
    ensures
        old(d).frames(*final(d)),
        r matches Ok(v) ==> (<Vec<u8> as Codec>::parse(old(d).remaining(), old(d).config)
            matches Some((pv, n)) && pv == v.deep_view() && old(d).advanced_by(*final(d), n)),
        old(d).config.limit is Unbounded ==> (r is Err <==> <Vec<u8> as Codec>::parse(
            old(d).remaining(),
            old(d).config,
        ) is None),
        r is Err && <Vec<u8> as Codec>::parse(old(d).remaining(), old(d).config) is Some ==> r
            == Err::<Vec<u8>, DecodeError>(DecodeError::LimitExceeded),
        (match len_outcome(old(d).remaining(), old(d).claimed(), old(d).config) {
            Ok((l, k)) => (!budget_ok(old(d).claimed() + k, l, old(d).config) ==> r == Err::<
                Vec<u8>,
                DecodeError,
            >(DecodeError::LimitExceeded) && final(d).reader.pos == old(d).reader.pos + k) && (
            budget_ok(old(d).claimed() + k, l, old(d).config) && old(d).remaining().len() >= k + l
                ==> r is Ok),
            Err(_) => true,
        }),
        (match byte_run_outcome(old(d).remaining(), old(d).claimed(), old(d).config) {
            Ok((v, n)) => r matches Ok(s) && s@ == v && old(d).advanced_by(*final(d), n),
            Err(e) => r == Err::<Vec<u8>, DecodeError>(e),
        }),
{
    proof {
        lemma_len_outcome_parse(old(d).remaining(), old(d).claimed(), old(d).config);
    }
    let ghost pre = *old(d);
    let len = d.decode_len()?;
    let ghost k = (d.reader.pos - pre.reader.pos) as nat;
    let ghost d1 = *d;
    proof {
        pre.lemma_advance_remaining(d1, k);
        lemma_byte_run_fast_path(d1.remaining(), pre.config, len as nat);
    }
    let s = d.read_exact(len)?;
    let out = vstd::slice::slice_to_vec(s);
    proof {
        pre.lemma_advance_trans(d1, *d, k, len as nat);
        assert(out.deep_view() =~= out@);
    }
    Ok(out)
}

} // verus!
