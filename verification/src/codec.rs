//! The encode/decode capability contract, and the top-level entry points.
//!
//! A type that implements [`Codec`] says, as mathematics, what the wire
//! bytes of a value are (`vwire`), how a value is read off the front of a
//! byte string (`parse`), and proves once and for all that the two agree:
//! every value's encoding parses back to the value (`lemma_parse_wire`), and
//! whatever parses was the canonical encoding of the value read
//! (`lemma_parse_sound`).  Both functions work on the value's mathematical
//! view (`DeepView`), so containers are described by their element
//! sequences.  The executable `encode` and `decode` are then held to those
//! functions exactly, and `decode` additionally to the byte budget: a
//! successful decode claims precisely the bytes it consumed.

use vstd::prelude::*;

use crate::config::Config;
use crate::de::{DecoderImpl, SliceReader};
use crate::enc::{EncoderImpl, SizeWriter, VecWriter, Writer};
use crate::error::{DecodeError, EncodeError};
use crate::wire::budget_ok;

verus! {

/// A value that can travel over this wire format.
///
/// Field order is the whole schema: the format carries no names or tags, so
/// a type's `encode` and `decode` must visit fields in the same order, and
/// the proof obligations hold an implementation to exactly that.
pub trait Codec: DeepView + Sized {
    /// The canonical wire bytes of a value with view `v` under `cfg`.
    spec fn vwire(v: <Self as DeepView>::V, cfg: Config) -> Seq<u8>;

    /// Which views are views of real values (a sequence short enough to be
    /// a `Vec`, and so on).  Encodability talks about these only.
    spec fn v_valid(v: <Self as DeepView>::V) -> bool;

    /// Read one value off the front of `bytes`: its view and how many bytes
    /// it occupied, or `None` when no value of this type starts `bytes`.
    spec fn parse(bytes: Seq<u8>, cfg: Config) -> Option<(<Self as DeepView>::V, nat)>;

    /// The per-element amount the container protocol pre-claims: a stand-in
    /// for the element's in-memory footprint.
    spec fn spec_footprint() -> nat;

    fn footprint() -> (n: usize)
        ensures
            n as nat == Self::spec_footprint(),
    ;

    /// An upper bound on what decoding the value at the front of `bytes`
    /// claims against the budget at any moment, coarse container pre-claims
    /// included.  Meaningful only where a value parses.
    spec fn peak(bytes: Seq<u8>, cfg: Config) -> nat;

    /// The interim bound covers at least the bytes consumed.
    proof fn lemma_peak_bound(bytes: Seq<u8>, cfg: Config)
        ensures
            Self::parse(bytes, cfg) matches Some((v, n)) ==> n <= Self::peak(bytes, cfg),
    ;

    /// Round trip: the encoding of any value, followed by anything, parses
    /// back to that value and consumes exactly the encoding.
    proof fn lemma_parse_wire(v: <Self as DeepView>::V, cfg: Config, rest: Seq<u8>)
        requires
            Self::v_valid(v),
        ensures
            Self::parse(Self::vwire(v, cfg) + rest, cfg) == Some((v, Self::vwire(v, cfg).len())),
    ;

    /// Soundness: whatever parses was the canonical encoding of the value
    /// read, sitting at the front of the input.
    proof fn lemma_parse_sound(bytes: Seq<u8>, cfg: Config)
        ensures
            Self::parse(bytes, cfg) matches Some((v, n)) ==> {
                &&& n <= bytes.len()
                &&& Self::v_valid(v)
                &&& Self::vwire(v, cfg) == bytes.take(n as int)
            },
    ;

    /// Append the wire bytes of `self` to the encoder's sink.  Success also
    /// witnesses that the value's view is valid: anything a real value can
    /// encode to, the round-trip law applies to.
    fn encode<W: Writer>(&self, enc: &mut EncoderImpl<W>) -> (r: Result<(), EncodeError>)
        requires
            old(enc).wf(),
        ensures
            final(enc).wf(),
            final(enc).config == old(enc).config,
            r is Ok ==> final(enc).sink() == old(enc).sink() + Self::vwire(
                self.deep_view(),
                old(enc).config,
            ) && Self::v_valid(self.deep_view()),
            r is Err ==> old(enc).sink().len() + Self::vwire(self.deep_view(), old(enc).config).len()
                > usize::MAX,
    ;

    /// Pull one value off the decoder.
    ///
    /// On success the decoder advanced by exactly the bytes the value
    /// occupied, and claimed exactly that many against the budget
    /// (`advanced_by`): the claim/refund protocol nets out to true
    /// consumption.  Without a budget, decoding fails exactly when no value
    /// parses; with one, a parseable input can fail only with
    /// `LimitExceeded`, and success is owed whenever the interim claims fit
    /// the budget (`peak`) — in particular, coarse pre-claims that the
    /// refunds later reconcile never fail a decode the budget could carry.
    /// The threaded context is never touched by the codecs of this crate.
    fn decode<'de, Ctx>(d: &mut DecoderImpl<'de, Ctx>) -> (r: Result<Self, DecodeError>)
        requires
            old(d).wf(),
        ensures
            old(d).frames(*final(d)),
            r matches Ok(v) ==> (Self::parse(old(d).remaining(), old(d).config) matches Some(
                (pv, n),
            ) && pv == v.deep_view() && old(d).advanced_by(*final(d), n)),
            old(d).config.limit is Unbounded ==> (r is Err <==> Self::parse(
                old(d).remaining(),
                old(d).config,
            ) is None),
            r is Err && Self::parse(old(d).remaining(), old(d).config) is Some ==> r == Err::<
                Self,
                DecodeError,
            >(DecodeError::LimitExceeded),
            Self::parse(old(d).remaining(), old(d).config) is Some && budget_ok(
                old(d).claimed(),
                Self::peak(old(d).remaining(), old(d).config),
                old(d).config,
            ) ==> r is Ok,
    ;
}

/// The round-trip law: for every encodable value and every `Config`, the
/// value's wire bytes — however much input follows them — parse back to
/// exactly that value, consuming exactly the wire bytes.  Together with the
/// contracts of [`encode_to_vec`] and [`decode_from_slice`], decoding an
/// encoding yields the original value under both disciplines, since owned
/// and borrowing decodes are held to the same `parse` function.
pub proof fn lemma_round_trip<T: Codec>(v: <T as DeepView>::V, cfg: Config, rest: Seq<u8>)
    requires
        T::v_valid(v),
    ensures
        T::parse(T::vwire(v, cfg) + rest, cfg) == Some((v, T::vwire(v, cfg).len())),
        T::parse(T::vwire(v, cfg), cfg) == Some((v, T::vwire(v, cfg).len())),
{
    T::lemma_parse_wire(v, cfg, rest);
    T::lemma_parse_wire(v, cfg, Seq::empty());
    assert(T::vwire(v, cfg) + Seq::<u8>::empty() =~= T::vwire(v, cfg));
}

/// Encodings are unambiguous: two encodable values with the same wire bytes
/// under the same `Config` are the same value, so the format is
/// round-trip-safe in both directions.
pub proof fn lemma_wire_unambiguous<T: Codec>(
    v1: <T as DeepView>::V,
    v2: <T as DeepView>::V,
    cfg: Config,
)
    requires
        T::v_valid(v1),
        T::v_valid(v2),
        T::vwire(v1, cfg) == T::vwire(v2, cfg),
    ensures
        v1 == v2,
{
    lemma_round_trip::<T>(v1, cfg, Seq::empty());
    lemma_round_trip::<T>(v2, cfg, Seq::empty());
}

/// Encode the given value into a `Vec<u8>` with the given `Config`.
///
/// A first pass over a counting sink sizes the buffer, a second pass fills
/// it: the result is exactly the value's wire bytes.  The only possible
/// failure is an encoding larger than this machine's address space.
pub fn encode_to_vec<E: Codec>(val: E, config: Config) -> (r: Result<Vec<u8>, EncodeError>)
    ensures
        r matches Ok(bytes) ==> bytes@ == E::vwire(val.deep_view(), config) && E::v_valid(
            val.deep_view(),
        ),
        r is Err ==> E::vwire(val.deep_view(), config).len() > usize::MAX,
{
    let size = {
        let mut size_writer = EncoderImpl::<SizeWriter>::new(SizeWriter::default(), config);
        match val.encode(&mut size_writer) {
            Ok(()) => {},
            Err(e) => {
                return Err(e);
            },
        }
        size_writer.into_writer().bytes_written
    };
    let writer = VecWriter::with_capacity(size);
    let mut encoder = EncoderImpl::<VecWriter>::new(writer, config);
    match val.encode(&mut encoder) {
        Ok(()) => Ok(encoder.into_writer().collect()),
        Err(e) => Err(e),
    }
}

/// Decode a value of type `D` from the front of `slice`, returning it with
/// the number of bytes read.  The decode session starts with a fresh budget
/// and a unit context.
pub fn decode_from_slice<D: Codec>(slice: &[u8], config: Config) -> (r: Result<
    (D, usize),
    DecodeError,
>)
    ensures
        r matches Ok((v, consumed)) ==> (D::parse(slice@, config) matches Some((pv, n)) && pv
            == v.deep_view() && n == consumed),
        config.limit is Unbounded ==> (r is Err <==> D::parse(slice@, config) is None),
        r matches Err(e) ==> (D::parse(slice@, config) is Some ==> e == DecodeError::LimitExceeded),
        D::parse(slice@, config) is Some && budget_ok(0, D::peak(slice@, config), config) ==> r
            is Ok,
{
    let reader = SliceReader::new(slice);
    let mut decoder = DecoderImpl::<()>::new(reader, config, ());
    match D::decode(&mut decoder) {
        Ok(v) => Ok((v, decoder.reader.pos)),
        Err(e) => Err(e),
    }
}

/// Decode a value of type `D` from the front of `slice`, threading the
/// given context through the session; returns the value, the number of
/// bytes read, and the context as the decode left it.
pub fn decode_from_slice_with_context<D: Codec, Ctx>(
    slice: &[u8],
    config: Config,
    context: Ctx,
) -> (r: Result<(D, usize, Ctx), DecodeError>)
    ensures
        r matches Ok((v, consumed, ctx)) ==> (D::parse(slice@, config) matches Some((pv, n)) && pv
            == v.deep_view() && n == consumed && ctx == context),
        config.limit is Unbounded ==> (r is Err <==> D::parse(slice@, config) is None),
        r matches Err(e) ==> (D::parse(slice@, config) is Some ==> e == DecodeError::LimitExceeded),
        D::parse(slice@, config) is Some && budget_ok(0, D::peak(slice@, config), config) ==> r
            is Ok,
{
    let reader = SliceReader::new(slice);
    let mut decoder = DecoderImpl::<Ctx>::new(reader, config, context);
    match D::decode(&mut decoder) {
        Ok(v) => {
            let pos = decoder.reader.pos;
            Ok((v, pos, decoder.context))
        },
        Err(e) => Err(e),
    }
}

} // verus!
