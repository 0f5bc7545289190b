//! The decoding engine: a borrowing reader over a byte slice, and the
//! budgeted decoder that owns it.
//!
//! The decoder owns exactly one reader, one read-only [`Config`], one
//! caller-chosen context value, and a running count of the bytes it has
//! committed to.  Every read claims its bytes against the configured budget
//! before touching the stream, so `bytes_claimed` never exceeds the limit.

use vstd::prelude::*;

use crate::config::{Config, Endianness, Limit};
use crate::error::DecodeError;
use crate::wire::{
    budget_ok, le_val, lemma_pow256_8, lemma_pow256_mono, pow256, tag_min, tag_width,
    uint_outcome, varint_outcome, word_outcome, word_val,
};

verus! {

/// A reader that pulls bytes out of a borrowed slice.  Reads can hand out
/// subslices of the original buffer, which is what makes zero-copy
/// ("borrowing") decoding possible: the returned slices live as long as the
/// buffer, not as long as the reader.
pub struct SliceReader<'de> {
    pub bytes: &'de [u8],
    pub pos: usize,
}

impl<'de> SliceReader<'de> {
    pub open spec fn wf(self) -> bool {
        self.pos <= self.bytes@.len()
    }

    /// The bytes not yet consumed.
    pub open spec fn remaining(self) -> Seq<u8> {
        self.bytes@.skip(self.pos as int)
    }

    pub fn new(bytes: &'de [u8]) -> (r: SliceReader<'de>)
        ensures
            r.wf(),
            r.bytes@ == bytes@,
            r.pos == 0,
            r.remaining() == bytes@,
    {
        let r = SliceReader { bytes, pos: 0 };
        proof {
            assert(r.remaining() =~= bytes@);
        }
        r
    }

    /// Pull exactly `n` bytes, as a slice of the underlying buffer, or fail
    /// without consuming anything.
    pub fn take_slice(&mut self, n: usize) -> (r: Result<&'de [u8], DecodeError>)
        requires
            old(self).wf(),
        ensures
            final(self).wf(),
            final(self).bytes@ == old(self).bytes@,
            match r {
                Ok(s) => {
                    &&& old(self).remaining().len() >= n
                    &&& s@ == old(self).remaining().take(n as int)
                    &&& final(self).pos == old(self).pos + n
                },
                Err(e) => {
                    &&& e == DecodeError::UnexpectedEnd
                    &&& old(self).remaining().len() < n
                    &&& *final(self) == *old(self)
                },
            },
    {
        if n > self.bytes.len() - self.pos {
            return Err(DecodeError::UnexpectedEnd);
        }
        let s = vstd::slice::slice_subrange(self.bytes, self.pos, self.pos + n);
        proof {
            assert(s@ =~= self.remaining().take(n as int));
        }
        self.pos = self.pos + n;
        Ok(s)
    }
}

/// A decoder that reads bytes from a [`SliceReader`], accounting every byte
/// against the configured budget and threading a caller-chosen context value
/// through the whole decode session.
pub struct DecoderImpl<'de, Ctx> {
    pub reader: SliceReader<'de>,
    pub config: Config,
    pub bytes_claimed: usize,
    pub context: Ctx,
}

impl<'de, Ctx> DecoderImpl<'de, Ctx> {
    /// The decoder's invariant: the reader is in bounds, the claim counter
    /// never exceeds a configured limit, and stays zero when no limit is
    /// configured (claims are no-ops then).
    pub open spec fn wf(self) -> bool {
        &&& self.reader.wf()
        &&& match self.config.limit {
            Limit::Bounded(l) => self.bytes_claimed <= l,
            Limit::Unbounded => self.bytes_claimed == 0,
        }
    }

    pub open spec fn remaining(self) -> Seq<u8> {
        self.reader.remaining()
    }

    pub open spec fn claimed(self) -> nat {
        self.bytes_claimed as nat
    }

    /// `post` is `self` after consuming and claiming exactly `n` bytes:
    /// what every successful decode of an `n`-byte value does to the
    /// decoder.  Config and context are untouched.
    pub open spec fn advanced_by(self, post: Self, n: nat) -> bool {
        &&& post.config == self.config
        &&& post.context == self.context
        &&& post.reader.bytes@ == self.reader.bytes@
        &&& post.reader.pos == self.reader.pos + n
        &&& match self.config.limit {
            Limit::Bounded(_) => post.bytes_claimed == self.bytes_claimed + n,
            Limit::Unbounded => post.bytes_claimed == self.bytes_claimed,
        }
    }

    /// What any decode call, failed or not, preserves.
    pub open spec fn frames(self, post: Self) -> bool {
        &&& post.wf()
        &&& post.config == self.config
        &&& post.context == self.context
        &&& post.reader.bytes@ == self.reader.bytes@
        &&& post.reader.pos >= self.reader.pos
    }

    /// Two consecutive consumptions compose.
    pub proof fn lemma_advance_trans(self, mid: Self, post: Self, m: nat, n: nat)
        requires
            self.advanced_by(mid, m),
            mid.advanced_by(post, n),
        ensures
            self.advanced_by(post, m + n),
    {
    }

    /// Advancing by `n` drops the first `n` bytes of the remaining input.
    pub proof fn lemma_advance_remaining(self, post: Self, n: nat)
        requires
            self.wf(),
            self.advanced_by(post, n),
            n <= self.remaining().len(),
        ensures
            post.remaining() == self.remaining().skip(n as int),
    {
        assert(post.remaining() =~= self.remaining().skip(n as int));
    }

    /// Construct a new decoder with a fresh budget.
    pub fn new(reader: SliceReader<'de>, config: Config, context: Ctx) -> (r: DecoderImpl<
        'de,
        Ctx,
    >)
        requires
            reader.wf(),
        ensures
            r.wf(),
            r.reader == reader,
            r.config == config,
            r.bytes_claimed == 0,
            r.context == context,
    {
        DecoderImpl { reader, config, bytes_claimed: 0, context }
    }

    /// Exclusive access to the underlying reader.
    pub fn reader(&mut self) -> (r: &mut SliceReader<'de>)
        ensures
            *r == old(self).reader,
            final(self).reader == *final(r),
            final(self).config == old(self).config,
            final(self).bytes_claimed == old(self).bytes_claimed,
            final(self).context == old(self).context,
    {
        &mut self.reader
    }

    /// Exclusive access to the reader for zero-copy reads.  On this engine
    /// the reader is always slice-backed, so the borrowing discipline is
    /// available whenever the owned one is.
    pub fn borrow_reader(&mut self) -> (r: &mut SliceReader<'de>)
        ensures
            *r == old(self).reader,
            final(self).reader == *final(r),
            final(self).config == old(self).config,
            final(self).bytes_claimed == old(self).bytes_claimed,
            final(self).context == old(self).context,
    {
        &mut self.reader
    }

    /// Read-only access to the policy.
    pub fn config(&self) -> (r: &Config)
        ensures
            *r == self.config,
    {
        &self.config
    }

    /// Exclusive access to the threaded context: what a nested decode call
    /// writes through this reference, the caller sees after the call.
    pub fn context(&mut self) -> (r: &mut Ctx)
        ensures
            *r == old(self).context,
            final(self).context == *final(r),
            final(self).reader == old(self).reader,
            final(self).config == old(self).config,
            final(self).bytes_claimed == old(self).bytes_claimed,
    {
        &mut self.context
    }

    /// Commit `n` more bytes against the budget.  With no limit configured
    /// this does nothing; with a limit it either raises the counter or
    /// fails with `LimitExceeded`, leaving the decoder untouched.
    pub fn claim_bytes_read(&mut self, n: usize) -> (r: Result<(), DecodeError>)
        requires
            old(self).wf(),
        ensures
            final(self).wf(),
            final(self).reader == old(self).reader,
            final(self).config == old(self).config,
            final(self).context == old(self).context,
            match r {
                Ok(()) => {
                    &&& budget_ok(old(self).claimed(), n as nat, old(self).config)
                    &&& match old(self).config.limit {
                        Limit::Bounded(_) => final(self).bytes_claimed == old(self).bytes_claimed
                            + n,
                        Limit::Unbounded => final(self).bytes_claimed == old(self).bytes_claimed,
                    }
                },
                Err(e) => {
                    &&& e == DecodeError::LimitExceeded
                    &&& !budget_ok(old(self).claimed(), n as nat, old(self).config)
                    &&& *final(self) == *old(self)
                },
            },
    {
        match self.config.limit {
            Limit::Bounded(l) => {
                if n <= l && self.bytes_claimed <= l - n {
                    self.bytes_claimed = self.bytes_claimed + n;
                    Ok(())
                } else {
                    Err(DecodeError::LimitExceeded)
                }
            },
            Limit::Unbounded => Ok(()),
        }
    }

    /// Return `n` bytes to the budget.  Callers only un-claim amounts they
    /// claimed and have not spent, so the counter cannot underflow.  Used
    /// exclusively by the container protocol's claim/refund dance.
    pub fn unclaim_bytes_read(&mut self, n: usize)
        requires
            old(self).wf(),
            old(self).config.limit is Bounded ==> n <= old(self).bytes_claimed,
        ensures
            final(self).wf(),
            final(self).reader == old(self).reader,
            final(self).config == old(self).config,
            final(self).context == old(self).context,
            match old(self).config.limit {
                Limit::Bounded(_) => final(self).bytes_claimed == old(self).bytes_claimed - n,
                Limit::Unbounded => final(self).bytes_claimed == old(self).bytes_claimed,
            },
    {
        match self.config.limit {
            Limit::Bounded(_) => {
                self.bytes_claimed = self.bytes_claimed - n;
            },
            Limit::Unbounded => {},
        }
    }

    /// Claim `n` bytes, then pull them as a borrowed slice.  This is the
    /// one gate every byte of input passes through, and also the raw-byte
    /// fast path: for a byte run the up-front claim is the exact cost.
    pub fn read_exact(&mut self, n: usize) -> (r: Result<&'de [u8], DecodeError>)
        requires
            old(self).wf(),
        ensures
            old(self).frames(*final(self)),
            match r {
                Ok(s) => {
                    &&& budget_ok(old(self).claimed(), n as nat, old(self).config)
                    &&& old(self).remaining().len() >= n
                    &&& s@ == old(self).remaining().take(n as int)
                    &&& old(self).advanced_by(*final(self), n as nat)
                },
                Err(e) => {
                    &&& *final(self) == *old(self)
                    &&& !(budget_ok(old(self).claimed(), n as nat, old(self).config) && old(
                        self,
                    ).remaining().len() >= n)
                    &&& e == (if !budget_ok(old(self).claimed(), n as nat, old(self).config) {
                        DecodeError::LimitExceeded
                    } else {
                        DecodeError::UnexpectedEnd
                    })
                },
            },
    {
        let has_room = match self.config.limit {
            Limit::Bounded(l) => n <= l && self.bytes_claimed <= l - n,
            Limit::Unbounded => true,
        };
        if !has_room {
            return Err(DecodeError::LimitExceeded);
        }
        let s = self.reader.take_slice(n)?;
        match self.config.limit {
            Limit::Bounded(_) => {
                self.bytes_claimed = self.bytes_claimed + n;
            },
            Limit::Unbounded => {},
        }
        Ok(s)
    }
}

/// A context-substitution wrapper: presents a different context value to an
/// inner decode scope while the stream, the policy and the byte budget keep
/// flowing through the outer instance's state.
///
/// Built from the outer decoder and the inner context, used for the nested
/// decode through [`WithContext::decoder`], and dissolved with
/// [`WithContext::finish`], which restores the outer context and keeps
/// whatever the inner scope consumed and claimed.  This is the only
/// sanctioned way to change the context type mid-decode.
pub struct WithContext<'de, Ctx, C> {
    pub inner: DecoderImpl<'de, C>,
    pub saved: Ctx,
}

impl<'de, Ctx, C> WithContext<'de, Ctx, C> {
    pub open spec fn wf(self) -> bool {
        self.inner.wf()
    }

    /// The decoder the inner scope works with.
    pub open spec fn spec_inner(self) -> DecoderImpl<'de, C> {
        self.inner
    }

    /// The outer context, held aside untouched.
    pub open spec fn spec_saved(self) -> Ctx {
        self.saved
    }

    /// Wrap `outer`, presenting `context` to the inner scope.
    pub fn new(outer: DecoderImpl<'de, Ctx>, context: C) -> (r: WithContext<'de, Ctx, C>)
        requires
            outer.wf(),
        ensures
            r.wf(),
            r.spec_inner().reader == outer.reader,
            r.spec_inner().config == outer.config,
            r.spec_inner().bytes_claimed == outer.bytes_claimed,
            r.spec_inner().context == context,
            r.spec_saved() == outer.context,
    {
        let DecoderImpl { reader, config, bytes_claimed, context: outer_context } = outer;
        WithContext { inner: DecoderImpl { reader, config, bytes_claimed, context }, saved: outer_context }
    }

    /// Exclusive access to the decoder carrying the substituted context:
    /// nested decodes go through this, drawing on the outer budget.
    pub fn decoder(&mut self) -> (r: &mut DecoderImpl<'de, C>)
        ensures
            *r == old(self).spec_inner(),
            final(self).spec_inner() == *final(r),
            final(self).spec_saved() == old(self).spec_saved(),
    {
        &mut self.inner
    }

    /// Exclusive access to the substituted context.
    pub fn context(&mut self) -> (r: &mut C)
        ensures
            *r == old(self).spec_inner().context,
            final(self).spec_inner() == (DecoderImpl { context: *final(r), ..old(self).spec_inner() }),
            final(self).spec_saved() == old(self).spec_saved(),
    {
        self.inner.context()
    }

    /// Exclusive access to the underlying reader.
    pub fn reader(&mut self) -> (r: &mut SliceReader<'de>)
        ensures
            *r == old(self).spec_inner().reader,
            final(self).spec_inner() == (DecoderImpl { reader: *final(r), ..old(self).spec_inner() }),
            final(self).spec_saved() == old(self).spec_saved(),
    {
        self.inner.reader()
    }

    /// Exclusive access to the reader for zero-copy reads.
    pub fn borrow_reader(&mut self) -> (r: &mut SliceReader<'de>)
        ensures
            *r == old(self).spec_inner().reader,
            final(self).spec_inner() == (DecoderImpl { reader: *final(r), ..old(self).spec_inner() }),
            final(self).spec_saved() == old(self).spec_saved(),
    {
        self.inner.borrow_reader()
    }

    /// Read-only access to the policy.
    pub fn config(&self) -> (r: &Config)
        ensures
            *r == self.spec_inner().config,
    {
        self.inner.config()
    }

    /// Claims delegate to the outer budget.
    pub fn claim_bytes_read(&mut self, n: usize) -> (r: Result<(), DecodeError>)
        requires
            old(self).wf(),
        ensures
            final(self).wf(),
            final(self).spec_saved() == old(self).spec_saved(),
            final(self).spec_inner().reader == old(self).spec_inner().reader,
            final(self).spec_inner().config == old(self).spec_inner().config,
            final(self).spec_inner().context == old(self).spec_inner().context,
            match r {
                Ok(()) => {
                    &&& budget_ok(old(self).spec_inner().claimed(), n as nat, old(self).spec_inner().config)
                    &&& match old(self).spec_inner().config.limit {
                        Limit::Bounded(_) => final(self).spec_inner().bytes_claimed == old(
                            self,
                        ).spec_inner().bytes_claimed + n,
                        Limit::Unbounded => final(self).spec_inner().bytes_claimed == old(
                            self,
                        ).spec_inner().bytes_claimed,
                    }
                },
                Err(e) => {
                    &&& e == DecodeError::LimitExceeded
                    &&& !budget_ok(old(self).spec_inner().claimed(), n as nat, old(self).spec_inner().config)
                    &&& *final(self) == *old(self)
                },
            },
    {
        self.inner.claim_bytes_read(n)
    }

    /// Refunds delegate to the outer budget.
    pub fn unclaim_bytes_read(&mut self, n: usize)
        requires
            old(self).wf(),
            old(self).spec_inner().config.limit is Bounded ==> n <= old(
                self,
            ).spec_inner().bytes_claimed,
        ensures
            final(self).wf(),
            final(self).spec_saved() == old(self).spec_saved(),
            final(self).spec_inner().reader == old(self).spec_inner().reader,
            final(self).spec_inner().config == old(self).spec_inner().config,
            final(self).spec_inner().context == old(self).spec_inner().context,
            match old(self).spec_inner().config.limit {
                Limit::Bounded(_) => final(self).spec_inner().bytes_claimed == old(
                    self,
                ).spec_inner().bytes_claimed - n,
                Limit::Unbounded => final(self).spec_inner().bytes_claimed == old(
                    self,
                ).spec_inner().bytes_claimed,
            },
    {
        self.inner.unclaim_bytes_read(n)
    }

    /// Dissolve the wrapper: the outer decoder continues with its own
    /// context, at the position and budget the inner scope left.
    pub fn finish(self) -> (r: DecoderImpl<'de, Ctx>)
        requires
            self.wf(),
        ensures
            r.wf(),
            r.reader == self.spec_inner().reader,
            r.config == self.spec_inner().config,
            r.bytes_claimed == self.spec_inner().bytes_claimed,
            r.context == self.spec_saved(),
    {
        let WithContext { inner, saved } = self;
        let DecoderImpl { reader, config, bytes_claimed, context: _ } = inner;
        DecoderImpl { reader, config, bytes_claimed, context: saved }
    }
}

/// The value of a word of at most eight bytes, read in byte order `e`.
pub fn word_from_slice(s: &[u8], e: Endianness) -> (v: u64)
    requires
        s@.len() <= 8,
    ensures
        v as nat == word_val(s@, e),
{
    proof {
        lemma_pow256_8();
    }
    let n = s.len();
    match e {
        Endianness::Little => {
            let mut acc: u64 = 0;
            let mut i: usize = n;
            while i > 0
                invariant
                    i <= n,
                    n == s@.len() <= 8,
                    acc as nat == le_val(s@.skip(i as int)),
                    (acc as nat) < pow256((n - i) as nat),
                    pow256(8) == 0x1_0000_0000_0000_0000,
                decreases i,
            {
                i = i - 1;
                proof {
                    assert(s@.skip(i as int).len() == n - i);
                    assert(s@.skip(i as int)[0] == s@[i as int]);
                    assert(s@.skip(i as int).skip(1) =~= s@.skip(i as int + 1));
                    lemma_pow256_mono((n - i - 1) as nat, 7);
                    assert(pow256(7) * 256 == pow256(8)) by {
                        assert(pow256(8) == 256 * pow256(7));
                    }
                    assert(256 * (acc as nat) + (s@[i as int] as nat) < 256 * pow256(
                        (n - i - 1) as nat,
                    )) by (nonlinear_arith)
                        requires
                            (acc as nat) < pow256((n - i - 1) as nat),
                            s@[i as int] < 256,
                    ;
                    assert(256 * pow256((n - i - 1) as nat) == pow256((n - i) as nat));
                    lemma_pow256_mono((n - i) as nat, 8);
                }
                acc = acc * 256 + (s[i] as u64);
            }
            proof {
                assert(s@.skip(0) =~= s@);
            }
            acc
        },
        Endianness::Big => {
            let mut acc: u64 = 0;
            let mut i: usize = 0;
            while i < n
                invariant
                    i <= n,
                    n == s@.len() <= 8,
                    acc as nat == le_val(s@.take(i as int).reverse()),
                    (acc as nat) < pow256(i as nat),
                    pow256(8) == 0x1_0000_0000_0000_0000,
                decreases n - i,
            {
                proof {
                    let prev = s@.take(i as int).reverse();
                    let next = s@.take(i as int + 1).reverse();
                    assert(next =~= seq![s@[i as int]] + prev);
                    assert(next[0] == s@[i as int]);
                    assert(next.skip(1) =~= prev);
                    lemma_pow256_mono(i as nat, 7);
                    assert(pow256(8) == 256 * pow256(7));
                    assert(256 * (acc as nat) + (s@[i as int] as nat) < 256 * pow256(i as nat + 1)
                        - 255) by (nonlinear_arith)
                        requires
                            (acc as nat) < pow256(i as nat),
                            s@[i as int] < 256,
                            pow256(i as nat) >= 1,
                    ;
                    crate::wire::lemma_pow256_pos(i as nat);
                    assert(256 * pow256(i as nat) == pow256(i as nat + 1));
                    lemma_pow256_mono((i + 1) as nat, 8);
                }
                acc = acc * 256 + (s[i] as u64);
                i = i + 1;
            }
            proof {
                assert(s@.take(n as int) =~= s@);
            }
            acc
        },
    }
}

impl<'de, Ctx> DecoderImpl<'de, Ctx> {
    /// Claim and read an `n`-byte word in the configured byte order.
    pub fn decode_word(&mut self, n: usize) -> (r: Result<u64, DecodeError>)
        requires
            old(self).wf(),
            n <= 8,
        ensures
            old(self).frames(*final(self)),
            match word_outcome(old(self).remaining(), old(self).claimed(), old(self).config,
                n as nat) {
                Ok((v, used)) => {
                    &&& r matches Ok(x) && x as nat == v
                    &&& old(self).advanced_by(*final(self), used)
                },
                Err(e) => r == Err::<u64, DecodeError>(e) && *final(self) == *old(self),
            },
    {
        let e = self.config.endianness;
        let s = self.read_exact(n)?;
        Ok(word_from_slice(s, e))
    }

    /// Claim and read one variable-width integer: a single byte up to 250,
    /// otherwise a width tag and its payload.  Rejects the two unused tags
    /// and any non-minimal layout, so the format stays canonical.
    pub fn decode_varint(&mut self) -> (r: Result<u64, DecodeError>)
        requires
            old(self).wf(),
        ensures
            old(self).frames(*final(self)),
            match varint_outcome(old(self).remaining(), old(self).claimed(), old(self).config) {
                Ok((v, used)) => {
                    &&& r matches Ok(x) && x as nat == v
                    &&& old(self).advanced_by(*final(self), used)
                },
                Err(e) => r == Err::<u64, DecodeError>(e),
            },
    {
        proof {
            lemma_pow256_8();
        }
        let e = self.config.endianness;
        let tag_slice = self.read_exact(1)?;
        let tag: u8 = *vstd::slice::slice_index_get(tag_slice, 0);
        proof {
            assert(old(self).remaining()[0] == tag);
        }
        if tag <= 250 {
            return Ok(tag as u64);
        }
        if tag >= 254 {
            return Err(DecodeError::InvalidValue);
        }
        let ghost mid = *self;
        let w: usize = if tag == 251 {
            2
        } else if tag == 252 {
            4
        } else {
            8
        };
        proof {
            assert(w as nat == tag_width(tag));
        }
        let payload = self.read_exact(w)?;
        proof {
            old(self).lemma_advance_remaining(mid, 1);
            assert(mid.remaining().take(w as int) =~= old(self).remaining().subrange(
                1,
                1 + w as int,
            ));
            old(self).lemma_advance_trans(mid, *self, 1, w as nat);
        }
        let v = word_from_slice(payload, e);
        let min: u64 = if tag == 251 {
            251
        } else if tag == 252 {
            0x1_0000
        } else {
            0x1_0000_0000
        };
        proof {
            assert(min as nat == tag_min(tag));
        }
        if v < min {
            return Err(DecodeError::InvalidValue);
        }
        Ok(v)
    }

    /// Claim and read an unsigned integer whose type is `nbytes` wide,
    /// following the configured width policy, and reject values too large
    /// for the type.
    pub fn decode_uint(&mut self, nbytes: usize) -> (r: Result<u64, DecodeError>)
        requires
            old(self).wf(),
            nbytes == 1 || nbytes == 2 || nbytes == 4 || nbytes == 8,
        ensures
            old(self).frames(*final(self)),
            match uint_outcome(old(self).remaining(), old(self).claimed(), old(self).config,
                nbytes as nat) {
                Ok((v, used)) => {
                    &&& r matches Ok(x) && x as nat == v
                    &&& old(self).advanced_by(*final(self), used)
                },
                Err(e) => r == Err::<u64, DecodeError>(e),
            },
    {
        proof {
            lemma_pow256_8();
        }
        if nbytes == 1 {
            return self.decode_word(1);
        }
        match self.config.int_width {
            crate::config::IntWidth::Fixed => self.decode_word(nbytes),
            crate::config::IntWidth::Variable => {
                let v = self.decode_varint()?;
                let fits = if nbytes == 2 {
                    v <= 0xFFFF
                } else if nbytes == 4 {
                    v <= 0xFFFF_FFFF
                } else {
                    true
                };
                if fits {
                    Ok(v)
                } else {
                    Err(DecodeError::InvalidValue)
                }
            },
        }
    }

    /// Claim and read a container length: a `usize` carried on the wire as
    /// a 64-bit unsigned integer, rejected if it does not fit this
    /// machine's `usize`.
    pub fn decode_len(&mut self) -> (r: Result<usize, DecodeError>)
        requires
            old(self).wf(),
        ensures
            old(self).frames(*final(self)),
            match crate::wire::len_outcome(old(self).remaining(), old(self).claimed(),
                old(self).config) {
                Ok((v, used)) => {
                    &&& r matches Ok(x) && x as nat == v
                    &&& old(self).advanced_by(*final(self), used)
                },
                Err(e) => r == Err::<usize, DecodeError>(e),
            },
    {
        let v = self.decode_uint(8)?;
        if v > usize::MAX as u64 {
            return Err(DecodeError::InvalidValue);
        }
        Ok(v as usize)
    }
}

} // verus!
