//! The encoding engine: a byte-sink capability, two sinks (a growable
//! buffer and a byte counter for pre-sizing), and the encoder that owns one
//! sink and a [`Config`].

use vstd::prelude::*;

use crate::config::{Config, Endianness};
use crate::error::EncodeError;
use crate::wire::{
    le_bytes, len_wire, lemma_le_bytes_len, lemma_le_bytes_snoc, lemma_pow256_8,
    lemma_word_wire_len, pow256, uint_wire, varint_wire, word_wire,
};

verus! {

/// A byte sink.  `sink()` is everything accepted so far; a sink either
/// appends the whole write or reports that the total would no longer fit in
/// its address space and stays unchanged.
pub trait Writer: Sized {
    spec fn sink(&self) -> Seq<u8>;

    spec fn inv(&self) -> bool;

    fn write(&mut self, bytes: &[u8]) -> (r: Result<(), EncodeError>)
        requires
            old(self).inv(),
        ensures
            final(self).inv(),
            r is Ok ==> final(self).sink() == old(self).sink() + bytes@,
            r is Err ==> *final(self) == *old(self) && old(self).sink().len() + bytes@.len()
                > usize::MAX,
    ;
}

/// A sink that collects the bytes in a `Vec<u8>`.  It never refuses a
/// write.
pub struct VecWriter {
    pub inner: Vec<u8>,
}

impl VecWriter {
    /// Create a new vec writer with the given capacity.
    pub fn with_capacity(cap: usize) -> (r: Self)
        ensures
            r.inner@ == Seq::<u8>::empty(),
    {
        VecWriter { inner: Vec::with_capacity(cap) }
    }

    /// Hand the collected bytes out.
    pub fn collect(self) -> (r: Vec<u8>)
        ensures
            r@ == self.sink(),
    {
        self.inner
    }
}

impl Default for VecWriter {
    fn default() -> (r: Self)
        ensures
            r.inner@ == Seq::<u8>::empty(),
    {
        VecWriter { inner: Vec::new() }
    }
}

impl Writer for VecWriter {
    open spec fn sink(&self) -> Seq<u8> {
        self.inner@
    }

    open spec fn inv(&self) -> bool {
        true
    }

    fn write(&mut self, bytes: &[u8]) -> (r: Result<(), EncodeError>) {
        self.inner.extend_from_slice(bytes);
        Ok(())
    }
}

/// A sink that only counts: the first pass of [`crate::encode_to_vec`] uses
/// it to size the buffer before any byte is produced.  The bytes themselves
/// are kept only in ghost form.
pub struct SizeWriter {
    pub bytes_written: usize,
    pub shadow: Ghost<Seq<u8>>,
}

impl Default for SizeWriter {
    fn default() -> (r: Self)
        ensures
            r.bytes_written == 0,
            r.inv(),
            r.sink() == Seq::<u8>::empty(),
    {
        SizeWriter { bytes_written: 0, shadow: Ghost(Seq::empty()) }
    }
}

impl Writer for SizeWriter {
    open spec fn sink(&self) -> Seq<u8> {
        self.shadow@
    }

    open spec fn inv(&self) -> bool {
        self.shadow@.len() == self.bytes_written
    }

    fn write(&mut self, bytes: &[u8]) -> (r: Result<(), EncodeError>) {
        let n = bytes.len();
        if n <= usize::MAX - self.bytes_written {
            self.bytes_written = self.bytes_written + n;
            proof {
                self.shadow@ = self.shadow@ + bytes@;
            }
            Ok(())
        } else {
            Err(EncodeError::SinkFull)
        }
    }
}

/// The `n`-byte word holding `v`, in byte order `e`, as a buffer.
pub fn word_to_vec(v: u64, n: usize, e: Endianness) -> (out: Vec<u8>)
    requires
        n <= 8,
        (v as nat) < pow256(n as nat),
    ensures
        out@ == word_wire(v as nat, n as nat, e),
{
    proof {
        lemma_pow256_8();
        assert((v as nat) / pow256(0) == v as nat) by (nonlinear_arith)
            requires
                pow256(0) == 1,
        ;
    }
    let mut le: Vec<u8> = Vec::with_capacity(n);
    let mut cur: u64 = v;
    let mut i: usize = 0;
    while i < n
        invariant
            i <= n <= 8,
            le@ == le_bytes(v as nat, i as nat),
            le@.len() == i,
            cur as nat == (v as nat) / pow256(i as nat),
        decreases n - i,
    {
        proof {
            lemma_le_bytes_snoc(v as nat, i as nat);
            lemma_le_bytes_len(v as nat, i as nat);
            crate::wire::lemma_pow256_pos(i as nat);
            vstd::arithmetic::div_mod::lemma_div_denominator(
                v as int,
                pow256(i as nat) as int,
                256,
            );
            assert(pow256(i as nat) * 256 == pow256(i as nat + 1)) by (nonlinear_arith)
                requires
                    pow256(i as nat + 1) == 256 * pow256(i as nat),
            ;
        }
        le.push((cur % 256) as u8);
        cur = cur / 256;
        i = i + 1;
    }
    match e {
        Endianness::Little => le,
        Endianness::Big => {
            let mut out: Vec<u8> = Vec::with_capacity(n);
            let mut j: usize = 0;
            let len = le.len();
            while j < len
                invariant
                    j <= len,
                    len == le@.len(),
                    out@.len() == j,
                    forall|k: int| 0 <= k < j ==> out@[k] == le@[len - 1 - k],
                decreases len - j,
            {
                out.push(le[len - 1 - j]);
                j = j + 1;
            }
            proof {
                assert(out@ =~= le@.reverse());
            }
            out
        },
    }
}

/// A stateful encoder: one sink, one policy, consumed by a single encode
/// operation.
pub struct EncoderImpl<W> {
    pub writer: W,
    pub config: Config,
}

impl<W: Writer> EncoderImpl<W> {
    pub open spec fn wf(self) -> bool {
        self.writer.inv()
    }

    pub open spec fn sink(self) -> Seq<u8> {
        self.writer.sink()
    }

    pub fn new(writer: W, config: Config) -> (r: EncoderImpl<W>)
        ensures
            r.writer == writer,
            r.config == config,
    {
        EncoderImpl { writer, config }
    }

    /// Give the sink back, with everything written so far.
    pub fn into_writer(self) -> (r: W)
        ensures
            r == self.writer,
    {
        self.writer
    }

    /// Exclusive access to the sink.
    pub fn writer(&mut self) -> (r: &mut W)
        ensures
            *r == old(self).writer,
            final(self).writer == *final(r),
            final(self).config == old(self).config,
    {
        &mut self.writer
    }

    /// Read-only access to the policy.
    pub fn config(&self) -> (r: &Config)
        ensures
            *r == self.config,
    {
        &self.config
    }

    /// Append raw bytes to the sink.
    pub fn write_bytes(&mut self, bytes: &[u8]) -> (r: Result<(), EncodeError>)
        requires
            old(self).wf(),
        ensures
            final(self).wf(),
            final(self).config == old(self).config,
            r is Ok ==> final(self).sink() == old(self).sink() + bytes@,
            r is Err ==> old(self).sink().len() + bytes@.len() > usize::MAX,
    {
        self.writer.write(bytes)
    }

    /// Append the `n`-byte word holding `v` in the configured byte order.
    pub fn encode_word(&mut self, v: u64, n: usize) -> (r: Result<(), EncodeError>)
        requires
            old(self).wf(),
            n <= 8,
            (v as nat) < pow256(n as nat),
        ensures
            final(self).wf(),
            final(self).config == old(self).config,
            r is Ok ==> final(self).sink() == old(self).sink() + word_wire(
                v as nat,
                n as nat,
                old(self).config.endianness,
            ),
            r is Err ==> old(self).sink().len() + n > usize::MAX,
    {
        proof {
            lemma_word_wire_len(v as nat, n as nat, self.config.endianness);
        }
        let buf = word_to_vec(v, n, self.config.endianness);
        self.writer.write(buf.as_slice())
    }

    /// Append the variable-width layout of `v`: one byte for values up to
    /// 250, otherwise a width tag and the smallest payload that fits.
    pub fn encode_varint(&mut self, v: u64) -> (r: Result<(), EncodeError>)
        requires
            old(self).wf(),
        ensures
            final(self).wf(),
            final(self).config == old(self).config,
            r is Ok ==> final(self).sink() == old(self).sink() + varint_wire(
                v as nat,
                old(self).config.endianness,
            ),
            r is Err ==> old(self).sink().len() + varint_wire(
                v as nat,
                old(self).config.endianness,
            ).len() > usize::MAX,
    {
        proof {
            lemma_pow256_8();
        }
        let e = self.config.endianness;
        if v <= 250 {
            let mut buf: Vec<u8> = Vec::with_capacity(1);
            buf.push(v as u8);
            proof {
                assert(buf@ =~= varint_wire(v as nat, e));
            }
            self.writer.write(buf.as_slice())
        } else {
            let (tag, w): (u8, usize) = if v <= 0xFFFF {
                (251, 2)
            } else if v <= 0xFFFF_FFFF {
                (252, 4)
            } else {
                (253, 8)
            };
            let mut buf: Vec<u8> = Vec::with_capacity(1 + w);
            buf.push(tag);
            let mut word = word_to_vec(v, w, e);
            buf.append(&mut word);
            proof {
                lemma_word_wire_len(v as nat, w as nat, e);
                assert(buf@ =~= varint_wire(v as nat, e));
            }
            self.writer.write(buf.as_slice())
        }
    }

    /// Append an unsigned integer of type width `nbytes` under the
    /// configured width policy.
    pub fn encode_uint(&mut self, v: u64, nbytes: usize) -> (r: Result<(), EncodeError>)
        requires
            old(self).wf(),
            nbytes == 1 || nbytes == 2 || nbytes == 4 || nbytes == 8,
            (v as nat) < pow256(nbytes as nat),
        ensures
            final(self).wf(),
            final(self).config == old(self).config,
            r is Ok ==> final(self).sink() == old(self).sink() + uint_wire(
                v as nat,
                nbytes as nat,
                old(self).config,
            ),
            r is Err ==> old(self).sink().len() + uint_wire(
                v as nat,
                nbytes as nat,
                old(self).config,
            ).len() > usize::MAX,
    {
        proof {
            lemma_pow256_8();
        }
        if nbytes == 1 {
            let mut buf: Vec<u8> = Vec::with_capacity(1);
            buf.push(v as u8);
            proof {
                assert(buf@ =~= uint_wire(v as nat, 1, self.config));
            }
            return self.writer.write(buf.as_slice());
        }
        match self.config.int_width {
            crate::config::IntWidth::Fixed => {
                let r = self.encode_word(v, nbytes);
                proof {
                    lemma_word_wire_len(v as nat, nbytes as nat, self.config.endianness);
                }
                r
            },
            crate::config::IntWidth::Variable => self.encode_varint(v),
        }
    }

    /// Append a container length, carried as a 64-bit unsigned integer.
    pub fn encode_len(&mut self, l: usize) -> (r: Result<(), EncodeError>)
        requires
            old(self).wf(),
        ensures
            final(self).wf(),
            final(self).config == old(self).config,
            r is Ok ==> final(self).sink() == old(self).sink() + len_wire(
                l as nat,
                old(self).config,
            ),
            r is Err ==> old(self).sink().len() + len_wire(l as nat, old(self).config).len()
                > usize::MAX,
    {
        proof {
            lemma_pow256_8();
        }
        self.encode_uint(l as u64, 8)
    }
}

} // verus!
