//! Bounded packed-bit FIFO with a write cursor and a read cursor.
//!
//! Bits are packed into bytes least-significant-bit first.  The write side
//! appends single bits and flushes the final partial byte with `finish`; the
//! read side hands the stored bits back in order.

use vstd::prelude::*;

verus! {

/// True when bit `i` (least significant bit first) of byte `b` is set.
pub open spec fn bit_of(b: u8, i: u8) -> bool {
    (b >> i) & 1 == 1
}

/// The eight bits of a byte, least significant first.
pub open spec fn byte_bits(b: u8) -> Seq<bool> {
    Seq::new(8, |i: int| bit_of(b, i as u8))
}

/// The lowest `k` bits of a byte, least significant first.
pub open spec fn low_bits(b: u8, k: int) -> Seq<bool> {
    Seq::new(k as nat, |i: int| bit_of(b, i as u8))
}

/// All bits of a byte sequence, each byte contributing its bits least
/// significant first.
pub open spec fn bytes_bits(s: Seq<u8>) -> Seq<bool>
    decreases s.len(),
{
    if s.len() == 0 {
        Seq::empty()
    } else {
        bytes_bits(s.drop_last()) + byte_bits(s.last())
    }
}

pub proof fn lemma_bytes_bits_len(s: Seq<u8>)
    ensures
        bytes_bits(s).len() == 8 * s.len(),
    decreases s.len(),
{
    if s.len() > 0 {
        lemma_bytes_bits_len(s.drop_last());
    }
}

/// Bit `8*i + j` of a packed byte sequence is bit `j` of byte `i`.
pub proof fn lemma_bytes_bits_index(s: Seq<u8>, i: int, j: int)
    requires
        0 <= i < s.len(),
        0 <= j < 8,
    ensures
        bytes_bits(s).len() == 8 * s.len(),
        bytes_bits(s)[8 * i + j] == bit_of(s[i], j as u8),
    decreases s.len(),
{
    lemma_bytes_bits_len(s);
    lemma_bytes_bits_len(s.drop_last());
    if i < s.len() - 1 {
        lemma_bytes_bits_index(s.drop_last(), i, j);
    }
}

/// Packed-bit FIFO of capacity `N` bytes.
pub struct Bitstream<const N: usize> {
    buf: Vec<u8>,
    curr: u8,
    w_bit_pos: u8,
    r_byte_idx: usize,
    r_mask: u8,
    len_bits: usize,
}

/// The read mask always holds exactly one set bit.
pub open spec fn is_read_mask(m: u8) -> bool {
    m == 1 || m == 2 || m == 4 || m == 8 || m == 16 || m == 32 || m == 64 || m == 128
}

/// Which bit position a one-hot read mask selects.
pub open spec fn mask_index(m: u8) -> int {
    if m == 1 {
        0
    } else if m == 2 {
        1
    } else if m == 4 {
        2
    } else if m == 8 {
        3
    } else if m == 16 {
        4
    } else if m == 32 {
        5
    } else if m == 64 {
        6
    } else {
        7
    }
}

proof fn lemma_high_bits_zero(c: u8, w: u8)
    requires
        w < 8,
        c >> w == 0,
    ensures
        forall|i: u8| w <= i < 8 ==> !bit_of(c, i),
{
    assert(forall|i: u8| c >> w == 0 && w <= i && i < 8 ==> ((c >> i) & 1) == 0) by (bit_vector);
}

proof fn lemma_mask_select(b: u8, m: u8)
    requires
        is_read_mask(m),
    ensures
        ((b & m) != 0) == bit_of(b, mask_index(m) as u8),
{
    assert(((b & 1) != 0) == ((b >> 0u8) & 1 == 1)) by (bit_vector);
    assert(((b & 2) != 0) == ((b >> 1u8) & 1 == 1)) by (bit_vector);
    assert(((b & 4) != 0) == ((b >> 2u8) & 1 == 1)) by (bit_vector);
    assert(((b & 8) != 0) == ((b >> 3u8) & 1 == 1)) by (bit_vector);
    assert(((b & 16) != 0) == ((b >> 4u8) & 1 == 1)) by (bit_vector);
    assert(((b & 32) != 0) == ((b >> 5u8) & 1 == 1)) by (bit_vector);
    assert(((b & 64) != 0) == ((b >> 6u8) & 1 == 1)) by (bit_vector);
    assert(((b & 128) != 0) == ((b >> 7u8) & 1 == 1)) by (bit_vector);
}

proof fn lemma_mask_shift(m: u8)
    requires
        is_read_mask(m),
    ensures
        m != 128 ==> is_read_mask(m << 1u8) && mask_index(m << 1u8) == mask_index(m) + 1,
        m == 128 ==> (m << 1u8) == 0,
{
    assert((1u8 << 1u8) == 2 && (2u8 << 1u8) == 4 && (4u8 << 1u8) == 8 && (8u8 << 1u8) == 16 && (
    16u8 << 1u8) == 32 && (32u8 << 1u8) == 64 && (64u8 << 1u8) == 128 && (128u8 << 1u8)
        == 0) by (bit_vector);
}

impl<const N: usize> Bitstream<N> {
    /// All bits stored so far, including any padding added by `finish`.
    pub closed spec fn stored(self) -> Seq<bool> {
        bytes_bits(self.buf@) + low_bits(self.curr, self.w_bit_pos as int)
    }

    /// The bits written through `push_bit`, in order.
    pub closed spec fn bits(self) -> Seq<bool> {
        self.stored().take(self.len_bits as int)
    }

    /// The bits the read cursor walks over: every bit of every stored byte.
    pub closed spec fn readable(self) -> Seq<bool> {
        bytes_bits(self.buf@)
    }

    /// The whole bytes stored so far.
    pub closed spec fn stored_bytes(self) -> Seq<u8> {
        self.buf@
    }

    /// Index of the next bit `pull_bit` will return.
    pub closed spec fn read_pos(self) -> int {
        8 * self.r_byte_idx + mask_index(self.r_mask)
    }

    /// Structural invariant tying the fields together.
    pub closed spec fn wf(self) -> bool {
        &&& N <= usize::MAX as int / 8
        &&& 8 * self.buf@.len() + self.w_bit_pos <= 8 * N
        &&& self.w_bit_pos < 8
        &&& self.len_bits <= 8 * self.buf@.len() + self.w_bit_pos
        &&& (self.curr >> self.w_bit_pos) == 0
        &&& is_read_mask(self.r_mask)
        &&& self.r_byte_idx <= self.buf@.len()
        &&& (self.r_mask != 1 ==> self.r_byte_idx < self.buf@.len())
        &&& (self.writing() || (self.w_bit_pos == 0 && self.curr == 0 && self.padded_zeros() && 8
            * self.buf@.len() <= self.len_bits + 7))
    }

    /// Any flush padding past the written bits is zero.
    pub closed spec fn padded_zeros(self) -> bool {
        forall|k: int|
            self.len_bits <= k < 8 * self.buf@.len() ==> !(#[trigger] bytes_bits(self.buf@)[k])
    }

    /// Still accepting bits: no flush padding has been added yet.
    pub closed spec fn writing(self) -> bool {
        self.len_bits == 8 * self.buf@.len() + self.w_bit_pos
    }

    /// Write side flushed: all bits sit in whole bytes.
    pub closed spec fn flushed(self) -> bool {
        self.w_bit_pos == 0 && self.curr == 0
    }

    pub fn new() -> (r: Self)
        requires
            N <= usize::MAX / 8,
        ensures
            r.wf(),
            r.writing(),
            r.bits() == Seq::<bool>::empty(),
            r.bits().len() == 0,
            r.read_pos() == 0,
    {
        let r = Self { buf: Vec::new(), curr: 0, w_bit_pos: 0, r_byte_idx: 0, r_mask: 1, len_bits: 0 };
        proof {
            assert(0u8 >> 0u8 == 0) by (bit_vector);
            assert(r.stored() =~= Seq::<bool>::empty());
            assert(r.bits() =~= Seq::<bool>::empty());
        }
        r
    }

    #[inline]
    pub fn capacity_bits(&self) -> (r: usize)
        requires
            self.wf(),
        ensures
            r == 8 * N,
    {
        N * 8
    }

    #[inline]
    pub fn len_bits(&self) -> (r: usize)
        requires
            self.wf(),
        ensures
            r == self.bits().len(),
    {
        proof {
            lemma_bytes_bits_len(self.buf@);
        }
        self.len_bits
    }

    /// Push one bit (LSB-first packing).  Fails exactly when the stream
    /// already holds `8 * N` bits.
    pub fn push_bit(&mut self, bit: bool) -> (r: Result<(), ()>)
        requires
            old(self).wf(),
            old(self).writing(),
        ensures
            final(self).wf(),
            old(self).bits().len() < 8 * N ==> {
                &&& r is Ok
                &&& final(self).writing()
                &&& final(self).bits() == old(self).bits().push(bit)
                &&& final(self).read_pos() == old(self).read_pos()
            },
            old(self).bits().len() == 8 * N ==> r is Err && *final(self) == *old(self),
    {
        proof {
            lemma_bytes_bits_len(self.buf@);
        }
        if self.len_bits == N * 8 {
            return Err(());
        }
        let ghost pre = *self;
        let w = self.w_bit_pos;
        if bit {
            self.curr = self.curr | (1u8 << w);
        }
        proof {
            let c = pre.curr;
            let cn = self.curr;
            assert(c >> w == 0 ==> ((c >> w) & 1 == 1) == false) by (bit_vector);
            if bit {
                assert(c >> w == 0 && w < 8 ==> ((c | (1u8 << w)) >> w) & 1 == 1) by (bit_vector);
                assert(forall|i: u8|
                    i < w < 8 ==> (((c | (1u8 << w)) >> i) & 1 == 1) == ((c >> i) & 1
                        == 1)) by (bit_vector);
                assert(c >> w == 0 && w < 8 ==> ((c | (1u8 << w)) >> (w + 1) as u8)
                    == 0) by (bit_vector);
            } else {
                assert(c >> w == 0 && w < 8 ==> (c >> (w + 1) as u8) == 0) by (bit_vector);
            }
            assert(low_bits(cn, w + 1) =~= low_bits(c, w as int).push(bit));
        }
        self.w_bit_pos = w + 1;
        self.len_bits = self.len_bits + 1;
        if self.w_bit_pos == 8 {
            proof {
                assert(byte_bits(self.curr) =~= low_bits(self.curr, 8));
                assert(0u8 >> 0u8 == 0) by (bit_vector);
            }
            self.w_bit_pos = 0;
            let full = self.curr;
            self.curr = 0;
            self.buf.push(full);
            proof {
                assert(self.buf@.drop_last() =~= pre.buf@);
                assert(self.buf@.last() == full);
                assert(bytes_bits(self.buf@) == bytes_bits(pre.buf@) + byte_bits(full));
                assert(low_bits(0u8, 0) =~= Seq::<bool>::empty());
                assert(self.stored() =~= pre.stored().push(bit));
            }
        } else {
            proof {
                assert(self.stored() =~= pre.stored().push(bit));
            }
        }
        proof {
            assert(self.bits() =~= self.stored());
            assert(pre.bits() =~= pre.stored());
        }
        Ok(())
    }

    /// Finalize the write side, flushing any partial byte (padded with the
    /// unset high bits of the working byte).  The written bits are
    /// unchanged; afterwards the stream stores exactly enough whole bytes
    /// to hold them, so at most seven zero padding bits follow.  On an
    /// already flushed stream this is a no-op.
    pub fn finish(&mut self) -> (r: Result<(), ()>)
        requires
            old(self).wf(),
        ensures
            final(self).wf(),
            final(self).flushed(),
            r is Ok,
            final(self).bits() == old(self).bits(),
            final(self).bits().len() == old(self).bits().len(),
            final(self).read_pos() == old(self).read_pos(),
            old(self).bits().len() <= final(self).readable().len(),
            final(self).readable().len() == 8 * ((old(self).bits().len() + 7) / 8),
            forall|k: int|
                final(self).bits().len() <= k < final(self).readable().len() ==> !(
                #[trigger] final(self).readable()[k]),
            old(self).flushed() ==> *final(self) == *old(self),
    {
        proof {
            lemma_bytes_bits_len(self.buf@);
        }
        if self.w_bit_pos != 0 {
            let ghost pre = *self;
            let partial = self.curr;
            self.curr = 0;
            self.w_bit_pos = 0;
            self.buf.push(partial);
            proof {
                assert(0u8 >> 0u8 == 0) by (bit_vector);
                assert(self.buf@.drop_last() =~= pre.buf@);
                assert(self.buf@.last() == partial);
                assert(bytes_bits(self.buf@) == bytes_bits(pre.buf@) + byte_bits(partial));
                lemma_bytes_bits_len(self.buf@);
                assert(low_bits(0u8, 0) =~= Seq::<bool>::empty());
                assert(self.stored() =~= bytes_bits(pre.buf@) + byte_bits(partial));
                assert forall|k: int| 0 <= k < pre.len_bits implies self.stored()[k]
                    == pre.stored()[k] by {
                    if k >= 8 * pre.buf@.len() {
                        assert(byte_bits(partial)[k - 8 * pre.buf@.len()] == low_bits(
                            partial,
                            pre.w_bit_pos as int,
                        )[k - 8 * pre.buf@.len()]);
                    }
                }
                assert(self.bits() =~= pre.bits());
                lemma_high_bits_zero(partial, pre.w_bit_pos);
                assert forall|k: int|
                    self.len_bits <= k < 8 * self.buf@.len() implies !(#[trigger] bytes_bits(
                    self.buf@,
                )[k]) by {
                    assert(bytes_bits(self.buf@)[k] == byte_bits(partial)[k - 8 * pre.buf@.len()]);
                    assert(!bit_of(partial, (k - 8 * pre.buf@.len()) as u8));
                }
            }
        } else {
            proof {
                let c = self.curr;
                assert(c >> 0u8 == c) by (bit_vector);
            }
        }
        proof {
            lemma_bytes_bits_len(self.buf@);
        }
        Ok(())
    }

    /// Pull one bit (LSB-first).  Returns `None` once the read cursor has
    /// walked past the last stored byte.
    pub fn pull_bit(&mut self) -> (r: Option<bool>)
        requires
            old(self).wf(),
        ensures
            final(self).wf(),
            final(self).bits() == old(self).bits(),
            final(self).readable() == old(self).readable(),
            final(self).writing() == old(self).writing(),
            final(self).flushed() == old(self).flushed(),
            old(self).read_pos() < old(self).readable().len() ==> {
                &&& r == Some(old(self).readable()[old(self).read_pos()])
                &&& final(self).read_pos() == old(self).read_pos() + 1
            },
            old(self).read_pos() >= old(self).readable().len() ==> r is None && *final(self)
                == *old(self),
    {
        proof {
            lemma_bytes_bits_len(self.buf@);
        }
        let total_bytes = self.buf.len();
        if self.r_byte_idx >= total_bytes {
            return None;
        }
        let b = self.buf[self.r_byte_idx];
        let bit = (b & self.r_mask) != 0;
        proof {
            lemma_mask_select(b, self.r_mask);
            lemma_bytes_bits_index(self.buf@, self.r_byte_idx as int, mask_index(self.r_mask));
            lemma_mask_shift(self.r_mask);
        }
        self.r_mask = self.r_mask << 1u8;
        if self.r_mask == 0 {
            self.r_mask = 1;
            self.r_byte_idx = self.r_byte_idx + 1;
        }
        Some(bit)
    }

    /// The packed bytes together with the exact number of valid bits.
    pub fn as_bytes(&self) -> (r: (&[u8], usize))
        requires
            self.wf(),
        ensures
            r.0@ == self.stored_bytes(),
            r.1 == self.bits().len(),
            bytes_bits(r.0@) == self.readable(),
    {
        proof {
            lemma_bytes_bits_len(self.buf@);
        }
        (self.buf.as_slice(), self.len_bits)
    }
}

/// A well-formed stream never holds more than its capacity in bits.
pub proof fn lemma_bits_capacity<const N: usize>(b: Bitstream<N>)
    requires
        b.wf(),
    ensures
        b.bits().len() <= 8 * N,
{
    lemma_bytes_bits_len(b.buf@);
}

/// The read cursor never passes the end of the stored bytes.
pub proof fn lemma_read_pos_bound<const N: usize>(b: Bitstream<N>)
    requires
        b.wf(),
    ensures
        0 <= b.read_pos() <= b.readable().len(),
{
    lemma_bytes_bits_len(b.buf@);
}

/// Round-trip law: the bits a flushed stream hands back through its read
/// cursor are exactly the bits that were written, in order.  Position `k` of
/// the readable sequence equals written bit `k` for every `k` up to the
/// written length; past it at most seven zero padding bits of the final
/// partial byte remain.
pub proof fn lemma_bitstream_round_trip<const N: usize>(b: Bitstream<N>)
    requires
        b.wf(),
        b.flushed(),
    ensures
        b.bits().len() <= b.readable().len() < b.bits().len() + 8,
        forall|k: int| 0 <= k < b.bits().len() ==> b.readable()[k] == b.bits()[k],
        forall|k: int| b.bits().len() <= k < b.readable().len() ==> !(#[trigger] b.readable()[k]),
{
    lemma_bytes_bits_len(b.buf@);
    assert(b.stored() =~= b.readable());
}

} // verus!
