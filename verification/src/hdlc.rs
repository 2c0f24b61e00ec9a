//! HDLC on-air framing: flag preamble and trailer around a bit-stuffed
//! payload.  Flags are emitted verbatim; inside the payload a zero bit is
//! inserted after every run of five consecutive one bits, with the run
//! counter spanning byte boundaries.  NRZI encoding is the modulator's job,
//! not this layer's.

use crate::bitstream::{bit_of, byte_bits, bytes_bits, lemma_bytes_bits_index, Bitstream};
use vstd::prelude::*;

verus! {

/// The HDLC flag octet, bit pattern `01111110`.
pub const FLAG: u8 = 0x7E;

/// Flag octets sent before the frame so the radio can settle after PTT rise.
pub const PREAMBLE_FLAGS: usize = 20;

/// Flag octets closing the frame.
pub const TRAILING_FLAGS: usize = 2;

/// Byte capacity of a finalized on-air bitstream.
pub const TX_BITS_BYTES: usize = 512;

/// A finalized on-air bitstream holding one HDLC-framed frame together with
/// its preamble and trailer.
pub type TxBits = Bitstream<TX_BITS_BYTES>;

/// The eight bits of the flag octet, least significant first.
pub open spec fn flag_bits() -> Seq<bool> {
    byte_bits(FLAG)
}

/// `n` flag octets in a row.
pub open spec fn flags(n: int) -> Seq<bool>
    decreases n,
{
    if n <= 0 {
        Seq::empty()
    } else {
        flags(n - 1) + flag_bits()
    }
}

/// Bit-stuffing of `bits` given that `run` consecutive one bits directly
/// precede them in the stuffed output: a zero is inserted after every run of
/// five ones.
pub open spec fn stuff_from(bits: Seq<bool>, run: int) -> Seq<bool>
    decreases bits.len(),
{
    if bits.len() == 0 {
        Seq::empty()
    } else if bits.first() {
        if run >= 4 {
            seq![true, false] + stuff_from(bits.drop_first(), 0)
        } else {
            seq![true] + stuff_from(bits.drop_first(), run + 1)
        }
    } else {
        seq![false] + stuff_from(bits.drop_first(), 0)
    }
}

/// Bit-stuffing with a fresh run counter, as after a flag.
pub open spec fn stuffed(bits: Seq<bool>) -> Seq<bool> {
    stuff_from(bits, 0)
}

/// The complete on-air bit sequence for a packed frame.
pub open spec fn on_air_bits(frame: Seq<u8>, pre: int, trail: int) -> Seq<bool> {
    flags(pre) + stuffed(bytes_bits(frame)) + flags(trail)
}

pub proof fn lemma_flags_len(n: int)
    ensures
        n >= 0 ==> flags(n).len() == 8 * n,
        n <= 0 ==> flags(n).len() == 0,
    decreases n,
{
    if n > 0 {
        lemma_flags_len(n - 1);
    }
}

/// Stuffing never shrinks a bit sequence and at most doubles it.
pub proof fn lemma_stuff_len(bits: Seq<bool>, run: int)
    ensures
        bits.len() <= stuff_from(bits, run).len() <= 2 * bits.len(),
    decreases bits.len(),
{
    if bits.len() > 0 {
        if bits.first() {
            if run >= 4 {
                lemma_stuff_len(bits.drop_first(), 0);
            } else {
                lemma_stuff_len(bits.drop_first(), run + 1);
            }
        } else {
            lemma_stuff_len(bits.drop_first(), 0);
        }
    }
}

/// Append one flag octet to the bitstream, bits least significant first and
/// not subject to stuffing.  Succeeds exactly when eight more bits fit.
fn push_flag<const N: usize>(bs: &mut Bitstream<N>) -> (r: Result<(), ()>)
    requires
        old(bs).wf(),
        old(bs).writing(),
    ensures
        final(bs).wf(),
        r is Ok <==> old(bs).bits().len() + 8 <= 8 * N,
        r is Ok ==> {
            &&& final(bs).writing()
            &&& final(bs).bits() == old(bs).bits() + flag_bits()
            &&& final(bs).read_pos() == old(bs).read_pos()
        },
{
    let mut k: u8 = 0;
    while k < 8
        invariant
            bs.wf(),
            bs.writing(),
            k <= 8,
            bs.bits() == old(bs).bits() + flag_bits().take(k as int),
            bs.bits().len() == old(bs).bits().len() + k,
            bs.read_pos() == old(bs).read_pos(),
        decreases 8 - k,
    {
        let b = ((FLAG >> k) & 1) == 1;
        proof {
            crate::bitstream::lemma_bits_capacity(*bs);
        }
        if bs.push_bit(b).is_err() {
            return Err(());
        }
        proof {
            assert(flag_bits().take(k + 1) =~= flag_bits().take(k as int).push(bit_of(FLAG, k)));
            assert(old(bs).bits() + flag_bits().take(k as int).push(b) =~= (old(bs).bits()
                + flag_bits().take(k as int)).push(b));
        }
        k = k + 1;
    }
    proof {
        assert(flag_bits().take(8) =~= flag_bits());
        crate::bitstream::lemma_bits_capacity(*bs);
    }
    Ok(())
}

/// HDLC-encode a packed frame into a fresh bitstream of `N` bytes:
/// `preamble` verbatim flags, the bit-stuffed frame bits, `trailing`
/// verbatim flags, then the write side is flushed.  Succeeds exactly when
/// the on-air bit sequence fits the capacity.
pub fn encode_on_air<const N: usize>(frame: &[u8], preamble: usize, trailing: usize) -> (r: Result<
    Bitstream<N>,
    (),
>)
    requires
        N <= usize::MAX / 8,
    ensures
        r is Ok <==> on_air_bits(frame@, preamble as int, trailing as int).len() <= 8 * N,
        r matches Ok(bs) ==> {
            &&& bs.wf()
            &&& bs.flushed()
            &&& bs.read_pos() == 0
            &&& bs.bits() == on_air_bits(frame@, preamble as int, trailing as int)
            &&& bs.readable().len() == 8 * ((on_air_bits(
                frame@,
                preamble as int,
                trailing as int,
            ).len() + 7) / 8)
        },
{
    proof {
        lemma_flags_len(preamble as int);
        lemma_flags_len(trailing as int);
        crate::bitstream::lemma_bytes_bits_len(frame@);
    }
    let ghost fb = bytes_bits(frame@);
    let mut bs = Bitstream::<N>::new();
    // Preamble flags.
    let mut f: usize = 0;
    proof {
        assert(bs.bits() =~= flags(0));
    }
    while f < preamble
        invariant
            N <= usize::MAX as int / 8,
            bs.wf(),
            bs.writing(),
            bs.read_pos() == 0,
            f <= preamble,
            bs.bits() == flags(f as int),
            bs.bits().len() == 8 * f,
            bs.bits().len() <= 8 * N,
        decreases preamble - f,
    {
        if push_flag(&mut bs).is_err() {
            proof {
                lemma_flags_len(preamble as int);
                lemma_flags_len(trailing as int);
                lemma_stuff_len(fb, 0);
            }
            return Err(());
        }
        f = f + 1;
        proof {
            assert(flags(f as int) == flags(f - 1) + flag_bits());
        }
    }
    // Payload with bit-stuffing; the run counter spans byte boundaries.
    let mut run: u8 = 0;
    let ghost mut em = Seq::<bool>::empty();
    proof {
        assert(fb.skip(0) =~= fb);
        assert(em + stuff_from(fb, 0) =~= stuff_from(fb, 0));
        assert(bs.bits() + em =~= bs.bits());
    }
    let ghost pre_len = bs.bits().len() as int;
    let mut i: usize = 0;
    while i < frame.len()
        invariant
            N <= usize::MAX as int / 8,
            bs.wf(),
            bs.writing(),
            bs.read_pos() == 0,
            i <= frame@.len(),
            run <= 4,
            fb == bytes_bits(frame@),
            fb.len() == 8 * frame@.len(),
            pre_len == 8 * (preamble as int) == flags(preamble as int).len(),
            bs.bits() == flags(preamble as int) + em,
            bs.bits().len() == pre_len + em.len(),
            bs.bits().len() <= 8 * N,
            stuffed(fb) == em + stuff_from(fb.skip(8 * (i as int)), run as int),
        decreases frame@.len() - i,
    {
        let byte = frame[i];
        let mut k: u8 = 0;
        while k < 8
            invariant
                N <= usize::MAX as int / 8,
                bs.wf(),
                bs.writing(),
                bs.read_pos() == 0,
                i < frame@.len(),
                k <= 8,
                run <= 4,
                byte == frame@[i as int],
                fb == bytes_bits(frame@),
                fb.len() == 8 * frame@.len(),
                pre_len == 8 * (preamble as int) == flags(preamble as int).len(),
                bs.bits() == flags(preamble as int) + em,
                bs.bits().len() == pre_len + em.len(),
                bs.bits().len() <= 8 * N,
                stuffed(fb) == em + stuff_from(fb.skip(8 * (i as int) + k as int), run as int),
            decreases 8 - k,
        {
            let ghost t = 8 * (i as int) + k as int;
            let b = ((byte >> k) & 1) == 1;
            proof {
                crate::bitstream::lemma_bits_capacity(bs);
                lemma_bytes_bits_index(frame@, i as int, k as int);
                assert(fb.skip(t).len() == fb.len() - t);
                assert(fb.skip(t).first() == fb[t]);
                assert(fb.skip(t).drop_first() =~= fb.skip(t + 1));
                assert(fb[t] == b);
            }
            if bs.push_bit(b).is_err() {
                proof {
                    lemma_stuff_len(fb.skip(t), run as int);
                    lemma_flags_len(trailing as int);
                }
                return Err(());
            }
            if b {
                if run == 4 {
                    proof {
                        assert(stuff_from(fb.skip(t), run as int) == seq![true, false]
                            + stuff_from(fb.skip(t + 1), 0));
                        assert(stuffed(fb) =~= (em + seq![true, false]) + stuff_from(
                            fb.skip(t + 1),
                            0,
                        ));
                    }
                    proof {
                        crate::bitstream::lemma_bits_capacity(bs);
                    }
                    if bs.push_bit(false).is_err() {
                        proof {
                            lemma_stuff_len(fb.skip(t + 1), 0);
                            lemma_flags_len(trailing as int);
                            assert(stuffed(fb).len() >= em.len() + 2);
                        }
                        return Err(());
                    }
                    run = 0;
                    proof {
                        em = em + seq![true, false];
                        assert(bs.bits() =~= flags(preamble as int) + em);
                    }
                } else {
                    run = run + 1;
                    proof {
                        assert(stuff_from(fb.skip(t), (run - 1) as int) == seq![true] + stuff_from(
                            fb.skip(t + 1),
                            run as int,
                        ));
                        assert(stuffed(fb) =~= em.push(true) + stuff_from(
                            fb.skip(t + 1),
                            run as int,
                        ));
                        em = em.push(true);
                        assert(bs.bits() =~= flags(preamble as int) + em);
                    }
                }
            } else {
                run = 0;
                proof {
                    assert(stuffed(fb) =~= em.push(false) + stuff_from(fb.skip(t + 1), 0));
                    em = em.push(false);
                    assert(bs.bits() =~= flags(preamble as int) + em);
                }
            }
            k = k + 1;
        }
        i = i + 1;
    }
    proof {
        assert(fb.skip(8 * (i as int)) =~= Seq::<bool>::empty());
        assert(em + stuff_from(Seq::<bool>::empty(), run as int) =~= em);
        assert(em == stuffed(fb));
    }
    // Trailing flags.
    let ghost base = flags(preamble as int) + stuffed(fb);
    let mut g: usize = 0;
    proof {
        assert(base + flags(0) =~= base);
    }
    while g < trailing
        invariant
            N <= usize::MAX as int / 8,
            bs.wf(),
            bs.writing(),
            bs.read_pos() == 0,
            g <= trailing,
            fb == bytes_bits(frame@),
            base == flags(preamble as int) + stuffed(fb),
            base.len() == 8 * (preamble as int) + stuffed(fb).len(),
            bs.bits() == base + flags(g as int),
            bs.bits().len() == base.len() + 8 * g,
            bs.bits().len() <= 8 * N,
        decreases trailing - g,
    {
        if push_flag(&mut bs).is_err() {
            proof {
                lemma_flags_len(trailing as int);
                assert(on_air_bits(frame@, preamble as int, trailing as int) == base + flags(
                    trailing as int,
                ));
                assert(on_air_bits(frame@, preamble as int, trailing as int).len() == base.len()
                    + 8 * (trailing as int));
                assert(8 * (g as int) + 8 <= 8 * (trailing as int));
            }
            return Err(());
        }
        g = g + 1;
        proof {
            assert(flags(g as int) == flags(g - 1) + flag_bits());
            assert(base + (flags(g - 1) + flag_bits()) =~= (base + flags(g - 1)) + flag_bits());
        }
    }
    let _ = bs.finish();
    proof {
        lemma_flags_len(trailing as int);
        assert(bs.bits() =~= on_air_bits(frame@, preamble as int, trailing as int));
    }
    Ok(bs)
}

/// HDLC-encode one packed UI frame with the configured preamble and trailer
/// into a transmit bitstream.
pub fn build_on_air(frame: &[u8]) -> (r: Result<TxBits, ()>)
    ensures
        r is Ok <==> on_air_bits(
            frame@,
            PREAMBLE_FLAGS as int,
            TRAILING_FLAGS as int,
        ).len() <= 8 * TX_BITS_BYTES,
        r matches Ok(bs) ==> {
            &&& bs.wf()
            &&& bs.flushed()
            &&& bs.read_pos() == 0
            &&& bs.bits() == on_air_bits(frame@, PREAMBLE_FLAGS as int, TRAILING_FLAGS as int)
            &&& bs.readable().len() == 8 * ((on_air_bits(
                frame@,
                PREAMBLE_FLAGS as int,
                TRAILING_FLAGS as int,
            ).len() + 7) / 8)
        },
{
    encode_on_air::<TX_BITS_BYTES>(frame, PREAMBLE_FLAGS, TRAILING_FLAGS)
}

// ---------------------------------------------------------------------------
// Stuffing correctness: no six consecutive ones
// ---------------------------------------------------------------------------
/// All of `s[j .. j+n]` are one bits.
pub open spec fn ones_run(s: Seq<bool>, j: int, n: int) -> bool {
    forall|i: int| j <= i < j + n ==> s[i]
}

/// No window of six consecutive bits of `s` is all ones.
pub open spec fn no_six_ones(s: Seq<bool>) -> bool {
    forall|j: int| 0 <= j && j + 6 <= s.len() ==> !#[trigger] ones_run(s, j, 6)
}

/// Number of consecutive one bits at the front of `s`.
pub open spec fn leading_ones(s: Seq<bool>) -> int
    decreases s.len(),
{
    if s.len() == 0 || !s.first() {
        0
    } else {
        1 + leading_ones(s.drop_first())
    }
}

proof fn lemma_leading_nonneg(s: Seq<bool>)
    ensures
        leading_ones(s) >= 0,
    decreases s.len(),
{
    if s.len() > 0 && s.first() {
        lemma_leading_nonneg(s.drop_first());
    }
}

proof fn lemma_ones_run_leading(s: Seq<bool>, n: int)
    requires
        0 <= n <= s.len(),
        ones_run(s, 0, n),
    ensures
        leading_ones(s) >= n,
    decreases n,
{
    if n > 0 {
        assert(s[0]);
        assert forall|i: int| 0 <= i < n - 1 implies s.drop_first()[i] by {
            assert(s[i + 1]);
        }
        assert(ones_run(s.drop_first(), 0, n - 1));
        lemma_ones_run_leading(s.drop_first(), n - 1);
        assert(s.first());
        assert(leading_ones(s) == 1 + leading_ones(s.drop_first()));
    } else {
        lemma_leading_nonneg(s);
    }
}

/// Core stuffing property, generalized over the run counter: the output
/// starts with at most `5 - run` one bits and contains no six consecutive
/// ones anywhere.
proof fn lemma_stuff_from_no_six(bits: Seq<bool>, run: int)
    requires
        0 <= run <= 4,
    ensures
        leading_ones(stuff_from(bits, run)) <= 5 - run,
        no_six_ones(stuff_from(bits, run)),
    decreases bits.len(),
{
    let out = stuff_from(bits, run);
    if bits.len() == 0 {
        assert(no_six_ones(out));
    } else if bits.first() {
        if run >= 4 {
            let tail = stuff_from(bits.drop_first(), 0);
            lemma_stuff_from_no_six(bits.drop_first(), 0);
            assert(out == seq![true, false] + tail);
            assert(out[1] == false);
            assert(out.drop_first() =~= seq![false] + tail);
            assert(leading_ones(seq![false] + tail) == 0);
            assert(leading_ones(out) <= 1);
            assert forall|j: int| 0 <= j && j + 6 <= out.len() implies !#[trigger] ones_run(
                out,
                j,
                6,
            ) by {
                if ones_run(out, j, 6) {
                    if j <= 1 {
                        assert(out[1]);
                        assert(false);
                    } else {
                        assert forall|i: int| j - 2 <= i < j + 4 implies tail[i] by {
                            assert(out[i + 2]);
                        }
                        assert(ones_run(tail, j - 2, 6));
                        assert(false);
                    }
                }
            }
        } else {
            let tail = stuff_from(bits.drop_first(), run + 1);
            lemma_stuff_from_no_six(bits.drop_first(), run + 1);
            assert(out == seq![true] + tail);
            assert(out.drop_first() =~= tail);
            assert(leading_ones(out) == 1 + leading_ones(tail));
            assert forall|j: int| 0 <= j && j + 6 <= out.len() implies !#[trigger] ones_run(
                out,
                j,
                6,
            ) by {
                if ones_run(out, j, 6) {
                    if j == 0 {
                        assert forall|i: int| 0 <= i < 5 implies tail[i] by {
                            assert(out[i + 1]);
                        }
                        assert(ones_run(tail, 0, 5));
                        lemma_ones_run_leading(tail, 5);
                        assert(false);
                    } else {
                        assert forall|i: int| j - 1 <= i < j + 5 implies tail[i] by {
                            assert(out[i + 1]);
                        }
                        assert(ones_run(tail, j - 1, 6));
                        assert(false);
                    }
                }
            }
        }
    } else {
        let tail = stuff_from(bits.drop_first(), 0);
        lemma_stuff_from_no_six(bits.drop_first(), 0);
        assert(out == seq![false] + tail);
        assert(leading_ones(out) == 0);
        assert forall|j: int| 0 <= j && j + 6 <= out.len() implies !#[trigger] ones_run(
            out,
            j,
            6,
        ) by {
            if ones_run(out, j, 6) {
                if j == 0 {
                    assert(out[0]);
                    assert(false);
                } else {
                    assert forall|i: int| j - 1 <= i < j + 5 implies tail[i] by {
                        assert(out[i + 1]);
                    }
                    assert(ones_run(tail, j - 1, 6));
                    assert(false);
                }
            }
        }
    }
}

/// Stuffing correctness: the payload region of the on-air sequence — the
/// bits between the preamble flags and the trailing flags — contains no run
/// of six or more consecutive one bits.
pub proof fn lemma_on_air_payload_no_six_ones(frame: Seq<u8>, pre: int, trail: int)
    requires
        pre >= 0,
        trail >= 0,
    ensures
        on_air_bits(frame, pre, trail).subrange(
            8 * pre,
            8 * pre + stuffed(bytes_bits(frame)).len() as int,
        ) == stuffed(bytes_bits(frame)),
        no_six_ones(stuffed(bytes_bits(frame))),
{
    lemma_flags_len(pre);
    lemma_flags_len(trail);
    lemma_stuff_from_no_six(bytes_bits(frame), 0);
    let s = stuffed(bytes_bits(frame));
    assert(on_air_bits(frame, pre, trail).subrange(8 * pre, 8 * pre + s.len() as int) =~= s);
}

/// The eight bits starting at position `base + 8*k` of a bit sequence.
pub open spec fn octet_at(s: Seq<bool>, base: int, k: int) -> Seq<bool> {
    s.subrange(base + 8 * k, base + 8 * k + 8)
}

/// Flag `k` of a row of `n` flags occupies bit positions `8k .. 8k+8`.
proof fn lemma_flags_index(n: int, k: int)
    requires
        0 <= k < n,
    ensures
        flags(n).len() == 8 * n,
        forall|j: int| 0 <= j < 8 ==> flags(n)[8 * k + j] == flag_bits()[j],
    decreases n,
{
    lemma_flags_len(n);
    lemma_flags_len(n - 1);
    if k < n - 1 {
        lemma_flags_index(n - 1, k);
        assert forall|j: int| 0 <= j < 8 implies flags(n)[8 * k + j] == flag_bits()[j] by {
            assert(flags(n)[8 * k + j] == flags(n - 1)[8 * k + j]);
        }
    } else {
        assert forall|j: int| 0 <= j < 8 implies flags(n)[8 * k + j] == flag_bits()[j] by {
            assert(flags(n)[8 * k + j] == flag_bits()[8 * k + j - 8 * (n - 1)]);
        }
    }
}

/// Every flag octet of the preamble and trailer appears verbatim in the
/// on-air sequence, as the fixed pattern `0 1 1 1 1 1 1 0` (least
/// significant bit first), regardless of the payload's stuffing state.
#[verifier::rlimit(50)]
pub proof fn lemma_on_air_flags(frame: Seq<u8>, pre: int, trail: int)
    requires
        pre >= 0,
        trail >= 0,
    ensures
        flag_bits() == seq![false, true, true, true, true, true, true, false],
        forall|k: int|
            0 <= k < pre ==> #[trigger] octet_at(on_air_bits(frame, pre, trail), 0, k)
                == flag_bits(),
        forall|k: int|
            0 <= k < trail ==> #[trigger] octet_at(
                on_air_bits(frame, pre, trail),
                8 * pre + stuffed(bytes_bits(frame)).len(),
                k,
            ) == flag_bits(),
{
    lemma_flags_len(pre);
    lemma_flags_len(trail);
    assert(((0x7Eu8 >> 0u8) & 1) == 0 && ((0x7Eu8 >> 1u8) & 1) == 1 && ((0x7Eu8 >> 2u8) & 1) == 1
        && ((0x7Eu8 >> 3u8) & 1) == 1 && ((0x7Eu8 >> 4u8) & 1) == 1 && ((0x7Eu8 >> 5u8) & 1) == 1
        && ((0x7Eu8 >> 6u8) & 1) == 1 && ((0x7Eu8 >> 7u8) & 1) == 0) by (bit_vector);
    assert(flag_bits() =~= seq![false, true, true, true, true, true, true, false]);
    let out = on_air_bits(frame, pre, trail);
    let s = stuffed(bytes_bits(frame));
    assert forall|k: int| 0 <= k < pre implies #[trigger] octet_at(out, 0, k) == flag_bits() by {
        lemma_flags_index(pre, k);
        assert forall|j: int| 0 <= j < 8 implies octet_at(out, 0, k)[j] == flag_bits()[j] by {
            assert(out[8 * k + j] == flags(pre)[8 * k + j]);
        }
        assert(octet_at(out, 0, k) =~= flag_bits());
    }
    assert forall|k: int| 0 <= k < trail implies #[trigger] octet_at(
        out,
        8 * pre + s.len(),
        k,
    ) == flag_bits() by {
        lemma_flags_index(trail, k);
        assert forall|j: int| 0 <= j < 8 implies octet_at(out, 8 * pre + s.len(), k)[j]
            == flag_bits()[j] by {
            assert(out[8 * pre + s.len() + 8 * k + j] == flags(trail)[8 * k + j]);
        }
        assert(octet_at(out, 8 * pre + s.len(), k) =~= flag_bits());
    }
}

} // verus!
