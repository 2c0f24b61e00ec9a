//! Bell-202 AFSK modulator: direct digital synthesis of the mark and space
//! tones at 8 kHz from a 512-entry sine table, a Q16.16 bit clock at 1200
//! baud, and NRZI encoding of the transmit bitstream (a zero bit toggles
//! the tone, a one bit keeps it).

use crate::audio::BUF_LEN;
use crate::hdlc::TxBits;
use crate::sched::Tickable;
use crate::shared::Shared;
use vstd::prelude::*;

verus! {

/// Entries in the sine table; a power of two so that masking the phase
/// accumulator's high bits indexes safely.
pub const SINE_TABLE_LEN: usize = 512;

/// Bit-clock advance per sample in Q16.16: 1200 * 2^16 / 8000.
pub const BITS_PER_SAMPLE_Q16: u32 = 9830;

/// One bit period in Q16.16.
pub const ONE_Q16: u32 = 65536;

/// Mark tone frequency in hertz.
pub const MARK_HZ: u32 = 1200;

/// Space tone frequency in hertz.
pub const SPACE_HZ: u32 = 2200;

/// The two Bell-202 tones.
#[derive(Clone, Copy, Debug, PartialEq, Eq, Structural)]
pub enum AfskTone {
    Mark,
    Space,
}

/// Phase-accumulator step for a tone frequency: `freq * 512 * 2^16 / 8000`.
pub open spec fn phase_step_spec(freq: int) -> int {
    freq * 512 * 65536 / 8000
}

/// Phase-accumulator step per sample for a tone frequency.
pub fn phase_step(freq: u32) -> (r: u32)
    requires
        freq <= 1_000_000,
    ensures
        r == phase_step_spec(freq as int),
{
    (((freq as u64) * 512 * 65536) / 8000) as u32
}

/// The phase step of a tone, as a 32-bit accumulator increment.
pub open spec fn tone_step32(t: AfskTone) -> u32 {
    if t is Space {
        phase_step_spec(2200) as u32
    } else {
        phase_step_spec(1200) as u32
    }
}

/// The modulator's per-sample state: phase and bit-clock accumulators, the
/// persistent NRZI level, the selected tone, and the remaining bits of the
/// current source, if one is loaded.
pub struct ModemModel {
    pub phase: u32,
    pub bit_accum: u32,
    pub level: bool,
    pub tone: AfskTone,
    pub src: Option<Seq<bool>>,
}

/// One sample of the modulator: advance the bit clock; when a bit period
/// has elapsed, consume one bit (NRZI: a zero toggles the level, a one
/// keeps it; an exhausted source is dropped and the level locks to mark)
/// and reselect the tone; then advance the phase by the current tone's
/// step.
pub open spec fn modem_step(s: ModemModel) -> ModemModel {
    let acc = s.bit_accum.wrapping_add(BITS_PER_SAMPLE_Q16);
    let s1 = if acc >= ONE_Q16 {
        let acc2 = (acc - ONE_Q16) as u32;
        match s.src {
            Some(bits) => {
                if bits.len() > 0 {
                    let level = if !bits.first() {
                        !s.level
                    } else {
                        s.level
                    };
                    ModemModel {
                        phase: s.phase,
                        bit_accum: acc2,
                        level,
                        tone: if level {
                            AfskTone::Space
                        } else {
                            AfskTone::Mark
                        },
                        src: Some(bits.drop_first()),
                    }
                } else {
                    ModemModel {
                        phase: s.phase,
                        bit_accum: acc2,
                        level: false,
                        tone: AfskTone::Mark,
                        src: None,
                    }
                }
            },
            None => ModemModel {
                phase: s.phase,
                bit_accum: acc2,
                level: false,
                tone: AfskTone::Mark,
                src: None,
            },
        }
    } else {
        ModemModel { phase: s.phase, bit_accum: acc, level: s.level, tone: s.tone, src: s.src }
    };
    ModemModel {
        phase: s1.phase.wrapping_add(tone_step32(s1.tone)),
        bit_accum: s1.bit_accum,
        level: s1.level,
        tone: s1.tone,
        src: s1.src,
    }
}

/// The modulator state after `n` samples.
pub open spec fn modem_iter(s: ModemModel, n: nat) -> ModemModel
    decreases n,
{
    if n == 0 {
        s
    } else {
        modem_step(modem_iter(s, (n - 1) as nat))
    }
}

/// The sine-table index written at sample `k`: the high phase bits, masked
/// to the table size.
pub open spec fn sample_index(s: ModemModel, k: nat) -> int {
    ((modem_iter(s, k + 1).phase >> 16u32) & 511) as int
}

proof fn lemma_sample_index_bound()
    by (bit_vector)
    ensures
        forall|p: u32| (#[trigger] ((p >> 16u32) & 511)) < 512,
{
}

/// The AFSK modulator task state.
pub struct AfskModulator {
    phase: u32,
    bit_accum: u32,
    nrzi_level: bool,
    tone: AfskTone,
    src: Option<TxBits>,
    next_run: u64,
}

/// What the modulator asks the surrounding program to do after a tick:
/// drive a blocking transmission, or nothing.
pub enum ModemAction {
    Transmit,
    Idle,
}

impl AfskModulator {
    /// The per-sample model of this modulator: its accumulators and level,
    /// and the bits remaining in the loaded source.
    pub closed spec fn model(self) -> ModemModel {
        ModemModel {
            phase: self.phase,
            bit_accum: self.bit_accum,
            level: self.nrzi_level,
            tone: self.tone,
            src: match self.src {
                Some(b) => Some(b.readable().skip(b.read_pos())),
                None => None,
            },
        }
    }

    /// The bit clock stays below one bit period and any loaded source is a
    /// well-formed bitstream.
    pub closed spec fn wf(self) -> bool {
        &&& self.bit_accum < ONE_Q16
        &&& (self.src matches Some(b) ==> b.wf())
    }

    pub fn new() -> (r: Self)
        ensures
            r.wf(),
            r.next_run_spec() == 0,
            r.model().phase == 0,
            r.model().bit_accum == 0,
            !r.model().level,
            r.model().tone is Mark,
            r.model().src is None,
    {
        Self {
            phase: 0,
            bit_accum: 0,
            nrzi_level: false,
            tone: AfskTone::Mark,
            src: None,
            next_run: 0,
        }
    }

    /// Load the next queued frame when no source is active; reports
    /// whether a source is now loaded.
    pub fn load_next(&mut self, shared: &mut Shared) -> (r: bool)
        requires
            old(self).wf(),
            old(shared).wf(),
        ensures
            final(self).wf(),
            final(shared).wf(),
            final(self).next_run_spec() == old(self).next_run_spec(),
            final(shared).fix == old(shared).fix,
            final(shared).pos_rpt == old(shared).pos_rpt,
            final(shared).rx == old(shared).rx,
            final(shared).nmea_lines == old(shared).nmea_lines,
            old(self).model().src is Some ==> *final(self) == *old(self) && final(shared).txq
                == old(shared).txq && r,
            old(self).model().src is None && old(shared).txq@.len() == 0 ==> *final(self) == *old(
                self,
            ) && final(shared).txq@ == old(shared).txq@ && !r,
            old(self).model().src is None && old(shared).txq@.len() > 0 ==> {
                &&& final(shared).txq@ == old(shared).txq@.drop_first()
                &&& final(self).model().src == Some(
                    old(shared).txq@.first().readable().skip(old(shared).txq@.first().read_pos()),
                )
                &&& final(self).model().phase == old(self).model().phase
                &&& final(self).model().bit_accum == old(self).model().bit_accum
                &&& final(self).model().level == old(self).model().level
                &&& final(self).model().tone == old(self).model().tone
                &&& r
            },
    {
        if self.src.is_none() {
            match shared.txq.pop_front() {
                Some(next) => {
                    self.src = Some(next);
                },
                None => {},
            }
        }
        proof {
            if old(self).model().src is None && old(shared).txq@.len() > 0 {
                assert(shared.txq@ =~= old(shared).txq@.drop_first());
                assert forall|i: int| 0 <= i < shared.txq@.len() implies (
                #[trigger] shared.txq@[i]).wf() && shared.txq@[i].flushed() by {
                    assert(old(shared).txq@[i + 1].wf() && old(shared).txq@[i + 1].flushed());
                }
            }
        }
        self.src.is_some()
    }

    /// Fill one audio buffer with `BUF_LEN` DDS samples, consuming source
    /// bits as bit periods elapse.  Each sample is the sine-table entry
    /// selected by the phase accumulator; the result reports whether a
    /// source is still loaded.
    pub fn fill_one_buffer(&mut self, sine_table: &Vec<u32>, buf: &mut Vec<u32>) -> (r: bool)
        requires
            old(self).wf(),
            sine_table@.len() == SINE_TABLE_LEN,
            old(buf)@.len() == BUF_LEN,
        ensures
            final(self).wf(),
            final(buf)@.len() == BUF_LEN,
            final(self).model() == modem_iter(old(self).model(), BUF_LEN as nat),
            forall|k: int|
                0 <= k < BUF_LEN ==> final(buf)@[k] == sine_table@[sample_index(
                    old(self).model(),
                    k as nat,
                )],
            r == (final(self).model().src is Some),
            final(self).next_run_spec() == old(self).next_run_spec(),
    {
        let step_mark = phase_step(MARK_HZ);
        let step_space = phase_step(SPACE_HZ);
        let ghost m0 = self.model();
        let mut tx_active = self.src.is_some();
        let mut k: usize = 0;
        while k < BUF_LEN
            invariant
                self.wf(),
                sine_table@.len() == SINE_TABLE_LEN,
                buf@.len() == BUF_LEN,
                k <= BUF_LEN,
                step_mark == tone_step32(AfskTone::Mark),
                step_space == tone_step32(AfskTone::Space),
                self.model() == modem_iter(m0, k as nat),
                tx_active == (self.model().src is Some),
                forall|j: int| 0 <= j < k ==> buf@[j] == sine_table@[sample_index(m0, j as nat)],
                self.next_run_spec() == old(self).next_run_spec(),
            decreases BUF_LEN - k,
        {
            let ghost pre = self.model();
            proof {
                assert(modem_iter(m0, (k + 1) as nat) == modem_step(pre));
            }
            self.bit_accum = self.bit_accum.wrapping_add(BITS_PER_SAMPLE_Q16);
            if self.bit_accum >= ONE_Q16 {
                self.bit_accum = self.bit_accum - ONE_Q16;
                let mut exhausted = false;
                match self.src.as_mut() {
                    Some(src) => {
                        proof {
                            crate::bitstream::lemma_read_pos_bound(*src);
                        }
                        match src.pull_bit() {
                            Some(bit) => {
                                if !bit {
                                    self.nrzi_level = !self.nrzi_level;
                                }
                                proof {
                                    let rem = pre.src->0;
                                    assert(rem.first() == bit);
                                    assert(rem.drop_first() =~= src.readable().skip(
                                        src.read_pos(),
                                    ));
                                }
                            },
                            None => {
                                proof {
                                    let rem = pre.src->0;
                                    assert(rem =~= Seq::<bool>::empty());
                                }
                                exhausted = true;
                            },
                        }
                    },
                    None => {
                        self.nrzi_level = false;
                    },
                }
                if exhausted {
                    self.src = None;
                    self.nrzi_level = false;
                    tx_active = false;
                }
                self.tone = if self.nrzi_level {
                    AfskTone::Space
                } else {
                    AfskTone::Mark
                };
            }
            let step = match self.tone {
                AfskTone::Mark => step_mark,
                AfskTone::Space => step_space,
            };
            self.phase = self.phase.wrapping_add(step);
            let index = ((self.phase >> 16u32) & 511) as usize;
            proof {
                lemma_sample_index_bound();
            }
            buf.set(k, sine_table[index]);
            proof {
                assert(self.model() == modem_step(pre));
                assert(buf@[k as int] == sine_table@[sample_index(m0, k as nat)]);
            }
            k = k + 1;
        }
        tx_active
    }

    /// The tick decision: with queued work (or a frame in progress) ask for
    /// a blocking transmission and come back at once; otherwise stay quiet
    /// for a while.
    pub fn run(&mut self, now: u64, shared: &mut Shared) -> (r: ModemAction)
        requires
            old(self).wf(),
            old(shared).wf(),
            now <= u64::MAX - 100,
        ensures
            final(self).wf(),
            final(shared).wf(),
            *final(shared) == *old(shared),
            final(self).model() == old(self).model(),
            (old(self).model().src is Some || old(shared).txq@.len() > 0) ==> r is Transmit
                && final(self).next_run_spec() == now + 1,
            !(old(self).model().src is Some || old(shared).txq@.len() > 0) ==> r is Idle && final(self).next_run_spec() == now + 100,
    {
        if self.src.is_some() || shared.txq.len() > 0 {
            self.next_run = now + 1;
            ModemAction::Transmit
        } else {
            self.next_run = now + 100;
            ModemAction::Idle
        }
    }

}

/// How one modem tick relates the task and the shared state: the decision
/// alone — with queued work a transmission is requested for the surrounding
/// program to drive, otherwise the task naps; nothing is mutated but the
/// deadline.
pub open spec fn modem_tick_rel(
    pre: AfskModulator,
    now: u64,
    a: Shared,
    post: AfskModulator,
    b: Shared,
) -> bool {
    &&& b == a
    &&& post.model() == pre.model()
    &&& ((pre.model().src is Some || a.txq@.len() > 0) ==> post.next_run_spec() == now + 1)
    &&& (!(pre.model().src is Some || a.txq@.len() > 0) ==> post.next_run_spec() == now + 100)
}

impl crate::sched::Tickable for AfskModulator {
    open spec fn inv(&self) -> bool {
        self.wf()
    }

    closed spec fn next_run_spec(&self) -> u64 {
        self.next_run
    }

    open spec fn tick_rel(pre: Self, now: u64, a: Shared, post: Self, b: Shared) -> bool {
        modem_tick_rel(pre, now, a, post, b)
    }

    fn next_run_at(&self) -> (r: u64) {
        self.next_run
    }

    fn tick(&mut self, now: u64, shared: &mut Shared) {
        let _ = self.run(now, shared);
    }
}

} // verus!
