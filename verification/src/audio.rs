//! Double-buffered audio output model: a ping and a pong sample buffer, a
//! silence buffer, and the completion-interrupt state machine that swaps
//! buffers and gates push-to-talk.  The surrounding program attaches the
//! selected buffer to the DMA engine and drives the physical PTT pin from
//! this state.

use vstd::prelude::*;

verus! {

/// One audio sample word: a 16-bit PCM sample duplicated into both halves
/// for stereo output.
pub type Sample = u32;

/// Samples per buffer.
pub const BUF_LEN: usize = 256;

/// Audio sample rate in hertz.
pub const SAMPLE_RATE: u32 = 8_000;

/// Which buffer the DMA engine is currently transmitting.
#[derive(Clone, Copy, Debug, PartialEq, Eq, Structural)]
pub enum AudioSource {
    Ping,
    Pong,
    Silence,
}

/// The double-buffer driver state.
pub struct AudioOut {
    ping: Vec<Sample>,
    pong: Vec<Sample>,
    use_ping: bool,
    dma_busy: bool,
    source: AudioSource,
    ptt_keyed: bool,
}

impl AudioOut {
    /// The ping buffer's samples.
    pub closed spec fn ping_data(self) -> Seq<Sample> {
        self.ping@
    }

    /// The pong buffer's samples.
    pub closed spec fn pong_data(self) -> Seq<Sample> {
        self.pong@
    }

    /// Which of ping and pong the modulator fills next (and the interrupt
    /// attaches next when data was queued).
    pub closed spec fn use_ping_spec(self) -> bool {
        self.use_ping
    }

    /// Whether a filled buffer awaits the next completion interrupt.
    pub closed spec fn dma_busy_spec(self) -> bool {
        self.dma_busy
    }

    /// The buffer the DMA engine is currently transmitting.
    pub closed spec fn source_spec(self) -> AudioSource {
        self.source
    }

    /// Whether the push-to-talk output is keyed.
    pub closed spec fn ptt_spec(self) -> bool {
        self.ptt_keyed
    }

    /// Both buffers hold a full frame of samples, and PTT is keyed exactly
    /// while the DMA engine transmits modulator-filled samples.
    pub closed spec fn wf(self) -> bool {
        &&& self.ping@.len() == BUF_LEN
        &&& self.pong@.len() == BUF_LEN
        &&& (self.ptt_keyed <==> !(self.source is Silence))
    }

    /// Fresh driver state: the silence buffer is transmitting, nothing is
    /// queued and PTT is released.
    pub fn new() -> (r: Self)
        ensures
            r.wf(),
            r.source_spec() is Silence,
            !r.ptt_spec(),
            !r.dma_busy_spec(),
            r.use_ping_spec(),
    {
        let mut ping: Vec<Sample> = Vec::new();
        let mut pong: Vec<Sample> = Vec::new();
        let mut i: usize = 0;
        while i < BUF_LEN
            invariant
                i <= BUF_LEN,
                ping@.len() == i,
                pong@.len() == i,
            decreases BUF_LEN - i,
        {
            ping.push(0);
            pong.push(0);
            i = i + 1;
        }
        Self { ping, pong, use_ping: true, dma_busy: false, source: AudioSource::Silence, ptt_keyed: false }
    }

    /// Whether the modulator must wait before filling the next buffer.
    pub fn is_busy(&self) -> (r: bool)
        ensures
            r == self.dma_busy_spec(),
    {
        self.dma_busy
    }

    /// Whether the push-to-talk output is keyed, for the surrounding
    /// program to mirror onto the (active-low) PTT pin.
    pub fn ptt(&self) -> (r: bool)
        ensures
            r == self.ptt_spec(),
    {
        self.ptt_keyed
    }

    /// Which buffer the DMA engine currently transmits, for the
    /// surrounding program to hand to the hardware.
    pub fn source(&self) -> (r: AudioSource)
        ensures
            r == self.source_spec(),
    {
        self.source
    }

    /// The inactive buffer, for the modulator to fill with samples.
    pub fn get_free_buffer(&mut self) -> (r: &mut Vec<Sample>)
        requires
            old(self).wf(),
        ensures
            r@ == if old(self).use_ping_spec() {
                old(self).ping_data()
            } else {
                old(self).pong_data()
            },
            r@.len() == BUF_LEN,
            final(self).use_ping_spec() == old(self).use_ping_spec(),
            final(self).dma_busy_spec() == old(self).dma_busy_spec(),
            final(self).source_spec() == old(self).source_spec(),
            final(self).ptt_spec() == old(self).ptt_spec(),
            old(self).use_ping_spec() ==> final(self).ping_data() == final(r)@ && final(self).pong_data() == old(self).pong_data(),
            !old(self).use_ping_spec() ==> final(self).pong_data() == final(r)@ && final(self).ping_data() == old(self).ping_data(),
            final(r)@.len() == BUF_LEN ==> final(self).wf(),
    {
        if self.use_ping {
            &mut self.ping
        } else {
            &mut self.pong
        }
    }

    /// Mark the just-filled buffer as queued for the next completion
    /// interrupt.
    pub fn queue_filled(&mut self)
        requires
            old(self).wf(),
        ensures
            final(self).wf(),
            final(self).dma_busy_spec(),
            final(self).use_ping_spec() == old(self).use_ping_spec(),
            final(self).source_spec() == old(self).source_spec(),
            final(self).ptt_spec() == old(self).ptt_spec(),
            final(self).ping_data() == old(self).ping_data(),
            final(self).pong_data() == old(self).pong_data(),
    {
        self.dma_busy = true;
    }

    /// The completion-interrupt transition: when a filled buffer was
    /// queued, the buffer of the current parity becomes the DMA source and
    /// PTT is keyed; otherwise the silence buffer is attached and PTT is
    /// released.  Either way the parity flips and the queue flag clears.
    pub fn on_dma_complete(&mut self)
        requires
            old(self).wf(),
        ensures
            final(self).wf(),
            !final(self).dma_busy_spec(),
            final(self).use_ping_spec() == !old(self).use_ping_spec(),
            old(self).dma_busy_spec() ==> final(self).source_spec() == (
            if old(self).use_ping_spec() {
                AudioSource::Ping
            } else {
                AudioSource::Pong
            }) && final(self).ptt_spec(),
            !old(self).dma_busy_spec() ==> final(self).source_spec() is Silence && !final(self).ptt_spec(),
            final(self).ping_data() == old(self).ping_data(),
            final(self).pong_data() == old(self).pong_data(),
    {
        let was_busy = self.dma_busy;
        self.dma_busy = false;
        if was_busy {
            self.source = if self.use_ping {
                AudioSource::Ping
            } else {
                AudioSource::Pong
            };
            self.ptt_keyed = true;
        } else {
            self.source = AudioSource::Silence;
            self.ptt_keyed = false;
        }
        self.use_ping = !self.use_ping;
    }
}

/// PTT gating law: in every reachable driver state, push-to-talk is keyed
/// exactly when the buffer the DMA engine is transmitting was filled by the
/// modulator — never while silence is playing.
pub proof fn lemma_ptt_iff_modulated(a: AudioOut)
    requires
        a.wf(),
    ensures
        a.ptt_spec() <==> !(a.source_spec() is Silence),
{
}

} // verus!
