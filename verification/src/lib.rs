//! Core logic of an unattended APRS position beacon.
//!
//! The transmit pipeline encodes a position report as ASCII, wraps it in an
//! AX.25 UI frame with a CRC-16/X.25 frame check sequence, performs HDLC
//! framing (flags and bit-stuffing) into a packed bitstream, and synthesizes
//! 1200-baud Bell-202 AFSK samples from that bitstream.  A cooperative
//! deadline scheduler drives a GPS line-reassembly task, the beacon task and
//! the modulator; a small state machine models the double-buffered audio DMA
//! driver and its push-to-talk gating.

pub mod aprs;
pub mod audio;
pub mod ax25;
pub mod beacon;
pub mod bitstream;
pub mod co;
pub mod display;
pub mod gps;
pub mod hdlc;
pub mod modem;
pub mod queue;
pub mod sched;
pub mod shared;
