//! The beacon task: on each tick it either waits for a usable fix, applies
//! back-pressure when the transmit queue is full, or builds the position
//! frame, HDLC-encodes it and queues it for transmission.

use crate::aprs::{self, Coordinate, PositionReport};
use crate::co;
use crate::hdlc;
use crate::sched::Tickable;
use crate::shared::{Shared, TX_QUEUE_CAP};
use vstd::prelude::*;

verus! {

/// The task that schedules and builds position beacons.
pub struct BeaconTask {
    next_tx_time: u64,
}

/// The position report the beacon transmits: the shared template with the
/// fix coordinates filled in.
pub open spec fn report_with_fix(template: PositionReport, lat: i32, lon: i32) -> PositionReport {
    PositionReport {
        latitude: Coordinate { microdegrees: lat },
        longitude: Coordinate { microdegrees: lon },
        ..template
    }
}

impl BeaconTask {
    pub fn new() -> (r: Self)
        ensures
            r.next_run_spec() == 0,
    {
        Self { next_tx_time: 0 }
    }

    /// One beacon tick.  Without a fix, retry in five seconds; with an
    /// incomplete fix, retry in one second; otherwise update the shared
    /// report with the fix coordinates and, unless the transmit queue is
    /// full (retry in one second), queue the HDLC-encoded position frame
    /// and sleep for the beacon period.
    pub fn run(&mut self, now: u64, shared: &mut Shared)
        requires
            old(shared).wf(),
            now <= u64::MAX - co::BEACON_PERIOD_MS,
        ensures
            final(shared).wf(),
            !old(shared).fix.has_fix ==> {
                &&& final(self).next_run_spec() == now + co::BEACON_NO_FIX_RETRY_MS
                &&& *final(shared) == *old(shared)
            },
            old(shared).fix.has_fix && (old(shared).fix.latitude is None || old(
                shared,
            ).fix.longitude is None) ==> {
                &&& final(self).next_run_spec() == now + co::BEACON_RETRY_MS
                &&& *final(shared) == *old(shared)
            },
            ({
                &&& old(shared).fix.has_fix
                &&& old(shared).fix.latitude matches Some(lat)
                &&& old(shared).fix.longitude matches Some(lon)
            }) ==> {
                let lat = old(shared).fix.latitude->0;
                let lon = old(shared).fix.longitude->0;
                let rpt = report_with_fix(old(shared).pos_rpt, lat, lon);
                &&& final(shared).pos_rpt == rpt
                &&& final(shared).fix == old(shared).fix
                &&& final(shared).rx == old(shared).rx
                &&& final(shared).nmea_lines == old(shared).nmea_lines
                &&& (old(shared).txq@.len() >= TX_QUEUE_CAP ==> final(shared).txq == old(
                    shared,
                ).txq && final(self).next_run_spec() == now + co::BEACON_RETRY_MS)
                &&& (old(shared).txq@.len() < TX_QUEUE_CAP ==> {
                    &&& final(self).next_run_spec() == now + co::BEACON_PERIOD_MS
                    &&& final(shared).txq@.len() == old(shared).txq@.len() + 1
                    &&& final(shared).txq@.take(old(shared).txq@.len() as int) == old(shared).txq@
                    &&& final(shared).txq@.last().wf()
                    &&& final(shared).txq@.last().flushed()
                    &&& final(shared).txq@.last().read_pos() == 0
                    &&& final(shared).txq@.last().bits() == hdlc::on_air_bits(
                        aprs::position_frame_spec(rpt),
                        hdlc::PREAMBLE_FLAGS as int,
                        hdlc::TRAILING_FLAGS as int,
                    )
                    &&& final(shared).txq@.last().readable().len() == 8 * ((final(shared).txq@.last().bits().len() + 7) / 8)
                })
            },
    {
        if !shared.fix.has_fix {
            // No fix yet: try again later.
            self.next_tx_time = now + co::BEACON_NO_FIX_RETRY_MS;
            return ;
        }
        let (lat, lon) = match (shared.fix.latitude, shared.fix.longitude) {
            (Some(lat), Some(lon)) => (lat, lon),
            _ => {
                // A fix without both coordinates: try again shortly.
                self.next_tx_time = now + co::BEACON_RETRY_MS;
                return ;
            },
        };
        shared.pos_rpt.latitude = Coordinate { microdegrees: lat };
        shared.pos_rpt.longitude = Coordinate { microdegrees: lon };
        if shared.txq.len() >= TX_QUEUE_CAP {
            // The modem has not consumed the previous frames: back off.
            self.next_tx_time = now + co::BEACON_RETRY_MS;
            return ;
        }
        proof {
            aprs::lemma_config_calls_ok();
            aprs::lemma_info_len(shared.pos_rpt);
        }
        let packet = match aprs::build_position_frame(&shared.pos_rpt) {
            Ok(p) => p,
            Err(_) => {
                // Unreachable: the configured callsigns are ASCII.
                assert(false);
                return ;
            },
        };
        proof {
            aprs::lemma_position_frame_len(shared.pos_rpt);
            crate::bitstream::lemma_bytes_bits_len(packet@);
            hdlc::lemma_stuff_len(crate::bitstream::bytes_bits(packet@), 0);
            hdlc::lemma_flags_len(hdlc::PREAMBLE_FLAGS as int);
            hdlc::lemma_flags_len(hdlc::TRAILING_FLAGS as int);
        }
        let bits = match hdlc::build_on_air(packet.as_slice()) {
            Ok(b) => b,
            Err(_) => {
                // Unreachable: a position frame always fits the bitstream.
                assert(false);
                return ;
            },
        };
        shared.txq.push_back(bits);
        proof {
            assert(shared.txq@.take(old(shared).txq@.len() as int) =~= old(shared).txq@);
            assert forall|i: int| 0 <= i < shared.txq@.len() implies (
            #[trigger] shared.txq@[i]).wf() && shared.txq@[i].flushed() by {
                if i < old(shared).txq@.len() {
                    assert(old(shared).txq@[i].wf() && old(shared).txq@[i].flushed());
                }
            }
        }
        self.next_tx_time = now + co::BEACON_PERIOD_MS;
    }
}

/// How one beacon tick relates the task and the shared state: wait on a
/// missing or partial fix, apply back-pressure on a full transmit queue, or
/// update the report, queue the encoded frame and sleep one beacon period.
pub open spec fn beacon_tick_rel(
    pre: BeaconTask,
    now: u64,
    a: Shared,
    post: BeaconTask,
    b: Shared,
) -> bool {
    &&& (!a.fix.has_fix ==> post.next_run_spec() == now + co::BEACON_NO_FIX_RETRY_MS && b == a)
    &&& (a.fix.has_fix && (a.fix.latitude is None || a.fix.longitude is None)
        ==> post.next_run_spec() == now + co::BEACON_RETRY_MS && b == a)
    &&& (a.fix.has_fix && a.fix.latitude is Some && a.fix.longitude is Some ==> {
        let rpt = report_with_fix(a.pos_rpt, a.fix.latitude->0, a.fix.longitude->0);
        &&& b.pos_rpt == rpt
        &&& b.fix == a.fix
        &&& b.rx == a.rx
        &&& b.nmea_lines == a.nmea_lines
        &&& (a.txq@.len() >= TX_QUEUE_CAP ==> b.txq == a.txq && post.next_run_spec() == now
            + co::BEACON_RETRY_MS)
        &&& (a.txq@.len() < TX_QUEUE_CAP ==> {
            &&& post.next_run_spec() == now + co::BEACON_PERIOD_MS
            &&& b.txq@.len() == a.txq@.len() + 1
            &&& b.txq@.take(a.txq@.len() as int) == a.txq@
            &&& b.txq@.last().wf()
            &&& b.txq@.last().flushed()
            &&& b.txq@.last().read_pos() == 0
            &&& b.txq@.last().bits() == hdlc::on_air_bits(
                aprs::position_frame_spec(rpt),
                hdlc::PREAMBLE_FLAGS as int,
                hdlc::TRAILING_FLAGS as int,
            )
            &&& b.txq@.last().readable().len() == 8 * ((b.txq@.last().bits().len() + 7) / 8)
        })
    })
}

impl Tickable for BeaconTask {
    open spec fn inv(&self) -> bool {
        true
    }

    closed spec fn next_run_spec(&self) -> u64 {
        self.next_tx_time
    }

    open spec fn tick_rel(pre: Self, now: u64, a: Shared, post: Self, b: Shared) -> bool {
        beacon_tick_rel(pre, now, a, post, b)
    }

    fn next_run_at(&self) -> (r: u64) {
        self.next_tx_time
    }

    fn tick(&mut self, now: u64, shared: &mut Shared) {
        self.run(now, shared);
    }
}

} // verus!
