//! Process-wide shared state handed to each task by the scheduler: the
//! latest GPS fix, the position report template, the transmit queue, the
//! serial receive queue, and the outbox of reassembled NMEA lines awaiting
//! the external sentence parser.

use crate::aprs::{Coordinate, PositionReport};
use crate::hdlc::TxBits;
use crate::queue::ByteQueue;
use std::collections::VecDeque;
use vstd::prelude::*;

verus! {

/// Capacity of the transmit queue.
pub const TX_QUEUE_CAP: usize = 2;

/// What the fix accumulator currently knows: whether any fix is held, and
/// the coordinates in microdegrees when they are available.
#[derive(Clone, Copy, Debug)]
pub struct FixState {
    pub has_fix: bool,
    pub latitude: Option<i32>,
    pub longitude: Option<i32>,
}

impl FixState {
    /// Coordinates, when present, are in range.
    pub open spec fn wf(self) -> bool {
        &&& (self.latitude matches Some(lat) ==> -90_000_000 <= lat <= 90_000_000)
        &&& (self.longitude matches Some(lon) ==> -180_000_000 <= lon <= 180_000_000)
    }

    /// No fix at all.
    pub fn none() -> (r: Self)
        ensures
            r.wf(),
            !r.has_fix,
            r.latitude is None,
            r.longitude is None,
    {
        Self { has_fix: false, latitude: None, longitude: None }
    }
}

/// The shared application state.
pub struct Shared {
    pub fix: FixState,
    pub pos_rpt: PositionReport,
    pub txq: VecDeque<TxBits>,
    pub rx: ByteQueue,
    pub nmea_lines: Vec<Vec<u8>>,
}

impl Shared {
    /// Every component is well formed and the transmit queue is bounded,
    /// holding only finalized bitstreams.
    pub open spec fn wf(self) -> bool {
        &&& self.fix.wf()
        &&& self.pos_rpt.wf()
        &&& self.txq@.len() <= TX_QUEUE_CAP
        &&& forall|i: int|
            0 <= i < self.txq@.len() ==> (#[trigger] self.txq@[i]).wf() && self.txq@[i].flushed()
        &&& self.rx.wf()
    }

    /// Fresh state: no fix, the default report template (symbol `/n`, no
    /// comment, no timestamp, no messaging), and empty queues.
    pub fn new() -> (r: Self)
        ensures
            r.wf(),
            !r.fix.has_fix,
            r.fix.latitude is None,
            r.fix.longitude is None,
            r.txq@.len() == 0,
            r.rx.contents() == Seq::<u8>::empty(),
            r.rx.capacity_spec() == crate::co::UART_BUFFER_SIZE,
            r.nmea_lines@.len() == 0,
            r.pos_rpt.latitude.microdegrees == 0,
            r.pos_rpt.longitude.microdegrees == 0,
            r.pos_rpt.symbol_table == '/',
            r.pos_rpt.symbol_code == 'n',
            r.pos_rpt.comment is None,
            r.pos_rpt.timestamp is None,
            !r.pos_rpt.messaging,
    {
        let pos_rpt = PositionReport {
            latitude: Coordinate { microdegrees: 0 },
            longitude: Coordinate { microdegrees: 0 },
            symbol_table: '/',
            symbol_code: 'n',
            comment: None,
            timestamp: None,
            messaging: false,
        };
        Self {
            fix: FixState::none(),
            pos_rpt,
            txq: VecDeque::new(),
            rx: ByteQueue::new(crate::co::UART_BUFFER_SIZE),
            nmea_lines: Vec::new(),
        }
    }
}

} // verus!
