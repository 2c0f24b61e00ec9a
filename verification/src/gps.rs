//! GPS line reassembly: drains the serial receive queue, strips carriage
//! returns, terminates lines on line feed, and abandons over-long lines
//! until the next line feed.  Complete lines are handed to the shared
//! outbox for the external NMEA sentence parser.

use crate::co;
use crate::sched::Tickable;
use crate::shared::Shared;
use vstd::prelude::*;

verus! {

/// One step of line reassembly on a single byte: line feed completes the
/// line (unless it is being discarded), carriage return is dropped, an
/// over-long line is abandoned until the next line feed, and any other byte
/// is appended.  Returns the new line buffer, the new discard flag, and the
/// completed line, if any.
pub open spec fn gps_step(buf: Seq<u8>, discard: bool, b: u8) -> (Seq<u8>, bool, Option<Seq<u8>>) {
    if b == 10 {
        (
            Seq::empty(),
            false,
            if discard {
                None
            } else {
                Some(buf)
            },
        )
    } else if b == 13 {
        (buf, discard, None)
    } else if discard {
        (buf, discard, None)
    } else if buf.len() >= co::GPS_MAX_SENTENCE_LEN {
        (Seq::empty(), true, None)
    } else {
        (buf.push(b), discard, None)
    }
}

/// Line reassembly over a whole byte sequence: the final line buffer, the
/// final discard flag, and the completed lines in order.
pub open spec fn gps_drain(buf: Seq<u8>, discard: bool, input: Seq<u8>) -> (
    Seq<u8>,
    bool,
    Seq<Seq<u8>>,
)
    decreases input.len(),
{
    if input.len() == 0 {
        (buf, discard, Seq::empty())
    } else {
        let s = gps_step(buf, discard, input.first());
        let rest = gps_drain(s.0, s.1, input.drop_first());
        (
            rest.0,
            rest.1,
            match s.2 {
                Some(l) => seq![l] + rest.2,
                None => rest.2,
            },
        )
    }
}

/// Copy a byte slice into a fresh vector.
fn vec_copy(src: &[u8]) -> (r: Vec<u8>)
    ensures
        r@ == src@,
{
    let mut r: Vec<u8> = Vec::new();
    let mut j: usize = 0;
    while j < src.len()
        invariant
            j <= src@.len(),
            r@ == src@.take(j as int),
        decreases src@.len() - j,
    {
        r.push(src[j]);
        proof {
            assert(src@.take(j + 1) =~= src@.take(j as int).push(src@[j as int]));
        }
        j = j + 1;
    }
    proof {
        assert(src@.take(src@.len() as int) =~= src@);
    }
    r
}

/// The task that reassembles NMEA lines from the serial receive queue.
pub struct GpsTask {
    next_run_at: u64,
    line_buf: Vec<u8>,
    discard_line: bool,
}

impl GpsTask {
    /// The partial line held between ticks.
    pub closed spec fn line_buf_spec(self) -> Seq<u8> {
        self.line_buf@
    }

    /// Whether the current line is being discarded as over-long.
    pub closed spec fn discard_spec(self) -> bool {
        self.discard_line
    }

    /// The partial line never exceeds the sentence bound.
    pub closed spec fn wf(self) -> bool {
        self.line_buf@.len() <= co::GPS_MAX_SENTENCE_LEN
    }

    pub fn new() -> (r: Self)
        ensures
            r.wf(),
            r.next_run_spec() == 0,
            r.line_buf_spec() == Seq::<u8>::empty(),
            !r.discard_spec(),
    {
        Self { next_run_at: 0, line_buf: Vec::new(), discard_line: false }
    }

    /// Drain the receive queue, reassembling lines and appending each
    /// completed line to the shared outbox; reschedule one poll interval
    /// ahead.
    pub fn run(&mut self, now: u64, shared: &mut Shared)
        requires
            old(self).wf(),
            old(shared).wf(),
            now <= u64::MAX - co::GPS_TASK_POLL_INTERVAL_MS,
        ensures
            final(self).wf(),
            final(shared).wf(),
            final(self).next_run_spec() == now + co::GPS_TASK_POLL_INTERVAL_MS,
            ({
                let d = gps_drain(
                    old(self).line_buf_spec(),
                    old(self).discard_spec(),
                    old(shared).rx.contents(),
                );
                &&& final(self).line_buf_spec() == d.0
                &&& final(self).discard_spec() == d.1
                &&& final(shared).nmea_lines@.map_values(|l: Vec<u8>| l@) == old(
                    shared,
                ).nmea_lines@.map_values(|l: Vec<u8>| l@) + d.2
            }),
            final(shared).rx.contents() == Seq::<u8>::empty(),
            final(shared).rx.capacity_spec() == old(shared).rx.capacity_spec(),
            final(shared).fix == old(shared).fix,
            final(shared).pos_rpt == old(shared).pos_rpt,
            final(shared).txq == old(shared).txq,
    {
        self.next_run_at = now + co::GPS_TASK_POLL_INTERVAL_MS;
        let ghost buf0 = self.line_buf@;
        let ghost disc0 = self.discard_line;
        let ghost rx0 = shared.rx.contents();
        let ghost lines0 = shared.nmea_lines@.map_values(|l: Vec<u8>| l@);
        let ghost full = gps_drain(buf0, disc0, rx0);
        loop
            invariant
                self.wf(),
                shared.wf(),
                self.next_run_at == now + co::GPS_TASK_POLL_INTERVAL_MS,
                full == gps_drain(buf0, disc0, rx0),
                ({
                    let cur = gps_drain(
                        self.line_buf@,
                        self.discard_line,
                        shared.rx.contents(),
                    );
                    &&& full.0 == cur.0
                    &&& full.1 == cur.1
                    &&& full.2 == shared.nmea_lines@.map_values(|l: Vec<u8>| l@).skip(
                        lines0.len() as int,
                    ) + cur.2
                }),
                shared.nmea_lines@.map_values(|l: Vec<u8>| l@).take(lines0.len() as int) == lines0,
                shared.nmea_lines@.len() >= lines0.len(),
                shared.rx.capacity_spec() == old(shared).rx.capacity_spec(),
                shared.fix == old(shared).fix,
                shared.pos_rpt == old(shared).pos_rpt,
                shared.txq == old(shared).txq,
            ensures
                shared.rx.contents().len() == 0,
            decreases shared.rx.contents().len(),
        {
            let ghost pre_rx = shared.rx.contents();
            let ghost pre_buf = self.line_buf@;
            let ghost pre_disc = self.discard_line;
            let ghost f = |l: Vec<u8>| l@;
            let ghost pre_lines = shared.nmea_lines@.map_values(f);
            let next = shared.rx.dequeue();
            let b = match next {
                Some(b) => b,
                None => {
                    break ;
                },
            };
            let ghost s = gps_step(pre_buf, pre_disc, b);
            let ghost rest = gps_drain(s.0, s.1, shared.rx.contents());
            proof {
                assert(pre_rx.first() == b && pre_rx.drop_first() == shared.rx.contents());
                assert(gps_drain(pre_buf, pre_disc, pre_rx).0 == rest.0);
                assert(gps_drain(pre_buf, pre_disc, pre_rx).1 == rest.1);
                assert(gps_drain(pre_buf, pre_disc, pre_rx).2 == match s.2 {
                    Some(l) => seq![l] + rest.2,
                    None => rest.2,
                });
            }
            if b == 10 {
                if !self.discard_line {
                    let line = vec_copy(self.line_buf.as_slice());
                    shared.nmea_lines.push(line);
                    proof {
                        assert(shared.nmea_lines@.map_values(f) =~= pre_lines + seq![pre_buf]);
                    }
                }
                self.line_buf.clear();
                self.discard_line = false;
            } else if b == 13 {
                // carriage returns are dropped
            } else {
                if !self.discard_line {
                    if self.line_buf.len() >= co::GPS_MAX_SENTENCE_LEN {
                        self.line_buf.clear();
                        self.discard_line = true;
                    } else {
                        self.line_buf.push(b);
                    }
                }
            }
            proof {
                let l0 = lines0.len() as int;
                assert(self.line_buf@ == s.0 && self.discard_line == s.1) by {
                    if b == 10 {
                        assert(self.line_buf@ =~= Seq::<u8>::empty());
                    } else if b != 13 && !pre_disc && pre_buf.len() >= co::GPS_MAX_SENTENCE_LEN {
                        assert(self.line_buf@ =~= Seq::<u8>::empty());
                    }
                }
                let cur_lines = shared.nmea_lines@.map_values(f);
                if b == 10 && !pre_disc {
                    assert(cur_lines == pre_lines + seq![pre_buf]);
                    assert(cur_lines.take(l0) =~= pre_lines.take(l0));
                    assert(cur_lines.skip(l0) =~= pre_lines.skip(l0) + seq![pre_buf]);
                    assert(pre_lines.skip(l0) + (seq![pre_buf] + rest.2) =~= (pre_lines.skip(l0)
                        + seq![pre_buf]) + rest.2);
                } else {
                    assert(cur_lines == pre_lines);
                }
                assert(full.2 == cur_lines.skip(l0) + rest.2);
            }
        }
        proof {
            assert(gps_drain(self.line_buf@, self.discard_line, shared.rx.contents()) == (
            self.line_buf@,
            self.discard_line,
            Seq::<Seq<u8>>::empty(),
            ));
            let f = |l: Vec<u8>| l@;
            assert(shared.nmea_lines@.map_values(f) =~= lines0 + shared.nmea_lines@.map_values(
                f,
            ).skip(lines0.len() as int));
            assert(shared.nmea_lines@.map_values(f).skip(lines0.len() as int) + Seq::<
                Seq<u8>,
            >::empty() =~= shared.nmea_lines@.map_values(f).skip(lines0.len() as int));
        }
    }
}

/// How one GPS tick relates the task and the shared state: the receive
/// queue is drained through line reassembly, completed lines join the
/// outbox, nothing else changes, and the task sleeps one poll interval.
pub open spec fn gps_tick_rel(pre: GpsTask, now: u64, a: Shared, post: GpsTask, b: Shared) -> bool {
    let d = gps_drain(pre.line_buf_spec(), pre.discard_spec(), a.rx.contents());
    &&& post.next_run_spec() == now + co::GPS_TASK_POLL_INTERVAL_MS
    &&& post.line_buf_spec() == d.0
    &&& post.discard_spec() == d.1
    &&& b.nmea_lines@.map_values(|l: Vec<u8>| l@) == a.nmea_lines@.map_values(|l: Vec<u8>| l@)
        + d.2
    &&& b.rx.contents().len() == 0
    &&& b.rx.capacity_spec() == a.rx.capacity_spec()
    &&& b.fix == a.fix
    &&& b.pos_rpt == a.pos_rpt
    &&& b.txq == a.txq
}

impl Tickable for GpsTask {
    open spec fn inv(&self) -> bool {
        self.wf()
    }

    closed spec fn next_run_spec(&self) -> u64 {
        self.next_run_at
    }

    open spec fn tick_rel(pre: Self, now: u64, a: Shared, post: Self, b: Shared) -> bool {
        gps_tick_rel(pre, now, a, post, b)
    }

    fn next_run_at(&self) -> (r: u64) {
        self.next_run_at
    }

    fn tick(&mut self, now: u64, shared: &mut Shared) {
        self.run(now, shared);
    }
}

} // verus!
