//! Deadline-driven cooperative scheduler: a fixed list of tasks, each
//! owning its next deadline; every round ticks exactly the tasks whose
//! deadline has been reached, in list order, handing each the shared state.

use crate::beacon::BeaconTask;
use crate::gps::GpsTask;
use crate::modem::AfskModulator;
use crate::shared::Shared;
use vstd::prelude::*;

verus! {

/// Largest tick time the tasks accept: every reschedule fits in a `u64`.
pub const NOW_LIMIT: u64 = u64::MAX - crate::co::BEACON_PERIOD_MS;

/// A cooperatively scheduled task.
pub trait Tickable: Sized {
    /// The task's private well-formedness, preserved by every tick.
    spec fn inv(&self) -> bool;

    /// The task's next deadline in milliseconds.
    spec fn next_run_spec(&self) -> u64;

    /// How one tick at time `now` relates the task and the shared state
    /// before and after.
    spec fn tick_rel(pre: Self, now: u64, sh_pre: Shared, post: Self, sh_post: Shared) -> bool;

    /// The next deadline.
    fn next_run_at(&self) -> (r: u64)
        ensures
            r == self.next_run_spec(),
    ;

    /// Run the task once.  A tick always reschedules strictly past `now`.
    fn tick(&mut self, now: u64, shared: &mut Shared)
        requires
            old(self).inv(),
            old(shared).wf(),
            now <= NOW_LIMIT,
        ensures
            final(self).inv(),
            final(shared).wf(),
            final(self).next_run_spec() > now,
            Self::tick_rel(*old(self), now, *old(shared), *final(self), *final(shared)),
    ;
}

/// The flat polled task list together with the shared state it hands out.
pub struct Scheduler<T: Tickable> {
    tasks: Vec<T>,
}

impl<T: Tickable> Scheduler<T> {
    /// The scheduled tasks, in declaration order.
    pub closed spec fn tasks_spec(self) -> Seq<T> {
        self.tasks@
    }

    pub fn new(tasks: Vec<T>) -> (r: Self)
        ensures
            r.tasks_spec() == tasks@,
    {
        Self { tasks }
    }

    /// One scheduler round at time `now`.  Every task whose deadline has
    /// been reached is ticked exactly once, in list order; tasks that are
    /// not due are untouched.  After the round no task is still due —
    /// scheduler fairness: a task with `next_run_at() <= now` is served
    /// within this round.
    pub fn run(&mut self, now: u64, shared: &mut Shared)
        requires
            old(shared).wf(),
            now <= NOW_LIMIT,
            forall|i: int|
                0 <= i < old(self).tasks_spec().len() ==> (#[trigger] old(self).tasks_spec()[i]).inv(),
        ensures
            final(shared).wf(),
            final(self).tasks_spec().len() == old(self).tasks_spec().len(),
            forall|i: int|
                0 <= i < final(self).tasks_spec().len() ==> (#[trigger] final(self).tasks_spec()[i]).inv(),
            forall|i: int|
                0 <= i < final(self).tasks_spec().len() ==> (#[trigger] final(self).tasks_spec()[i]).next_run_spec() > now,
            forall|i: int|
                0 <= i < old(self).tasks_spec().len() && (#[trigger] old(self).tasks_spec()[i]).next_run_spec() > now ==> final(self).tasks_spec()[i] == old(self).tasks_spec()[i],
            forall|i: int|
                0 <= i < old(self).tasks_spec().len() && (#[trigger] old(self).tasks_spec()[i]).next_run_spec() <= now ==> exists|a: Shared, b: Shared|
                    a.wf() && T::tick_rel(
                        old(self).tasks_spec()[i],
                        now,
                        a,
                        final(self).tasks_spec()[i],
                        b,
                    ),
    {
        let ghost t0 = self.tasks@;
        let n = self.tasks.len();
        proof {
            assert forall|j: int| 0 <= j < t0.len() implies (#[trigger] t0[j]).inv() by {
                assert(old(self).tasks_spec()[j].inv());
            }
        }
        let mut i: usize = 0;
        while i < n
            invariant
                shared.wf(),
                now <= NOW_LIMIT,
                n == self.tasks@.len() == t0.len(),
                i <= n,
                forall|j: int| 0 <= j < t0.len() ==> (#[trigger] t0[j]).inv(),
                forall|j: int| 0 <= j < t0.len() ==> (#[trigger] self.tasks@[j]).inv(),
                forall|j: int| i <= j < t0.len() ==> self.tasks@[j] == t0[j],
                forall|j: int|
                    0 <= j < i ==> (#[trigger] self.tasks@[j]).next_run_spec() > now,
                forall|j: int|
                    0 <= j < t0.len() && (#[trigger] t0[j]).next_run_spec() > now
                        ==> self.tasks@[j] == t0[j],
                forall|j: int|
                    0 <= j < i && (#[trigger] t0[j]).next_run_spec() <= now ==> exists|
                        a: Shared,
                        b: Shared,
                    | a.wf() && T::tick_rel(t0[j], now, a, self.tasks@[j], b),
            decreases n - i,
        {
            let ghost tpre = self.tasks@;
            let deadline = self.tasks[i].next_run_at();
            if now >= deadline {
                let ghost sh_pre = *shared;
                let task = &mut self.tasks[i];
                task.tick(now, shared);
                proof {
                    assert(tpre[i as int] == t0[i as int]);
                    assert(sh_pre.wf());
                    assert(T::tick_rel(t0[i as int], now, sh_pre, self.tasks@[i as int], *shared));
                    assert(exists|a: Shared, b: Shared|
                        a.wf() && T::tick_rel(t0[i as int], now, a, self.tasks@[i as int], b));
                    assert forall|j: int| 0 <= j < t0.len() && j != i implies self.tasks@[j]
                        == tpre[j] by {}
                    assert forall|j: int|
                        0 <= j < i + 1 && (#[trigger] t0[j]).next_run_spec() <= now implies exists|
                        a: Shared,
                        b: Shared,
                    | a.wf() && T::tick_rel(t0[j], now, a, self.tasks@[j], b) by {
                        if j < i {
                            assert(self.tasks@[j] == tpre[j]);
                            assert(exists|a: Shared, b: Shared|
                                a.wf() && T::tick_rel(t0[j], now, a, tpre[j], b));
                        }
                    }
                }
            }
            i = i + 1;
        }
    }
}

/// The station's task set, as one schedulable type.
///
/// A scheduled `Task::Modem` tick only makes the transmit decision and
/// reschedules; the surrounding program must watch `AfskModulator::run`'s
/// action (or the queue) and drive the blocking transmission itself, since
/// that loop sleeps on the DMA-completion interrupt.
pub enum Task {
    Gps(GpsTask),
    Beacon(BeaconTask),
    Modem(AfskModulator),
}

impl Tickable for Task {
    open spec fn inv(&self) -> bool {
        match self {
            Task::Gps(t) => t.wf(),
            Task::Beacon(_) => true,
            Task::Modem(t) => t.wf(),
        }
    }

    open spec fn next_run_spec(&self) -> u64 {
        match self {
            Task::Gps(t) => t.next_run_spec(),
            Task::Beacon(t) => t.next_run_spec(),
            Task::Modem(t) => t.next_run_spec(),
        }
    }

    open spec fn tick_rel(pre: Self, now: u64, sh_pre: Shared, post: Self, sh_post: Shared) -> bool {
        match (pre, post) {
            (Task::Gps(p), Task::Gps(q)) => GpsTask::tick_rel(p, now, sh_pre, q, sh_post),
            (Task::Beacon(p), Task::Beacon(q)) => BeaconTask::tick_rel(p, now, sh_pre, q, sh_post),
            (Task::Modem(p), Task::Modem(q)) => AfskModulator::tick_rel(
                p,
                now,
                sh_pre,
                q,
                sh_post,
            ),
            _ => false,
        }
    }

    fn next_run_at(&self) -> (r: u64) {
        match self {
            Task::Gps(t) => t.next_run_at(),
            Task::Beacon(t) => t.next_run_at(),
            Task::Modem(t) => t.next_run_at(),
        }
    }

    fn tick(&mut self, now: u64, shared: &mut Shared) {
        match self {
            Task::Gps(t) => t.tick(now, shared),
            Task::Beacon(t) => t.tick(now, shared),
            Task::Modem(t) => t.tick(now, shared),
        }
    }
}

} // verus!
