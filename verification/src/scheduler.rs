//! The scheduler: the deadline queue together with the monotonic identity
//! counter and the stop flag, the thread-safe control surface over them,
//! and the worker's wait-or-fire decision.
//!
//! The host program owns the clock and the worker thread.  Each worker
//! iteration reads the current time and calls [`TimerQueue::worker_step`],
//! which makes the whole decision of one loop iteration — stop, wait, or
//! fire — and already reflects a fire in the queue, so the host can
//! release its lock before invoking the callback.

use vstd::prelude::*;

use crate::model::TimerRecord;
use crate::model::sorted_by_deadline;
use crate::model::has_id;
use crate::model::first_idx_of;
use crate::model::insert_spec;
use crate::model::remove_id_spec;
use crate::model::fire_spec;
use crate::model::wrap_inc;
use crate::model::distinct_ids;
use crate::model::lemma_sorted_drop_first;
use crate::model::lemma_insert_spec_distinct;
use crate::model::lemma_insert_spec_membership;
use crate::model::lemma_insert_fresh_id;
use crate::model::lemma_first_idx_props;
use crate::model::lemma_remove_id_distinct;
use crate::model::lemma_remove_id_membership;
use crate::queue::DeadlineQueue;

verus! {

/// What one worker iteration decided.  The host performs the action and
/// comes back with the next observed time.
pub enum WorkerStep<T> {
    /// The stop flag is set: the worker exits without draining the queue.
    Stopped,
    /// The queue is empty: block until a schedule call or shutdown wakes
    /// the worker.
    IdleWait,
    /// The earliest deadline lies in the future: block on the wake signal
    /// for at most this many ticks, then re-evaluate.
    TimedWait(u64),
    /// The earliest deadline is due: the record was removed (and, if
    /// periodic, reinserted one period past its expired deadline); the
    /// host now invokes the task with the timer's identity, isolating any
    /// abnormal termination.
    Fire(u64, T),
}

/// A timer scheduling engine: an ordered deadline queue, a monotonic
/// identity counter, and a stop flag.
pub struct TimerQueue<T> {
    queue: DeadlineQueue<T>,
    next_id: u64,
    stopped: bool,
}

impl<T: Copy> TimerQueue<T> {
    /// The pending timer records, in non-decreasing deadline order.
    pub closed spec fn timers(&self) -> Seq<TimerRecord<T>> {
        self.queue@
    }

    /// The identity the next schedule call will hand out.
    pub closed spec fn id_counter(&self) -> u64 {
        self.next_id
    }

    /// Whether `shutdown` has been requested.
    pub closed spec fn is_stopped(&self) -> bool {
        self.stopped
    }

    /// The scheduler's invariant: the queue keeps its records in
    /// non-decreasing deadline order.  Records scheduled at one exact
    /// instant are all kept, and each fires.
    pub open spec fn wf(&self) -> bool {
        sorted_by_deadline(self.timers())
    }

    /// Identity hygiene: pending records carry pairwise distinct
    /// identities, all allocated below the counter.  `new` establishes
    /// it and every operation preserves it — a schedule call under the
    /// proviso that the counter has not yet wrapped, which holds of any
    /// real scheduling history — so identities are unique for the
    /// scheduler's lifetime.
    pub open spec fn ids_fresh(&self) -> bool {
        distinct_ids(self.timers()) && forall|i: int|
            0 <= i < self.timers().len() ==> (#[trigger] self.timers()[i]).id < self.id_counter()
    }

    /// A scheduler with no pending timers, identities starting at zero,
    /// and the stop flag clear.  No worker is implied: the host starts
    /// one and drives it through `worker_step`.
    pub fn new() -> (q: Self)
        ensures
            q.wf(),
            q.ids_fresh(),
            q.timers() == Seq::<TimerRecord<T>>::empty(),
            q.id_counter() == 0,
            !q.is_stopped(),
    {
        TimerQueue { queue: DeadlineQueue::new(), next_id: 0, stopped: false }
    }

    /// Allocates the next identity, wrapping at the top of the range.
    fn take_id(&mut self) -> (id: u64)
        ensures
            id == old(self).id_counter(),
            final(self).id_counter() == wrap_inc(old(self).id_counter()),
            final(self).timers() == old(self).timers(),
            final(self).is_stopped() == old(self).is_stopped(),
    {
        let id = self.next_id;
        self.next_id = if id == u64::MAX {
            0
        } else {
            id + 1
        };
        id
    }

    /// Schedules a one-shot timer at an absolute instant.  A past instant
    /// is allowed: it fires on the worker's next wake.
    pub fn schedule_at(&mut self, deadline: u64, task: T) -> (id: u64)
        requires
            old(self).wf(),
        ensures
            final(self).wf(),
            id == old(self).id_counter(),
            final(self).id_counter() == wrap_inc(old(self).id_counter()),
            final(self).timers() == insert_spec(
                old(self).timers(),
                (TimerRecord { deadline, id, period: 0u64, task }),
            ),
            final(self).is_stopped() == old(self).is_stopped(),
            old(self).ids_fresh() && old(self).id_counter() < u64::MAX ==> final(self).ids_fresh(),
    {
        let id = self.take_id();
        self.queue.insert(TimerRecord { deadline, id, period: 0, task });
        proof {
            if old(self).ids_fresh() && old(self).id_counter() < u64::MAX {
                lemma_insert_fresh_id(
                    old(self).timers(),
                    TimerRecord { deadline, id, period: 0u64, task },
                    old(self).id_counter(),
                );
            }
        }
        id
    }

    /// Schedules a periodic timer: first fire one period from now, then
    /// every period thereafter.
    pub fn schedule_periodic(&mut self, now: u64, period: u64, task: T) -> (id: u64)
        requires
            old(self).wf(),
            now + period <= u64::MAX,
        ensures
            final(self).wf(),
            id == old(self).id_counter(),
            final(self).id_counter() == wrap_inc(old(self).id_counter()),
            final(self).timers() == insert_spec(
                old(self).timers(),
                (TimerRecord { deadline: (now + period) as u64, id, period, task }),
            ),
            final(self).is_stopped() == old(self).is_stopped(),
            old(self).ids_fresh() && old(self).id_counter() < u64::MAX ==> final(self).ids_fresh(),
    {
        let id = self.take_id();
        self.queue.insert(TimerRecord { deadline: now + period, id, period, task });
        proof {
            if old(self).ids_fresh() && old(self).id_counter() < u64::MAX {
                lemma_insert_fresh_id(
                    old(self).timers(),
                    TimerRecord { deadline: (now + period) as u64, id, period, task },
                    old(self).id_counter(),
                );
            }
        }
        id
    }

    /// Schedules a custom-cadence timer: first fire at an arbitrary
    /// absolute instant, then recurring at the period; a zero period
    /// degrades to one-shot semantics after the first fire.
    pub fn schedule_custom(&mut self, first: u64, period: u64, task: T) -> (id: u64)
        requires
            old(self).wf(),
        ensures
            final(self).wf(),
            id == old(self).id_counter(),
            final(self).id_counter() == wrap_inc(old(self).id_counter()),
            final(self).timers() == insert_spec(
                old(self).timers(),
                (TimerRecord { deadline: first, id, period, task }),
            ),
            final(self).is_stopped() == old(self).is_stopped(),
            old(self).ids_fresh() && old(self).id_counter() < u64::MAX ==> final(self).ids_fresh(),
    {
        let id = self.take_id();
        self.queue.insert(TimerRecord { deadline: first, id, period, task });
        proof {
            if old(self).ids_fresh() && old(self).id_counter() < u64::MAX {
                lemma_insert_fresh_id(
                    old(self).timers(),
                    TimerRecord { deadline: first, id, period, task },
                    old(self).id_counter(),
                );
            }
        }
        id
    }

    /// Whether a pending timer carries the given identity.
    pub fn contains_id(&self, id: u64) -> (b: bool)
        ensures
            b == has_id(self.timers(), id),
    {
        self.queue.find_by_id(id).is_some()
    }

    /// Removes every pending timer with the given identity; returns
    /// whether one was found.  An unknown or already-fired identity
    /// reports `false`.
    pub fn cancel(&mut self, id: u64) -> (found: bool)
        requires
            old(self).wf(),
        ensures
            final(self).wf(),
            found == has_id(old(self).timers(), id),
            final(self).timers() == remove_id_spec(old(self).timers(), id),
            final(self).id_counter() == old(self).id_counter(),
            final(self).is_stopped() == old(self).is_stopped(),
            old(self).ids_fresh() ==> final(self).ids_fresh(),
    {
        let found = self.queue.find_by_id(id).is_some();
        if found {
            self.queue.remove_by_id(id);
            proof {
                if old(self).ids_fresh() {
                    lemma_remove_id_distinct(old(self).timers(), id);
                    lemma_remove_id_membership(old(self).timers(), id);
                    let s = old(self).timers();
                    let res = self.timers();
                    assert forall|i: int| 0 <= i < res.len() implies (#[trigger] res[i]).id
                        < self.id_counter() by {
                        assert(res.contains(res[i]));
                        assert(s.contains(res[i]));
                        let k = choose|k: int| 0 <= k < s.len() && s[k] == res[i];
                        assert(s[k].id < old(self).id_counter());
                    }
                }
            }
            true
        } else {
            proof {
                crate::model::lemma_remove_id_absent(old(self).timers(), id);
            }
            false
        }
    }

    /// Mutates the recurrence period of the first pending timer with the
    /// given identity; it takes effect on that timer's next reinsertion.
    /// Returns whether the timer was found.
    pub fn set_periodic(&mut self, id: u64, new_period: u64) -> (found: bool)
        requires
            old(self).wf(),
        ensures
            final(self).wf(),
            found == has_id(old(self).timers(), id),
            !found ==> final(self).timers() == old(self).timers(),
            found ==> final(self).timers() == old(self).timers().update(
                first_idx_of(old(self).timers(), id),
                (TimerRecord {
                    deadline: old(self).timers()[first_idx_of(old(self).timers(), id)].deadline,
                    id: old(self).timers()[first_idx_of(old(self).timers(), id)].id,
                    period: new_period,
                    task: old(self).timers()[first_idx_of(old(self).timers(), id)].task,
                }),
            ),
            final(self).id_counter() == old(self).id_counter(),
            final(self).is_stopped() == old(self).is_stopped(),
            old(self).ids_fresh() ==> final(self).ids_fresh(),
    {
        let found = self.queue.set_period_by_id(id, new_period);
        proof {
            if old(self).ids_fresh() && found {
                let s = old(self).timers();
                let res = self.timers();
                let k = first_idx_of(s, id);
                lemma_first_idx_props(s, id);
                assert forall|i: int| 0 <= i < res.len() implies (#[trigger] res[i]).id
                    == s[i].id by {
                    if i != k {
                        assert(res[i] == s[i]);
                    }
                }
                assert forall|i: int, j: int| 0 <= i < j < res.len() implies res[i].id
                    != res[j].id by {
                    assert(res[i].id == s[i].id);
                    assert(res[j].id == s[j].id);
                }
            }
        }
        found
    }

    /// Stops future recurrences of a pending timer without removing it:
    /// its period becomes zero, so its next fire is its last.  A timer the
    /// worker has already popped to fire is reported not-found.
    pub fn cancel_periodic(&mut self, id: u64) -> (found: bool)
        requires
            old(self).wf(),
        ensures
            final(self).wf(),
            found == has_id(old(self).timers(), id),
            !found ==> final(self).timers() == old(self).timers(),
            found ==> final(self).timers() == old(self).timers().update(
                first_idx_of(old(self).timers(), id),
                (TimerRecord {
                    deadline: old(self).timers()[first_idx_of(old(self).timers(), id)].deadline,
                    id: old(self).timers()[first_idx_of(old(self).timers(), id)].id,
                    period: 0u64,
                    task: old(self).timers()[first_idx_of(old(self).timers(), id)].task,
                }),
            ),
            final(self).id_counter() == old(self).id_counter(),
            final(self).is_stopped() == old(self).is_stopped(),
            old(self).ids_fresh() ==> final(self).ids_fresh(),
    {
        self.set_periodic(id, 0)
    }

    /// Empties the queue without touching the stop flag or the identity
    /// counter.
    pub fn clear(&mut self)
        ensures
            final(self).wf(),
            final(self).ids_fresh(),
            final(self).timers() == Seq::<TimerRecord<T>>::empty(),
            final(self).id_counter() == old(self).id_counter(),
            final(self).is_stopped() == old(self).is_stopped(),
    {
        self.queue.clear();
    }

    /// Number of pending timers.
    pub fn len(&self) -> (n: usize)
        ensures
            n == self.timers().len(),
    {
        self.queue.len()
    }

    /// Reports an idle scheduler: no pending timers, or shut down — once
    /// the stop flag is set no further callback will fire, whatever
    /// remains queued.
    pub fn is_empty(&self) -> (b: bool)
        ensures
            b == (self.is_stopped() || self.timers().len() == 0),
    {
        self.stopped || self.queue.is_empty()
    }

    /// Requests shutdown: sets the stop flag, which the worker observes at
    /// the top of its next iteration and exits promptly without draining
    /// remaining timers.  The host wakes and joins the worker thread.
    pub fn shutdown(&mut self)
        ensures
            final(self).wf() == old(self).wf(),
            final(self).is_stopped(),
            final(self).timers() == old(self).timers(),
            final(self).id_counter() == old(self).id_counter(),
    {
        self.stopped = true;
    }

    /// The earliest pending record, if any; what the host checks before a
    /// `worker_step` call to rule out deadline overflow on reinsertion.
    pub fn peek_earliest(&self) -> (r: Option<TimerRecord<T>>)
        requires
            self.wf(),
        ensures
            match r {
                Option::None => self.timers().len() == 0,
                Option::Some(rec) => self.timers().len() > 0 && rec == self.timers()[0],
            },
    {
        self.queue.peek_earliest()
    }

    /// One worker iteration, taken with the queue lock held: observe the
    /// stop flag and the earliest deadline against the current time, and
    /// either exit, wait (idle or timed), or fire.  A fire removes the
    /// earliest record and, when periodic, reinserts it at
    /// `deadline + period` — anchored to the expired deadline, not to
    /// `now`, so callback latency cannot accumulate as drift.  The
    /// returned task is invoked by the host after it releases its lock.
    pub fn worker_step(&mut self, now: u64) -> (step: WorkerStep<T>)
        requires
            old(self).wf(),
            !old(self).is_stopped() && old(self).timers().len() > 0 && old(self).timers()[0].deadline
                <= now && old(self).timers()[0].period > 0 ==> old(self).timers()[0].deadline + old(
                self,
            ).timers()[0].period <= u64::MAX,
        ensures
            final(self).wf(),
            final(self).id_counter() == old(self).id_counter(),
            final(self).is_stopped() == old(self).is_stopped(),
            old(self).is_stopped() ==> step == WorkerStep::<T>::Stopped && final(self).timers()
                == old(self).timers(),
            !old(self).is_stopped() && old(self).timers().len() == 0 ==> step
                == WorkerStep::<T>::IdleWait && final(self).timers() == old(self).timers(),
            !old(self).is_stopped() && old(self).timers().len() > 0 && old(self).timers()[0].deadline
                > now ==> step == WorkerStep::<T>::TimedWait(
                (old(self).timers()[0].deadline - now) as u64,
            ) && final(self).timers() == old(self).timers(),
            !old(self).is_stopped() && old(self).timers().len() > 0 && old(self).timers()[0].deadline
                <= now ==> step == WorkerStep::<T>::Fire(
                old(self).timers()[0].id,
                old(self).timers()[0].task,
            ) && final(self).timers() == fire_spec(old(self).timers()),
            old(self).ids_fresh() ==> final(self).ids_fresh(),
    {
        if self.stopped {
            return WorkerStep::Stopped;
        }
        let head = match self.queue.peek_earliest() {
            Option::None => { return WorkerStep::IdleWait },
            Option::Some(rec) => rec,
        };
        if head.deadline > now {
            return WorkerStep::TimedWait(head.deadline - now);
        }
        let fired = self.queue.pop_earliest();
        if fired.period > 0 {
            proof {
                lemma_sorted_drop_first(old(self).timers());
            }
            self.queue.insert(
                TimerRecord {
                    deadline: fired.deadline + fired.period,
                    id: fired.id,
                    period: fired.period,
                    task: fired.task,
                },
            );
        }
        proof {
            if old(self).ids_fresh() {
                let s = old(self).timers();
                let d = s.drop_first();
                assert forall|i: int, j: int| 0 <= i < j < d.len() implies d[i].id != d[j].id by {
                    assert(d[i] == s[i + 1]);
                    assert(d[j] == s[j + 1]);
                }
                assert forall|i: int| 0 <= i < d.len() implies (#[trigger] d[i]).id
                    < self.id_counter() by {
                    assert(d[i] == s[i + 1]);
                }
                if fired.period > 0 {
                    let r = TimerRecord {
                        deadline: (s[0].deadline + s[0].period) as u64,
                        id: s[0].id,
                        period: s[0].period,
                        task: s[0].task,
                    };
                    if has_id(d, r.id) {
                        let i = choose|i: int| 0 <= i < d.len() && d[i].id == r.id;
                        assert(d[i] == s[i + 1]);
                        assert(s[0].id != s[i + 1].id);
                    }
                    lemma_insert_spec_distinct(d, r);
                    lemma_insert_spec_membership(d, r);
                    let res = self.timers();
                    assert(res == insert_spec(d, r));
                    assert forall|i: int| 0 <= i < res.len() implies (#[trigger] res[i]).id
                        < self.id_counter() by {
                        if res[i] != r {
                            assert(d.contains(res[i]));
                            let k = choose|k: int| 0 <= k < d.len() && d[k] == res[i];
                            assert(d[k].id < self.id_counter());
                        }
                    }
                }
            }
        }
        WorkerStep::Fire(fired.id, fired.task)
    }
}

} // verus!
