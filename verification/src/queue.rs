//! The deadline queue: timer records kept in non-decreasing deadline
//! order.  Several records may share an exact instant: each is kept and
//! each fires, their relative order among themselves being a detail of
//! insertion order.

use vstd::prelude::*;

use crate::model::TimerRecord;
use crate::model::sorted_by_deadline;
use crate::model::has_id;
use crate::model::has_deadline;
use crate::model::first_idx_of;
use crate::model::insert_spec;
use crate::model::remove_id_spec;
use crate::model::lemma_sorted_drop_first;
use crate::model::lemma_sorted_remove;
use crate::model::lemma_insert_spec_at;
use crate::model::lemma_first_idx_determined;

verus! {

/// Records in non-decreasing deadline order.
pub struct DeadlineQueue<T> {
    entries: Vec<TimerRecord<T>>,
}

impl<T> View for DeadlineQueue<T> {
    type V = Seq<TimerRecord<T>>;

    closed spec fn view(&self) -> Seq<TimerRecord<T>> {
        self.entries@
    }
}

impl<T: Copy> DeadlineQueue<T> {
    /// The queue's invariant: deadlines in non-decreasing order.
    pub open spec fn wf(&self) -> bool {
        sorted_by_deadline(self@)
    }

    /// An empty queue.
    pub fn new() -> (q: Self)
        ensures
            q@ == Seq::<TimerRecord<T>>::empty(),
            q.wf(),
    {
        DeadlineQueue { entries: Vec::new() }
    }

    /// Number of pending records.
    pub fn len(&self) -> (n: usize)
        ensures
            n == self@.len(),
    {
        self.entries.len()
    }

    /// Whether no record is pending.
    pub fn is_empty(&self) -> (b: bool)
        ensures
            b == (self@.len() == 0),
    {
        self.entries.is_empty()
    }

    /// Adds a record at its sorted position, after every record whose
    /// deadline is at most its own.  Records already keyed at the same
    /// instant stay: each of them still fires.
    pub fn insert(&mut self, r: TimerRecord<T>)
        requires
            old(self).wf(),
        ensures
            final(self).wf(),
            final(self)@ == insert_spec(old(self)@, r),
    {
        let mut i: usize = 0;
        while i < self.entries.len() && self.entries[i].deadline <= r.deadline
            invariant
                i <= self.entries@.len(),
                self.entries@ == old(self)@,
                forall|j: int| 0 <= j < i ==> self.entries@[j].deadline <= r.deadline,
            decreases self.entries@.len() - i,
        {
            i += 1;
        }
        proof {
            lemma_insert_spec_at(old(self)@, r, i as int);
            crate::model::lemma_insert_spec_sorted(old(self)@, r);
        }
        self.entries.insert(i, r);
    }

    /// The minimum-deadline record, without removing it; `None` when the
    /// queue is empty.
    pub fn peek_earliest(&self) -> (r: Option<TimerRecord<T>>)
        requires
            self.wf(),
        ensures
            match r {
                Option::None => self@.len() == 0,
                Option::Some(rec) => self@.len() > 0 && rec == self@[0],
            },
    {
        if self.entries.len() == 0 {
            Option::None
        } else {
            Option::Some(self.entries[0])
        }
    }

    /// Removes and returns the minimum-deadline record.
    pub fn pop_earliest(&mut self) -> (r: TimerRecord<T>)
        requires
            old(self).wf(),
            old(self)@.len() > 0,
        ensures
            final(self).wf(),
            r == old(self)@[0],
            final(self)@ == old(self)@.drop_first(),
    {
        proof {
            lemma_sorted_drop_first(old(self)@);
        }
        let r = self.entries.remove(0);
        proof {
            assert(self.entries@ =~= old(self)@.drop_first());
        }
        r
    }

    /// Deletes the first record keyed at exactly the given instant;
    /// reports whether one was there.
    pub fn remove(&mut self, deadline: u64) -> (found: bool)
        requires
            old(self).wf(),
        ensures
            final(self).wf(),
            found == has_deadline(old(self)@, deadline),
            !found ==> final(self)@ == old(self)@,
            found ==> exists|i: int|
                0 <= i < old(self)@.len() && old(self)@[i].deadline == deadline && final(self)@
                    == old(self)@.remove(i),
    {
        let mut i: usize = 0;
        while i < self.entries.len()
            invariant
                i <= self.entries@.len(),
                self.entries@ == old(self)@,
                old(self).wf(),
                forall|j: int| 0 <= j < i ==> self.entries@[j].deadline != deadline,
            decreases self.entries@.len() - i,
        {
            if self.entries[i].deadline == deadline {
                proof {
                    lemma_sorted_remove(old(self)@, i as int);
                }
                self.entries.remove(i);
                return true;
            }
            i += 1;
        }
        proof {
            if has_deadline(old(self)@, deadline) {
                let k = choose|k: int|
                    0 <= k < old(self)@.len() && old(self)@[k].deadline == deadline;
                assert(old(self)@[k].deadline != deadline);
            }
        }
        false
    }

    /// Linear scan for the first record with the given identity; returns
    /// its position.
    pub fn find_by_id(&self, id: u64) -> (r: Option<usize>)
        ensures
            match r {
                Option::None => !has_id(self@, id),
                Option::Some(i) => has_id(self@, id) && i == first_idx_of(self@, id),
            },
    {
        let mut i: usize = 0;
        while i < self.entries.len()
            invariant
                i <= self.entries@.len(),
                forall|j: int| 0 <= j < i ==> self.entries@[j].id != id,
            decreases self.entries@.len() - i,
        {
            if self.entries[i].id == id {
                proof {
                    lemma_first_idx_determined(self@, id, i as int);
                }
                return Option::Some(i);
            }
            i += 1;
        }
        proof {
            if has_id(self@, id) {
                let k = choose|k: int| 0 <= k < self@.len() && self@[k].id == id;
                assert(self@[k].id != id);
            }
        }
        Option::None
    }

    /// Removes every record with the given identity, keeping the rest in
    /// order; reports whether any was there.
    pub fn remove_by_id(&mut self, id: u64) -> (found: bool)
        requires
            old(self).wf(),
        ensures
            final(self).wf(),
            final(self)@ == remove_id_spec(old(self)@, id),
            found == has_id(old(self)@, id),
    {
        let ghost orig = self.entries@;
        let mut i: usize = 0;
        let mut found = false;
        proof {
            assert(orig.skip(0) =~= orig);
            assert(orig.take(0) + remove_id_spec(orig, id) =~= remove_id_spec(orig, id));
        }
        while i < self.entries.len()
            invariant
                i <= self.entries@.len(),
                sorted_by_deadline(self.entries@),
                remove_id_spec(orig, id) == self.entries@.take(i as int) + remove_id_spec(
                    self.entries@.skip(i as int),
                    id,
                ),
                forall|j: int| 0 <= j < i ==> self.entries@[j].id != id,
                has_id(orig, id) == (found || has_id(self.entries@.skip(i as int), id)),
            decreases self.entries@.len() - i,
        {
            let ghost pre = self.entries@;
            if self.entries[i].id == id {
                proof {
                    lemma_sorted_remove(pre, i as int);
                    assert(pre.skip(i as int)[0] == pre[i as int]);
                    assert(has_id(pre.skip(i as int), id));
                }
                self.entries.remove(i);
                found = true;
                proof {
                    let cur = self.entries@;
                    pre.remove_ensures(i as int);
                    assert(cur.take(i as int) =~= pre.take(i as int));
                    assert(cur.skip(i as int) =~= pre.skip(i as int).drop_first());
                    assert(remove_id_spec(pre.skip(i as int), id) == remove_id_spec(
                        cur.skip(i as int),
                        id,
                    ));
                }
            } else {
                i += 1;
                proof {
                    let cur = self.entries@;
                    let rest = remove_id_spec(cur.skip(i as int), id);
                    assert(cur.skip(i - 1)[0] == cur[i - 1]);
                    assert(cur.skip(i - 1).drop_first() =~= cur.skip(i as int));
                    assert(remove_id_spec(cur.skip(i - 1), id) == seq![cur[i - 1]] + rest);
                    assert(cur.take(i - 1) + (seq![cur[i - 1]] + rest) =~= cur.take(i as int)
                        + rest);
                    let prev = cur.skip(i - 1);
                    let next = cur.skip(i as int);
                    if has_id(prev, id) {
                        let k = choose|k: int| 0 <= k < prev.len() && prev[k].id == id;
                        assert(k != 0);
                        assert(next[k - 1] == prev[k]);
                        assert(has_id(next, id));
                    }
                    if has_id(next, id) {
                        let k = choose|k: int| 0 <= k < next.len() && next[k].id == id;
                        assert(prev[k + 1] == next[k]);
                        assert(has_id(prev, id));
                    }
                }
            }
        }
        proof {
            let cur = self.entries@;
            assert(cur.take(cur.len() as int) =~= cur);
            assert(cur.skip(cur.len() as int) =~= Seq::<TimerRecord<T>>::empty());
            assert(!has_id(Seq::<TimerRecord<T>>::empty(), id));
            assert(cur + remove_id_spec(Seq::<TimerRecord<T>>::empty(), id) =~= cur);
        }
        found
    }

    /// Mutates the recurrence period of the first record with the given
    /// identity; reports whether one was there.
    pub fn set_period_by_id(&mut self, id: u64, new_period: u64) -> (found: bool)
        requires
            old(self).wf(),
        ensures
            final(self).wf(),
            found == has_id(old(self)@, id),
            !found ==> final(self)@ == old(self)@,
            found ==> final(self)@ == old(self)@.update(
                first_idx_of(old(self)@, id),
                (TimerRecord {
                    deadline: old(self)@[first_idx_of(old(self)@, id)].deadline,
                    id: old(self)@[first_idx_of(old(self)@, id)].id,
                    period: new_period,
                    task: old(self)@[first_idx_of(old(self)@, id)].task,
                }),
            ),
    {
        let mut i: usize = 0;
        while i < self.entries.len()
            invariant
                i <= self.entries@.len(),
                self.entries@ == old(self)@,
                old(self).wf(),
                forall|j: int| 0 <= j < i ==> self.entries@[j].id != id,
            decreases self.entries@.len() - i,
        {
            if self.entries[i].id == id {
                proof {
                    lemma_first_idx_determined(self@, id, i as int);
                }
                let r = self.entries[i];
                self.entries.set(
                    i,
                    TimerRecord { deadline: r.deadline, id: r.id, period: new_period, task: r.task },
                );
                proof {
                    let upd = self.entries@;
                    assert forall|a: int, b: int| 0 <= a < b < upd.len() implies upd[a].deadline
                        <= upd[b].deadline by {
                        assert(old(self)@[a].deadline <= old(self)@[b].deadline);
                    }
                }
                return true;
            }
            i += 1;
        }
        proof {
            if has_id(old(self)@, id) {
                let k = choose|k: int| 0 <= k < old(self)@.len() && old(self)@[k].id == id;
                assert(old(self)@[k].id != id);
            }
        }
        false
    }

    /// Empties the queue.
    pub fn clear(&mut self)
        ensures
            final(self).wf(),
            final(self)@ == Seq::<TimerRecord<T>>::empty(),
    {
        self.entries.clear();
    }
}

} // verus!
