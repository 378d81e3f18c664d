//! The mathematical model of the scheduler: timer records, the ordering
//! invariant of the deadline queue, and the spec-level transitions that the
//! executable operations are proved to implement.

use vstd::prelude::*;

verus! {

/// One pending timer: an absolute wake deadline, the timer's identity,
/// its recurrence period (zero means one-shot), and the unit of work to
/// run when it fires.  Times and periods are in the host's clock ticks.
#[derive(Clone, Copy)]
pub struct TimerRecord<T> {
    /// Absolute instant at which the timer becomes due.
    pub deadline: u64,
    /// Identity, unique for the scheduler's lifetime.
    pub id: u64,
    /// Recurrence period; zero means the timer fires once and is removed.
    pub period: u64,
    /// The unit of work handed back to the host when the timer fires.
    pub task: T,
}

/// The deadline queue holds records in non-decreasing deadline order.
/// Several records may share an exact instant: each is kept and each
/// fires, their relative order being a detail of insertion order.
pub open spec fn sorted_by_deadline<T>(s: Seq<TimerRecord<T>>) -> bool {
    forall|i: int, j: int|
        0 <= i < j < s.len() ==> s[i].deadline <= s[j].deadline
}

/// Some record in `s` carries identity `id`.
pub open spec fn has_id<T>(s: Seq<TimerRecord<T>>, id: u64) -> bool {
    exists|i: int| 0 <= i < s.len() && s[i].id == id
}

/// Some record in `s` is keyed at instant `deadline`.
pub open spec fn has_deadline<T>(s: Seq<TimerRecord<T>>, deadline: u64) -> bool {
    exists|i: int| 0 <= i < s.len() && s[i].deadline == deadline
}

/// No two records in `s` share an identity.
pub open spec fn distinct_ids<T>(s: Seq<TimerRecord<T>>) -> bool {
    forall|i: int, j: int|
        0 <= i < j < s.len() ==> s[i].id != s[j].id
}

/// Index of the first record in `s` with identity `id`; `s.len()` if absent.
pub open spec fn first_idx_of<T>(s: Seq<TimerRecord<T>>, id: u64) -> int
    decreases s.len(),
{
    if s.len() == 0 {
        0
    } else if s[0].id == id {
        0
    } else {
        1 + first_idx_of(s.drop_first(), id)
    }
}

/// Sorted insertion: the record is placed after every record whose
/// deadline is at most its own.  Nothing is ever displaced — a record
/// scheduled at an already-occupied instant joins the records there, and
/// all of them fire.
pub open spec fn insert_spec<T>(s: Seq<TimerRecord<T>>, r: TimerRecord<T>) -> Seq<TimerRecord<T>>
    decreases s.len(),
{
    if s.len() == 0 {
        seq![r]
    } else if r.deadline < s[0].deadline {
        seq![r] + s
    } else {
        seq![s[0]] + insert_spec(s.drop_first(), r)
    }
}

/// Removal of every record with identity `id`, keeping the rest in order.
pub open spec fn remove_id_spec<T>(s: Seq<TimerRecord<T>>, id: u64) -> Seq<TimerRecord<T>>
    decreases s.len(),
{
    if s.len() == 0 {
        s
    } else if s[0].id == id {
        remove_id_spec(s.drop_first(), id)
    } else {
        seq![s[0]] + remove_id_spec(s.drop_first(), id)
    }
}

/// The queue after the earliest record fires: the record is removed; if it
/// is periodic it is reinserted at `deadline + period` — anchored to the
/// expired deadline, never to the observed firing time, so latency cannot
/// accumulate as drift.
pub open spec fn fire_spec<T>(s: Seq<TimerRecord<T>>) -> Seq<TimerRecord<T>>
    recommends
        s.len() > 0,
{
    if s[0].period == 0 {
        s.drop_first()
    } else {
        insert_spec(
            s.drop_first(),
            TimerRecord {
                deadline: (s[0].deadline + s[0].period) as u64,
                id: s[0].id,
                period: s[0].period,
                task: s[0].task,
            },
        )
    }
}

/// The identity counter after one allocation: it wraps at the top of the
/// 64-bit range, as a fetch-and-increment does.
pub open spec fn wrap_inc(n: u64) -> u64 {
    if n == u64::MAX {
        0u64
    } else {
        (n + 1) as u64
    }
}

/// Dropping the first record of a sorted queue leaves a sorted queue.
pub proof fn lemma_sorted_drop_first<T>(s: Seq<TimerRecord<T>>)
    requires
        sorted_by_deadline(s),
        s.len() > 0,
    ensures
        sorted_by_deadline(s.drop_first()),
{
    let d = s.drop_first();
    assert forall|i: int, j: int| 0 <= i < j < d.len() implies d[i].deadline <= d[j].deadline by {
        assert(d[i] == s[i + 1]);
        assert(d[j] == s[j + 1]);
    }
}

/// Insertion always grows the queue by exactly one record.
pub proof fn lemma_insert_spec_len<T>(s: Seq<TimerRecord<T>>, r: TimerRecord<T>)
    ensures
        insert_spec(s, r).len() == s.len() + 1,
    decreases s.len(),
{
    if s.len() == 0 {
    } else if r.deadline < s[0].deadline {
    } else {
        lemma_insert_spec_len(s.drop_first(), r);
    }
}

/// What insertion keeps: the inserted record is present, every record of
/// the result is the inserted one or came from the old queue, and every
/// old record is still present — nothing is displaced.
pub proof fn lemma_insert_spec_membership<T>(s: Seq<TimerRecord<T>>, r: TimerRecord<T>)
    ensures
        insert_spec(s, r).contains(r),
        forall|i: int|
            0 <= i < insert_spec(s, r).len() ==> insert_spec(s, r)[i] == r || s.contains(
                #[trigger] insert_spec(s, r)[i],
            ),
        forall|x: TimerRecord<T>| s.contains(x) ==> insert_spec(s, r).contains(x),
    decreases s.len(),
{
    let res = insert_spec(s, r);
    if s.len() == 0 {
        assert(res[0] == r);
    } else if r.deadline < s[0].deadline {
        assert(res[0] == r);
        assert forall|i: int| 0 <= i < res.len() implies res[i] == r || s.contains(res[i]) by {
            if i > 0 {
                assert(res[i] == s[i - 1]);
            }
        }
        assert forall|x: TimerRecord<T>| s.contains(x) implies res.contains(x) by {
            let i = choose|i: int| 0 <= i < s.len() && s[i] == x;
            assert(res[i + 1] == x);
        }
    } else {
        let d = s.drop_first();
        lemma_insert_spec_membership(d, r);
        let sub = insert_spec(d, r);
        assert(res == seq![s[0]] + sub);
        let k = choose|k: int| 0 <= k < sub.len() && sub[k] == r;
        assert(res[k + 1] == r);
        assert(res.contains(r));
        assert forall|i: int| 0 <= i < res.len() implies res[i] == r || s.contains(res[i]) by {
            if i == 0 {
                assert(res[0] == s[0]);
                assert(s.contains(s[0]));
            } else {
                assert(res[i] == sub[i - 1]);
                if sub[i - 1] != r {
                    let j = choose|j: int| 0 <= j < d.len() && d[j] == sub[i - 1];
                    assert(s[j + 1] == sub[i - 1]);
                    assert(s.contains(s[j + 1]));
                }
            }
        }
        assert forall|x: TimerRecord<T>| s.contains(x) implies res.contains(x) by {
            let i = choose|i: int| 0 <= i < s.len() && s[i] == x;
            if i == 0 {
                assert(res[0] == x);
            } else {
                assert(d[i - 1] == x);
                assert(d.contains(x));
                let j = choose|j: int| 0 <= j < sub.len() && sub[j] == x;
                assert(res[j + 1] == x);
            }
        }
    }
}

/// Insertion preserves the non-decreasing deadline order.
pub proof fn lemma_insert_spec_sorted<T>(s: Seq<TimerRecord<T>>, r: TimerRecord<T>)
    requires
        sorted_by_deadline(s),
    ensures
        sorted_by_deadline(insert_spec(s, r)),
    decreases s.len(),
{
    let res = insert_spec(s, r);
    if s.len() == 0 {
    } else if r.deadline < s[0].deadline {
        assert forall|i: int, j: int| 0 <= i < j < res.len() implies res[i].deadline
            <= res[j].deadline by {
            if i > 0 {
                assert(res[i] == s[i - 1]);
            }
            assert(res[j] == s[j - 1]);
            if i > 0 && j - 1 > i - 1 {
                assert(s[i - 1].deadline <= s[j - 1].deadline);
            }
            if i == 0 && j - 1 > 0 {
                assert(s[0].deadline <= s[j - 1].deadline);
            }
        }
    } else {
        let d = s.drop_first();
        lemma_sorted_drop_first(s);
        lemma_insert_spec_sorted(d, r);
        lemma_insert_spec_membership(d, r);
        let sub = insert_spec(d, r);
        assert forall|i: int, j: int| 0 <= i < j < res.len() implies res[i].deadline
            <= res[j].deadline by {
            assert(res[j] == sub[j - 1]);
            if i == 0 {
                // every record of `sub` is `r` or from `d`; neither lies
                // below s[0]
                assert(sub[j - 1] == r || d.contains(sub[j - 1]));
                if sub[j - 1] != r {
                    let k = choose|k: int| 0 <= k < d.len() && d[k] == sub[j - 1];
                    assert(s[k + 1] == d[k]);
                    assert(s[0].deadline <= s[k + 1].deadline);
                }
            } else {
                assert(res[i] == sub[i - 1]);
            }
        }
    }
}

/// Insertion of a record with a fresh identity keeps identities distinct.
pub proof fn lemma_insert_spec_distinct<T>(s: Seq<TimerRecord<T>>, r: TimerRecord<T>)
    requires
        distinct_ids(s),
        !has_id(s, r.id),
    ensures
        distinct_ids(insert_spec(s, r)),
    decreases s.len(),
{
    let res = insert_spec(s, r);
    assert forall|i: int| 0 <= i < s.len() implies s[i].id != r.id by {
        if s[i].id == r.id {
            assert(has_id(s, r.id));
        }
    }
    if s.len() == 0 {
    } else if r.deadline < s[0].deadline {
        assert forall|i: int, j: int| 0 <= i < j < res.len() implies res[i].id != res[j].id by {
            assert(res[j] == s[j - 1]);
            if i > 0 {
                assert(res[i] == s[i - 1]);
            }
        }
    } else {
        let d = s.drop_first();
        assert forall|i: int, j: int| 0 <= i < j < d.len() implies d[i].id != d[j].id by {
            assert(d[i] == s[i + 1]);
            assert(d[j] == s[j + 1]);
        }
        if has_id(d, r.id) {
            let i = choose|i: int| 0 <= i < d.len() && d[i].id == r.id;
            assert(s[i + 1].id == r.id);
        }
        lemma_insert_spec_distinct(d, r);
        lemma_insert_spec_membership(d, r);
        let sub = insert_spec(d, r);
        assert forall|i: int, j: int| 0 <= i < j < res.len() implies res[i].id != res[j].id by {
            assert(res[j] == sub[j - 1]);
            if i == 0 {
                assert(sub[j - 1] == r || d.contains(sub[j - 1]));
                if sub[j - 1] == r {
                    assert(s[0].id != r.id);
                } else {
                    let k = choose|k: int| 0 <= k < d.len() && d[k] == sub[j - 1];
                    assert(d[k] == s[k + 1]);
                    assert(s[0].id != s[k + 1].id);
                }
            } else {
                assert(res[i] == sub[i - 1]);
            }
        }
    }
}

/// Cancellation by identity removes exactly the matching records: the
/// identity is gone, and a record survives precisely when it carried a
/// different identity.
pub proof fn lemma_remove_id_membership<T>(s: Seq<TimerRecord<T>>, id: u64)
    ensures
        !has_id(remove_id_spec(s, id), id),
        forall|x: TimerRecord<T>| #[trigger]
            remove_id_spec(s, id).contains(x) <==> s.contains(x) && x.id != id,
    decreases s.len(),
{
    let res = remove_id_spec(s, id);
    if s.len() == 0 {
        assert forall|x: TimerRecord<T>| #[trigger]
            res.contains(x) <==> s.contains(x) && x.id != id by {}
    } else {
        let d = s.drop_first();
        lemma_remove_id_membership(d, id);
        let sub = remove_id_spec(d, id);
        assert forall|x: TimerRecord<T>|
            d.contains(x) <==> exists|i: int| 1 <= i < s.len() && s[i] == x by {
            if d.contains(x) {
                let i = choose|i: int| 0 <= i < d.len() && d[i] == x;
                assert(s[i + 1] == x);
            }
            if exists|i: int| 1 <= i < s.len() && s[i] == x {
                let i = choose|i: int| 1 <= i < s.len() && s[i] == x;
                assert(d[i - 1] == x);
            }
        }
        if s[0].id == id {
            assert(res == sub);
            assert forall|x: TimerRecord<T>| #[trigger]
                res.contains(x) <==> s.contains(x) && x.id != id by {
                if res.contains(x) {
                    assert(sub.contains(x));
                    assert(d.contains(x) && x.id != id);
                    let i = choose|i: int| 0 <= i < d.len() && d[i] == x;
                    assert(s[i + 1] == x);
                    assert(s.contains(x));
                }
                if s.contains(x) && x.id != id {
                    let i = choose|i: int| 0 <= i < s.len() && s[i] == x;
                    assert(i != 0);
                    assert(d[i - 1] == x);
                    assert(d.contains(x));
                    assert(sub.contains(x));
                }
            }
        } else {
            assert(res == seq![s[0]] + sub);
            if has_id(res, id) {
                let i = choose|i: int| 0 <= i < res.len() && res[i].id == id;
                assert(i != 0);
                assert(res[i] == sub[i - 1]);
                assert(sub.contains(sub[i - 1]));
            }
            assert forall|x: TimerRecord<T>| #[trigger]
                res.contains(x) <==> s.contains(x) && x.id != id by {
                if res.contains(x) {
                    let i = choose|i: int| 0 <= i < res.len() && res[i] == x;
                    if i == 0 {
                        assert(s[0] == x);
                        assert(s.contains(x));
                    } else {
                        assert(res[i] == sub[i - 1]);
                        assert(sub.contains(x));
                    }
                }
                if s.contains(x) && x.id != id {
                    let i = choose|i: int| 0 <= i < s.len() && s[i] == x;
                    if i == 0 {
                        assert(res[0] == x);
                    } else {
                        assert(d[i - 1] == x);
                        assert(d.contains(x));
                        assert(sub.contains(x));
                        let j = choose|j: int| 0 <= j < sub.len() && sub[j] == x;
                        assert(res[j + 1] == x);
                    }
                }
            }
        }
    }
}

/// Cancellation by identity keeps the remaining identities distinct.
pub proof fn lemma_remove_id_distinct<T>(s: Seq<TimerRecord<T>>, id: u64)
    requires
        distinct_ids(s),
    ensures
        distinct_ids(remove_id_spec(s, id)),
    decreases s.len(),
{
    let res = remove_id_spec(s, id);
    if s.len() == 0 {
    } else {
        let d = s.drop_first();
        assert forall|i: int, j: int| 0 <= i < j < d.len() implies d[i].id != d[j].id by {
            assert(d[i] == s[i + 1]);
            assert(d[j] == s[j + 1]);
        }
        lemma_remove_id_distinct(d, id);
        lemma_remove_id_membership(d, id);
        let sub = remove_id_spec(d, id);
        if s[0].id == id {
        } else {
            assert forall|i: int, j: int| 0 <= i < j < res.len() implies res[i].id != res[j].id by {
                assert(res[j] == sub[j - 1]);
                if i == 0 {
                    assert(sub.contains(sub[j - 1]));
                    assert(d.contains(sub[j - 1]));
                    let k = choose|k: int| 0 <= k < d.len() && d[k] == sub[j - 1];
                    assert(d[k] == s[k + 1]);
                    assert(s[0].id != s[k + 1].id);
                } else {
                    assert(res[i] == sub[i - 1]);
                }
            }
        }
    }
}

/// Cancellation by an identity nobody carries leaves the queue unchanged.
pub proof fn lemma_remove_id_absent<T>(s: Seq<TimerRecord<T>>, id: u64)
    requires
        !has_id(s, id),
    ensures
        remove_id_spec(s, id) == s,
    decreases s.len(),
{
    if s.len() == 0 {
        assert(remove_id_spec(s, id) =~= s);
    } else {
        let d = s.drop_first();
        assert(s[0].id != id);
        if has_id(d, id) {
            let i = choose|i: int| 0 <= i < d.len() && d[i].id == id;
            assert(s[i + 1].id == id);
        }
        lemma_remove_id_absent(d, id);
        assert(remove_id_spec(s, id) =~= s);
    }
}

/// Inserting a record whose identity is the counter's next value keeps
/// identities distinct and below the advanced counter.
pub proof fn lemma_insert_fresh_id<T>(s: Seq<TimerRecord<T>>, r: TimerRecord<T>, counter: u64)
    requires
        distinct_ids(s),
        forall|i: int| 0 <= i < s.len() ==> (#[trigger] s[i]).id < counter,
        r.id == counter,
        counter < u64::MAX,
    ensures
        distinct_ids(insert_spec(s, r)),
        forall|i: int|
            0 <= i < insert_spec(s, r).len() ==> (#[trigger] insert_spec(s, r)[i]).id < counter
                + 1,
{
    if has_id(s, r.id) {
        let i = choose|i: int| 0 <= i < s.len() && s[i].id == r.id;
        assert(s[i].id < counter);
    }
    lemma_insert_spec_distinct(s, r);
    lemma_insert_spec_membership(s, r);
    let res = insert_spec(s, r);
    assert forall|i: int| 0 <= i < res.len() implies (#[trigger] res[i]).id < counter + 1 by {
        if res[i] != r {
            assert(s.contains(res[i]));
            let k = choose|k: int| 0 <= k < s.len() && s[k] == res[i];
            assert(s[k].id < counter);
        }
    }
}

/// The scan position a sorted insertion lands on determines `insert_spec`
/// concretely: the record is inserted after every record whose deadline is
/// at most its own.
pub proof fn lemma_insert_spec_at<T>(s: Seq<TimerRecord<T>>, r: TimerRecord<T>, i: int)
    requires
        sorted_by_deadline(s),
        0 <= i <= s.len(),
        forall|j: int| 0 <= j < i ==> s[j].deadline <= r.deadline,
        i < s.len() ==> s[i].deadline > r.deadline,
    ensures
        insert_spec(s, r) == s.insert(i, r),
    decreases s.len(),
{
    if i == 0 {
        if s.len() == 0 {
            assert(insert_spec(s, r) =~= s.insert(0, r));
        } else {
            assert(r.deadline < s[0].deadline);
            assert(insert_spec(s, r) =~= s.insert(0, r));
        }
    } else {
        assert(s[0].deadline <= r.deadline);
        let d = s.drop_first();
        lemma_sorted_drop_first(s);
        assert forall|j: int| 0 <= j < i - 1 implies d[j].deadline <= r.deadline by {
            assert(d[j] == s[j + 1]);
        }
        if i - 1 < d.len() {
            assert(d[i - 1] == s[i]);
        }
        lemma_insert_spec_at(d, r, i - 1);
        assert(insert_spec(s, r) == seq![s[0]] + insert_spec(d, r));
        assert(insert_spec(d, r) == d.insert(i - 1, r));
        d.insert_ensures(i - 1, r);
        s.insert_ensures(i, r);
        assert(seq![s[0]] + d.insert(i - 1, r) =~= s.insert(i, r));
    }
}

/// Removing one record keeps the strict deadline order.
pub proof fn lemma_sorted_remove<T>(s: Seq<TimerRecord<T>>, i: int)
    requires
        sorted_by_deadline(s),
        0 <= i < s.len(),
    ensures
        sorted_by_deadline(s.remove(i)),
{
    s.remove_ensures(i);
    let res = s.remove(i);
    assert forall|a: int, b: int| 0 <= a < b < res.len() implies res[a].deadline
        <= res[b].deadline by {
        if a < i {
            assert(res[a] == s[a]);
        } else {
            assert(res[a] == s[a + 1]);
        }
        if b < i {
            assert(res[b] == s[b]);
        } else {
            assert(res[b] == s[b + 1]);
        }
    }
}

/// When the identity is present, `first_idx_of` names its first holder.
pub proof fn lemma_first_idx_props<T>(s: Seq<TimerRecord<T>>, id: u64)
    requires
        has_id(s, id),
    ensures
        0 <= first_idx_of(s, id) < s.len(),
        s[first_idx_of(s, id)].id == id,
        forall|j: int| 0 <= j < first_idx_of(s, id) ==> s[j].id != id,
    decreases s.len(),
{
    if s[0].id == id {
    } else {
        let d = s.drop_first();
        let i = choose|i: int| 0 <= i < s.len() && s[i].id == id;
        assert(i != 0);
        assert(d[i - 1].id == id);
        assert(has_id(d, id));
        lemma_first_idx_props(d, id);
        let k = first_idx_of(d, id);
        assert(s[k + 1] == d[k]);
        assert forall|j: int| 0 <= j < k + 1 implies s[j].id != id by {
            if j > 0 {
                assert(d[j - 1] == s[j]);
            }
        }
    }
}

/// A scan that stops at the first match computes `first_idx_of`.
pub proof fn lemma_first_idx_determined<T>(s: Seq<TimerRecord<T>>, id: u64, k: int)
    requires
        0 <= k < s.len(),
        s[k].id == id,
        forall|j: int| 0 <= j < k ==> s[j].id != id,
    ensures
        first_idx_of(s, id) == k,
    decreases s.len(),
{
    if k == 0 {
    } else {
        let d = s.drop_first();
        assert(d[k - 1] == s[k]);
        assert forall|j: int| 0 <= j < k - 1 implies d[j].id != id by {
            assert(d[j] == s[j + 1]);
        }
        lemma_first_idx_determined(d, id, k - 1);
    }
}

} // verus!
