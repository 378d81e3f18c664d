//! The library's guarantees that relate several operations, stated over
//! the same spec functions the operations' contracts use and proved once
//! for every queue state.

use vstd::prelude::*;

use crate::model::TimerRecord;
use crate::model::sorted_by_deadline;
use crate::model::has_id;
use crate::model::distinct_ids;
use crate::model::insert_spec;
use crate::model::remove_id_spec;
use crate::model::fire_spec;
use crate::model::lemma_insert_spec_len;
use crate::model::lemma_insert_spec_membership;
use crate::model::lemma_insert_spec_distinct;
use crate::model::lemma_remove_id_membership;

verus! {

/// Scheduling keeps an exact pending count: every insertion grows the
/// queue by exactly one record and removes nothing — also at an instant
/// already occupied by other timers, which all stay pending.  With `len`'s
/// contract, `len()` therefore always equals the number of
/// currently-pending timers.
pub proof fn lemma_insert_pending_count<T>(s: Seq<TimerRecord<T>>, r: TimerRecord<T>)
    ensures
        insert_spec(s, r).len() == s.len() + 1,
        insert_spec(s, r).contains(r),
        forall|x: TimerRecord<T>| s.contains(x) ==> insert_spec(s, r).contains(x),
{
    lemma_insert_spec_len(s, r);
    lemma_insert_spec_membership(s, r);
}

/// While any pending record is due — several at one shared instant among
/// them — the earliest record is due as well, so the next worker step
/// fires rather than waits.  Each fire removes one due record, so every
/// record at a shared instant is fired by the steps that follow; their
/// relative order among themselves is not specified, only that each
/// fires.
pub proof fn lemma_due_records_keep_firing<T>(s: Seq<TimerRecord<T>>, now: u64)
    requires
        sorted_by_deadline(s),
    ensures
        forall|i: int|
            0 <= i < s.len() && #[trigger] s[i].deadline <= now ==> s[0].deadline <= now,
{
    assert forall|i: int| 0 <= i < s.len() && #[trigger] s[i].deadline <= now implies s[0].deadline
        <= now by {
        assert(s[0].deadline <= s[i].deadline);
    }
}

/// A one-shot timer fires at most once: when the earliest record has a
/// zero period, firing removes it and nothing reinserts it, so with
/// distinct identities the fired identity is absent from the queue
/// immediately after the fire.
pub proof fn lemma_one_shot_fire_removes<T>(s: Seq<TimerRecord<T>>)
    requires
        distinct_ids(s),
        s.len() > 0,
        s[0].period == 0,
    ensures
        fire_spec(s) == s.drop_first(),
        !has_id(fire_spec(s), s[0].id),
{
    let d = s.drop_first();
    if has_id(d, s[0].id) {
        let i = choose|i: int| 0 <= i < d.len() && d[i].id == s[0].id;
        assert(d[i] == s[i + 1]);
        assert(s[0].id != s[i + 1].id);
    }
}

/// A periodic fire is anchored to the expired deadline: the record is
/// reinserted exactly one period past the deadline that fired, whatever
/// the time the worker observed — so scheduling latency never accumulates
/// as drift, and consecutive deadlines of one timer are exactly one
/// period apart.  Identities stay distinct, and every record carrying the
/// fired identity after the fire sits at `deadline + period`.
pub proof fn lemma_periodic_fire_anchored<T>(s: Seq<TimerRecord<T>>)
    requires
        sorted_by_deadline(s),
        distinct_ids(s),
        s.len() > 0,
        s[0].period > 0,
        s[0].deadline + s[0].period <= u64::MAX,
    ensures
        has_id(fire_spec(s), s[0].id),
        forall|i: int|
            0 <= i < fire_spec(s).len() && #[trigger] fire_spec(s)[i].id == s[0].id ==> fire_spec(
                s,
            )[i].deadline == s[0].deadline + s[0].period && fire_spec(s)[i].period == s[0].period,
        distinct_ids(fire_spec(s)),
{
    let d = s.drop_first();
    let r = TimerRecord {
        deadline: (s[0].deadline + s[0].period) as u64,
        id: s[0].id,
        period: s[0].period,
        task: s[0].task,
    };
    let res = fire_spec(s);
    assert(res == insert_spec(d, r));
    assert forall|i: int, j: int| 0 <= i < j < d.len() implies d[i].id != d[j].id by {
        assert(d[i] == s[i + 1]);
        assert(d[j] == s[j + 1]);
    }
    if has_id(d, r.id) {
        let i = choose|i: int| 0 <= i < d.len() && d[i].id == r.id;
        assert(d[i] == s[i + 1]);
        assert(s[0].id != s[i + 1].id);
    }
    lemma_insert_spec_membership(d, r);
    lemma_insert_spec_distinct(d, r);
    let k = choose|k: int| 0 <= k < res.len() && res[k] == r;
    assert(res[k].id == s[0].id);
    assert(has_id(res, s[0].id));
    assert forall|i: int|
        0 <= i < res.len() && #[trigger] res[i].id == s[0].id implies res[i].deadline == s[0].deadline
        + s[0].period && res[i].period == s[0].period by {
        if res[i] != r {
            assert(d.contains(res[i]));
            let j = choose|j: int| 0 <= j < d.len() && d[j] == res[i];
            assert(d[j] == s[j + 1]);
            assert(s[0].id != s[j + 1].id);
        }
    }
}

/// Cancellation removes exactly the matching timers: afterwards the
/// identity is absent, and a record is still pending precisely when it
/// carried a different identity — no other pending timer is affected.
pub proof fn lemma_cancel_removes_exactly_matching<T>(s: Seq<TimerRecord<T>>, id: u64)
    ensures
        !has_id(remove_id_spec(s, id), id),
        forall|x: TimerRecord<T>| #[trigger]
            remove_id_spec(s, id).contains(x) <==> s.contains(x) && x.id != id,
{
    lemma_remove_id_membership(s, id);
}

} // verus!
