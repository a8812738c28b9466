//! Stated and proved properties of the scheduling policy.
//!
//! Each public proof function here records one guarantee of the queue in
//! terms of the same abstract state that the executable operations are
//! specified against.

use vstd::prelude::*;
use crate::changes::{apply_events, ChangeView, ReleaseView};
use crate::index_ref::{canonical_of, canon_seq, valid_hex, zero_pad, IndexReference};
use crate::queue::{
    filter_deprioritized, filter_failed, filter_pending, filter_prioritized, key_matches,
    order_le, CrateView, QueueView,
};

verus! {

/// How one in-place replacement moves the four counts.
proof fn lemma_counts_after_update(jobs: Seq<CrateView>, max: int, i: int, nj: CrateView)
    requires
        0 <= i < jobs.len(),
    ensures
        filter_pending(jobs.update(i, nj), max).len() == filter_pending(jobs, max).len() - (
        if jobs[i].attempt < max {
            1int
        } else {
            0int
        }) + (if nj.attempt < max {
            1int
        } else {
            0int
        }),
        filter_failed(jobs.update(i, nj), max).len() == filter_failed(jobs, max).len() - (
        if jobs[i].attempt >= max {
            1int
        } else {
            0int
        }) + (if nj.attempt >= max {
            1int
        } else {
            0int
        }),
    decreases jobs.len(),
{
    let u = jobs.update(i, nj);
    if i == jobs.len() - 1 {
        assert(u.drop_last() =~= jobs.drop_last());
        assert(u.last() == nj);
    } else {
        assert(u.drop_last() =~= jobs.drop_last().update(i, nj));
        assert(u.last() == jobs.last());
        lemma_counts_after_update(jobs.drop_last(), max, i, nj);
    }
}

/// How deleting one row moves the two counts.
proof fn lemma_counts_after_remove(jobs: Seq<CrateView>, max: int, i: int)
    requires
        0 <= i < jobs.len(),
    ensures
        filter_pending(jobs.remove(i), max).len() == filter_pending(jobs, max).len() - (
        if jobs[i].attempt < max {
            1int
        } else {
            0int
        }),
        filter_failed(jobs.remove(i), max).len() == filter_failed(jobs, max).len() - (
        if jobs[i].attempt >= max {
            1int
        } else {
            0int
        }),
    decreases jobs.len(),
{
    let u = jobs.remove(i);
    if i == jobs.len() - 1 {
        assert(u =~= jobs.drop_last());
    } else {
        assert(u.drop_last() =~= jobs.drop_last().remove(i));
        assert(u.last() == jobs.last());
        lemma_counts_after_remove(jobs.drop_last(), max, i);
    }
}

/// The pending jobs split exactly into the prioritized and the
/// deprioritized, and every job is either pending or retired.
proof fn lemma_filter_partition(jobs: Seq<CrateView>, max: int)
    ensures
        filter_pending(jobs, max).len() == filter_prioritized(jobs, max).len()
            + filter_deprioritized(jobs, max).len(),
        filter_pending(jobs, max).len() + filter_failed(jobs, max).len() == jobs.len(),
    decreases jobs.len(),
{
    if jobs.len() > 0 {
        lemma_filter_partition(jobs.drop_last(), max);
    }
}

/// `PendingCount` equals `PrioritizedCount` plus the pending jobs with
/// priority above zero, and the retired jobs are exactly the rest of the
/// table: the failed and the pending never overlap.
pub proof fn lemma_pending_partition(v: QueueView)
    ensures
        v.pending_count() == v.prioritized_count() + v.deprioritized_count(),
        v.pending_count() + v.failed_count() == v.jobs.len(),
{
    lemma_filter_partition(v.jobs, v.max_attempts);
}

/// Re-submitting a release twice leaves exactly one job for it, holding
/// the priority and registry of the last submission and an attempt count
/// of zero, whatever the earlier row had accumulated.
pub proof fn lemma_upsert_last_wins(
    v: QueueView,
    name: Seq<char>,
    version: Seq<char>,
    p1: int,
    p2: int,
    r1: Option<Seq<char>>,
    r2: Option<Seq<char>>,
)
    requires
        v.wf(),
        v.next_id + 2 <= u64::MAX,
    ensures
        ({
            let v1 = v.upsert(name, version, p1, r1);
            let w = v1.upsert(name, version, p2, r2);
            &&& w.wf()
            &&& w.jobs.len() == v1.jobs.len()
            &&& w.has_key(name, version)
            &&& ({
                let j = w.key_index(name, version);
                &&& 0 <= j < w.jobs.len()
                &&& key_matches(w.jobs[j], name, version)
                &&& w.jobs[j].priority == p2
                &&& w.jobs[j].attempt == 0
                &&& w.jobs[j].registry == r2
                &&& forall|i: int|
                    0 <= i < w.jobs.len() && i != j ==> !key_matches(
                        #[trigger] w.jobs[i],
                        name,
                        version,
                    )
            })
        }),
{
    crate::queue::lemma_upsert_wf(v, name, version, p1, r1);
    let v1 = v.upsert(name, version, p1, r1);
    if v.has_key(name, version) {
        let ki = v.key_index(name, version);
        assert(key_matches(v1.jobs[ki], name, version));
    } else {
        assert(key_matches(v1.jobs[v1.jobs.len() - 1], name, version));
    }
    assert(v1.has_key(name, version));
    crate::queue::lemma_upsert_wf(v1, name, version, p2, r2);
    let w = v1.upsert(name, version, p2, r2);
    let ki1 = v1.key_index(name, version);
    assert(0 <= ki1 < v1.jobs.len() && key_matches(v1.jobs[ki1], name, version));
    assert(key_matches(w.jobs[ki1], name, version));
    assert(w.has_key(name, version));
    let j = w.key_index(name, version);
    assert(0 <= j < w.jobs.len() && key_matches(w.jobs[j], name, version));
    assert(j == ki1);
}

/// All pending jobs carry pairwise distinct priorities.
pub open spec fn distinct_pending_priorities(v: QueueView) -> bool {
    forall|a: int, b: int|
        #![trigger v.pending_at(a), v.pending_at(b)]
        v.pending_at(a) && v.pending_at(b) && a != b ==> v.jobs[a].priority != v.jobs[b].priority
}

/// With distinct priorities, the selected job's priority lies strictly
/// below every other pending job's: successive selections walk the
/// priorities in strictly ascending order.
pub proof fn lemma_distinct_priorities_ascend(v: QueueView, i: int, k: int)
    requires
        v.wf(),
        distinct_pending_priorities(v),
        v.min_pending_at(i),
        v.pending_at(k),
        k != i,
    ensures
        v.jobs[i].priority < v.jobs[k].priority,
{
    assert(order_le(v.jobs[i], v.jobs[k]));
    assert(v.jobs[i].priority != v.jobs[k].priority);
}

/// With distinct priorities, after the selected job succeeds, whatever is
/// selected next has a strictly greater priority.
pub proof fn lemma_successive_builds_ascend(v: QueueView, i: int, i2: int)
    requires
        v.wf(),
        distinct_pending_priorities(v),
        v.min_pending_at(i),
        v.after_success(i).min_pending_at(i2),
    ensures
        v.after_success(i).jobs[i2].priority > v.jobs[i].priority,
{
    let w = v.after_success(i);
    let k0 = if i2 < i {
        i2
    } else {
        i2 + 1
    };
    assert(w.jobs[i2] == v.jobs[k0]);
    assert(v.pending_at(k0));
    lemma_distinct_priorities_ascend(v, i, k0);
}

/// A job is handed out only while no other pending job of equal or lower
/// priority has been tried fewer times: a failed job waits for its whole
/// tier to catch up before it is retried.
pub proof fn lemma_retry_fairness(v: QueueView, i: int, k: int)
    requires
        v.wf(),
        v.min_pending_at(i),
        v.pending_at(k),
        k != i,
    ensures
        v.jobs[k].priority > v.jobs[i].priority || (v.jobs[k].priority == v.jobs[i].priority
            && v.jobs[k].attempt >= v.jobs[i].attempt),
{
    assert(order_le(v.jobs[i], v.jobs[k]));
    assert(v.jobs[i].id != v.jobs[k].id);
}

/// How one failed attempt moves the books: the job leaves the pending set
/// exactly when the failure exhausts its budget, and then, and only then,
/// it moves into the failed count.
pub proof fn lemma_failure_counts(v: QueueView, i: int)
    requires
        v.wf(),
        v.pending_at(i),
    ensures
        ({
            let w = v.after_failure(i);
            let exhausted = v.jobs[i].attempt + 1 >= v.max_attempts;
            &&& w.pending_count() == if exhausted {
                v.pending_count() - 1
            } else {
                v.pending_count()
            }
            &&& w.failed_count() == if exhausted {
                v.failed_count() + 1
            } else {
                v.failed_count()
            }
            &&& w.pending_at(i) <==> !exhausted
        }),
{
    let nj = CrateView { attempt: v.jobs[i].attempt + 1, ..v.jobs[i] };
    lemma_counts_after_update(v.jobs, v.max_attempts, i, nj);
}

/// How one successful build moves the books: the job leaves the pending
/// set and the failed count stands still.
pub proof fn lemma_success_counts(v: QueueView, i: int)
    requires
        v.wf(),
        v.pending_at(i),
    ensures
        v.after_success(i).pending_count() == v.pending_count() - 1,
        v.after_success(i).failed_count() == v.failed_count(),
{
    lemma_counts_after_remove(v.jobs, v.max_attempts, i);
}

/// The pause switch round-trips exactly: locking reads back locked,
/// unlocking reads back unlocked, and a flag never written reads as
/// unlocked.
pub proof fn lemma_pause_roundtrip(v: QueueView)
    ensures
        v.with_locked(true).is_locked_spec(),
        !v.with_locked(false).is_locked_spec(),
        v.locked is None ==> !v.is_locked_spec(),
{
}

/// The two configuration rows never contaminate each other: writing the
/// cursor leaves the pause flag as it reads, and writing the pause flag
/// leaves the cursor as it is.
pub proof fn lemma_config_rows_independent(v: QueueView, s: Seq<char>, b: bool)
    ensures
        v.with_last_seen(s).is_locked_spec() == v.is_locked_spec(),
        v.with_locked(b).last_seen == v.last_seen,
{
}

/// The cursor round-trips exactly: a canonical reference written into the
/// configuration is a valid spelling whose canonical form is itself, so
/// reading the cursor back parses it to the same value.
pub proof fn lemma_cursor_roundtrip(v: QueueView, r: IndexReference)
    requires
        r.wf(),
    ensures
        v.with_last_seen(r@).last_seen == Some(r@),
        valid_hex(r@),
        canonical_of(r@) == r@,
{
    assert forall|i: int|
        0 <= i < r@.len() implies crate::index_ref::nibble_of(#[trigger] r@[i]) >= 0 by {}
    assert(valid_hex(r@));
    assert(zero_pad(0) =~= Seq::<char>::empty());
    assert(canon_seq(r@) =~= r@);
    assert(canonical_of(r@) =~= r@);
}

/// Reversing a batch of three `Added` events for the same package at
/// increasing versions, applied to an empty queue at one shared priority,
/// queues the newest version with the smallest id, so selection hands it
/// out ahead of the older ones.
pub proof fn lemma_reversed_batch_newest_first(
    v: QueueView,
    name: Seq<char>,
    ver1: Seq<char>,
    ver2: Seq<char>,
    ver3: Seq<char>,
    p: int,
    reg: Option<Seq<char>>,
)
    requires
        v.wf(),
        v.jobs.len() == 0,
        v.max_attempts >= 1,
        v.next_id + 3 <= u64::MAX,
        ver1 != ver2,
        ver1 != ver3,
        ver2 != ver3,
    ensures
        ({
            let batch = seq![
                ChangeView::Added(ReleaseView { name: name, version: ver1 }),
                ChangeView::Added(ReleaseView { name: name, version: ver2 }),
                ChangeView::Added(ReleaseView { name: name, version: ver3 }),
            ];
            let w = apply_events(v, batch.reverse(), seq![p, p, p], reg);
            &&& w.jobs.len() == 3
            &&& w.jobs[0].version == ver3
            &&& w.jobs[1].version == ver2
            &&& w.jobs[2].version == ver1
            &&& w.min_pending_at(0)
        }),
{
    let batch = seq![
        ChangeView::Added(ReleaseView { name: name, version: ver1 }),
        ChangeView::Added(ReleaseView { name: name, version: ver2 }),
        ChangeView::Added(ReleaseView { name: name, version: ver3 }),
    ];
    let prios = seq![p, p, p];
    let rev = batch.reverse();
    assert(rev =~= seq![
        ChangeView::Added(ReleaseView { name: name, version: ver3 }),
        ChangeView::Added(ReleaseView { name: name, version: ver2 }),
        ChangeView::Added(ReleaseView { name: name, version: ver1 }),
    ]);
    assert(rev.drop_last() =~= seq![
        ChangeView::Added(ReleaseView { name: name, version: ver3 }),
        ChangeView::Added(ReleaseView { name: name, version: ver2 }),
    ]);
    assert(rev.drop_last().drop_last() =~= seq![
        ChangeView::Added(ReleaseView { name: name, version: ver3 }),
    ]);
    assert(rev.drop_last().drop_last().drop_last() =~= Seq::<ChangeView>::empty());
    assert(prios.drop_last() =~= seq![p, p]);
    assert(prios.drop_last().drop_last() =~= seq![p]);
    assert(prios.drop_last().drop_last().drop_last() =~= Seq::<int>::empty());
    let w0 = apply_events(v, rev.drop_last().drop_last().drop_last(), Seq::<int>::empty(), reg);
    assert(w0 == v);
    let w1 = apply_events(v, rev.drop_last().drop_last(), seq![p], reg);
    assert(!v.has_key(name, ver3));
    assert(w1 == v.upsert(name, ver3, p, reg));
    crate::queue::lemma_upsert_wf(v, name, ver3, p, reg);
    let w2 = apply_events(v, rev.drop_last(), seq![p, p], reg);
    assert(!w1.has_key(name, ver2)) by {
        assert(forall|i: int|
            0 <= i < w1.jobs.len() ==> (#[trigger] w1.jobs[i]).version == ver3);
    }
    assert(w2 == w1.upsert(name, ver2, p, reg));
    crate::queue::lemma_upsert_wf(w1, name, ver2, p, reg);
    let w = apply_events(v, rev, prios, reg);
    assert(!w2.has_key(name, ver1)) by {
        assert(forall|i: int|
            0 <= i < w2.jobs.len() ==> (#[trigger] w2.jobs[i]).version == ver3
                || (#[trigger] w2.jobs[i]).version == ver2);
    }
    assert(w == w2.upsert(name, ver1, p, reg));
    crate::queue::lemma_upsert_wf(w2, name, ver1, p, reg);
    assert(w.jobs.len() == 3);
    assert(w.jobs[0].id == v.next_id && w.jobs[0].attempt == 0 && w.jobs[0].priority == p);
    assert(w.jobs[1].id == v.next_id + 1 && w.jobs[1].attempt == 0 && w.jobs[1].priority == p);
    assert(w.jobs[2].id == v.next_id + 2 && w.jobs[2].attempt == 0 && w.jobs[2].priority == p);
    assert forall|k: int| #[trigger] w.pending_at(k) implies order_le(w.jobs[0], w.jobs[k]) by {
        assert(0 <= k < 3);
    }
}

} // verus!
