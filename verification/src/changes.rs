//! Ingestion of upstream registry change events.
//!
//! The provider hands over the ordered events since the last-seen cursor
//! together with the cursor for the end of the batch. Events are processed
//! in reverse of delivery order, a deliberate policy: when several
//! releases arrive in one batch, the most recently published one is
//! queued first and so takes the smaller id, and the id tie-break then
//! runs it ahead of its same-priority elders. Per-event collaborator
//! failures never abort the batch; only a failing priority lookup is a
//! store failure and fatal. After the batch the cursor is persisted, so a
//! recreated watcher resumes behind it.

use vstd::prelude::*;
use crate::index_ref::IndexReference;
use crate::queue::{opt_str_view, BuildQueue, QueueView};

verus! {

/// One release of a package.
#[derive(Debug)]
pub struct Release {
    pub name: String,
    pub version: String,
}

/// Abstract value of one release.
pub struct ReleaseView {
    pub name: Seq<char>,
    pub version: Seq<char>,
}

impl View for Release {
    type V = ReleaseView;

    open spec fn view(&self) -> ReleaseView {
        ReleaseView { name: self.name@, version: self.version@ }
    }
}

/// One upstream change event: a release published, a release yanked, or a
/// whole package deleted from the registry.
#[derive(Debug)]
pub enum Change {
    Added(Release),
    Yanked(Release),
    Deleted(String),
}

/// Abstract value of one change event.
pub enum ChangeView {
    Added(ReleaseView),
    Yanked(ReleaseView),
    Deleted(Seq<char>),
}

impl View for Change {
    type V = ChangeView;

    open spec fn view(&self) -> ChangeView {
        match self {
            Change::Added(r) => ChangeView::Added(r@),
            Change::Yanked(r) => ChangeView::Yanked(r@),
            Change::Deleted(n) => ChangeView::Deleted(n@),
        }
    }
}

/// Queue state after applying `events` first to last: each `Added` event
/// upserts its release at the priority `prios` gives it; yanks and
/// deletions belong to downstream collaborators and leave the queue
/// untouched.
pub open spec fn apply_events(
    v: QueueView,
    events: Seq<ChangeView>,
    prios: Seq<int>,
    reg: Option<Seq<char>>,
) -> QueueView
    decreases events.len(),
{
    if events.len() == 0 {
        v
    } else {
        let prev = apply_events(v, events.drop_last(), prios.drop_last(), reg);
        match events.last() {
            ChangeView::Added(rel) => prev.upsert(rel.name, rel.version, prios.last(), reg),
            _ => prev,
        }
    }
}

/// Number of `Added` events in a batch.
pub open spec fn added_count(events: Seq<ChangeView>) -> int
    decreases events.len(),
{
    if events.len() == 0 {
        0
    } else {
        added_count(events.drop_last()) + match events.last() {
            ChangeView::Added(_) => 1int,
            _ => 0int,
        }
    }
}

/// Each priority in `prios` that an `Added` event was queued at is one
/// the priority policy returned for that package name.
pub open spec fn prios_match<E, P: Fn(&String) -> Result<i32, E>>(
    p: P,
    events: Seq<ChangeView>,
    prios: Seq<int>,
) -> bool {
    forall|i: int|
        0 <= i < events.len() ==> ((#[trigger] events[i]) matches ChangeView::Added(rel)
            ==> exists|sr: &String, pv: i32|
                #![trigger call_ensures(p, (sr,), Ok(pv))]
                {
                    &&& sr@ == rel.name
                    &&& pv as int == prios[i]
                    &&& call_ensures(p, (sr,), Ok(pv))
                })
}

/// What a completed ingestion run guarantees: for some sequence of
/// priorities, each one returned by the policy for its `Added` event, the
/// queue equals the pre-state with the reversed batch applied and the
/// cursor moved to the new reference, and the count is the number of
/// `Added` events.
pub open spec fn ingest_ok_post<E, P: Fn(&String) -> Result<i32, E>>(
    pre: QueueView,
    post: QueueView,
    changes: Seq<Change>,
    regv: Option<Seq<char>>,
    new_ref: Seq<char>,
    priority_of: P,
    count: int,
) -> bool {
    exists|prios: Seq<int>|
        #![trigger prios_match(priority_of, change_views(changes).reverse(), prios)]
        {
            &&& prios.len() == changes.len()
            &&& prios_match(priority_of, change_views(changes).reverse(), prios)
            &&& post == apply_events(
                pre,
                change_views(changes).reverse(),
                prios,
                regv,
            ).with_last_seen(new_ref)
            &&& count == added_count(change_views(changes).reverse())
        }
}

/// What an aborted ingestion run guarantees: some prefix of the reversed
/// batch was applied, the event it stopped at is an `Added` whose priority
/// lookup returned this error, and the cursor was left untouched.
pub open spec fn ingest_err_post<E, P: Fn(&String) -> Result<i32, E>>(
    pre: QueueView,
    post: QueueView,
    changes: Seq<Change>,
    regv: Option<Seq<char>>,
    priority_of: P,
    e: E,
) -> bool {
    exists|k: int, prios: Seq<int>|
        #![trigger prios_match(priority_of, change_views(changes).reverse().take(k), prios)]
        {
            &&& 0 <= k < changes.len()
            &&& prios.len() == k
            &&& prios_match(priority_of, change_views(changes).reverse().take(k), prios)
            &&& (change_views(changes).reverse()[k] matches ChangeView::Added(rl) && exists|
                sr: &String,
            |
                sr@ == rl.name && #[trigger] call_ensures(priority_of, (sr,), Err::<i32, E>(e)))
            &&& post == apply_events(pre, change_views(changes).reverse().take(k), prios, regv)
        }
}

/// Views of a delivered batch, in delivery order.
pub open spec fn change_views(cs: Seq<Change>) -> Seq<ChangeView> {
    cs.map_values(|c: Change| c@)
}

impl BuildQueue {
    /// Applies one batch of upstream changes and advances the cursor.
    ///
    /// Events run in reverse of delivery order. An `Added` release is
    /// queued at the priority the policy collaborator gives its name; a
    /// failing lookup is a store failure, aborts the batch, and leaves the
    /// cursor where it was. `Yanked` and `Deleted` events go to their
    /// collaborators, whose failures are per-event and never abort the
    /// batch. After the whole batch the cursor moves to `new_reference`.
    /// Returns the number of releases queued.
    pub fn get_new_crates<E, P, Y, D>(
        &mut self,
        changes: &Vec<Change>,
        registry: Option<&str>,
        new_reference: &IndexReference,
        priority_of: P,
        mark_yanked: Y,
        delete_crate: D,
    ) -> (r: Result<usize, E>) where
        P: Fn(&String) -> Result<i32, E>,
        Y: Fn(&String, &String) -> Result<(), E>,
        D: Fn(&String) -> Result<(), E>,
        requires
            old(self)@.wf(),
            old(self)@.next_id + changes@.len() <= u64::MAX,
            forall|s: &String| #[trigger] call_requires(priority_of, (s,)),
            forall|a: &String, b: &String| #[trigger] call_requires(mark_yanked, (a, b)),
            forall|s: &String| #[trigger] call_requires(delete_crate, (s,)),
        ensures
            final(self)@.wf(),
            match r {
                Ok(count) => ingest_ok_post(
                    old(self)@,
                    final(self)@,
                    changes@,
                    opt_str_view(registry),
                    new_reference@,
                    priority_of,
                    count as int,
                ),
                Err(e) => ingest_err_post(
                    old(self)@,
                    final(self)@,
                    changes@,
                    opt_str_view(registry),
                    priority_of,
                    e,
                ),
            },
    {
        let ghost rev = change_views(changes@).reverse();
        let ghost regv = opt_str_view(registry);
        let mut count: usize = 0;
        let mut k: usize = 0;
        let ghost mut prios: Seq<int> = Seq::empty();
        let n = changes.len();
        proof {
            assert(rev.take(0) =~= Seq::<ChangeView>::empty());
        }
        while k < n
            invariant
                n == changes@.len(),
                k <= n,
                count <= k,
                rev == change_views(changes@).reverse(),
                regv == opt_str_view(registry),
                prios.len() == k as int,
                prios_match(priority_of, rev.take(k as int), prios),
                self@ == apply_events(old(self)@, rev.take(k as int), prios, regv),
                count as int == added_count(rev.take(k as int)),
                self@.wf(),
                self@.next_id <= old(self)@.next_id + k,
                old(self)@.next_id + changes@.len() <= u64::MAX,
                forall|s: &String| #[trigger] call_requires(priority_of, (s,)),
                forall|a: &String, b: &String| #[trigger] call_requires(mark_yanked, (a, b)),
                forall|s: &String| #[trigger] call_requires(delete_crate, (s,)),
            decreases n - k,
        {
            let idx = n - 1 - k;
            let ghost prios0 = prios;
            let ghost state0 = self@;
            proof {
                assert(rev.take(k as int + 1).drop_last() =~= rev.take(k as int));
                assert(rev[k as int] == changes@[idx as int]@);
            }
            match &changes[idx] {
                Change::Added(rel) => {
                    let pr = priority_of(&rel.name);
                    let ghost gpr = pr;
                    match pr {
                        Err(e) => {
                            proof {
                                assert(rev[k as int] matches ChangeView::Added(rv) && rv.name
                                    == rel.name@);
                                assert(gpr == Err::<i32, E>(e));
                                assert(call_ensures(priority_of, (&rel.name,), Err::<i32, E>(e)));
                                assert(0 <= (k as int) && (k as int) < rev.len());
                                assert(prios_match(priority_of, rev.take(k as int), prios));
                                assert(self@ == apply_events(
                                    old(self)@,
                                    rev.take(k as int),
                                    prios,
                                    regv,
                                ));
                                assert(exists|sr: &String|
                                    sr@ == rel@.name && #[trigger] call_ensures(
                                        priority_of,
                                        (sr,),
                                        Err::<i32, E>(e),
                                    ));
                                assert(ingest_err_post(
                                    old(self)@,
                                    self@,
                                    changes@,
                                    regv,
                                    priority_of,
                                    e,
                                ));
                            }
                            return Err(e);
                        },
                        Ok(p) => {
                            let _ = self.add_crate(
                                rel.name.as_str(),
                                rel.version.as_str(),
                                p,
                                registry,
                            );
                            count += 1;
                            proof {
                                prios = prios.push(p as int);
                                assert(prios.drop_last() =~= prios0);
                                assert(self@ == apply_events(
                                    old(self)@,
                                    rev.take(k as int + 1),
                                    prios,
                                    regv,
                                ));
                                assert forall|i: int| 0 <= i < k as int + 1 implies ((#[trigger] rev.take(
                                    k as int + 1,
                                )[i]) matches ChangeView::Added(rl) ==> exists|sr: &String, pv: i32|
                                    #![trigger call_ensures(priority_of, (sr,), Ok(pv))]
                                    {
                                        &&& sr@ == rl.name
                                        &&& pv as int == prios[i]
                                        &&& call_ensures(priority_of, (sr,), Ok(pv))
                                    }) by {
                                    if i < k as int {
                                        assert(rev.take(k as int)[i] == rev.take(k as int + 1)[i]);
                                    } else {
                                        assert(call_ensures(priority_of, (&rel.name,), Ok(p)));
                                    }
                                }
                            }
                        },
                    }
                },
                Change::Yanked(rel) => {
                    let _ = mark_yanked(&rel.name, &rel.version);
                    proof {
                        prios = prios.push(0);
                        assert(prios.drop_last() =~= prios0);
                        assert forall|i: int| 0 <= i < k as int implies rev.take(k as int)[i]
                            == #[trigger] rev.take(k as int + 1)[i] by {}
                    }
                },
                Change::Deleted(name) => {
                    let _ = delete_crate(name);
                    proof {
                        prios = prios.push(0);
                        assert(prios.drop_last() =~= prios0);
                        assert forall|i: int| 0 <= i < k as int implies rev.take(k as int)[i]
                            == #[trigger] rev.take(k as int + 1)[i] by {}
                    }
                },
            }
            k += 1;
        }
        proof {
            assert(rev.take(n as int) =~= rev);
        }
        let _ = self.set_last_seen_reference(new_reference);
        proof {
            assert(ingest_ok_post(
                old(self)@,
                self@,
                changes@,
                regv,
                new_reference@,
                priority_of,
                count as int,
            ));
        }
        Ok(count)
    }
}

} // verus!
