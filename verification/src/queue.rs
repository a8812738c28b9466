//! The persistent job queue and its scheduling policy.
//!
//! Jobs are identified by a surrogate id and deduplicated on the pair
//! (name, version). Candidate selection follows one total order: ascending
//! priority (lower value runs first), then ascending attempt count, then
//! ascending id, so insertion order breaks ties within a priority tier and
//! a job that failed yields to untried peers of its own tier. A job whose
//! attempt count reaches the retry budget is kept for observability but
//! never selected again.

use vstd::prelude::*;
use crate::config::ConfigStore;
use crate::index_ref::{canonical_of, valid_hex, IndexReference};

verus! {

/// Error of the queue's own operations.
#[derive(Clone, Copy, Debug, PartialEq, Eq, Structural)]
pub enum QueueError {
    /// A persisted cursor value does not parse as a reference.
    InvalidReference,
}

/// Which registry a job's release comes from: the primary one, or another
/// registry named by its URL.
#[derive(Debug)]
pub enum PackageKind {
    CratesIo,
    Registry(String),
}

impl View for PackageKind {
    type V = Option<Seq<char>>;

    open spec fn view(&self) -> Option<Seq<char>> {
        match self {
            PackageKind::CratesIo => None,
            PackageKind::Registry(url) => Some(url@),
        }
    }
}

/// One queued build job.
#[derive(Debug)]
pub struct QueuedCrate {
    pub id: u64,
    pub name: String,
    pub version: String,
    pub priority: i32,
    pub attempt: u32,
    pub registry: Option<String>,
}

/// Abstract value of one job.
pub struct CrateView {
    pub id: int,
    pub name: Seq<char>,
    pub version: Seq<char>,
    pub priority: int,
    pub attempt: int,
    pub registry: Option<Seq<char>>,
}

impl View for QueuedCrate {
    type V = CrateView;

    open spec fn view(&self) -> CrateView {
        CrateView {
            id: self.id as int,
            name: self.name@,
            version: self.version@,
            priority: self.priority as int,
            attempt: self.attempt as int,
            registry: match self.registry {
                Some(r) => Some(r@),
                None => None,
            },
        }
    }
}

/// View of an optional borrowed text.
pub open spec fn opt_str_view(r: Option<&str>) -> Option<Seq<char>> {
    match r {
        Some(s) => Some(s@),
        None => None,
    }
}

/// `a` runs strictly before `b`: ascending priority, then ascending
/// attempt count, then ascending id.
pub open spec fn order_before(a: CrateView, b: CrateView) -> bool {
    ||| a.priority < b.priority
    ||| (a.priority == b.priority && a.attempt < b.attempt)
    ||| (a.priority == b.priority && a.attempt == b.attempt && a.id < b.id)
}

/// `a` runs no later than `b` under the selection order.
pub open spec fn order_le(a: CrateView, b: CrateView) -> bool {
    ||| order_before(a, b)
    ||| (a.priority == b.priority && a.attempt == b.attempt && a.id == b.id)
}

/// `j` names exactly this release.
pub open spec fn key_matches(j: CrateView, name: Seq<char>, version: Seq<char>) -> bool {
    j.name == name && j.version == version
}

/// Jobs still visible to selection: attempt count below the budget.
pub open spec fn filter_pending(jobs: Seq<CrateView>, max: int) -> Seq<CrateView>
    decreases jobs.len(),
{
    if jobs.len() == 0 {
        Seq::empty()
    } else if jobs.last().attempt < max {
        filter_pending(jobs.drop_last(), max).push(jobs.last())
    } else {
        filter_pending(jobs.drop_last(), max)
    }
}

/// Jobs permanently retired: attempt count at or above the budget.
pub open spec fn filter_failed(jobs: Seq<CrateView>, max: int) -> Seq<CrateView>
    decreases jobs.len(),
{
    if jobs.len() == 0 {
        Seq::empty()
    } else if jobs.last().attempt >= max {
        filter_failed(jobs.drop_last(), max).push(jobs.last())
    } else {
        filter_failed(jobs.drop_last(), max)
    }
}

/// Pending jobs that are not deprioritized: priority at most zero.
pub open spec fn filter_prioritized(jobs: Seq<CrateView>, max: int) -> Seq<CrateView>
    decreases jobs.len(),
{
    if jobs.len() == 0 {
        Seq::empty()
    } else if jobs.last().attempt < max && jobs.last().priority <= 0 {
        filter_prioritized(jobs.drop_last(), max).push(jobs.last())
    } else {
        filter_prioritized(jobs.drop_last(), max)
    }
}

/// Pending jobs pushed behind the standard tier: priority above zero.
pub open spec fn filter_deprioritized(jobs: Seq<CrateView>, max: int) -> Seq<CrateView>
    decreases jobs.len(),
{
    if jobs.len() == 0 {
        Seq::empty()
    } else if jobs.last().attempt < max && jobs.last().priority > 0 {
        filter_deprioritized(jobs.drop_last(), max).push(jobs.last())
    } else {
        filter_deprioritized(jobs.drop_last(), max)
    }
}

/// A queue has no pending job exactly when every job has exhausted its
/// attempts.
pub proof fn lemma_pending_count_zero(jobs: Seq<CrateView>, max: int)
    ensures
        (filter_pending(jobs, max).len() == 0) <==> (forall|k: int|
            0 <= k < jobs.len() ==> (#[trigger] jobs[k]).attempt >= max),
    decreases jobs.len(),
{
    if jobs.len() > 0 {
        lemma_pending_count_zero(jobs.drop_last(), max);
        assert(jobs.last() == jobs[jobs.len() - 1]);
        assert(forall|k: int| 0 <= k < jobs.len() - 1 ==> jobs.drop_last()[k] == #[trigger] jobs[k]);
    }
}

/// A counter that sticks at its ceiling instead of wrapping.
pub open spec fn inc_sat(x: int) -> int {
    if x < u64::MAX {
        x + 1
    } else {
        x
    }
}

/// Abstract state of the whole queue: the job table, the id source, the
/// retry budget, the two configuration rows, and the two counters.
pub struct QueueView {
    pub jobs: Seq<CrateView>,
    pub next_id: int,
    pub max_attempts: int,
    pub locked: Option<bool>,
    pub last_seen: Option<Seq<char>>,
    pub total_builds: int,
    pub failed_builds: int,
}

impl QueueView {
    /// Structural soundness of the job table: ids are unique and below the
    /// id source, releases are unique, attempt counts never pass the budget.
    pub open spec fn wf(self) -> bool {
        &&& self.max_attempts >= 0
        &&& self.next_id >= 0
        &&& forall|i: int, k: int|
            0 <= i < self.jobs.len() && 0 <= k < self.jobs.len() && i != k
                ==> (#[trigger] self.jobs[i].id) != (#[trigger] self.jobs[k].id)
        &&& forall|i: int, k: int|
            0 <= i < self.jobs.len() && 0 <= k < self.jobs.len() && i != k
                ==> !key_matches(#[trigger] self.jobs[i], (#[trigger] self.jobs[k]).name, self.jobs[k].version)
        &&& forall|i: int|
            0 <= i < self.jobs.len() ==> 0 <= (#[trigger] self.jobs[i]).id < self.next_id
        &&& forall|i: int|
            0 <= i < self.jobs.len() ==> 0 <= (#[trigger] self.jobs[i]).attempt <= self.max_attempts
    }

    /// The job at `i` is visible to selection.
    pub open spec fn pending_at(self, i: int) -> bool {
        0 <= i < self.jobs.len() && self.jobs[i].attempt < self.max_attempts
    }

    /// The job at `i` is pending and runs no later than every pending job.
    pub open spec fn min_pending_at(self, i: int) -> bool {
        &&& self.pending_at(i)
        &&& forall|k: int| #[trigger] self.pending_at(k) ==> order_le(self.jobs[i], self.jobs[k])
    }

    /// Some job names this release.
    pub open spec fn has_key(self, name: Seq<char>, version: Seq<char>) -> bool {
        exists|i: int| 0 <= i < self.jobs.len() && key_matches(#[trigger] self.jobs[i], name, version)
    }

    /// Index of the job naming this release; meaningful under `has_key`
    /// and, by uniqueness of releases, unambiguous under `wf`.
    pub open spec fn key_index(self, name: Seq<char>, version: Seq<char>) -> int {
        choose|i: int| 0 <= i < self.jobs.len() && key_matches(#[trigger] self.jobs[i], name, version)
    }

    /// Inserting a release, or re-submitting one already queued: an
    /// existing row keeps its id but takes the new priority and registry
    /// and starts over at attempt zero; a new row takes the next fresh id.
    pub open spec fn upsert(
        self,
        name: Seq<char>,
        version: Seq<char>,
        priority: int,
        registry: Option<Seq<char>>,
    ) -> QueueView {
        if self.has_key(name, version) {
            let i = self.key_index(name, version);
            QueueView {
                jobs: self.jobs.update(
                    i,
                    CrateView {
                        id: self.jobs[i].id,
                        name: name,
                        version: version,
                        priority: priority,
                        attempt: 0,
                        registry: registry,
                    },
                ),
                ..self
            }
        } else {
            QueueView {
                jobs: self.jobs.push(
                    CrateView {
                        id: self.next_id,
                        name: name,
                        version: version,
                        priority: priority,
                        attempt: 0,
                        registry: registry,
                    },
                ),
                next_id: self.next_id + 1,
                ..self
            }
        }
    }

    /// State after the job at `i` was built successfully: the row is gone
    /// and one more build attempt is on record.
    pub open spec fn after_success(self, i: int) -> QueueView {
        QueueView {
            jobs: self.jobs.remove(i),
            total_builds: inc_sat(self.total_builds),
            ..self
        }
    }

    /// State after the job at `i` failed to build: its attempt count rose
    /// by one, one more build attempt is on record, and a job that just
    /// exhausted its budget is on the permanent-failure record too.
    pub open spec fn after_failure(self, i: int) -> QueueView {
        QueueView {
            jobs: self.jobs.update(
                i,
                CrateView { attempt: self.jobs[i].attempt + 1, ..self.jobs[i] },
            ),
            total_builds: inc_sat(self.total_builds),
            failed_builds: if self.jobs[i].attempt + 1 >= self.max_attempts {
                inc_sat(self.failed_builds)
            } else {
                self.failed_builds
            },
            ..self
        }
    }

    /// State with the pause flag written.
    pub open spec fn with_locked(self, v: bool) -> QueueView {
        QueueView { locked: Some(v), ..self }
    }

    /// State with the cursor written.
    pub open spec fn with_last_seen(self, s: Seq<char>) -> QueueView {
        QueueView { last_seen: Some(s), ..self }
    }

    /// What the pause switch reads: an unset flag means unlocked.
    pub open spec fn is_locked_spec(self) -> bool {
        match self.locked {
            Some(b) => b,
            None => false,
        }
    }

    /// Number of jobs visible to selection.
    pub open spec fn pending_count(self) -> int {
        filter_pending(self.jobs, self.max_attempts).len() as int
    }

    /// Number of pending jobs at standard or promoted priority.
    pub open spec fn prioritized_count(self) -> int {
        filter_prioritized(self.jobs, self.max_attempts).len() as int
    }

    /// Number of pending jobs pushed behind the standard tier.
    pub open spec fn deprioritized_count(self) -> int {
        filter_deprioritized(self.jobs, self.max_attempts).len() as int
    }

    /// Number of permanently retired jobs.
    pub open spec fn failed_count(self) -> int {
        filter_failed(self.jobs, self.max_attempts).len() as int
    }
}

/// An upsert preserves well-formedness and touches nothing but the job
/// table and the id source.
pub proof fn lemma_upsert_wf(
    v: QueueView,
    name: Seq<char>,
    version: Seq<char>,
    priority: int,
    registry: Option<Seq<char>>,
)
    requires
        v.wf(),
        v.next_id < u64::MAX,
    ensures
        v.upsert(name, version, priority, registry).wf(),
{
    let u = v.upsert(name, version, priority, registry);
    if v.has_key(name, version) {
        let ki = v.key_index(name, version);
        assert(0 <= ki < v.jobs.len() && key_matches(v.jobs[ki], name, version));
        assert forall|i: int, k: int|
            0 <= i < u.jobs.len() && 0 <= k < u.jobs.len() && i != k implies !key_matches(
            #[trigger] u.jobs[i],
            (#[trigger] u.jobs[k]).name,
            u.jobs[k].version,
        ) by {
            assert(u.jobs[i] == if i == ki { u.jobs[ki] } else { v.jobs[i] });
        }
    } else {
        assert forall|i: int, k: int|
            0 <= i < u.jobs.len() && 0 <= k < u.jobs.len() && i != k implies !key_matches(
            #[trigger] u.jobs[i],
            (#[trigger] u.jobs[k]).name,
            u.jobs[k].version,
        ) by {
            if i < v.jobs.len() && k < v.jobs.len() {
            } else if i == v.jobs.len() {
                assert(!key_matches(v.jobs[k], name, version));
            } else {
                assert(!key_matches(v.jobs[i], name, version));
            }
        }
    }
}

/// The persistent job queue together with the configuration store and the
/// two build counters.
#[derive(Debug)]
pub struct BuildQueue {
    pub jobs: Vec<QueuedCrate>,
    pub next_id: u64,
    pub max_attempts: u32,
    pub config: ConfigStore,
    pub total_builds: u64,
    pub failed_builds: u64,
}

impl View for BuildQueue {
    type V = QueueView;

    open spec fn view(&self) -> QueueView {
        QueueView {
            jobs: self.jobs@.map_values(|j: QueuedCrate| j@),
            next_id: self.next_id as int,
            max_attempts: self.max_attempts as int,
            locked: self.config@.queue_locked,
            last_seen: self.config@.last_seen_reference,
            total_builds: self.total_builds as int,
            failed_builds: self.failed_builds as int,
        }
    }
}

impl BuildQueue {
    /// A fresh queue with the given retry budget, no jobs, unset
    /// configuration, and zeroed counters.
    pub fn new(max_attempts: u32) -> (q: BuildQueue)
        ensures
            q@ == (QueueView {
                jobs: Seq::<CrateView>::empty(),
                next_id: 0,
                max_attempts: max_attempts as int,
                locked: None,
                last_seen: None,
                total_builds: 0,
                failed_builds: 0,
            }),
            q@.wf(),
    {
        let q = BuildQueue {
            jobs: Vec::new(),
            next_id: 0,
            max_attempts: max_attempts,
            config: ConfigStore::new(),
            total_builds: 0,
            failed_builds: 0,
        };
        proof {
            assert(q@.jobs =~= Seq::<CrateView>::empty());
        }
        q
    }

    /// Index of the job naming this release, if any.
    fn find_job_index(&self, name: &String, version: &String) -> (r: Option<usize>)
        ensures
            match r {
                Some(i) => 0 <= i < self@.jobs.len() && key_matches(self@.jobs[i as int], name@, version@),
                None => !self@.has_key(name@, version@),
            },
    {
        let mut i: usize = 0;
        while i < self.jobs.len()
            invariant
                i <= self.jobs@.len(),
                forall|k: int| 0 <= k < i ==> !key_matches(#[trigger] self@.jobs[k], name@, version@),
            decreases self.jobs@.len() - i,
        {
            if self.jobs[i].name == *name && self.jobs[i].version == *version {
                return Some(i);
            }
            i += 1;
        }
        None
    }

    /// Inserts or re-submits a release.
    ///
    /// A release already queued is not an error: the existing row keeps
    /// its id, takes the new priority and registry, and starts over at
    /// attempt zero, so the last writer wins.
    pub fn add_crate(
        &mut self,
        name: &str,
        version: &str,
        priority: i32,
        registry: Option<&str>,
    ) -> (r: Result<(), QueueError>)
        requires
            old(self)@.wf(),
            old(self)@.next_id < u64::MAX,
        ensures
            r is Ok,
            final(self)@ == old(self)@.upsert(name@, version@, priority as int, opt_str_view(registry)),
            final(self)@.wf(),
    {
        proof {
            lemma_upsert_wf(old(self)@, name@, version@, priority as int, opt_str_view(registry));
        }
        let name_o: String = name.to_owned();
        let version_o: String = version.to_owned();
        let registry_o: Option<String> = match registry {
            Some(s) => Some(s.to_owned()),
            None => None,
        };
        match self.find_job_index(&name_o, &version_o) {
            Some(i) => {
                let id = self.jobs[i].id;
                self.jobs[i] = QueuedCrate {
                    id: id,
                    name: name_o,
                    version: version_o,
                    priority: priority,
                    attempt: 0,
                    registry: registry_o,
                };
                proof {
                    let v = old(self)@;
                    assert(v.has_key(name@, version@));
                    let ki = v.key_index(name@, version@);
                    assert(0 <= ki < v.jobs.len() && key_matches(v.jobs[ki], name@, version@));
                    assert(ki == i as int);
                    assert(self@.jobs =~= v.upsert(
                        name@,
                        version@,
                        priority as int,
                        opt_str_view(registry),
                    ).jobs);
                }
                Ok(())
            },
            None => {
                let id = self.next_id;
                self.next_id = self.next_id + 1;
                self.jobs.push(QueuedCrate {
                    id: id,
                    name: name_o,
                    version: version_o,
                    priority: priority,
                    attempt: 0,
                    registry: registry_o,
                });
                proof {
                    let v = old(self)@;
                    assert(self@.jobs =~= v.upsert(
                        name@,
                        version@,
                        priority as int,
                        opt_str_view(registry),
                    ).jobs);
                }
                Ok(())
            },
        }
    }

    /// Number of jobs with attempts left: those a worker may still pick up.
    pub fn pending_count(&self) -> (r: Result<usize, QueueError>)
        ensures
            r matches Ok(c) && c as int == self@.pending_count(),
    {
        let mut c: usize = 0;
        let mut i: usize = 0;
        while i < self.jobs.len()
            invariant
                i <= self.jobs@.len(),
                c <= i,
                c as int == filter_pending(self@.jobs.take(i as int), self@.max_attempts).len(),
            decreases self.jobs@.len() - i,
        {
            proof {
                assert(self@.jobs.take(i + 1).drop_last() =~= self@.jobs.take(i as int));
            }
            if self.jobs[i].attempt < self.max_attempts {
                c += 1;
            }
            i += 1;
        }
        proof {
            assert(self@.jobs.take(self.jobs@.len() as int) =~= self@.jobs);
        }
        Ok(c)
    }

    /// Number of pending jobs at standard or promoted priority.
    pub fn prioritized_count(&self) -> (r: Result<usize, QueueError>)
        ensures
            r matches Ok(c) && c as int == self@.prioritized_count(),
    {
        let mut c: usize = 0;
        let mut i: usize = 0;
        while i < self.jobs.len()
            invariant
                i <= self.jobs@.len(),
                c <= i,
                c as int == filter_prioritized(self@.jobs.take(i as int), self@.max_attempts).len(),
            decreases self.jobs@.len() - i,
        {
            proof {
                assert(self@.jobs.take(i + 1).drop_last() =~= self@.jobs.take(i as int));
            }
            if self.jobs[i].attempt < self.max_attempts && self.jobs[i].priority <= 0 {
                c += 1;
            }
            i += 1;
        }
        proof {
            assert(self@.jobs.take(self.jobs@.len() as int) =~= self@.jobs);
        }
        Ok(c)
    }

    /// Number of jobs retired after exhausting the retry budget.
    pub fn failed_count(&self) -> (r: Result<usize, QueueError>)
        ensures
            r matches Ok(c) && c as int == self@.failed_count(),
    {
        let mut c: usize = 0;
        let mut i: usize = 0;
        while i < self.jobs.len()
            invariant
                i <= self.jobs@.len(),
                c <= i,
                c as int == filter_failed(self@.jobs.take(i as int), self@.max_attempts).len(),
            decreases self.jobs@.len() - i,
        {
            proof {
                assert(self@.jobs.take(i + 1).drop_last() =~= self@.jobs.take(i as int));
            }
            if self.jobs[i].attempt >= self.max_attempts {
                c += 1;
            }
            i += 1;
        }
        proof {
            assert(self@.jobs.take(self.jobs@.len() as int) =~= self@.jobs);
        }
        Ok(c)
    }

    /// Total number of build attempts recorded so far.
    pub fn total_builds(&self) -> (r: u64)
        ensures
            r as int == self@.total_builds,
    {
        self.total_builds
    }

    /// Number of jobs that were retired as permanently failed.
    pub fn failed_builds(&self) -> (r: u64)
        ensures
            r as int == self@.failed_builds,
    {
        self.failed_builds
    }

    /// Reads the pause switch; a flag never written means unlocked.
    pub fn is_locked(&self) -> (r: Result<bool, QueueError>)
        ensures
            r matches Ok(b) && b == self@.is_locked_spec(),
    {
        match self.config.get_queue_locked() {
            Some(b) => Ok(b),
            None => Ok(false),
        }
    }

    /// Pauses the queue: workers must stop pulling new jobs.
    pub fn lock(&mut self) -> (r: Result<(), QueueError>)
        ensures
            r is Ok,
            final(self)@ == old(self)@.with_locked(true),
    {
        self.config.set_queue_locked(true);
        Ok(())
    }

    /// Resumes the queue.
    pub fn unlock(&mut self) -> (r: Result<(), QueueError>)
        ensures
            r is Ok,
            final(self)@ == old(self)@.with_locked(false),
    {
        self.config.set_queue_locked(false);
        Ok(())
    }

    /// Reads the cursor into the upstream change stream.
    ///
    /// Fails exactly when a value is stored and does not parse as a
    /// reference; the pause flag and the job table play no part in it.
    pub fn last_seen_reference(&self) -> (r: Result<Option<IndexReference>, QueueError>)
        ensures
            match self@.last_seen {
                None => r matches Ok(o) && o is None,
                Some(s) => {
                    if valid_hex(s) {
                        r matches Ok(o) && o matches Some(ir) && ir@ == canonical_of(s) && ir.wf()
                    } else {
                        r == Err::<Option<IndexReference>, QueueError>(QueueError::InvalidReference)
                    }
                },
            },
    {
        match self.config.get_last_seen_reference() {
            None => Ok(None),
            Some(s) => {
                match IndexReference::parse(s.as_str()) {
                    Ok(ir) => Ok(Some(ir)),
                    Err(e) => Err(e),
                }
            },
        }
    }

    /// Writes the cursor, so a recreated watcher resumes at this position.
    pub fn set_last_seen_reference(&mut self, reference: &IndexReference) -> (r: Result<(), QueueError>)
        ensures
            r is Ok,
            final(self)@ == old(self)@.with_last_seen(reference@),
    {
        let h = reference.hex_string();
        self.config.set_last_seen_reference(h);
        Ok(())
    }
}

/// Index of the least element under the selection order.
fn find_min_index(v: &Vec<QueuedCrate>) -> (r: usize)
    requires
        v@.len() > 0,
    ensures
        r < v@.len(),
        forall|k: int| 0 <= k < v@.len() ==> order_le(v@[r as int]@, (#[trigger] v@[k])@),
{
    let mut best: usize = 0;
    let mut i: usize = 1;
    while i < v.len()
        invariant
            best < i <= v@.len(),
            forall|k: int| 0 <= k < i ==> order_le(v@[best as int]@, (#[trigger] v@[k])@),
        decreases v@.len() - i,
    {
        if comes_before(&v[i], &v[best]) {
            best = i;
        }
        i += 1;
    }
    best
}

impl BuildQueue {
    /// All pending jobs, in the order in which they would be selected:
    /// ascending priority, then ascending attempt count, then ascending
    /// id. Reads only; nothing is claimed or changed.
    pub fn queued_crates(&self) -> (r: Result<Vec<QueuedCrate>, QueueError>)
        ensures
            r matches Ok(v) && {
                let rv = v@.map_values(|q: QueuedCrate| q@);
                &&& rv.to_multiset() == filter_pending(self@.jobs, self@.max_attempts).to_multiset()
                &&& forall|a: int, b: int|
                    0 <= a < b < rv.len() ==> order_le(#[trigger] rv[a], #[trigger] rv[b])
            },
    {
        broadcast use vstd::seq_lib::group_to_multiset_ensures;
        broadcast use vstd::multiset::group_multiset_axioms;

        let ghost jv = |q: QueuedCrate| q@;
        let mut rest: Vec<QueuedCrate> = Vec::new();
        let mut i: usize = 0;
        while i < self.jobs.len()
            invariant
                i <= self.jobs@.len(),
                rest@.map_values(|q: QueuedCrate| q@) == filter_pending(
                    self@.jobs.take(i as int),
                    self@.max_attempts,
                ),
            decreases self.jobs@.len() - i,
        {
            proof {
                assert(self@.jobs.take(i + 1).drop_last() =~= self@.jobs.take(i as int));
            }
            if self.jobs[i].attempt < self.max_attempts {
                let c = clone_crate(&self.jobs[i]);
                let ghost prev = rest@;
                rest.push(c);
                proof {
                    assert(rest@.map_values(|q: QueuedCrate| q@) =~= prev.map_values(
                        |q: QueuedCrate| q@,
                    ).push(self@.jobs[i as int]));
                }
            }
            i += 1;
        }
        proof {
            assert(self@.jobs.take(self.jobs@.len() as int) =~= self@.jobs);
        }
        let ghost orig = filter_pending(self@.jobs, self@.max_attempts);
        let mut out: Vec<QueuedCrate> = Vec::new();
        proof {
            assert(out@.map_values(|q: QueuedCrate| q@) =~= Seq::<CrateView>::empty());
            assert(out@.map_values(|q: QueuedCrate| q@).to_multiset().add(
                rest@.map_values(|q: QueuedCrate| q@).to_multiset(),
            ) =~= orig.to_multiset());
        }
        while rest.len() > 0
            invariant
                out@.map_values(|q: QueuedCrate| q@).to_multiset().add(
                    rest@.map_values(|q: QueuedCrate| q@).to_multiset(),
                ) == orig.to_multiset(),
                forall|a: int, b: int|
                    0 <= a < b < out@.len() ==> order_le(
                        (#[trigger] out@[a])@,
                        (#[trigger] out@[b])@,
                    ),
                forall|a: int, b: int|
                    0 <= a < out@.len() && 0 <= b < rest@.len() ==> order_le(
                        (#[trigger] out@[a])@,
                        (#[trigger] rest@[b])@,
                    ),
            decreases rest@.len(),
        {
            let ghost outv = out@.map_values(|q: QueuedCrate| q@);
            let ghost restv = rest@.map_values(|q: QueuedCrate| q@);
            let mi = find_min_index(&rest);
            let x = rest.remove(mi);
            out.push(x);
            proof {
                outv.to_multiset_ensures();
                restv.to_multiset_ensures();
                assert(out@.map_values(|q: QueuedCrate| q@) =~= outv.push(x@));
                assert(rest@.map_values(|q: QueuedCrate| q@) =~= restv.remove(mi as int));
                assert(restv.contains(restv[mi as int]));
                assert(out@.map_values(|q: QueuedCrate| q@).to_multiset().add(
                    rest@.map_values(|q: QueuedCrate| q@).to_multiset(),
                ) =~= orig.to_multiset());
            }
        }
        proof {
            let rv = out@.map_values(|q: QueuedCrate| q@);
            assert(rest@.map_values(|q: QueuedCrate| q@) =~= Seq::<CrateView>::empty());
            rv.to_multiset_ensures();
            assert(rv.to_multiset().add(Seq::<CrateView>::empty().to_multiset()) =~= rv.to_multiset());
            assert(rv.to_multiset() =~= orig.to_multiset());
        }
        Ok(out)
    }
}

/// Clones one job value.
fn clone_crate(j: &QueuedCrate) -> (r: QueuedCrate)
    ensures
        r@ == j@,
{
    QueuedCrate {
        id: j.id,
        name: j.name.clone(),
        version: j.version.clone(),
        priority: j.priority,
        attempt: j.attempt,
        registry: match &j.registry {
            Some(s) => Some(s.clone()),
            None => None,
        },
    }
}

/// Decides the selection order between two jobs.
fn comes_before(a: &QueuedCrate, b: &QueuedCrate) -> (r: bool)
    ensures
        r == order_before(a@, b@),
{
    if a.priority != b.priority {
        a.priority < b.priority
    } else if a.attempt != b.attempt {
        a.attempt < b.attempt
    } else {
        a.id < b.id
    }
}

/// One more on a counter that sticks at its ceiling.
fn sat_inc(x: u64) -> (r: u64)
    ensures
        r as int == inc_sat(x as int),
{
    if x < u64::MAX {
        x + 1
    } else {
        x
    }
}

impl BuildQueue {
    /// Records a successful build of the job at `i`: the row is deleted.
    fn record_success(&mut self, i: usize)
        requires
            old(self)@.wf(),
            i < old(self)@.jobs.len(),
        ensures
            final(self)@ == old(self)@.after_success(i as int),
            final(self)@.wf(),
    {
        self.jobs.remove(i);
        self.total_builds = sat_inc(self.total_builds);
        proof {
            assert(self@.jobs =~= old(self)@.jobs.remove(i as int));
            let v = old(self)@.after_success(i as int);
            assert forall|a: int, b: int|
                0 <= a < v.jobs.len() && 0 <= b < v.jobs.len() && a != b implies !key_matches(
                #[trigger] v.jobs[a],
                (#[trigger] v.jobs[b]).name,
                v.jobs[b].version,
            ) && v.jobs[a].id != v.jobs[b].id by {
                let a0 = if a < i as int { a } else { a + 1 };
                let b0 = if b < i as int { b } else { b + 1 };
                assert(v.jobs[a] == old(self)@.jobs[a0]);
                assert(v.jobs[b] == old(self)@.jobs[b0]);
            }
        }
    }

    /// Records a failed build of the job at `i`: its attempt count rises,
    /// and a job that just exhausted the budget counts as permanently
    /// failed.
    fn record_failure(&mut self, i: usize)
        requires
            old(self)@.wf(),
            old(self)@.pending_at(i as int),
        ensures
            final(self)@ == old(self)@.after_failure(i as int),
            final(self)@.wf(),
    {
        let a = self.jobs[i].attempt + 1;
        let mut nj = clone_crate(&self.jobs[i]);
        nj.attempt = a;
        self.jobs[i] = nj;
        self.total_builds = sat_inc(self.total_builds);
        if a >= self.max_attempts {
            self.failed_builds = sat_inc(self.failed_builds);
        }
        proof {
            let v = old(self)@.after_failure(i as int);
            assert(self@.jobs =~= v.jobs);
            assert forall|x: int, y: int|
                0 <= x < v.jobs.len() && 0 <= y < v.jobs.len() && x != y implies !key_matches(
                #[trigger] v.jobs[x],
                (#[trigger] v.jobs[y]).name,
                v.jobs[y].version,
            ) && v.jobs[x].id != v.jobs[y].id by {
                assert(v.jobs[x].name == old(self)@.jobs[x].name);
                assert(v.jobs[y].name == old(self)@.jobs[y].name);
                assert(v.jobs[x].id == old(self)@.jobs[x].id);
                assert(v.jobs[y].id == old(self)@.jobs[y].id);
            }
        }
    }

    /// Hands the next pending job to `f`, then records the outcome.
    ///
    /// The job selected is the least pending one under the selection
    /// order. When no job is pending the callback is never invoked and the
    /// queue is untouched; that is not an error. A callback failure is
    /// absorbed into the job's attempt count, never propagated.
    pub fn process_next_crate<E, F: FnOnce(&QueuedCrate) -> Result<(), E>>(&mut self, f: F) -> (r:
        Result<(), QueueError>)
        requires
            old(self)@.wf(),
            forall|j: &QueuedCrate| #[trigger] call_requires(f, (j,)),
        ensures
            r is Ok,
            final(self)@.wf(),
            old(self)@.pending_count() == 0 ==> final(self)@ == old(self)@,
            old(self)@.pending_count() > 0 ==> exists|i: int, jr: &QueuedCrate, res: Result<(), E>|
                #![trigger old(self)@.min_pending_at(i), call_ensures(f, (jr,), res)]
                {
                    &&& old(self)@.min_pending_at(i)
                    &&& jr@ == old(self)@.jobs[i]
                    &&& call_ensures(f, (jr,), res)
                    &&& match res {
                        Ok(_) => final(self)@ == old(self)@.after_success(i),
                        Err(_) => final(self)@ == old(self)@.after_failure(i),
                    }
                },
    {
        proof {
            lemma_pending_count_zero(old(self)@.jobs, old(self)@.max_attempts);
        }
        let idx = match self.next_pending_index() {
            None => {
                proof {
                    assert forall|k: int| 0 <= k < old(self)@.jobs.len() implies (#[trigger] old(
                        self,
                    )@.jobs[k]).attempt >= old(self)@.max_attempts by {
                        assert(!old(self)@.pending_at(k));
                    }
                }
                return Ok(());
            },
            Some(i) => i,
        };
        proof {
            assert(old(self)@.jobs[idx as int].attempt < old(self)@.max_attempts);
        }
        let jref = &self.jobs[idx];
        let ghost gi = idx as int;
        let ghost gjr = jref;
        let res = f(jref);
        let ghost gres = res;
        match res {
            Ok(_) => {
                self.record_success(idx);
            },
            Err(_) => {
                self.record_failure(idx);
            },
        }
        proof {
            assert(old(self)@.min_pending_at(gi));
            assert(gjr@ == old(self)@.jobs[gi]);
            assert(call_ensures(f, (gjr,), gres));
        }
        Ok(())
    }

    /// Builds the top job from the queue. Returns whether a job was found,
    /// whatever became of the build itself.
    ///
    /// The caller supplies the opaque environment operations: a toolchain
    /// update that reports whether anything changed, a cache purge run
    /// only after a change, the build itself, and the sleep used between
    /// retries. The two maintenance operations are retried up to three
    /// times each with exponential backoff; when one still fails, the
    /// whole queue is paused and the selected job is charged a failed
    /// attempt, because a broken build environment serves no job.
    pub fn build_next_queue_package<E, U, C, B, S>(
        &mut self,
        update_toolchain: U,
        purge_caches: C,
        build_package: B,
        sleep: S,
    ) -> (r: Result<bool, QueueError>) where
        U: Fn() -> Result<bool, E>,
        C: Fn() -> Result<(), E>,
        B: Fn(&str, &str, PackageKind) -> Result<(), E>,
        S: Fn(u64) + Copy,
        requires
            old(self)@.wf(),
            call_requires(update_toolchain, ()),
            call_requires(purge_caches, ()),
            forall|n: &str, v: &str, k: PackageKind| #[trigger] call_requires(
                build_package,
                (n, v, k),
            ),
            forall|d: u64| #[trigger] call_requires(sleep, (d,)),
        ensures
            final(self)@.wf(),
            r matches Ok(b) && b == (old(self)@.pending_count() > 0),
            old(self)@.pending_count() == 0 ==> final(self)@ == old(self)@,
            old(self)@.pending_count() > 0 ==> exists|i: int|
                #![trigger old(self)@.min_pending_at(i)]
                {
                    &&& old(self)@.min_pending_at(i)
                    &&& ({
                        ||| (((exists|e: E| #[trigger] call_ensures(update_toolchain, (), Err(e)))
                            || (exists|e: E| #[trigger] call_ensures(purge_caches, (), Err(e))))
                            && final(self)@ == old(self)@.after_failure(i).with_locked(true))
                        ||| exists|nr: &str, vr: &str, kv: PackageKind, res: Result<(), E>|
                            #![trigger call_ensures(build_package, (nr, vr, kv), res)]
                            {
                                &&& nr@ == old(self)@.jobs[i].name
                                &&& vr@ == old(self)@.jobs[i].version
                                &&& kv@ == old(self)@.jobs[i].registry
                                &&& call_ensures(build_package, (nr, vr, kv), res)
                                &&& match res {
                                    Ok(_) => final(self)@ == old(self)@.after_success(i),
                                    Err(_) => final(self)@ == old(self)@.after_failure(i),
                                }
                            }
                    })
                },
    {
        proof {
            lemma_pending_count_zero(old(self)@.jobs, old(self)@.max_attempts);
        }
        let idx = match self.next_pending_index() {
            None => {
                proof {
                    assert forall|k: int| 0 <= k < old(self)@.jobs.len() implies (#[trigger] old(
                        self,
                    )@.jobs[k]).attempt >= old(self)@.max_attempts by {
                        assert(!old(self)@.pending_at(k));
                    }
                }
                return Ok(false);
            },
            Some(i) => i,
        };
        let ghost gi = idx as int;
        proof {
            assert(old(self)@.jobs[gi].attempt < old(self)@.max_attempts);
        }
        let kind = match &self.jobs[idx].registry {
            Some(r) => PackageKind::Registry(r.clone()),
            None => PackageKind::CratesIo,
        };
        proof {
            assert(kind@ == old(self)@.jobs[gi].registry);
        }
        let toolchain_res = crate::retry::retry(update_toolchain, 3, sleep);
        let ghost gtool = toolchain_res;
        match toolchain_res {
            Err(_) => {
                self.record_failure(idx);
                let _ = self.lock();
                proof {
                    assert(gtool matches Err(e) && call_ensures(update_toolchain, (), Err(e)));
                }
                return Ok(true);
            },
            Ok(changed) => {
                if changed {
                    let purge_res = crate::retry::retry(purge_caches, 3, sleep);
                    let ghost gpurge = purge_res;
                    if purge_res.is_err() {
                        self.record_failure(idx);
                        let _ = self.lock();
                        proof {
                            assert(gpurge matches Err(e) && call_ensures(purge_caches, (), Err(e)));
                        }
                        return Ok(true);
                    }
                }
            },
        }
        let nref = self.jobs[idx].name.as_str();
        let vref = self.jobs[idx].version.as_str();
        let ghost gn = nref;
        let ghost gv = vref;
        let ghost gk = kind;
        let res = build_package(nref, vref, kind);
        let ghost gres = res;
        match res {
            Ok(_) => {
                self.record_success(idx);
            },
            Err(_) => {
                self.record_failure(idx);
            },
        }
        proof {
            assert(call_ensures(build_package, (gn, gv, gk), gres));
        }
        Ok(true)
    }

    /// Index of the pending job that runs next, if any job is pending.
    fn next_pending_index(&self) -> (r: Option<usize>)
        ensures
            match r {
                Some(i) => self@.min_pending_at(i as int),
                None => forall|k: int| !(#[trigger] self@.pending_at(k)),
            },
    {
        let mut best: Option<usize> = None;
        let mut i: usize = 0;
        while i < self.jobs.len()
            invariant
                i <= self.jobs@.len(),
                match best {
                    Some(b) => b < i && self@.pending_at(b as int) && forall|k: int|
                        0 <= k < i && #[trigger] self@.pending_at(k) ==> order_le(
                            self@.jobs[b as int],
                            self@.jobs[k],
                        ),
                    None => forall|k: int| 0 <= k < i ==> !(#[trigger] self@.pending_at(k)),
                },
            decreases self.jobs@.len() - i,
        {
            if self.jobs[i].attempt < self.max_attempts {
                match best {
                    None => {
                        best = Some(i);
                    },
                    Some(b) => {
                        if comes_before(&self.jobs[i], &self.jobs[b]) {
                            best = Some(i);
                        }
                    },
                }
            }
            i += 1;
        }
        best
    }
}

} // verus!
