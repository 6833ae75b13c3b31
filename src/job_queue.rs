use vstd::prelude::*;

use crate::dependency_queue::DependencyQueue;
use crate::freshness::{join_all, Freshness};
use crate::graph::{
    dependencies,
    predecessors,
    GraphError,
    Key,
    KeyV,
    Package,
    PackageId,
    PackageSet,
    PkgV,
    Resolve,
    TargetStage,
};

verus! {

broadcast use vstd::seq_lib::group_to_multiset_ensures;

/// Bookkeeping for a key whose jobs are in flight.
pub struct PendingBuild {
    /// Jobs not completed yet (one for a stage without jobs).
    pub amt: usize,
    /// Join of the inherited freshness and the completions received so far.
    pub fresh: Freshness,
}

/// Why a unit of work could not be added to the build.
pub enum JobQueueError {
    /// The graph around the key is inconsistent.
    Graph(GraphError),
    /// The key was enqueued before.
    DuplicateKey(Key),
}

/// The status line to show when a key is dispatched.
#[derive(Clone, Copy, Debug, PartialEq, Eq, Structural)]
pub enum StatusLine {
    /// Nothing to show.
    Silent,
    /// "Fresh <pkg>", shown in verbose mode only.
    Fresh,
    /// "Compiling <pkg>", always shown.
    Compiling,
}

/// A key handed to the workers: its jobs, each with the freshness it is run
/// with, and whether a synthetic completion stands in for an empty job list.
pub struct Dispatch<J> {
    pub key: Key,
    pub fresh: Freshness,
    pub status: StatusLine,
    pub jobs: Vec<(J, Freshness)>,
    pub effective: Vec<Freshness>,
    pub synthetic: bool,
}

/// What a completion message did to the build.
#[derive(Clone, Copy, Debug, PartialEq, Eq, Structural)]
pub enum Completion {
    /// The key still has jobs in flight.
    Progress,
    /// The key's last job completed; it was finished with this freshness.
    Finished(Freshness),
    /// A job failed: this many completions are still to be drained.
    Failed(usize),
    /// A completion drained after a failure: this many are still to come.
    Drained(usize),
    /// The message matches no job in flight; nothing changed.
    Unknown,
}

/// The scheduling state of a build: the dependency queue of (package, stage)
/// keys, the jobs in flight, the running freshness of each package and the
/// packages whose start line is not shown.
pub struct JobQueue<J> {
    queue: DependencyQueue<Vec<(J, Freshness)>>,
    resolve: Resolve,
    packages: PackageSet,
    active: usize,
    pending: Vec<(Key, PendingBuild)>,
    state: Vec<(PackageId, Freshness)>,
    ignored: Vec<PackageId>,
    failed: bool,
}

/// The total number of jobs in flight over the entries of `s`.
pub open spec fn sum_amt(s: Seq<(KeyV, nat, Freshness)>) -> nat
    decreases s.len(),
{
    if s.len() == 0 {
        0
    } else {
        sum_amt(s.drop_last()) + s.last().1
    }
}

/// The freshness last recorded for `p` in `s`, if any.
pub open spec fn state_of(s: Seq<(PkgV, Freshness)>, p: PkgV) -> Option<Freshness>
    decreases s.len(),
{
    if s.len() == 0 {
        None
    } else if s.last().0 == p {
        Some(s.last().1)
    } else {
        state_of(s.drop_last(), p)
    }
}

/// The position of the first entry for `k` in `s` from position `i` on.
pub open spec fn pending_from(s: Seq<(KeyV, nat, Freshness)>, k: KeyV, i: int) -> Option<int>
    decreases s.len() - i,
{
    if i < 0 || i >= s.len() {
        None
    } else if s[i].0 == k {
        Some(i)
    } else {
        pending_from(s, k, i + 1)
    }
}

/// The position of the entry for `k` in `s`, if any.
pub open spec fn pending_index(s: Seq<(KeyV, nat, Freshness)>, k: KeyV) -> Option<int> {
    pending_from(s, k, 0)
}

/// The freshness each job of a list declares.
pub open spec fn declared<J>(jobs: Seq<(J, Freshness)>) -> Seq<Freshness> {
    jobs.map_values(|j: (J, Freshness)| j.1)
}

/// The status line of a key at `stage` that inherits `inherited`, for a
/// package whose running freshness is `package` and which may be ignored.
pub open spec fn status_for(
    stage: TargetStage,
    ignored: bool,
    inherited: Freshness,
    package: Freshness,
) -> StatusLine {
    if stage == TargetStage::Start && !ignored {
        if inherited.join(package) == Freshness::Fresh {
            StatusLine::Fresh
        } else {
            StatusLine::Compiling
        }
    } else {
        StatusLine::Silent
    }
}

proof fn lemma_sum_update(s: Seq<(KeyV, nat, Freshness)>, i: int, e: (KeyV, nat, Freshness))
    requires
        0 <= i < s.len(),
    ensures
        sum_amt(s.update(i, e)) + s[i].1 == sum_amt(s) + e.1,
    decreases s.len(),
{
    if i == s.len() - 1 {
        assert(s.update(i, e).drop_last() =~= s.drop_last());
    } else {
        assert(s.update(i, e).drop_last() =~= s.drop_last().update(i, e));
        lemma_sum_update(s.drop_last(), i, e);
    }
}

proof fn lemma_sum_remove(s: Seq<(KeyV, nat, Freshness)>, i: int)
    requires
        0 <= i < s.len(),
    ensures
        sum_amt(s.remove(i)) + s[i].1 == sum_amt(s),
    decreases s.len(),
{
    if i == s.len() - 1 {
        assert(s.remove(i) =~= s.drop_last());
    } else {
        assert(s.remove(i).drop_last() =~= s.drop_last().remove(i));
        lemma_sum_remove(s.drop_last(), i);
    }
}

proof fn lemma_pending_from(s: Seq<(KeyV, nat, Freshness)>, k: KeyV, j: int)
    requires
        0 <= j,
    ensures
        pending_from(s, k, j) matches Some(i) ==> j <= i < s.len() && s[i].0 == k,
    decreases s.len() - j,
{
    if j < s.len() && s[j].0 != k {
        lemma_pending_from(s, k, j + 1);
    }
}

/// The keys of pending entries.
pub open spec fn pending_keys(s: Seq<(KeyV, nat, Freshness)>) -> Seq<KeyV> {
    s.map_values(|e: (KeyV, nat, Freshness)| e.0)
}

impl<J> JobQueue<J> {
    pub closed spec fn queue(&self) -> DependencyQueue<Vec<(J, Freshness)>> {
        self.queue
    }

    pub closed spec fn resolve_view(&self) -> Seq<(PkgV, Seq<PkgV>)> {
        self.resolve@
    }

    pub closed spec fn packages_view(&self) -> Seq<(PkgV, Seq<(Seq<char>, bool)>)> {
        self.packages@
    }

    /// The number of jobs in flight.
    pub closed spec fn active(&self) -> nat {
        self.active as nat
    }

    /// The keys in flight, each with its outstanding jobs and freshness.
    pub closed spec fn pending_view(&self) -> Seq<(KeyV, nat, Freshness)> {
        self.pending@.map_values(|e: (Key, PendingBuild)| (e.0@, e.1.amt as nat, e.1.fresh))
    }

    /// The record of package freshness; the last entry for a package counts.
    pub closed spec fn state_view(&self) -> Seq<(PkgV, Freshness)> {
        self.state@.map_values(|e: (PackageId, Freshness)| (e.0@, e.1))
    }

    pub closed spec fn ignored_view(&self) -> Seq<PkgV> {
        self.ignored@.map_values(|p: PackageId| p@)
    }

    /// Whether a job has failed, so that the build only drains.
    pub closed spec fn failed(&self) -> bool {
        self.failed
    }

    pub fn new(resolve: Resolve, packages: PackageSet) -> (r: Self)
        ensures
            r.wf(),
            r.resolve_view() == resolve@,
            r.packages_view() == packages@,
            r.active() == 0,
            r.pending_view() == Seq::<(KeyV, nat, Freshness)>::empty(),
            r.state_view() == Seq::<(PkgV, Freshness)>::empty(),
            r.ignored_view() == Seq::<PkgV>::empty(),
            !r.failed(),
            r.queue().waiting_view().len() == 0,
            r.queue().spec_len() == 0,
    {
        let r = JobQueue {
            queue: DependencyQueue::new(),
            resolve,
            packages,
            active: 0,
            pending: Vec::new(),
            state: Vec::new(),
            ignored: Vec::new(),
            failed: false,
        };
        proof {
            assert(r.pending_view() =~= Seq::<(KeyV, nat, Freshness)>::empty());
            assert(pending_keys(r.pending_view()) =~= Seq::<KeyV>::empty());
            assert(r.state_view() =~= Seq::<(PkgV, Freshness)>::empty());
            assert(r.ignored_view() =~= Seq::<PkgV>::empty());
            assert(r.queue().values().len() == 0);
        }
        r
    }

    /// The number of jobs in flight.
    pub fn active_jobs(&self) -> (r: usize)
        ensures
            r == self.active(),
    {
        self.active
    }

    /// Whether every enqueued key has been finished.
    pub fn is_finished(&self) -> (r: bool)
        ensures
            r == (self.queue().spec_len() == 0),
    {
        self.queue.is_empty()
    }

    /// The freshness last recorded for package `p`, if any.
    fn state_lookup(&self, p: &PackageId) -> (r: Option<Freshness>)
        ensures
            r == state_of(self.state_view(), p@),
    {
        let ghost sv = self.state_view();
        let mut i: usize = self.state.len();
        proof {
            assert(sv.subrange(0, i as int) =~= sv);
        }
        while i > 0
            invariant
                i <= self.state.len(),
                sv == self.state_view(),
                state_of(sv, p@) == state_of(sv.subrange(0, i as int), p@),
            decreases i,
        {
            proof {
                assert(sv.subrange(0, i as int).drop_last() =~= sv.subrange(0, i - 1));
            }
            if self.state[i - 1].0.same(p) {
                return Some(self.state[i - 1].1);
            }
            i = i - 1;
        }
        None
    }

    /// Whether package `p` is ignored.
    fn ignored_contains(&self, p: &PackageId) -> (r: bool)
        ensures
            r == self.is_ignored(p@),
    {
        let ghost iv = self.ignored_view();
        let mut i: usize = 0;
        while i < self.ignored.len()
            invariant
                i <= self.ignored.len(),
                iv == self.ignored_view(),
                forall|j: int| 0 <= j < i ==> #[trigger] iv[j] != p@,
            decreases self.ignored.len() - i,
        {
            if self.ignored[i].same(p) {
                assert(iv[i as int] == p@);
                return true;
            }
            i = i + 1;
        }
        false
    }

    /// The position of the pending entry for `k`, if any.
    fn pending_find(&self, k: &Key) -> (r: Option<usize>)
        ensures
            r matches Some(i) ==> pending_index(self.pending_view(), k@) == Some(i as int),
            r is None ==> pending_index(self.pending_view(), k@) is None,
    {
        let ghost pv = self.pending_view();
        let mut i: usize = 0;
        while i < self.pending.len()
            invariant
                i <= self.pending.len(),
                pv == self.pending_view(),
                pending_index(pv, k@) == pending_from(pv, k@, i as int),
            decreases self.pending.len() - i,
        {
            if self.pending[i].0.same(k) {
                return Some(i);
            }
            i = i + 1;
        }
        None
    }

    /// Adds the jobs of package `pkg` at `stage` to the build, with the
    /// freshness each declares; the package's running freshness takes in
    /// their join. A key enqueued before, or whose neighbourhood in the graph
    /// is inconsistent, is refused and nothing changes.
    pub fn enqueue(&mut self, pkg: &Package, stage: TargetStage, jobs: Vec<(J, Freshness)>) -> (r:
        Result<(), JobQueueError>)
        requires
            old(self).wf(),
            jobs@.len() <= usize::MAX / 2,
        ensures
            final(self).wf(),
            old(self).queue().known((pkg.id@, stage)) ==> (r matches Err(
                JobQueueError::DuplicateKey(k),
            ) && k@ == (pkg.id@, stage)),
            !old(self).queue().known((pkg.id@, stage)) ==> match predecessors(
                old(self).resolve_view(),
                old(self).packages_view(),
                (pkg.id@, stage),
            ) {
                Err(f) => r matches Err(JobQueueError::Graph(e)) && e@ == f,
                Ok(preds) => {
                    &&& r is Ok
                    &&& final(self).queue().waiting_view() == old(self).queue().waiting_view().push(
                        ((pkg.id@, stage), preds, Freshness::Fresh),
                    )
                    &&& final(self).queue().values() == old(self).queue().values().push(jobs)
                    &&& final(self).queue().pending_view() == old(self).queue().pending_view()
                    &&& final(self).queue().finished_view() == old(self).queue().finished_view()
                    &&& final(self).state_view() == old(self).state_view().push(
                        (
                            pkg.id@,
                            old(self).package_fresh(pkg.id@).join(
                                join_all(Freshness::Fresh, declared(jobs@)),
                            ),
                        ),
                    )
                },
            },
            r is Err ==> *final(self) == *old(self),
            final(self).active() == old(self).active(),
            final(self).pending_view() == old(self).pending_view(),
            final(self).ignored_view() == old(self).ignored_view(),
            final(self).failed() == old(self).failed(),
            final(self).resolve_view() == old(self).resolve_view(),
            final(self).packages_view() == old(self).packages_view(),
    {
        let key = Key::new(pkg.id.copy(), stage);
        if self.queue.is_known(&key) {
            return Err(JobQueueError::DuplicateKey(key));
        }
        let preds = match dependencies(&key, &self.resolve, &self.packages) {
            Ok(p) => p,
            Err(e) => {
                return Err(JobQueueError::Graph(e));
            },
        };
        let ghost dv = declared(jobs@);
        let mut acc = Freshness::Fresh;
        let mut i: usize = 0;
        proof {
            assert(dv.subrange(0, 0) =~= Seq::<Freshness>::empty());
        }
        while i < jobs.len()
            invariant
                i <= jobs.len(),
                dv == declared(jobs@),
                acc == join_all(Freshness::Fresh, dv.subrange(0, i as int)),
            decreases jobs.len() - i,
        {
            proof {
                assert(dv.subrange(0, i + 1).drop_last() =~= dv.subrange(0, i as int));
            }
            acc = acc.combine(jobs[i].1);
            i = i + 1;
        }
        proof {
            assert(dv.subrange(0, jobs.len() as int) =~= dv);
        }
        let prev = match self.state_lookup(&pkg.id) {
            Some(f) => f,
            None => Freshness::Fresh,
        };
        self.state.push((pkg.id.copy(), prev.combine(acc)));
        let ghost jv = jobs;
        let added = self.queue.enqueue(Freshness::Fresh, key, preds, jobs);
        proof {
            assert(added);
            assert(self.state_view() =~= old(self).state_view().push(
                (pkg.id@, old(self).package_fresh(pkg.id@).join(acc)),
            ));
            assert forall|i: int| 0 <= i < self.queue().values().len() implies #[trigger] self.queue().values()[i].len()
                <= usize::MAX / 2 by {
                if i < old(self).queue().values().len() {
                    assert(self.queue().values()[i] == old(self).queue().values()[i]);
                }
            }
        }
        Ok(())
    }

    /// Takes the next ready key and records its jobs as in flight: the key
    /// inherits the join of its predecessors' freshness, each job runs with
    /// the join of its own and that, a stage without jobs counts as one job
    /// completed by a synthetic message, and a start line is chosen. Nothing
    /// is dispatched once a job has failed, or while no key is ready.
    pub fn next_dispatch(&mut self) -> (r: Option<Dispatch<J>>)
        requires
            old(self).wf(),
            old(self).active() <= usize::MAX / 2,
        ensures
            final(self).wf(),
            old(self).failed() ==> r is None,
            r is None ==> *final(self) == *old(self),
            !old(self).failed() && r is None ==> forall|i: int|
                0 <= i < old(self).queue().waiting_view().len() ==> !#[trigger] old(
                    self,
                ).queue().ready(i),
            r matches Some(d) ==> {
                let amt: nat = if d.jobs@.len() == 0 {
                    1
                } else {
                    d.jobs@.len()
                };
                &&& !old(self).failed()
                &&& exists|i: int|
                    {
                        &&& #[trigger] old(self).queue().first_ready(i)
                        &&& d.key@ == old(self).queue().waiting_view()[i].0
                        &&& d.fresh == old(self).queue().inherited(i)
                        &&& d.jobs == old(self).queue().values()[i]
                        &&& final(self).queue().waiting_view() == old(
                            self,
                        ).queue().waiting_view().remove(i)
                        &&& final(self).queue().values() == old(self).queue().values().remove(i)
                    }
                &&& final(self).queue().pending_view() == old(self).queue().pending_view().push(
                    d.key@,
                )
                &&& final(self).queue().finished_view() == old(self).queue().finished_view()
                &&& d.effective@ == declared(d.jobs@).map_values(|f: Freshness| f.join(d.fresh))
                &&& d.synthetic == (d.jobs@.len() == 0)
                &&& d.status == status_for(
                    d.key@.1,
                    old(self).is_ignored(d.key@.0),
                    d.fresh,
                    old(self).package_fresh(d.key@.0),
                )
                &&& final(self).active() == old(self).active() + amt
                &&& final(self).pending_view() == old(self).pending_view().push((d.key@, amt, d.fresh))
                &&& final(self).state_view() == old(self).state_view()
                &&& final(self).ignored_view() == old(self).ignored_view()
                &&& final(self).failed() == old(self).failed()
                &&& final(self).resolve_view() == old(self).resolve_view()
                &&& final(self).packages_view() == old(self).packages_view()
            },
    {
        if self.failed {
            return None;
        }
        let ghost q0 = self.queue;
        let (fresh, key, jobs) = match self.queue.dequeue() {
            None => {
                return None;
            },
            Some(t) => t,
        };
        proof {
            let i = choose|i: int|
                {
                    &&& #[trigger] q0.first_ready(i)
                    &&& key@ == q0.waiting_view()[i].0
                    &&& fresh == q0.inherited(i)
                    &&& jobs == q0.values()[i]
                    &&& self.queue.waiting_view() == q0.waiting_view().remove(i)
                    &&& self.queue.values() == q0.values().remove(i)
                    &&& self.queue.pending_view() == q0.pending_view().push(key@)
                };
            assert(q0 == old(self).queue());
            q0.lemma_values_len();
            self.queue.lemma_values_len();
            assert(old(self).queue().values()[i].len() <= usize::MAX / 2);
            assert forall|j: int| 0 <= j < self.queue().values().len() implies #[trigger] self.queue().values()[j].len()
                <= usize::MAX / 2 by {
                if j < i {
                    assert(self.queue().values()[j] == q0.values()[j]);
                } else {
                    assert(self.queue().values()[j] == q0.values()[j + 1]);
                }
            }
        }
        let n = jobs.len();
        let amt: usize = if n == 0 {
            1
        } else {
            n
        };
        let status = if key.stage == TargetStage::Start && !self.ignored_contains(&key.pkg) {
            let pf = match self.state_lookup(&key.pkg) {
                Some(f) => f,
                None => Freshness::Fresh,
            };
            match fresh.combine(pf) {
                Freshness::Fresh => StatusLine::Fresh,
                Freshness::Dirty => StatusLine::Compiling,
            }
        } else {
            StatusLine::Silent
        };
        let ghost pv0 = self.pending_view();
        self.active = self.active + amt;
        self.pending.push((key.copy(), PendingBuild { amt, fresh }));
        proof {
            assert(self.pending_view() =~= pv0.push((key@, amt as nat, fresh)));
            assert(self.pending_view().drop_last() =~= pv0);
            assert(pending_keys(self.pending_view()) =~= pending_keys(pv0).push(key@));
            assert(pending_keys(self.pending_view()).to_multiset() =~= pending_keys(
                pv0,
            ).to_multiset().insert(key@));
            assert(self.queue().pending_view().to_multiset() =~= q0.pending_view().to_multiset().insert(
                key@,
            ));
        }
        let mut effective: Vec<Freshness> = Vec::new();
        let mut j: usize = 0;
        while j < jobs.len()
            invariant
                j <= jobs.len(),
                effective@ =~= declared(jobs@).map_values(|f: Freshness| f.join(fresh)).subrange(
                    0,
                    j as int,
                ),
            decreases jobs.len() - j,
        {
            effective.push(jobs[j].1.combine(fresh));
            j = j + 1;
        }
        proof {
            assert(effective@ =~= declared(jobs@).map_values(|f: Freshness| f.join(fresh)));
        }
        Some(Dispatch { key, fresh, status, jobs, effective, synthetic: n == 0 })
    }

    /// Takes in the completion of one job of `key`, which ran with freshness
    /// `fresh` and succeeded when `ok`. A success joins `fresh` into the key's
    /// freshness, and the key's last completion finishes it in the dependency
    /// queue with that join. A failure stops all dispatching; from then on
    /// each completion is only counted, until none is in flight.
    pub fn complete(&mut self, key: &Key, fresh: Freshness, ok: bool) -> (r: Completion)
        requires
            old(self).wf(),
        ensures
            final(self).wf(),
            final(self).state_view() == old(self).state_view(),
            final(self).ignored_view() == old(self).ignored_view(),
            final(self).resolve_view() == old(self).resolve_view(),
            final(self).packages_view() == old(self).packages_view(),
            pending_index(old(self).pending_view(), key@) is None ==> r == Completion::Unknown
                && *final(self) == *old(self),
            pending_index(old(self).pending_view(), key@) matches Some(i) ==> {
                let e = old(self).pending_view()[i];
                let left = (e.1 - 1) as nat;
                &&& 0 <= i < old(self).pending_view().len()
                &&& e.0 == key@
                &&& old(self).active() >= 1
                &&& final(self).active() == old(self).active() - 1
                &&& if ok && !old(self).failed() {
                    let nf = e.2.join(fresh);
                    &&& !final(self).failed()
                    &&& if left == 0 {
                        &&& r == Completion::Finished(nf)
                        &&& final(self).pending_view() == old(self).pending_view().remove(i)
                        &&& final(self).queue().finished_view() == old(
                            self,
                        ).queue().finished_view().push((key@, nf))
                        &&& exists|j: int|
                            0 <= j < old(self).queue().pending_view().len() && #[trigger] old(
                                self,
                            ).queue().pending_view()[j] == key@ && final(self).queue().pending_view()
                                == old(self).queue().pending_view().remove(j)
                        &&& final(self).queue().waiting_view() == old(self).queue().waiting_view()
                        &&& final(self).queue().values() == old(self).queue().values()
                    } else {
                        &&& r == Completion::Progress
                        &&& final(self).pending_view() == old(self).pending_view().update(
                            i,
                            (key@, left, nf),
                        )
                        &&& final(self).queue() == old(self).queue()
                    }
                } else {
                    &&& final(self).failed()
                    &&& r == if old(self).failed() {
                        Completion::Drained((old(self).active() - 1) as usize)
                    } else {
                        Completion::Failed((old(self).active() - 1) as usize)
                    }
                    &&& final(self).queue() == old(self).queue()
                    &&& final(self).pending_view() == if left == 0 {
                        old(self).pending_view().remove(i)
                    } else {
                        old(self).pending_view().update(i, (key@, left, e.2))
                    }
                }
            },
    {
        let ghost pv = self.pending_view();
        let ghost qp = self.queue.pending_view();
        let i = match self.pending_find(key) {
            None => {
                return Completion::Unknown;
            },
            Some(i) => i,
        };
        proof {
            lemma_pending_from(pv, key@, 0);
            lemma_sum_remove(pv, i as int);
            assert(pv[i as int].1 >= 1);
            assert(pending_keys(pv)[i as int] == key@);
            assert(pending_keys(pv).to_multiset().count(key@) > 0);
            assert(qp.to_multiset().count(key@) > 0);
        }
        let amt = self.pending[i].1.amt;
        let pf = self.pending[i].1.fresh;
        let was_failed = self.failed;
        self.active = self.active - 1;
        let left = amt - 1;
        if ok && !self.failed {
            let nf = pf.combine(fresh);
            if left == 0 {
                self.pending.remove(i);
                let done = self.queue.finish(key, nf);
                proof {
                    assert(done);
                    assert(self.pending_view() =~= pv.remove(i as int));
                    assert(pending_keys(self.pending_view()) =~= pending_keys(pv).remove(i as int));
                    let j = choose|j: int|
                        0 <= j < qp.len() && #[trigger] qp[j] == key@ && self.queue().pending_view()
                            == qp.remove(j);
                    assert(self.queue().pending_view().to_multiset() =~= qp.to_multiset().remove(key@));
                    assert(pending_keys(self.pending_view()).to_multiset() =~= pending_keys(
                        pv,
                    ).to_multiset().remove(key@));
                    assert(self.queue().values() == old(self).queue().values());
                }
                Completion::Finished(nf)
            } else {
                self.pending.set(i, (key.copy(), PendingBuild { amt: left, fresh: nf }));
                proof {
                    assert(self.pending_view() =~= pv.update(i as int, (key@, left as nat, nf)));
                    lemma_sum_update(pv, i as int, (key@, left as nat, nf));
                    assert(pending_keys(self.pending_view()) =~= pending_keys(pv));
                }
                Completion::Progress
            }
        } else {
            self.failed = true;
            if left == 0 {
                self.pending.remove(i);
                proof {
                    assert(self.pending_view() =~= pv.remove(i as int));
                    assert(pending_keys(self.pending_view()) =~= pending_keys(pv).remove(i as int));
                    assert(pending_keys(self.pending_view()).to_multiset() =~= pending_keys(
                        pv,
                    ).to_multiset().remove(key@));
                }
            } else {
                self.pending.set(i, (key.copy(), PendingBuild { amt: left, fresh: pf }));
                proof {
                    assert(self.pending_view() =~= pv.update(i as int, (key@, left as nat, pf)));
                    lemma_sum_update(pv, i as int, (key@, left as nat, pf));
                    assert(pending_keys(self.pending_view()) =~= pending_keys(pv));
                }
            }
            if was_failed {
                Completion::Drained(self.active)
            } else {
                Completion::Failed(self.active)
            }
        }
    }

    /// Marks package `pkg` ignored: its start line is not shown. It still
    /// takes part in the build.
    pub fn ignore(&mut self, pkg: &Package)
        requires
            old(self).wf(),
        ensures
            final(self).wf(),
            final(self).ignored_view() == old(self).ignored_view().push(pkg.id@),
            forall|p: PkgV| #[trigger] final(self).is_ignored(p) == (old(self).is_ignored(p) || p == pkg.id@),
            final(self).queue() == old(self).queue(),
            final(self).active() == old(self).active(),
            final(self).pending_view() == old(self).pending_view(),
            final(self).state_view() == old(self).state_view(),
            final(self).failed() == old(self).failed(),
    {
        self.ignored.push(pkg.id.copy());
        proof {
            let iv = old(self).ignored_view();
            assert(self.ignored_view() =~= iv.push(pkg.id@));
            assert forall|p: PkgV| #[trigger] self.is_ignored(p) == (old(self).is_ignored(p) || p == pkg.id@) by {
                if iv.contains(p) {
                    let j = choose|j: int| 0 <= j < iv.len() && iv[j] == p;
                    assert(iv.push(pkg.id@)[j] == p);
                }
                if p == pkg.id@ {
                    assert(iv.push(pkg.id@)[iv.len() as int] == p);
                }
                if iv.push(pkg.id@).contains(p) && p != pkg.id@ {
                    let j = choose|j: int| 0 <= j < iv.len() + 1 && iv.push(pkg.id@)[j] == p;
                    assert(iv[j] == p);
                }
            }
        }
    }

    /// The running join of every job freshness declared for package `p`.
    pub open spec fn package_fresh(&self, p: PkgV) -> Freshness {
        match state_of(self.state_view(), p) {
            Some(f) => f,
            None => Freshness::Fresh,
        }
    }

    pub open spec fn is_ignored(&self, p: PkgV) -> bool {
        self.ignored_view().contains(p)
    }

    /// The jobs in flight are those counted by the pending entries, each entry
    /// has a job outstanding, and each is a key the dependency queue has
    /// handed out and not seen finished.
    pub open spec fn wf(&self) -> bool {
        &&& self.active() == sum_amt(self.pending_view())
        &&& forall|i: int|
            0 <= i < self.pending_view().len() ==> #[trigger] self.pending_view()[i].1 >= 1
        &&& pending_keys(self.pending_view()).to_multiset().subset_of(
            self.queue().pending_view().to_multiset(),
        )
        &&& forall|i: int|
            0 <= i < self.queue().values().len() ==> #[trigger] self.queue().values()[i].len()
                <= usize::MAX / 2
    }
}

impl<J> JobQueue<J> {
    /// With nothing in flight there is no pending entry.
    pub proof fn lemma_idle(&self)
        requires
            self.wf(),
            self.active() == 0,
        ensures
            self.pending_view().len() == 0,
    {
        if self.pending_view().len() > 0 {
            let pv = self.pending_view();
            lemma_sum_remove(pv, 0);
            assert(pv[0].1 >= 1);
        }
    }

    /// Once every key is finished nothing is in flight and nothing is pending.
    pub proof fn lemma_conservation(&self)
        requires
            self.wf(),
            self.queue().spec_len() == 0,
        ensures
            self.active() == 0,
            self.pending_view().len() == 0,
    {
        broadcast use vstd::seq_lib::group_to_multiset_ensures;

        let pk = pending_keys(self.pending_view());
        if pk.len() > 0 {
            assert(pk.contains(pk[0]));
            assert(pk.to_multiset().count(pk[0]) > 0);
            assert(self.queue().pending_view().to_multiset().count(pk[0]) > 0);
            assert(self.queue().pending_view().contains(pk[0]));
        }
        assert(self.pending_view() =~= Seq::<(KeyV, nat, Freshness)>::empty());
    }
}

/// Ignoring a package silences its start line and changes no other line.
pub proof fn lemma_ignore_start_only(
    stage: TargetStage,
    inherited: Freshness,
    package: Freshness,
)
    ensures
        status_for(stage, true, inherited, package) == if stage == TargetStage::Start {
            StatusLine::Silent
        } else {
            status_for(stage, false, inherited, package)
        },
        stage != TargetStage::Start ==> status_for(stage, false, inherited, package)
            == StatusLine::Silent,
{
}

} // verus!
