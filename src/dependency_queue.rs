use vstd::prelude::*;

use crate::freshness::{join_all, Freshness};
use crate::graph::{Key, KeyV};

verus! {

/// A key waiting for its predecessors, with the freshness it starts from and
/// the value that travels with it.
pub struct Waiting<V> {
    pub key: Key,
    pub preds: Vec<Key>,
    pub fresh: Freshness,
    pub value: V,
}

/// A topological work queue over keys carrying values of type `V`.
///
/// Keys wait until every predecessor has been finished; a dequeued key is
/// pending until it is finished itself. Among ready keys the one enqueued
/// first is handed out first.
pub struct DependencyQueue<V> {
    waiting: Vec<Waiting<V>>,
    pending: Vec<Key>,
    finished: Vec<(Key, Freshness)>,
}

/// The freshness recorded for `k` in `fin` from position `i` on, if any.
pub open spec fn finished_from(fin: Seq<(KeyV, Freshness)>, k: KeyV, i: int) -> Option<Freshness>
    decreases fin.len() - i,
{
    if i < 0 || i >= fin.len() {
        None
    } else if fin[i].0 == k {
        Some(fin[i].1)
    } else {
        finished_from(fin, k, i + 1)
    }
}

/// The freshness that `k` was finished with, if it was.
pub open spec fn finished_of(fin: Seq<(KeyV, Freshness)>, k: KeyV) -> Option<Freshness> {
    finished_from(fin, k, 0)
}

/// Whether every key of `preds` has been finished.
pub open spec fn all_finished(fin: Seq<(KeyV, Freshness)>, preds: Seq<KeyV>) -> bool {
    forall|j: int| 0 <= j < preds.len() ==> finished_of(fin, #[trigger] preds[j]) is Some
}

/// The freshness that each key of `preds` was finished with.
pub open spec fn preds_fresh(fin: Seq<(KeyV, Freshness)>, preds: Seq<KeyV>) -> Seq<Freshness> {
    preds.map_values(|p: KeyV| finished_of(fin, p).unwrap())
}

impl<V> DependencyQueue<V> {
    /// The waiting keys in order of insertion, each with its predecessors and
    /// its initial freshness.
    pub closed spec fn waiting_view(&self) -> Seq<(KeyV, Seq<KeyV>, Freshness)> {
        self.waiting@.map_values(
            |w: Waiting<V>| (w.key@, w.preds@.map_values(|k: Key| k@), w.fresh),
        )
    }

    /// The values of the waiting keys, in the same order.
    pub closed spec fn values(&self) -> Seq<V> {
        self.waiting@.map_values(|w: Waiting<V>| w.value)
    }

    /// The keys handed out by `dequeue` and not finished yet.
    pub closed spec fn pending_view(&self) -> Seq<KeyV> {
        self.pending@.map_values(|k: Key| k@)
    }

    /// The finished keys with the freshness each was finished with.
    pub closed spec fn finished_view(&self) -> Seq<(KeyV, Freshness)> {
        self.finished@.map_values(|e: (Key, Freshness)| (e.0@, e.1))
    }

    /// There is one value for each waiting key.
    pub proof fn lemma_values_len(&self)
        ensures
            self.values().len() == self.waiting_view().len(),
    {
    }

    /// Whether the waiting key at position `i` has all predecessors finished.
    pub open spec fn ready(&self, i: int) -> bool {
        all_finished(self.finished_view(), self.waiting_view()[i].1)
    }

    /// The freshness that the waiting key at position `i` would inherit.
    pub open spec fn inherited(&self, i: int) -> Freshness {
        join_all(
            self.waiting_view()[i].2,
            preds_fresh(self.finished_view(), self.waiting_view()[i].1),
        )
    }

    /// Whether `k` is waiting, pending or finished.
    pub open spec fn known(&self, k: KeyV) -> bool {
        (exists|i: int| 0 <= i < self.waiting_view().len() && #[trigger] self.waiting_view()[i].0 == k)
            || self.pending_view().contains(k) || finished_of(self.finished_view(), k) is Some
    }

    /// The number of keys not finished yet.
    pub open spec fn spec_len(&self) -> nat {
        self.waiting_view().len() + self.pending_view().len()
    }

    /// Whether the waiting key at position `i` is the first ready one.
    pub open spec fn first_ready(&self, i: int) -> bool {
        0 <= i < self.waiting_view().len() && self.ready(i) && forall|j: int|
            0 <= j < i ==> !#[trigger] self.ready(j)
    }

    /// Whether `k` is waiting, pending or finished.
    pub fn is_known(&self, k: &Key) -> (r: bool)
        ensures
            r == self.known(k@),
    {
        let ghost wv = self.waiting_view();
        let mut i: usize = 0;
        while i < self.waiting.len()
            invariant
                i <= self.waiting.len(),
                wv == self.waiting_view(),
                forall|j: int| 0 <= j < i ==> #[trigger] wv[j].0 != k@,
            decreases self.waiting.len() - i,
        {
            if self.waiting[i].key.same(k) {
                assert(wv[i as int].0 == k@);
                return true;
            }
            i = i + 1;
        }
        let ghost pv = self.pending_view();
        let mut i: usize = 0;
        while i < self.pending.len()
            invariant
                i <= self.pending.len(),
                pv == self.pending_view(),
                forall|j: int| 0 <= j < i ==> #[trigger] pv[j] != k@,
            decreases self.pending.len() - i,
        {
            if self.pending[i].same(k) {
                assert(pv[i as int] == k@);
                return true;
            }
            i = i + 1;
        }
        self.finished_lookup(k).is_some()
    }

    /// Adds `key` with its predecessors `preds`, initial freshness `fresh`
    /// and `value`. A key that is already waiting, pending or finished is
    /// refused, and the queue is left as it was.
    pub fn enqueue(&mut self, fresh: Freshness, key: Key, preds: Vec<Key>, value: V) -> (r: bool)
        ensures
            r == !old(self).known(key@),
            r ==> final(self).waiting_view() == old(self).waiting_view().push(
                (key@, preds@.map_values(|k: Key| k@), fresh),
            ),
            r ==> final(self).values() == old(self).values().push(value),
            !r ==> final(self).waiting_view() == old(self).waiting_view(),
            !r ==> final(self).values() == old(self).values(),
            final(self).pending_view() == old(self).pending_view(),
            final(self).finished_view() == old(self).finished_view(),
    {
        if self.is_known(&key) {
            return false;
        }
        let w = Waiting { key, preds, fresh, value };
        self.waiting.push(w);
        proof {
            assert(self.waiting_view() =~= old(self).waiting_view().push(
                (key@, preds@.map_values(|k: Key| k@), fresh),
            ));
            assert(self.values() =~= old(self).values().push(value));
        }
        true
    }

    /// Whether the waiting key at position `i` is ready, and if so the
    /// freshness it inherits.
    fn check_ready(&self, i: usize) -> (r: (bool, Freshness))
        requires
            i < self.waiting_view().len(),
        ensures
            r.0 == self.ready(i as int),
            r.0 ==> r.1 == self.inherited(i as int),
    {
        let ghost fin = self.finished_view();
        let w = &self.waiting[i];
        let ghost pv = w.preds@.map_values(|k: Key| k@);
        assert(self.waiting_view()[i as int].1 == pv);
        let mut acc = w.fresh;
        let mut j: usize = 0;
        proof {
            assert(preds_fresh(fin, pv.subrange(0, 0)) =~= Seq::<Freshness>::empty());
        }
        while j < w.preds.len()
            invariant
                j <= w.preds.len(),
                fin == self.finished_view(),
                pv == w.preds@.map_values(|k: Key| k@),
                self.waiting_view()[i as int].1 == pv,
                forall|jj: int| 0 <= jj < j ==> finished_of(fin, #[trigger] pv[jj]) is Some,
                acc == join_all(w.fresh, preds_fresh(fin, pv.subrange(0, j as int))),
            decreases w.preds.len() - j,
        {
            match self.finished_lookup(&w.preds[j]) {
                None => {
                    assert(pv[j as int] == w.preds@[j as int]@);
                    assert(finished_of(fin, pv[j as int]) is None);
                    assert(!all_finished(fin, pv));
                    return (false, acc);
                },
                Some(f) => {
                    proof {
                        assert(preds_fresh(fin, pv.subrange(0, j + 1)).drop_last() =~= preds_fresh(
                            fin,
                            pv.subrange(0, j as int),
                        ));
                    }
                    acc = acc.combine(f);
                },
            }
            j = j + 1;
        }
        proof {
            assert(pv.subrange(0, j as int) =~= pv);
        }
        (true, acc)
    }

    /// Hands out the first waiting key, in order of insertion, whose
    /// predecessors have all been finished, with the join of its initial
    /// freshness and theirs, and its value; the key becomes pending. Returns
    /// `None`, and changes nothing, when no waiting key is ready.
    pub fn dequeue(&mut self) -> (r: Option<(Freshness, Key, V)>)
        ensures
            match r {
                None => {
                    &&& *final(self) == *old(self)
                    &&& forall|i: int|
                        0 <= i < old(self).waiting_view().len() ==> !#[trigger] old(self).ready(i)
                    &&& final(self).waiting_view() == old(self).waiting_view()
                    &&& final(self).values() == old(self).values()
                    &&& final(self).pending_view() == old(self).pending_view()
                },
                Some((f, k, v)) => exists|i: int|
                    {
                        &&& #[trigger] old(self).first_ready(i)
                        &&& k@ == old(self).waiting_view()[i].0
                        &&& all_finished(old(self).finished_view(), old(self).waiting_view()[i].1)
                        &&& f == old(self).inherited(i)
                        &&& v == old(self).values()[i]
                        &&& final(self).waiting_view() == old(self).waiting_view().remove(i)
                        &&& final(self).values() == old(self).values().remove(i)
                        &&& final(self).pending_view() == old(self).pending_view().push(k@)
                    },
            },
            final(self).finished_view() == old(self).finished_view(),
    {
        let mut i: usize = 0;
        while i < self.waiting.len()
            invariant
                i <= self.waiting.len(),
                *self == *old(self),
                forall|j: int| 0 <= j < i ==> !#[trigger] self.ready(j),
            decreases self.waiting.len() - i,
        {
            let (ok, f) = self.check_ready(i);
            if ok {
                let ghost wv = self.waiting_view();
                let ghost vs = self.values();
                let w = self.waiting.remove(i);
                let k = w.key.copy();
                self.pending.push(w.key);
                proof {
                    assert(self.waiting_view() =~= wv.remove(i as int));
                    assert(self.values() =~= vs.remove(i as int));
                    assert(self.pending_view() =~= old(self).pending_view().push(k@));
                    assert(old(self).first_ready(i as int));
                }
                return Some((f, k, w.value));
            }
            i = i + 1;
        }
        None
    }

    /// Marks the pending key `key` finished with freshness `fresh`, which its
    /// dependents will inherit. A key that is not pending is refused, and the
    /// queue is left as it was.
    pub fn finish(&mut self, key: &Key, fresh: Freshness) -> (r: bool)
        ensures
            r == old(self).pending_view().contains(key@),
            r ==> exists|i: int|
                0 <= i < old(self).pending_view().len() && #[trigger] old(self).pending_view()[i]
                    == key@ && final(self).pending_view() == old(self).pending_view().remove(i),
            r ==> final(self).finished_view() == old(self).finished_view().push((key@, fresh)),
            !r ==> final(self).pending_view() == old(self).pending_view(),
            !r ==> final(self).finished_view() == old(self).finished_view(),
            final(self).waiting_view() == old(self).waiting_view(),
            final(self).values() == old(self).values(),
    {
        let ghost pv = self.pending_view();
        let mut i: usize = 0;
        while i < self.pending.len()
            invariant
                i <= self.pending.len(),
                *self == *old(self),
                pv == self.pending_view(),
                forall|j: int| 0 <= j < i ==> #[trigger] pv[j] != key@,
            decreases self.pending.len() - i,
        {
            if self.pending[i].same(key) {
                let k = self.pending.remove(i);
                self.finished.push((k, fresh));
                proof {
                    assert(pv[i as int] == key@);
                    assert(self.pending_view() =~= pv.remove(i as int));
                    assert(self.finished_view() =~= old(self).finished_view().push((key@, fresh)));
                }
                return true;
            }
            i = i + 1;
        }
        proof {
            assert(!pv.contains(key@));
        }
        false
    }

    pub fn new() -> (r: Self)
        ensures
            r.waiting_view() == Seq::<(KeyV, Seq<KeyV>, Freshness)>::empty(),
            r.values() == Seq::<V>::empty(),
            r.pending_view() == Seq::<KeyV>::empty(),
            r.finished_view() == Seq::<(KeyV, Freshness)>::empty(),
            r.spec_len() == 0,
    {
        let r = DependencyQueue { waiting: Vec::new(), pending: Vec::new(), finished: Vec::new() };
        proof {
            assert(r.waiting_view() =~= Seq::<(KeyV, Seq<KeyV>, Freshness)>::empty());
            assert(r.pending_view() =~= Seq::<KeyV>::empty());
            assert(r.values() =~= Seq::<V>::empty());
            assert(r.finished_view() =~= Seq::<(KeyV, Freshness)>::empty());
        }
        r
    }

    pub fn is_empty(&self) -> (r: bool)
        ensures
            r == (self.spec_len() == 0),
    {
        self.waiting.len() == 0 && self.pending.len() == 0
    }

    pub fn len(&self) -> (r: usize)
        requires
            self.spec_len() <= usize::MAX,
        ensures
            r == self.spec_len(),
    {
        self.waiting.len() + self.pending.len()
    }

    /// The freshness that `k` was finished with, if it was.
    fn finished_lookup(&self, k: &Key) -> (r: Option<Freshness>)
        ensures
            r == finished_of(self.finished_view(), k@),
    {
        let ghost fin = self.finished_view();
        let mut i: usize = 0;
        while i < self.finished.len()
            invariant
                i <= self.finished.len(),
                fin == self.finished_view(),
                finished_of(fin, k@) == finished_from(fin, k@, i as int),
            decreases self.finished.len() - i,
        {
            if self.finished[i].0.same(k) {
                return Some(self.finished[i].1);
            }
            i = i + 1;
        }
        None
    }
}

} // verus!
