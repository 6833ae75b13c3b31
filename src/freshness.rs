use vstd::prelude::*;

verus! {

/// Whether the inputs of a unit of work are unchanged since its last build.
///
/// The two values form a join semilattice in which `Dirty` absorbs.
#[derive(Clone, Copy, Debug, PartialEq, Eq, Structural)]
pub enum Freshness {
    Fresh,
    Dirty,
}

impl Freshness {
    /// The lattice join: fresh exactly when both sides are fresh.
    pub open spec fn join(self, other: Freshness) -> Freshness {
        if self == Freshness::Fresh && other == Freshness::Fresh {
            Freshness::Fresh
        } else {
            Freshness::Dirty
        }
    }

    pub fn combine(self, other: Freshness) -> (r: Freshness)
        ensures
            r == self.join(other),
    {
        match (self, other) {
            (Freshness::Fresh, Freshness::Fresh) => Freshness::Fresh,
            _ => Freshness::Dirty,
        }
    }
}

/// The join of `init` with every value of `s`.
pub open spec fn join_all(init: Freshness, s: Seq<Freshness>) -> Freshness
    decreases s.len(),
{
    if s.len() == 0 {
        init
    } else {
        join_all(init, s.drop_last()).join(s.last())
    }
}

/// The join is commutative, associative and idempotent, and `Dirty` absorbs.
pub proof fn lemma_join_laws(a: Freshness, b: Freshness, c: Freshness)
    ensures
        a.join(b) == b.join(a),
        a.join(b).join(c) == a.join(b.join(c)),
        a.join(a) == a,
        a.join(Freshness::Dirty) == Freshness::Dirty,
        a.join(Freshness::Fresh) == a,
{
}

/// A fold is fresh exactly when its start and every folded value are fresh.
pub proof fn lemma_join_all_fresh(init: Freshness, s: Seq<Freshness>)
    ensures
        (join_all(init, s) == Freshness::Fresh) <==> (init == Freshness::Fresh && forall|i: int|
            0 <= i < s.len() ==> s[i] == Freshness::Fresh),
    decreases s.len(),
{
    if s.len() > 0 {
        lemma_join_all_fresh(init, s.drop_last());
        if join_all(init, s) == Freshness::Fresh {
            assert forall|i: int| 0 <= i < s.len() implies s[i] == Freshness::Fresh by {
                if i < s.len() - 1 {
                    assert(s.drop_last()[i] == s[i]);
                }
            }
        } else {
            if init == Freshness::Fresh && forall|i: int| 0 <= i < s.len() ==> s[i] == Freshness::Fresh {
                assert forall|i: int| 0 <= i < s.drop_last().len() implies s.drop_last()[i]
                    == Freshness::Fresh by {
                    assert(s.drop_last()[i] == s[i]);
                }
                assert(s[s.len() - 1] == Freshness::Fresh);
            }
        }
    }
}

/// The freshness a stage is finished with does not depend on the order in
/// which its completions arrive: when the completions received are the jobs'
/// own freshness each joined with the inherited one, in any order, their join
/// with the inherited freshness is the inherited freshness joined with every
/// declared freshness.
pub proof fn lemma_finish_freshness(
    inherited: Freshness,
    declared: Seq<Freshness>,
    received: Seq<Freshness>,
)
    requires
        received.to_multiset() == declared.map_values(|f: Freshness| f.join(inherited)).to_multiset(),
    ensures
        join_all(inherited, received) == join_all(inherited, declared),
{
    broadcast use vstd::seq_lib::group_to_multiset_ensures;

    let eff = declared.map_values(|f: Freshness| f.join(inherited));
    lemma_join_all_fresh(inherited, received);
    lemma_join_all_fresh(inherited, declared);
    if inherited == Freshness::Fresh {
        if forall|i: int| 0 <= i < declared.len() ==> declared[i] == Freshness::Fresh {
            assert forall|i: int| 0 <= i < received.len() implies received[i] == Freshness::Fresh by {
                assert(received.contains(received[i]));
                assert(received.to_multiset().count(received[i]) > 0);
                assert(eff.contains(received[i]));
                let j = choose|j: int| 0 <= j < eff.len() && eff[j] == received[i];
                assert(declared[j] == Freshness::Fresh);
            }
        }
        if forall|i: int| 0 <= i < received.len() ==> received[i] == Freshness::Fresh {
            assert forall|i: int| 0 <= i < declared.len() implies declared[i] == Freshness::Fresh by {
                assert(eff.contains(eff[i]));
                assert(eff.to_multiset().count(eff[i]) > 0);
                assert(received.contains(eff[i]));
                let j = choose|j: int| 0 <= j < received.len() && received[j] == eff[i];
            }
        }
    }
}

/// A stage without jobs is finished with the freshness it inherited: its
/// one synthetic completion carries exactly that.
pub proof fn lemma_empty_stage(inherited: Freshness)
    ensures
        join_all(inherited, seq![inherited]) == inherited,
        join_all(inherited, Seq::<Freshness>::empty()) == inherited,
{
    assert(seq![inherited].drop_last() =~= Seq::<Freshness>::empty());
}

/// A key that starts fresh, inherits from predecessors finished with
/// `preds`, and whose jobs declare `jobs`, is finished fresh exactly when all
/// of those are fresh, and dirty as soon as one is dirty.
pub proof fn lemma_propagation(preds: Seq<Freshness>, jobs: Seq<Freshness>)
    ensures
        (join_all(join_all(Freshness::Fresh, preds), jobs) == Freshness::Fresh) <==> ((forall|i: int|
            0 <= i < preds.len() ==> preds[i] == Freshness::Fresh) && (forall|i: int|
            0 <= i < jobs.len() ==> jobs[i] == Freshness::Fresh)),
{
    lemma_join_all_fresh(Freshness::Fresh, preds);
    lemma_join_all_fresh(join_all(Freshness::Fresh, preds), jobs);
}

} // verus!
