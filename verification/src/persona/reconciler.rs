//! Whether a new fact is stored: facts only accumulate, a repeated one is
//! skipped, and a change of stance is recorded as such.
use vstd::prelude::*;

use crate::cognition::{Fact, FactView, Score, ScoreView};
use crate::json::JsonView;
use crate::persona::prototype::{PersonaThresholds, RANK_NINETY_FIVE, RANK_THREE_QUARTERS};

verus! {

/// The kind of a transition.
#[derive(Debug, Clone, Copy, PartialEq, Eq, Structural)]
pub enum TransitionType {
    /// What was affirmed is now denied, or the other way round.
    StanceFlip,
}

impl TransitionType {
    /// The name of the kind, as payloads hold it.
    pub fn as_str(self) -> (s: &'static str)
        ensures
            s@ == "stance_flip"@,
    {
        match self {
            TransitionType::StanceFlip => "stance_flip",
        }
    }
}

/// What a stance flip turns away from. The earlier fact stays as it is.
#[derive(Debug)]
pub struct TransitionMeta {
    /// The id of the earlier fact.
    pub transition_from: i64,
    pub transition_type: TransitionType,
    /// How similar the two are.
    pub similarity: Score,
}

/// What is to be done with a new fact.
#[derive(Debug)]
pub enum ReconcileDecision {
    /// Store it.
    Add,
    /// Store it, and record what it turns away from.
    AddWithTransition(TransitionMeta),
    /// Skip it: it is known already.
    Noop,
}

/// The value of a decision.
pub enum DecisionView {
    Add,
    AddWithTransition { from: i64, kind: TransitionType, similarity: ScoreView },
    Noop,
}

impl View for ReconcileDecision {
    type V = DecisionView;

    open spec fn view(&self) -> DecisionView {
        match *self {
            ReconcileDecision::Add => DecisionView::Add,
            ReconcileDecision::AddWithTransition(m) => DecisionView::AddWithTransition {
                from: m.transition_from,
                kind: m.transition_type,
                similarity: m.similarity@,
            },
            ReconcileDecision::Noop => DecisionView::Noop,
        }
    }
}

/// The settings of the reconciler.
#[derive(Debug)]
pub struct ReconcilerConfig {
    pub thresholds: PersonaThresholds,
}

impl Default for ReconcilerConfig {
    /// The settings with the default thresholds.
    fn default() -> (c: ReconcilerConfig)
        ensures
            c.thresholds.match_@ == (ScoreView { rank: RANK_THREE_QUARTERS as int, digits: "0.75"@ }),
            c.thresholds.dedup@ == (ScoreView { rank: RANK_NINETY_FIVE as int, digits: "0.95"@ }),
            c.thresholds.conflict@ == (ScoreView {
                rank: RANK_THREE_QUARTERS as int,
                digits: "0.75"@,
            }),
    {
        ReconcilerConfig { thresholds: PersonaThresholds::default() }
    }
}

/// A decision with the similarity behind it.
#[derive(Debug)]
pub struct ReconcileOutcome {
    pub decision: ReconcileDecision,
    /// The similarity that decided, or zero for a plain addition.
    pub similarity: Score,
}

/// The `negated` flag of a payload, if it has one.
pub open spec fn negation(f: FactView) -> Option<bool> {
    match f.payload.get("negated"@) {
        Some(v) => v.truth(),
        None => None,
    }
}

/// The `negated` flag of a fact, if it has one.
pub fn extract_negated(fact: &Fact) -> (r: Option<bool>)
    ensures
        r == negation(fact@),
{
    match fact.payload.get("negated") {
        Some(v) => v.as_bool(),
        None => None,
    }
}

/// Two facts take opposite stances: both have one, and they differ.
pub open spec fn opposed(a: FactView, b: FactView) -> bool {
    negation(a) is Some && negation(b) is Some && negation(a) != negation(b)
}

/// An existing fact and its similarity to the new one.
pub struct Neighbor<'a> {
    pub fact: &'a Fact,
    pub similarity: Score,
}

/// The value of an existing fact with its similarity.
pub struct NeighborView {
    pub fact: FactView,
    pub similarity: ScoreView,
}

/// The values of a list of existing facts.
pub open spec fn neighbor_views(v: Seq<Neighbor<'_>>) -> Seq<NeighborView> {
    Seq::new(
        v.len(),
        |i: int| NeighborView { fact: v[i].fact@, similarity: v[i].similarity@ },
    )
}

/// An existing fact that the new one turns away from: it is stored, takes the
/// opposite stance, and is similar enough.
pub open spec fn flips(candidate: FactView, n: NeighborView, conflict: int) -> bool {
    opposed(candidate, n.fact) && n.fact.id is Some && n.similarity.rank >= conflict
}

/// An existing fact that the new one repeats: it does not take the opposite
/// stance, and is similar enough.
pub open spec fn repeats(candidate: FactView, n: NeighborView, dedup: int) -> bool {
    !opposed(candidate, n.fact) && n.similarity.rank >= dedup
}

/// The most similar of the neighbours for which `p` holds, and the first of
/// these.
pub open spec fn is_nearest(v: Seq<NeighborView>, p: spec_fn(NeighborView) -> bool, i: int) -> bool {
    &&& 0 <= i < v.len()
    &&& p(v[i])
    &&& forall|j: int|
        0 <= j < v.len() && p(#[trigger] v[j]) ==> v[j].similarity.rank < v[i].similarity.rank || (
        v[j].similarity.rank == v[i].similarity.rank && i <= j)
}

/// Whether `p` holds for none of the neighbours.
pub open spec fn none_such(v: Seq<NeighborView>, p: spec_fn(NeighborView) -> bool) -> bool {
    forall|j: int| 0 <= j < v.len() ==> !p(#[trigger] v[j])
}

/// The outcome is right: the nearest fact that the new one turns away from
/// makes a transition; else, if it repeats one, it is skipped; else it is
/// added.
pub open spec fn reconciled(
    candidate: FactView,
    existing: Seq<NeighborView>,
    thresholds: PersonaThresholds,
    decision: DecisionView,
    similarity: ScoreView,
) -> bool {
    let flip = |n: NeighborView| flips(candidate, n, thresholds.conflict.rank as int);
    let repeat = |n: NeighborView| repeats(candidate, n, thresholds.dedup.rank as int);
    if !none_such(existing, flip) {
        exists|i: int| #[trigger]
            is_nearest(existing, flip, i) && similarity == existing[i].similarity && decision == (
            DecisionView::AddWithTransition {
                from: existing[i].fact.id->0,
                kind: TransitionType::StanceFlip,
                similarity: existing[i].similarity,
            })
    } else if !none_such(existing, repeat) {
        decision == DecisionView::Noop && exists|i: int| #[trigger]
            is_nearest(existing, repeat, i) && similarity == existing[i].similarity
    } else {
        decision == DecisionView::Add && similarity == ScoreView::zero()
    }
}

/// Decides about new facts. It reads what is there and changes nothing.
#[derive(Debug)]
pub struct Reconciler {
    pub config: ReconcilerConfig,
}

impl Reconciler {
    /// A reconciler with these settings.
    pub fn new(config: ReconcilerConfig) -> (r: Reconciler)
        ensures
            r.config == config,
    {
        Reconciler { config }
    }

    /// Decide about a new fact, given the existing facts nearest to it with
    /// their similarities.
    pub fn reconcile(&self, candidate: &Fact, existing: &Vec<Neighbor<'_>>) -> (r: ReconcileOutcome)
        ensures
            reconciled(
                candidate@,
                neighbor_views(existing@),
                self.config.thresholds,
                r.decision@,
                r.similarity@,
            ),
    {
        let conflict: i64 = self.config.thresholds.conflict.rank;
        let dedup: i64 = self.config.thresholds.dedup.rank;
        let ghost all = neighbor_views(existing@);
        let ghost flip = |n: NeighborView| flips(candidate@, n, conflict as int);
        let ghost repeat = |n: NeighborView| repeats(candidate@, n, dedup as int);
        let candidate_neg: Option<bool> = extract_negated(candidate);
        let mut best_flip: Option<usize> = None;
        let mut best_repeat: Option<usize> = None;
        let mut i: usize = 0;
        while i < existing.len()
            invariant
                i <= existing@.len(),
                all == neighbor_views(existing@),
                candidate_neg == negation(candidate@),
                flip == (|n: NeighborView| flips(candidate@, n, conflict as int)),
                repeat == (|n: NeighborView| repeats(candidate@, n, dedup as int)),
                match best_flip {
                    Some(b) => {
                        &&& b < i
                        &&& flip(all[b as int])
                        &&& forall|j: int|
                            0 <= j < i && flip(#[trigger] all[j]) ==> all[j].similarity.rank
                                < all[b as int].similarity.rank || (all[j].similarity.rank
                                == all[b as int].similarity.rank && b <= j)
                    },
                    None => forall|j: int| 0 <= j < i ==> !flip(#[trigger] all[j]),
                },
                match best_repeat {
                    Some(b) => {
                        &&& b < i
                        &&& repeat(all[b as int])
                        &&& forall|j: int|
                            0 <= j < i && repeat(#[trigger] all[j]) ==> all[j].similarity.rank
                                < all[b as int].similarity.rank || (all[j].similarity.rank
                                == all[b as int].similarity.rank && b <= j)
                    },
                    None => forall|j: int| 0 <= j < i ==> !repeat(#[trigger] all[j]),
                },
            decreases existing.len() - i,
        {
            let n: &Neighbor<'_> = &existing[i];
            assert(all[i as int] == (NeighborView { fact: n.fact@, similarity: n.similarity@ }));
            let existing_neg: Option<bool> = extract_negated(n.fact);
            let differs: bool = match (candidate_neg, existing_neg) {
                (Some(a), Some(b)) => a != b,
                _ => false,
            };
            assert(differs == opposed(candidate@, all[i as int].fact));
            if differs {
                if n.fact.id.is_some() && n.similarity.rank >= conflict {
                    let nearer: bool = match best_flip {
                        Some(b) => {
                            assert(all[b as int].similarity == existing@[b as int].similarity@);
                            n.similarity.rank > existing[b].similarity.rank
                        },
                        None => true,
                    };
                    assert(flip(all[i as int]));
                    if nearer {
                        best_flip = Some(i);
                    }
                }
            } else if n.similarity.rank >= dedup {
                let nearer: bool = match best_repeat {
                    Some(b) => {
                        assert(all[b as int].similarity == existing@[b as int].similarity@);
                        n.similarity.rank > existing[b].similarity.rank
                    },
                    None => true,
                };
                assert(repeat(all[i as int]));
                if nearer {
                    best_repeat = Some(i);
                }
            }
            i = i + 1;
        }
        if let Some(b) = best_flip {
            assert(is_nearest(all, flip, b as int));
            assert(!none_such(all, flip));
            let n: &Neighbor<'_> = &existing[b];
            assert(all[b as int] == (NeighborView { fact: n.fact@, similarity: n.similarity@ }));
            let from: i64 = match n.fact.id {
                Some(id) => id,
                None => 0,
            };
            return ReconcileOutcome {
                decision: ReconcileDecision::AddWithTransition(
                    TransitionMeta {
                        transition_from: from,
                        transition_type: TransitionType::StanceFlip,
                        similarity: n.similarity.copy(),
                    },
                ),
                similarity: n.similarity.copy(),
            };
        }
        assert(none_such(all, flip));
        if let Some(b) = best_repeat {
            assert(is_nearest(all, repeat, b as int));
            assert(!none_such(all, repeat));
            let n: &Neighbor<'_> = &existing[b];
            assert(all[b as int] == (NeighborView { fact: n.fact@, similarity: n.similarity@ }));
            return ReconcileOutcome {
                decision: ReconcileDecision::Noop,
                similarity: n.similarity.copy(),
            };
        }
        assert(none_such(all, repeat));
        ReconcileOutcome { decision: ReconcileDecision::Add, similarity: Score::zero() }
    }
}

/// Without anything to compare with, a fact is added.
pub proof fn law_first_fact_is_added(
    candidate: FactView,
    thresholds: PersonaThresholds,
    decision: DecisionView,
    similarity: ScoreView,
)
    requires
        reconciled(candidate, Seq::empty(), thresholds, decision, similarity),
    ensures
        decision == DecisionView::Add,
{
}

/// A change of stance is never skipped: if some stored fact of the opposite
/// stance is similar enough, the new fact is added with a transition, whatever
/// else it repeats.
pub proof fn law_stance_flips_are_recorded(
    candidate: FactView,
    existing: Seq<NeighborView>,
    thresholds: PersonaThresholds,
    decision: DecisionView,
    similarity: ScoreView,
    k: int,
)
    requires
        reconciled(candidate, existing, thresholds, decision, similarity),
        0 <= k < existing.len(),
        flips(candidate, existing[k], thresholds.conflict.rank as int),
    ensures
        decision is AddWithTransition,
        decision->similarity.rank >= existing[k].similarity.rank,
{
    let flip = |n: NeighborView| flips(candidate, n, thresholds.conflict.rank as int);
    assert(flip(existing[k]));
    assert(!none_such(existing, flip));
}

/// Only a repetition is skipped: some existing fact is similar enough and does
/// not take the opposite stance.
pub proof fn law_only_repetitions_are_skipped(
    candidate: FactView,
    existing: Seq<NeighborView>,
    thresholds: PersonaThresholds,
    similarity: ScoreView,
)
    requires
        reconciled(candidate, existing, thresholds, DecisionView::Noop, similarity),
    ensures
        exists|i: int|
            0 <= i < existing.len() && repeats(
                candidate,
                #[trigger] existing[i],
                thresholds.dedup.rank as int,
            ),
{
    let repeat = |n: NeighborView| repeats(candidate, n, thresholds.dedup.rank as int);
    let i = choose|i: int| #[trigger]
        is_nearest(existing, repeat, i) && similarity == existing[i].similarity;
    assert(repeat(existing[i]));
}

/// One of the two facts is negated and the other says that it is not.
pub open spec fn differ_in_stance(a: FactView, b: FactView) -> bool {
    ||| a.payload.get("negated"@) == Some(JsonView::Bool(true)) && b.payload.get("negated"@)
        == Some(JsonView::Bool(false))
    ||| a.payload.get("negated"@) == Some(JsonView::Bool(false)) && b.payload.get("negated"@)
        == Some(JsonView::Bool(true))
}

/// What becomes of a new fact, in terms of the facts that are there. It is
/// recorded as a change of stance exactly when a stored fact of the other stance
/// is similar enough for a conflict, and then it turns away from the most
/// similar of these. Else it is skipped exactly when a fact that does not take
/// the other stance is similar enough to be a repetition. Else it is added.
/// Nothing that changes a stance is ever skipped, and nothing new is lost.
pub proof fn law_what_becomes_of_a_new_fact(
    candidate: FactView,
    existing: Seq<NeighborView>,
    thresholds: PersonaThresholds,
    decision: DecisionView,
    similarity: ScoreView,
)
    requires
        reconciled(candidate, existing, thresholds, decision, similarity),
    ensures
        ({
            let flip = exists|i: int|
                0 <= i < existing.len() && differ_in_stance(candidate, (#[trigger] existing[i]).fact)
                    && existing[i].fact.id is Some && existing[i].similarity.rank
                    >= thresholds.conflict.rank;
            let repeat = exists|i: int|
                0 <= i < existing.len() && !differ_in_stance(
                    candidate,
                    (#[trigger] existing[i]).fact,
                ) && existing[i].similarity.rank >= thresholds.dedup.rank;
            &&& decision is AddWithTransition <==> flip
            &&& decision is Noop <==> !flip && repeat
            &&& decision is Add <==> !flip && !repeat
            &&& flip ==> exists|i: int|
                {
                    &&& 0 <= i < existing.len()
                    &&& differ_in_stance(candidate, (#[trigger] existing[i]).fact)
                    &&& existing[i].fact.id == Some(decision->from)
                    &&& existing[i].similarity.rank >= thresholds.conflict.rank
                    &&& existing[i].similarity == decision->similarity
                    &&& existing[i].similarity == similarity
                    &&& forall|k: int|
                        0 <= k < existing.len() && differ_in_stance(
                            candidate,
                            (#[trigger] existing[k]).fact,
                        ) && existing[k].fact.id is Some && existing[k].similarity.rank
                            >= thresholds.conflict.rank ==> existing[k].similarity.rank
                            <= similarity.rank
                }
            &&& decision is Noop ==> exists|i: int|
                {
                    &&& 0 <= i < existing.len()
                    &&& !differ_in_stance(candidate, (#[trigger] existing[i]).fact)
                    &&& existing[i].similarity == similarity
                    &&& forall|k: int|
                        0 <= k < existing.len() && !differ_in_stance(
                            candidate,
                            (#[trigger] existing[k]).fact,
                        ) ==> existing[k].similarity.rank <= similarity.rank
                            || existing[k].similarity.rank < thresholds.dedup.rank
                }
        }),
{
    let least = thresholds.conflict.rank as int;
    let most = thresholds.dedup.rank as int;
    let flip = |n: NeighborView| flips(candidate, n, least);
    let repeat = |n: NeighborView| repeats(candidate, n, most);
    assert forall|i: int| 0 <= i < existing.len() implies opposed(
        candidate,
        (#[trigger] existing[i]).fact,
    ) == differ_in_stance(candidate, existing[i].fact) && flip(existing[i]) == (differ_in_stance(
        candidate,
        existing[i].fact,
    ) && existing[i].fact.id is Some && existing[i].similarity.rank >= least) && repeat(existing[i])
        == (!differ_in_stance(candidate, existing[i].fact) && existing[i].similarity.rank
        >= most) by {}
    if !none_such(existing, flip) {
        let i = choose|i: int| #[trigger]
            is_nearest(existing, flip, i) && similarity == existing[i].similarity && decision == (
            DecisionView::AddWithTransition {
                from: existing[i].fact.id->0,
                kind: TransitionType::StanceFlip,
                similarity: existing[i].similarity,
            });
        assert(flip(existing[i]));
        assert(existing[i].fact.id == Some(decision->from));
    } else if !none_such(existing, repeat) {
        let i = choose|i: int| #[trigger]
            is_nearest(existing, repeat, i) && similarity == existing[i].similarity;
        assert(repeat(existing[i]));
    }
}

} // verus!
