//! Prototype sentences that signals are matched against, and the thresholds
//! of the matching.
use vstd::prelude::*;

use crate::cognition::{FactType, Score, ScoreView, RANK_ONE};
use crate::error::Error;
use crate::text::{cat, cat3, decimal, decimal_text};

verus! {

/// Where the prototype library is kept.
pub const PERSONA_PROTOTYPES_PATH: &'static str = "config/persona_prototypes.json";

/// Similarities at which something counts: as a match, as a contradiction, as
/// the same memory.
#[derive(Debug)]
pub struct PersonaThresholds {
    /// The least similarity between an utterance and a prototype that makes a
    /// signal.
    pub match_: Score,
    /// The least similarity at which two facts are the same memory.
    pub dedup: Score,
    /// The least similarity at which opposite stances contradict each other.
    pub conflict: Score,
}

impl PersonaThresholds {
    /// A copy with the same values.
    pub fn copy(&self) -> (t: PersonaThresholds)
        ensures
            t.match_@ == self.match_@,
            t.dedup@ == self.dedup@,
            t.conflict@ == self.conflict@,
    {
        PersonaThresholds {
            match_: self.match_.copy(),
            dedup: self.dedup.copy(),
            conflict: self.conflict.copy(),
        }
    }

    /// All are in the range from zero to one, and the match threshold does not
    /// exceed the conflict threshold, nor that the dedup threshold.
    pub open spec fn valid(self) -> bool {
        0 <= self.match_.rank <= self.conflict.rank <= self.dedup.rank <= RANK_ONE
    }
}

/// The rank of 0.75.
pub const RANK_THREE_QUARTERS: i64 = 4_604_930_618_986_332_160;

/// The rank of 0.95 in single precision.
pub const RANK_NINETY_FIVE: i64 = 4_606_732_058_729_906_176;

impl Default for PersonaThresholds {
    fn default() -> (t: PersonaThresholds)
        ensures
            t.match_@ == (ScoreView { rank: RANK_THREE_QUARTERS as int, digits: "0.75"@ }),
            t.dedup@ == (ScoreView { rank: RANK_NINETY_FIVE as int, digits: "0.95"@ }),
            t.conflict@ == (ScoreView { rank: RANK_THREE_QUARTERS as int, digits: "0.75"@ }),
            t.valid(),
    {
        PersonaThresholds {
            match_: Score { rank: RANK_THREE_QUARTERS, digits: "0.75".to_owned() },
            dedup: Score { rank: RANK_NINETY_FIVE, digits: "0.95".to_owned() },
            conflict: Score { rank: RANK_THREE_QUARTERS, digits: "0.75".to_owned() },
        }
    }
}

/// The score lies between zero and one.
pub open spec fn in_unit_range(s: ScoreView) -> bool {
    0 <= s.rank <= RANK_ONE
}

/// What is wrong with the thresholds, if anything; the first fault counts.
pub open spec fn threshold_fault(t: PersonaThresholds) -> Option<Seq<char>> {
    if !in_unit_range(t.match_@) {
        Some("threshold `match` must be in [0,1], got "@ + t.match_.digits@)
    } else if !in_unit_range(t.dedup@) {
        Some("threshold `dedup` must be in [0,1], got "@ + t.dedup.digits@)
    } else if !in_unit_range(t.conflict@) {
        Some("threshold `conflict` must be in [0,1], got "@ + t.conflict.digits@)
    } else if t.match_.rank > t.conflict.rank {
        Some(
            "threshold `match` ("@ + t.match_.digits@ + ") cannot exceed `conflict` ("@
                + t.conflict.digits@ + ")"@,
        )
    } else if t.conflict.rank > t.dedup.rank {
        Some(
            "threshold `conflict` ("@ + t.conflict.digits@ + ") cannot exceed `dedup` ("@
                + t.dedup.digits@ + ")"@,
        )
    } else {
        None
    }
}

/// Check the thresholds.
pub fn validate_thresholds(t: &PersonaThresholds) -> (r: Result<(), Error>)
    ensures
        match r {
            Ok(_) => threshold_fault(*t) is None,
            Err(e) => e is Config && threshold_fault(*t) == Some(e.text()),
        },
{
    if t.match_.rank < 0 || t.match_.rank > RANK_ONE {
        return Err(
            Error::Config(
                cat("threshold `match` must be in [0,1], got ", t.match_.digits.as_str()),
            ),
        );
    }
    if t.dedup.rank < 0 || t.dedup.rank > RANK_ONE {
        return Err(
            Error::Config(
                cat("threshold `dedup` must be in [0,1], got ", t.dedup.digits.as_str()),
            ),
        );
    }
    if t.conflict.rank < 0 || t.conflict.rank > RANK_ONE {
        return Err(
            Error::Config(
                cat("threshold `conflict` must be in [0,1], got ", t.conflict.digits.as_str()),
            ),
        );
    }
    if t.match_.rank > t.conflict.rank {
        let head: String = cat3(
            "threshold `match` (",
            t.match_.digits.as_str(),
            ") cannot exceed `conflict` (",
        );
        return Err(Error::Config(cat3(head.as_str(), t.conflict.digits.as_str(), ")")));
    }
    if t.conflict.rank > t.dedup.rank {
        let head: String = cat3(
            "threshold `conflict` (",
            t.conflict.digits.as_str(),
            ") cannot exceed `dedup` (",
        );
        return Err(Error::Config(cat3(head.as_str(), t.dedup.digits.as_str(), ")")));
    }
    Ok(())
}

/// Thresholds pass the check exactly when they are valid.
pub proof fn law_valid_thresholds_pass(t: PersonaThresholds)
    ensures
        threshold_fault(t) is None <==> t.valid(),
{
}

/// Example sentences for one facet and stance.
#[derive(Debug)]
pub struct PersonaPrototypeEntry {
    pub fact_type: FactType,
    pub negated: bool,
    /// At least one.
    pub sentences: Vec<String>,
}

/// The prototype library.
#[derive(Debug)]
pub struct PersonaPrototypes {
    /// Version of the format.
    pub version: u32,
    pub thresholds: PersonaThresholds,
    /// At least one.
    pub prototypes: Vec<PersonaPrototypeEntry>,
}

/// Check the shape of a prototype library: there are entries, each has
/// sentences, and the thresholds are valid.
pub fn validate_prototypes(p: &PersonaPrototypes) -> (r: Result<(), Error>)
    ensures
        match r {
            Ok(_) => {
                &&& p.prototypes@.len() > 0
                &&& forall|i: int|
                    0 <= i < p.prototypes@.len() ==> (#[trigger] p.prototypes@[i]).sentences@.len()
                        > 0
                &&& threshold_fault(p.thresholds) is None
            },
            Err(e) => {
                &&& e is Config
                &&& if p.prototypes@.len() == 0 {
                    e.text() == "prototype JSON: `prototypes` must contain at least one entry"@
                } else if exists|i: int|
                    0 <= i < p.prototypes@.len() && (#[trigger] p.prototypes@[i]).sentences@.len()
                        == 0 {
                    e.text() == "prototype JSON: prototype `sentences` must be non-empty"@
                } else {
                    threshold_fault(p.thresholds) == Some(e.text())
                }
            },
        },
{
    if p.prototypes.len() == 0 {
        return Err(
            Error::Config(
                "prototype JSON: `prototypes` must contain at least one entry".to_owned(),
            ),
        );
    }
    let mut i: usize = 0;
    while i < p.prototypes.len()
        invariant
            i <= p.prototypes@.len(),
            p.prototypes@.len() > 0,
            forall|k: int|
                0 <= k < i ==> (#[trigger] p.prototypes@[k]).sentences@.len() > 0,
        decreases p.prototypes.len() - i,
    {
        if p.prototypes[i].sentences.len() == 0 {
            return Err(
                Error::Config("prototype JSON: prototype `sentences` must be non-empty".to_owned()),
            );
        }
        i = i + 1;
    }
    validate_thresholds(&p.thresholds)
}

/// A prototype sentence with its embedding of type `V`.
pub struct PrototypeVector<V> {
    pub fact_type: FactType,
    pub negated: bool,
    pub sentence: String,
    pub vector: V,
}

/// What a prototype sentence stands for.
pub struct PlanView {
    pub fact_type: FactType,
    pub negated: bool,
    pub sentence: Seq<char>,
}

/// The first `n` sentences of an entry.
pub open spec fn entry_plan(e: PersonaPrototypeEntry, n: int) -> Seq<PlanView> {
    Seq::new(
        n as nat,
        |i: int|
            PlanView { fact_type: e.fact_type, negated: e.negated, sentence: e.sentences@[i]@ },
    )
}

/// All sentences of the entries, in order.
pub open spec fn full_plan(v: Seq<PersonaPrototypeEntry>) -> Seq<PlanView>
    decreases v.len(),
{
    if v.len() == 0 {
        Seq::empty()
    } else {
        full_plan(v.drop_last()) + entry_plan(v.last(), v.last().sentences@.len() as int)
    }
}

/// A sentence that is to be embedded.
#[derive(Debug)]
pub struct PlannedSentence {
    pub fact_type: FactType,
    pub negated: bool,
    pub sentence: String,
}

impl View for PlannedSentence {
    type V = PlanView;

    open spec fn view(&self) -> PlanView {
        PlanView { fact_type: self.fact_type, negated: self.negated, sentence: self.sentence@ }
    }
}

/// The values of a list of planned sentences.
pub open spec fn plan_views(v: Seq<PlannedSentence>) -> Seq<PlanView> {
    Seq::new(v.len(), |i: int| v[i]@)
}

/// The sentences to embed, in the order of the library.
pub fn embedding_plan(prototypes: &PersonaPrototypes) -> (plan: Vec<PlannedSentence>)
    ensures
        plan_views(plan@) == full_plan(prototypes.prototypes@),
{
    let mut plan: Vec<PlannedSentence> = Vec::new();
    let ghost all = prototypes.prototypes@;
    let mut i: usize = 0;
    assert(plan_views(plan@) =~= full_plan(all.subrange(0, 0)));
    while i < prototypes.prototypes.len()
        invariant
            i <= all.len(),
            all == prototypes.prototypes@,
            plan_views(plan@) == full_plan(all.subrange(0, i as int)),
        decreases prototypes.prototypes.len() - i,
    {
        let e: &PersonaPrototypeEntry = &prototypes.prototypes[i];
        let ghost before = plan_views(plan@);
        let mut k: usize = 0;
        assert(plan_views(plan@) =~= before + entry_plan(*e, 0));
        while k < e.sentences.len()
            invariant
                k <= e.sentences@.len(),
                plan_views(plan@) == before + entry_plan(*e, k as int),
            decreases e.sentences.len() - k,
        {
            let ghost now = plan_views(plan@);
            plan.push(
                PlannedSentence {
                    fact_type: e.fact_type,
                    negated: e.negated,
                    sentence: e.sentences[k].clone(),
                },
            );
            proof {
                let next = entry_plan(*e, k + 1);
                assert(plan_views(plan@) =~= now.push(next[k as int]));
                assert(next =~= entry_plan(*e, k as int).push(next[k as int]));
                assert(plan_views(plan@) =~= before + next);
            }
            k = k + 1;
        }
        assert(all.subrange(0, i + 1).drop_last() == all.subrange(0, i as int));
        assert(all.subrange(0, i + 1).last() == *e);
        i = i + 1;
    }
    assert(all.subrange(0, all.len() as int) == all);
    plan
}

/// The embedded prototypes, with an index by facet.
pub struct PrototypeVectorCache<V> {
    pub vectors: Vec<PrototypeVector<V>>,
    pub by_type: Vec<(FactType, Vec<usize>)>,
}

/// The indices below `n` at which facet `t` stands.
pub open spec fn positions<V>(v: Seq<PrototypeVector<V>>, t: FactType, n: int) -> Seq<int>
    decreases n,
{
    if n <= 0 {
        Seq::empty()
    } else if v[n - 1].fact_type == t {
        positions(v, t, n - 1).push(n - 1)
    } else {
        positions(v, t, n - 1)
    }
}

/// The list held under facet `t`.
pub open spec fn under(v: Seq<(FactType, Vec<usize>)>, t: FactType) -> Seq<int>
    decreases v.len(),
{
    if v.len() == 0 {
        Seq::empty()
    } else if v.last().0 == t {
        crate::order::as_ints(v.last().1@)
    } else {
        under(v.drop_last(), t)
    }
}

/// No facet is listed twice, and none without positions.
pub open spec fn proper_index(v: Seq<(FactType, Vec<usize>)>) -> bool {
    &&& forall|i: int, j: int|
        0 <= i < j < v.len() ==> (#[trigger] v[i]).0 != (#[trigger] v[j]).0
    &&& forall|i: int| 0 <= i < v.len() ==> (#[trigger] v[i]).1@.len() > 0
}

/// What is held under the facet at index `i` is its list.
proof fn lemma_under(v: Seq<(FactType, Vec<usize>)>, i: int)
    requires
        proper_index(v),
        0 <= i < v.len(),
    ensures
        under(v, v[i].0) == crate::order::as_ints(v[i].1@),
    decreases v.len(),
{
    if i < v.len() - 1 {
        let front = v.drop_last();
        assert(front[i] == v[i]);
        assert(v[i].0 != v[v.len() - 1].0);
        assert forall|a: int, b: int| 0 <= a < b < front.len() implies (#[trigger] front[a]).0 != (
        #[trigger] front[b]).0 by {
            assert(v[a].0 != v[b].0);
        }
        assert forall|a: int| 0 <= a < front.len() implies (#[trigger] front[a]).1@.len() > 0 by {
            assert(v[a].1@.len() > 0);
        }
        lemma_under(front, i);
    }
}

/// Nothing is held under a facet that is not listed.
proof fn lemma_not_under(v: Seq<(FactType, Vec<usize>)>, t: FactType)
    requires
        forall|i: int| 0 <= i < v.len() ==> (#[trigger] v[i]).0 != t,
    ensures
        under(v, t).len() == 0,
    decreases v.len(),
{
    if v.len() > 0 {
        let front = v.drop_last();
        assert forall|i: int| 0 <= i < front.len() implies (#[trigger] front[i]).0 != t by {
            assert(v[i].0 != t);
        }
        assert(v[v.len() - 1].0 != t);
        lemma_not_under(front, t);
    }
}

/// The index holds for each facet exactly its positions.
pub open spec fn index_exact<V>(v: Seq<PrototypeVector<V>>, index: Seq<(FactType, Vec<usize>)>) -> bool {
    &&& proper_index(index)
    &&& forall|t: FactType| #[trigger] under(index, t) == positions(v, t, v.len() as int)
}

impl<V> PrototypeVectorCache<V> {
    /// The index is that of the vectors.
    pub open spec fn wf(self) -> bool {
        index_exact(self.vectors@, self.by_type@)
    }

    /// All prototypes.
    pub fn vectors(&self) -> (v: &Vec<PrototypeVector<V>>)
        ensures
            *v == self.vectors,
    {
        &self.vectors
    }

    /// The indices of all prototypes of a facet, in order; none without any.
    pub fn indices_for_type(&self, fact_type: FactType) -> (r: Option<&Vec<usize>>)
        requires
            self.wf(),
        ensures
            match r {
                Some(v) => {
                    &&& crate::order::as_ints(v@) == positions(
                        self.vectors@,
                        fact_type,
                        self.vectors@.len() as int,
                    )
                    &&& v@.len() > 0
                },
                None => positions(self.vectors@, fact_type, self.vectors@.len() as int).len() == 0,
            },
    {
        let mut i: usize = 0;
        while i < self.by_type.len()
            invariant
                i <= self.by_type@.len(),
                self.wf(),
                forall|k: int| 0 <= k < i ==> (#[trigger] self.by_type@[k]).0 != fact_type,
            decreases self.by_type.len() - i,
        {
            if self.by_type[i].0 == fact_type {
                proof {
                    lemma_under(self.by_type@, i as int);
                    assert(under(self.by_type@, fact_type) == positions(
                        self.vectors@,
                        fact_type,
                        self.vectors@.len() as int,
                    ));
                }
                return Some(&self.by_type[i].1);
            }
            i = i + 1;
        }
        proof {
            lemma_not_under(self.by_type@, fact_type);
            assert(under(self.by_type@, fact_type) == positions(
                self.vectors@,
                fact_type,
                self.vectors@.len() as int,
            ));
        }
        None
    }

    /// The cache for planned sentences and their embeddings. There must be one
    /// embedding per sentence.
    pub fn assemble(plan: Vec<PlannedSentence>, embedded: Vec<V>) -> (r: Result<
        PrototypeVectorCache<V>,
        Error,
    >)
        ensures
            match r {
                Ok(c) => {
                    &&& embedded@.len() == plan@.len()
                    &&& c.wf()
                    &&& c.vectors@.len() == plan@.len()
                    &&& forall|i: int|
                        0 <= i < plan@.len() ==> {
                            let v = #[trigger] c.vectors@[i];
                            &&& v.fact_type == plan@[i].fact_type
                            &&& v.negated == plan@[i].negated
                            &&& v.sentence@ == plan@[i].sentence@
                            &&& v.vector == embedded@[i]
                        }
                },
                Err(e) => {
                    &&& embedded@.len() != plan@.len()
                    &&& e is Embedding
                    &&& e.text() == "prototype batch size mismatch: embedded "@ + decimal(
                        embedded@.len(),
                    ) + " vectors for "@ + decimal(plan@.len()) + " sentences"@
                },
            },
    {
        if embedded.len() != plan.len() {
            let a: String = decimal_text(embedded.len() as u64);
            let b: String = decimal_text(plan.len() as u64);
            let head: String = cat3(
                "prototype batch size mismatch: embedded ",
                a.as_str(),
                " vectors for ",
            );
            return Err(Error::Embedding(cat3(head.as_str(), b.as_str(), " sentences")));
        }
        let ghost given = embedded@;
        let ghost planned = plan@;
        let mut rest: Vec<V> = embedded;
        let mut todo: Vec<PlannedSentence> = plan;
        let mut vectors: Vec<PrototypeVector<V>> = Vec::new();
        let mut by_type: Vec<(FactType, Vec<usize>)> = Vec::new();
        assert forall|t: FactType| #[trigger] under(by_type@, t) == positions(vectors@, t, 0) by {}
        while todo.len() > 0
            invariant
                vectors@.len() + todo@.len() == planned.len(),
                rest@.len() == todo@.len(),
                given.len() == planned.len(),
                todo@ == planned.subrange(vectors@.len() as int, planned.len() as int),
                rest@ == given.subrange(vectors@.len() as int, given.len() as int),
                forall|i: int|
                    0 <= i < vectors@.len() ==> {
                        let v = #[trigger] vectors@[i];
                        &&& v.fact_type == planned[i].fact_type
                        &&& v.negated == planned[i].negated
                        &&& v.sentence@ == planned[i].sentence@
                        &&& v.vector == given[i]
                    },
                index_exact(vectors@, by_type@),
            decreases todo@.len(),
        {
            let ghost before = vectors@;
            let ghost n = vectors@.len() as int;
            let at: usize = vectors.len();
            let p: PlannedSentence = todo.remove(0);
            let vector: V = rest.remove(0);
            assert(p == planned[n]);
            assert(vector == given[n]);
            let fact_type: FactType = p.fact_type;
            vectors.push(
                PrototypeVector {
                    fact_type: p.fact_type,
                    negated: p.negated,
                    sentence: p.sentence,
                    vector,
                },
            );
            file_under(&mut by_type, fact_type, at);
            proof {
                assert forall|t: FactType| #[trigger] under(by_type@, t) == positions(
                    vectors@,
                    t,
                    vectors@.len() as int,
                ) by {
                    lemma_positions_prefix(before, vectors@, t, n);
                }
                assert(todo@ =~= planned.subrange(n + 1, planned.len() as int));
                assert(rest@ =~= given.subrange(n + 1, given.len() as int));
            }
        }
        Ok(PrototypeVectorCache { vectors, by_type })
    }
}

/// Positions below `n` depend on the first `n` prototypes only.
proof fn lemma_positions_prefix<V>(
    a: Seq<PrototypeVector<V>>,
    b: Seq<PrototypeVector<V>>,
    t: FactType,
    n: int,
)
    requires
        0 <= n <= a.len(),
        n <= b.len(),
        forall|i: int| 0 <= i < n ==> a[i] == #[trigger] b[i],
    ensures
        positions(a, t, n) == positions(b, t, n),
    decreases n,
{
    if n > 0 {
        lemma_positions_prefix(a, b, t, n - 1);
        assert(a[n - 1] == b[n - 1]);
    }
}

/// Add a position to the list of a facet.
fn file_under(index: &mut Vec<(FactType, Vec<usize>)>, t: FactType, at: usize)
    requires
        proper_index(old(index)@),
    ensures
        proper_index(final(index)@),
        under(final(index)@, t) == under(old(index)@, t).push(at as int),
        forall|o: FactType|
            o != t ==> #[trigger] under(final(index)@, o) == under(old(index)@, o),
{
    let ghost before = index@;
    let mut i: usize = 0;
    while i < index.len()
        invariant
            i <= index@.len(),
            index@ == before,
            forall|k: int| 0 <= k < i ==> (#[trigger] before[k]).0 != t,
        ensures
            i < index@.len() ==> index@[i as int].0 == t,
        decreases index.len() - i,
    {
        if index[i].0 == t {
            break;
        }
        i = i + 1;
    }
    if i < index.len() {
        let mut entry: (FactType, Vec<usize>) = index.remove(i);
        let ghost old_list = entry.1@;
        entry.1.push(at);
        index.insert(i, entry);
        proof {
            assert(index@ =~= before.update(i as int, entry));
            assert(crate::order::as_ints(entry.1@) =~= crate::order::as_ints(old_list).push(
                at as int,
            ));
            assert forall|a: int, b: int| 0 <= a < b < index@.len() implies (
            #[trigger] index@[a]).0 != (#[trigger] index@[b]).0 by {
                assert(before[a].0 != before[b].0);
            }
            assert forall|a: int| 0 <= a < index@.len() implies (
            #[trigger] index@[a]).1@.len() > 0 by {
                assert(before[a].1@.len() > 0);
            }
            lemma_under(before, i as int);
            lemma_under(index@, i as int);
            assert forall|o: FactType| o != t implies #[trigger] under(index@, o) == under(
                before,
                o,
            ) by {
                lemma_under_same_elsewhere(before, index@, i as int, o);
            }
        }
    } else {
        let mut list: Vec<usize> = Vec::new();
        list.push(at);
        index.push((t, list));
        proof {
            assert(index@.drop_last() == before);
            lemma_not_under(before, t);
            assert(crate::order::as_ints(list@) =~= under(before, t).push(at as int));
            assert forall|a: int, b: int| 0 <= a < b < index@.len() implies (
            #[trigger] index@[a]).0 != (#[trigger] index@[b]).0 by {
                if b < before.len() {
                    assert(before[a].0 != before[b].0);
                } else {
                    assert(before[a].0 != t);
                }
            }
            assert forall|a: int| 0 <= a < index@.len() implies (
            #[trigger] index@[a]).1@.len() > 0 by {
                if a < before.len() {
                    assert(before[a].1@.len() > 0);
                }
            }
        }
    }
}

/// Two indices that differ only in the list at `i` hold the same under every
/// other facet.
proof fn lemma_under_same_elsewhere(
    a: Seq<(FactType, Vec<usize>)>,
    b: Seq<(FactType, Vec<usize>)>,
    i: int,
    o: FactType,
)
    requires
        a.len() == b.len(),
        0 <= i < a.len(),
        a[i].0 == b[i].0,
        a[i].0 != o,
        forall|k: int| 0 <= k < a.len() && k != i ==> a[k] == #[trigger] b[k],
    ensures
        under(a, o) == under(b, o),
    decreases a.len(),
{
    if a.len() > 0 {
        let fa = a.drop_last();
        let fb = b.drop_last();
        if i == a.len() - 1 {
            assert(fa =~= fb) by {
                assert forall|k: int| 0 <= k < fa.len() implies fa[k] == fb[k] by {
                    assert(a[k] == b[k]);
                }
            }
        } else {
            assert(a[a.len() - 1] == b[a.len() - 1]);
            assert forall|k: int| 0 <= k < fa.len() && k != i implies fa[k] == #[trigger] fb[k] by {
                assert(a[k] == b[k]);
            }
            lemma_under_same_elsewhere(fa, fb, i, o);
        }
    }
}

/// Whether the semantic extraction can be used: it needs an embedding service
/// that is enabled.
pub fn require_embeddings(enabled: bool) -> (r: Result<(), Error>)
    ensures
        match r {
            Ok(_) => enabled,
            Err(e) => !enabled && e is Config && e.text()
                == "semantic persona extraction requires an enabled embedding service"@,
        },
{
    if enabled {
        Ok(())
    } else {
        Err(
            Error::Config(
                "semantic persona extraction requires an enabled embedding service".to_owned(),
            ),
        )
    }
}

/// Every sentence of the library is embedded, entry by entry in order, and
/// stands for the facet and the stance of its entry.
pub proof fn law_every_sentence_is_embedded(v: Seq<PersonaPrototypeEntry>, e: PersonaPrototypeEntry)
    ensures
        full_plan(Seq::empty()).len() == 0,
        full_plan(v.push(e)).len() == full_plan(v).len() + e.sentences@.len(),
        full_plan(v.push(e)).subrange(0, full_plan(v).len() as int) == full_plan(v),
        forall|i: int|
            #![trigger e.sentences@[i]]
            0 <= i < e.sentences@.len() ==> full_plan(v.push(e))[full_plan(v).len() + i] == (
            PlanView {
                fact_type: e.fact_type,
                negated: e.negated,
                sentence: e.sentences@[i]@,
            }),
{
    assert(v.push(e).drop_last() =~= v);
    assert(full_plan(v.push(e)).subrange(0, full_plan(v).len() as int) =~= full_plan(v));
}

/// The index of a facet lists exactly the prototypes of that facet, in order.
pub proof fn law_index_lists_the_facet<V>(v: Seq<PrototypeVector<V>>, t: FactType, n: int, i: int)
    requires
        0 <= n <= v.len(),
    ensures
        positions(v, t, n).contains(i) <==> 0 <= i < n && v[i].fact_type == t,
        forall|a: int, b: int|
            0 <= a < b < positions(v, t, n).len() ==> #[trigger] positions(v, t, n)[a]
                < #[trigger] positions(v, t, n)[b],
        forall|a: int| 0 <= a < positions(v, t, n).len() ==> #[trigger] positions(v, t, n)[a] < n,
    decreases n,
{
    if n > 0 {
        let before = positions(v, t, n - 1);
        let all = positions(v, t, n);
        law_index_lists_the_facet(v, t, n - 1, i);
        if before.contains(i) {
            let k = choose|k: int| 0 <= k < before.len() && before[k] == i;
            assert(all[k] == i);
        }
        if all.contains(i) && !before.contains(i) {
            let k = choose|k: int| 0 <= k < all.len() && all[k] == i;
            if k < before.len() {
                assert(before[k] == i);
            }
        }
        if v[n - 1].fact_type == t {
            assert(all[before.len() as int] == n - 1);
        }
        assert forall|a: int, b: int| 0 <= a < b < all.len() implies #[trigger] all[a]
            < #[trigger] all[b] by {
            assert(all[a] == before[a]);
            if b < before.len() {
                assert(all[b] == before[b]);
            }
        }
    }
}

} // verus!
