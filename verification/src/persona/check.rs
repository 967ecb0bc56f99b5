//! The persona guard: does a draft contradict, or drift from, what the agent
//! has said of itself? The guard only reads.
use vstd::prelude::*;

use crate::cognition::{fact_views, Fact, FactType, FactView, Score, ScoreView};
use crate::json::JsonView;
use crate::persona::keyword_extractor::{keyword_signals, KeywordPersonaExtractor};
use crate::persona::prototype::PersonaThresholds;
use crate::persona::{signal_views, PersonaSignal, SignalView, AGENT_PERSONALITY_ATTRIBUTION};
use crate::text::{chars_of, same_text};

verus! {

/// The fact is tagged as persona.
pub open spec fn is_persona(f: FactView) -> bool {
    f.text_of("attribution"@) == Some(AGENT_PERSONALITY_ATTRIBUTION@)
}

/// Whether a fact is tagged as persona.
pub fn is_persona_fact(fact: &Fact) -> (r: bool)
    ensures
        r == is_persona(fact@),
{
    match fact.text_of("attribution") {
        Some(s) => same_text(s, AGENT_PERSONALITY_ATTRIBUTION),
        None => false,
    }
}

/// The facts that are tagged as persona, in order.
pub open spec fn persona_only(v: Seq<FactView>) -> Seq<FactView>
    decreases v.len(),
{
    if v.len() == 0 {
        Seq::empty()
    } else if is_persona(v.last()) {
        persona_only(v.drop_last()).push(v.last())
    } else {
        persona_only(v.drop_last())
    }
}

/// The values of a list of borrowed facts.
pub open spec fn ref_views(v: Seq<&Fact>) -> Seq<FactView> {
    Seq::new(v.len(), |i: int| v[i]@)
}

/// The facts that are tagged as persona, in order.
pub fn filter_persona_facts(facts: &Vec<Fact>) -> (v: Vec<&Fact>)
    ensures
        ref_views(v@) == persona_only(fact_views(facts@)),
{
    let mut v: Vec<&Fact> = Vec::new();
    let ghost all = fact_views(facts@);
    let mut i: usize = 0;
    assert(ref_views(v@) =~= persona_only(all.subrange(0, 0)));
    while i < facts.len()
        invariant
            i <= facts@.len(),
            all == fact_views(facts@),
            ref_views(v@) == persona_only(all.subrange(0, i as int)),
        decreases facts.len() - i,
    {
        let ghost before = ref_views(v@);
        let ghost now = all.subrange(0, i + 1);
        assert(now.drop_last() == all.subrange(0, i as int));
        assert(now.last() == facts@[i as int]@);
        if is_persona_fact(&facts[i]) {
            v.push(&facts[i]);
            assert(ref_views(v@) =~= before.push(facts@[i as int]@));
        }
        i = i + 1;
    }
    assert(all.subrange(0, all.len() as int) == all);
    v
}

/// The pairs of neighbouring characters that stand in `s` at index `i`.
pub open spec fn bigram(s: Seq<char>, i: int) -> (char, char) {
    (s[i], s[i + 1])
}

/// The pair stands somewhere in `s`.
pub open spec fn has_bigram(s: Seq<char>, b: (char, char)) -> bool {
    exists|i: int| 0 <= i < s.len() - 1 && #[trigger] bigram(s, i) == b
}

/// How many of the first `n` pairs of `b` stand somewhere in `a`.
pub open spec fn shared_count(a: Seq<char>, b: Seq<char>, n: int) -> int
    decreases n,
{
    if n <= 0 {
        0
    } else {
        shared_count(a, b, n - 1) + (if has_bigram(a, bigram(b, n - 1)) {
            1int
        } else {
            0
        })
    }
}

/// How many pairs of `b` stand somewhere in `a`.
pub open spec fn shared(a: Seq<char>, b: Seq<char>) -> int {
    shared_count(a, b, b.len() - 1)
}

/// Whether a pair stands in a text.
fn contains_bigram(v: &Vec<char>, x: char, y: char) -> (r: bool)
    ensures
        r == has_bigram(v@, (x, y)),
{
    if v.len() < 2 {
        return false;
    }
    let mut i: usize = 0;
    while i < v.len() - 1
        invariant
            i <= v@.len() - 1,
            forall|k: int| 0 <= k < i ==> #[trigger] bigram(v@, k) != (x, y),
        decreases v.len() - i,
    {
        if v[i] == x && v[i + 1] == y {
            assert(bigram(v@, i as int) == (x, y));
            return true;
        }
        assert(bigram(v@, i as int) != (x, y));
        i = i + 1;
    }
    false
}

/// How many pairs of neighbouring characters of `b` also stand in `a`.
pub fn shared_bigrams(a: &str, b: &str) -> (n: usize)
    ensures
        n == shared(a@, b@),
{
    let x: Vec<char> = chars_of(a);
    let y: Vec<char> = chars_of(b);
    if y.len() < 2 {
        return 0;
    }
    let mut n: usize = 0;
    let mut i: usize = 0;
    while i < y.len() - 1
        invariant
            i <= y@.len() - 1,
            n <= i,
            n == shared_count(x@, y@, i as int),
        decreases y.len() - i,
    {
        if contains_bigram(&x, y[i], y[i + 1]) {
            assert(has_bigram(x@, bigram(y@, i as int)));
            n = n + 1;
        } else {
            assert(!has_bigram(x@, bigram(y@, i as int)));
        }
        i = i + 1;
    }
    n
}

/// How similar a draft and a stored fact are: a score of the semantic path,
/// or the number of shared character pairs of the keyword path.
#[derive(Debug)]
pub enum Similarity {
    Score(Score),
    SharedPairs(usize),
}

/// The value of a similarity.
pub enum SimilarityView {
    Score(ScoreView),
    SharedPairs(int),
}

impl View for Similarity {
    type V = SimilarityView;

    open spec fn view(&self) -> SimilarityView {
        match *self {
            Similarity::Score(s) => SimilarityView::Score(s@),
            Similarity::SharedPairs(n) => SimilarityView::SharedPairs(n as int),
        }
    }
}

/// A contradiction between a draft and a stored fact.
#[derive(Debug)]
pub struct PersonaConflict {
    pub fact_type: FactType,
    pub draft_signal: PersonaSignal,
    /// The id of the stored fact, or -1.
    pub stored_fact_id: i64,
    pub stored_content: String,
    pub stored_negated: bool,
    pub similarity: Similarity,
}

/// A statement in a draft that nothing stored supports.
#[derive(Debug)]
pub struct PersonaDrift {
    pub fact_type: FactType,
    pub draft_signal: PersonaSignal,
    /// Why.
    pub reason: String,
}

/// What a check found.
#[derive(Debug)]
pub struct PersonaCheckResult {
    /// Contradictions, which call for a revision.
    pub conflicts: Vec<PersonaConflict>,
    /// Statements without support.
    pub drift: Vec<PersonaDrift>,
    /// How many signals agree with what is stored.
    pub consistent_count: usize,
    /// How many signals the draft has.
    pub total_signals: usize,
}

impl Default for PersonaCheckResult {
    fn default() -> (r: PersonaCheckResult)
        ensures
            r@ == (ResultView {
                conflicts: Seq::empty(),
                drift: Seq::empty(),
                consistent_count: 0,
                total_signals: 0,
            }),
    {
        let r = PersonaCheckResult {
            conflicts: Vec::new(),
            drift: Vec::new(),
            consistent_count: 0,
            total_signals: 0,
        };
        assert(r@.conflicts =~= Seq::empty());
        assert(r@.drift =~= Seq::empty());
        r
    }
}

/// The value of a contradiction.
pub struct ConflictView {
    pub fact_type: FactType,
    pub signal: SignalView,
    pub stored_fact_id: int,
    pub stored_content: Seq<char>,
    pub stored_negated: bool,
    pub similarity: SimilarityView,
}

/// The value of a statement without support.
pub struct DriftView {
    pub fact_type: FactType,
    pub signal: SignalView,
    pub reason: Seq<char>,
}

/// The value of a check's result.
pub struct ResultView {
    pub conflicts: Seq<ConflictView>,
    pub drift: Seq<DriftView>,
    pub consistent_count: int,
    pub total_signals: int,
}

impl View for PersonaConflict {
    type V = ConflictView;

    open spec fn view(&self) -> ConflictView {
        ConflictView {
            fact_type: self.fact_type,
            signal: self.draft_signal@,
            stored_fact_id: self.stored_fact_id as int,
            stored_content: self.stored_content@,
            stored_negated: self.stored_negated,
            similarity: self.similarity@,
        }
    }
}

impl View for PersonaDrift {
    type V = DriftView;

    open spec fn view(&self) -> DriftView {
        DriftView {
            fact_type: self.fact_type,
            signal: self.draft_signal@,
            reason: self.reason@,
        }
    }
}

impl View for PersonaCheckResult {
    type V = ResultView;

    open spec fn view(&self) -> ResultView {
        ResultView {
            conflicts: Seq::new(self.conflicts@.len(), |i: int| self.conflicts@[i]@),
            drift: Seq::new(self.drift@.len(), |i: int| self.drift@[i]@),
            consistent_count: self.consistent_count as int,
            total_signals: self.total_signals as int,
        }
    }
}

impl PersonaCheckResult {
    /// Whether the draft neither contradicts nor drifts.
    pub fn is_clean(&self) -> (r: bool)
        ensures
            r == (self@.conflicts.len() == 0 && self@.drift.len() == 0),
    {
        self.conflicts.len() == 0 && self.drift.len() == 0
    }
}

/// What a check says of one signal.
pub enum Verdict {
    Conflict(ConflictView),
    Drift(Seq<char>),
    Consistent,
    /// The draft could not be embedded.
    Skipped,
}

impl ResultView {
    /// The result after one more verdict.
    pub open spec fn with(self, signal: SignalView, v: Verdict) -> ResultView {
        match v {
            Verdict::Conflict(c) => ResultView { conflicts: self.conflicts.push(c), ..self },
            Verdict::Drift(reason) => ResultView {
                drift: self.drift.push(DriftView { fact_type: signal.fact_type, signal, reason }),
                ..self
            },
            Verdict::Consistent => ResultView {
                consistent_count: self.consistent_count + 1,
                ..self
            },
            Verdict::Skipped => self,
        }
    }
}

/// The text that a stored fact states; empty when it states none.
pub open spec fn content_of(f: FactView) -> Seq<char> {
    match f.text_of("content"@) {
        Some(s) => s,
        None => Seq::empty(),
    }
}

/// The id by which a fact is reported: its own, or -1.
pub open spec fn shown_id(id: Option<i64>) -> int {
    match id {
        Some(n) => n as int,
        None => -1int,
    }
}

/// A stored fact as it is compared: `None` when it cannot be, because it
/// states nothing, is of another facet, or has no embedding.
pub struct Compared {
    pub fact: FactView,
    /// How similar the draft is, as an integer that ranks as the similarity
    /// does.
    pub rank: Option<int>,
    pub similarity: SimilarityView,
}

/// The fact takes the opposite stance and is similar enough.
pub open spec fn contradicts(signal: SignalView, c: Compared, least: int) -> bool {
    c.rank is Some && c.fact.flag("negated"@) != signal.negated && c.rank->0 >= least
}

/// The fact takes the same stance.
pub open spec fn agrees(signal: SignalView, c: Compared) -> bool {
    c.rank is Some && c.fact.flag("negated"@) == signal.negated
}

/// The contradicting fact that is most similar, and the first of these.
pub open spec fn is_worst(signal: SignalView, v: Seq<Compared>, least: int, i: int) -> bool {
    &&& 0 <= i < v.len()
    &&& contradicts(signal, v[i], least)
    &&& forall|j: int|
        0 <= j < v.len() && contradicts(signal, #[trigger] v[j], least) ==> v[j].rank->0
            < v[i].rank->0 || (v[j].rank->0 == v[i].rank->0 && i <= j)
}

/// No fact contradicts the signal.
pub open spec fn uncontradicted(signal: SignalView, v: Seq<Compared>, least: int) -> bool {
    forall|j: int| 0 <= j < v.len() ==> !contradicts(signal, #[trigger] v[j], least)
}

/// A fact of the same stance is similar enough to support the signal.
pub open spec fn supported(signal: SignalView, v: Seq<Compared>, enough: int) -> bool {
    exists|j: int|
        0 <= j < v.len() && agrees(signal, #[trigger] v[j]) && v[j].rank->0 >= enough
}

/// The verdict on a signal, given the compared facts: the worst contradiction,
/// or support, or drift for this reason.
pub open spec fn judged(
    signal: SignalView,
    v: Seq<Compared>,
    least: int,
    enough: int,
    reason: Seq<char>,
    verdict: Verdict,
) -> bool {
    if !uncontradicted(signal, v, least) {
        exists|i: int| #[trigger]
            is_worst(signal, v, least, i) && verdict == Verdict::Conflict(
                ConflictView {
                    fact_type: signal.fact_type,
                    signal,
                    stored_fact_id: shown_id(v[i].fact.id),
                    stored_content: content_of(v[i].fact),
                    stored_negated: v[i].fact.flag("negated"@),
                    similarity: v[i].similarity,
                },
            )
    } else if supported(signal, v, enough) {
        verdict == Verdict::Consistent
    } else {
        verdict == Verdict::Drift(reason)
    }
}

/// A stored fact as the keyword path compares it.
pub open spec fn keyword_compared(signal: SignalView, f: FactView) -> Compared {
    Compared {
        fact: f,
        rank: if f.fact_type == signal.fact_type && content_of(f).len() > 0 {
            Some(shared(signal.text, content_of(f)))
        } else {
            None
        },
        similarity: SimilarityView::SharedPairs(shared(signal.text, content_of(f))),
    }
}

/// A signal is compared with the facts of its facet that state something.
pub open spec fn comparable(signal: SignalView, f: FactView) -> bool {
    f.fact_type == signal.fact_type && content_of(f).len() > 0
}

/// Whether a signal is compared with a fact: only then is its similarity to the
/// fact asked for.
pub fn is_comparable(signal: &PersonaSignal, fact: &Fact) -> (r: bool)
    ensures
        r == comparable(signal@, fact@),
{
    let stated: bool = match fact.text_of("content") {
        Some(t) => !t.is_empty(),
        None => false,
    };
    fact.fact_type == signal.fact_type && stated
}

/// A stored fact as the semantic path compares it, given its similarity to the
/// draft, if it has one.
pub open spec fn semantic_compared(signal: SignalView, f: FactView, s: Option<ScoreView>) -> Compared {
    Compared {
        fact: f,
        rank: if comparable(signal, f) && s is Some {
            Some(s->0.rank)
        } else {
            None
        },
        similarity: SimilarityView::Score(
            match s {
                Some(x) => x,
                None => ScoreView::zero(),
            },
        ),
    }
}

/// Nothing is stored of the signal's facet.
pub open spec fn no_such_facet(signal: SignalView, persona: Seq<FactView>) -> bool {
    forall|i: int| 0 <= i < persona.len() ==> (#[trigger] persona[i]).fact_type != signal.fact_type
}

/// The verdict of the keyword path.
pub open spec fn keyword_verdict(
    signal: SignalView,
    persona: Seq<FactView>,
    verdict: Verdict,
) -> bool {
    if no_such_facet(signal, persona) {
        verdict == Verdict::Drift("no stored persona fact of this type"@)
    } else {
        judged(
            signal,
            Seq::new(persona.len(), |i: int| keyword_compared(signal, persona[i])),
            1,
            1,
            "no anchored persona fact (zero shared bigrams)"@,
            verdict,
        )
    }
}

/// The similarities of a draft to the stored facts, one per fact; none at all
/// when the draft could not be embedded.
pub type Similarities = Option<Vec<Option<Score>>>;

/// The verdict of the semantic path.
pub open spec fn semantic_verdict(
    signal: SignalView,
    persona: Seq<FactView>,
    similarities: Option<Seq<Option<ScoreView>>>,
    thresholds: PersonaThresholds,
    verdict: Verdict,
) -> bool {
    if no_such_facet(signal, persona) {
        verdict == Verdict::Drift("no stored persona fact of this type"@)
    } else {
        match similarities {
            None => verdict == Verdict::Skipped,
            Some(s) => judged(
                signal,
                Seq::new(persona.len(), |i: int| semantic_compared(signal, persona[i], s[i])),
                thresholds.conflict.rank as int,
                thresholds.match_.rank as int,
                "no anchored persona fact (best similarity below match threshold)"@,
                verdict,
            ),
        }
    }
}

/// The view of optional scores.
pub open spec fn score_views(v: Seq<Option<Score>>) -> Seq<Option<ScoreView>> {
    Seq::new(
        v.len(),
        |i: int|
            match v[i] {
                Some(s) => Some(s@),
                None => None,
            },
    )
}

/// Whether anything is stored of a facet: a signal of another one needs no
/// similarities.
pub fn has_facet(persona: &Vec<&Fact>, t: FactType) -> (r: bool)
    ensures
        r == exists|i: int|
            0 <= i < persona@.len() && (#[trigger] ref_views(persona@)[i]).fact_type == t,
{
    let mut i: usize = 0;
    while i < persona.len()
        invariant
            i <= persona@.len(),
            forall|k: int| 0 <= k < i ==> (#[trigger] ref_views(persona@)[k]).fact_type != t,
        decreases persona.len() - i,
    {
        assert(ref_views(persona@)[i as int] == persona@[i as int]@);
        if persona[i].fact_type == t {
            return true;
        }
        i = i + 1;
    }
    false
}

/// A stored fact with its rank, as it is compared.
struct Candidate<'a> {
    fact: &'a Fact,
    rank: Option<i128>,
}

/// Find the worst contradiction and whether there is support.
fn weigh(signal: &PersonaSignal, v: &Vec<Candidate<'_>>, least: i128, enough: i128, all: Ghost<
    Seq<Compared>,
>) -> (r: (Option<usize>, bool))
    requires
        all@.len() == v@.len(),
        forall|i: int|
            0 <= i < v@.len() ==> (#[trigger] all@[i]).fact == v@[i].fact@ && all@[i].rank == (
            match v@[i].rank {
                Some(n) => Some(n as int),
                None => None,
            }),
    ensures
        match r.0 {
            Some(i) => is_worst(signal@, all@, least as int, i as int),
            None => uncontradicted(signal@, all@, least as int),
        },
        r.1 == supported(signal@, all@, enough as int),
{
    let mut worst: Option<usize> = None;
    let mut support: bool = false;
    let mut i: usize = 0;
    while i < v.len()
        invariant
            i <= v@.len() == all@.len(),
            forall|k: int|
                0 <= k < v@.len() ==> (#[trigger] all@[k]).fact == v@[k].fact@ && all@[k].rank == (
                match v@[k].rank {
                    Some(n) => Some(n as int),
                    None => None,
                }),
            match worst {
                Some(w) => {
                    &&& w < i
                    &&& contradicts(signal@, all@[w as int], least as int)
                    &&& forall|j: int|
                        0 <= j < i && contradicts(signal@, #[trigger] all@[j], least as int)
                            ==> all@[j].rank->0 < all@[w as int].rank->0 || (all@[j].rank->0
                            == all@[w as int].rank->0 && w <= j)
                },
                None => forall|j: int|
                    0 <= j < i ==> !contradicts(signal@, #[trigger] all@[j], least as int),
            },
            support == exists|j: int|
                0 <= j < i && agrees(signal@, #[trigger] all@[j]) && all@[j].rank->0 >= enough,
        decreases v.len() - i,
    {
        let ghost here = all@[i as int];
        match v[i].rank {
            Some(rank) => {
                let negated: bool = v[i].fact.flag("negated");
                assert(negated == here.fact.flag("negated"@));
                if negated != signal.negated {
                    if rank >= least {
                        assert(contradicts(signal@, here, least as int));
                        let more: bool = match worst {
                            Some(w) => match v[w].rank {
                                Some(other) => {
                                    assert(all@[w as int].rank == Some(other as int));
                                    rank > other
                                },
                                None => true,
                            },
                            None => true,
                        };
                        if more {
                            worst = Some(i);
                        }
                    }
                } else {
                    assert(agrees(signal@, here));
                    if rank >= enough {
                        support = true;
                    }
                }
            },
            None => {},
        }
        i = i + 1;
    }
    (worst, support)
}

/// Note a contradiction with a stored fact.
fn note_conflict(
    signal: &PersonaSignal,
    fact: &Fact,
    similarity: Similarity,
    result: &mut PersonaCheckResult,
)
    ensures
        final(result)@ == old(result)@.with(
            signal@,
            Verdict::Conflict(
                ConflictView {
                    fact_type: signal.fact_type,
                    signal: signal@,
                    stored_fact_id: shown_id(fact@.id),
                    stored_content: content_of(fact@),
                    stored_negated: fact@.flag("negated"@),
                    similarity: similarity@,
                },
            ),
        ),
{
    let ghost before = result@;
    let content: String = match fact.text_of("content") {
        Some(s) => s.to_owned(),
        None => String::new(),
    };
    let id: i64 = match fact.id {
        Some(id) => id,
        None => -1,
    };
    let conflict = PersonaConflict {
        fact_type: signal.fact_type,
        draft_signal: signal.copy(),
        stored_fact_id: id,
        stored_content: content,
        stored_negated: fact.flag("negated"),
        similarity,
    };
    result.conflicts.push(conflict);
    assert(result@.conflicts =~= before.conflicts.push(conflict@));
    assert(result@.drift =~= before.drift);
}

/// Note a statement without support.
fn note_drift(signal: &PersonaSignal, reason: &str, result: &mut PersonaCheckResult)
    ensures
        final(result)@ == old(result)@.with(signal@, Verdict::Drift(reason@)),
{
    let ghost before = result@;
    let drift = PersonaDrift {
        fact_type: signal.fact_type,
        draft_signal: signal.copy(),
        reason: reason.to_owned(),
    };
    result.drift.push(drift);
    assert(result@.drift =~= before.drift.push(drift@));
    assert(result@.conflicts =~= before.conflicts);
}

/// Note a signal that agrees with what is stored.
fn note_consistent(signal: &PersonaSignal, result: &mut PersonaCheckResult)
    requires
        old(result).consistent_count < usize::MAX,
    ensures
        final(result)@ == old(result)@.with(signal@, Verdict::Consistent),
{
    let ghost before = result@;
    result.consistent_count = result.consistent_count + 1;
    assert(result@.conflicts =~= before.conflicts);
    assert(result@.drift =~= before.drift);
}

/// Check one signal by keyword: any shared pair of characters shows that two
/// statements are about the same thing.
pub fn check_keyword(
    signal: &PersonaSignal,
    persona: &Vec<&Fact>,
    result: &mut PersonaCheckResult,
)
    requires
        old(result).consistent_count < usize::MAX,
    ensures
        final(result).consistent_count <= old(result).consistent_count + 1,
        exists|v: Verdict| #[trigger]
            keyword_verdict(signal@, ref_views(persona@), v) && final(result)@ == old(
                result,
            )@.with(signal@, v),
{
    let ghost stored = ref_views(persona@);
    if !has_facet(persona, signal.fact_type) {
        let ghost verdict = Verdict::Drift("no stored persona fact of this type"@);
        note_drift(signal, "no stored persona fact of this type", result);
        assert(keyword_verdict(signal@, stored, verdict));
        return;
    }
    let ghost all = Seq::new(stored.len(), |i: int| keyword_compared(signal@, stored[i]));
    let mut v: Vec<Candidate<'_>> = Vec::new();
    let mut i: usize = 0;
    while i < persona.len()
        invariant
            i <= persona@.len(),
            stored == ref_views(persona@),
            all == Seq::new(stored.len(), |i: int| keyword_compared(signal@, stored[i])),
            v@.len() == i,
            forall|k: int|
                0 <= k < i ==> (#[trigger] all[k]).fact == v@[k].fact@ && all[k].rank == (
                match v@[k].rank {
                    Some(n) => Some(n as int),
                    None => None,
                }),
        decreases persona.len() - i,
    {
        let fact: &Fact = persona[i];
        assert(stored[i as int] == fact@);
        let rank: Option<i128> = if fact.fact_type == signal.fact_type {
            match fact.text_of("content") {
                Some(s) => if s.is_empty() {
                    None
                } else {
                    Some(overlap_rank(signal.text.as_str(), s))
                },
                None => None,
            }
        } else {
            None
        };
        v.push(Candidate { fact, rank });
        assert(all[i as int] == keyword_compared(signal@, fact@));
        i = i + 1;
    }
    let (worst, support) = weigh(signal, &v, 1, 1, Ghost(all));
    match worst {
        Some(w) => {
            let content: String = match v[w].fact.text_of("content") {
                Some(s) => s.to_owned(),
                None => String::new(),
            };
            let n: usize = shared_bigrams(signal.text.as_str(), content.as_str());
            let ghost verdict = Verdict::Conflict(
                ConflictView {
                    fact_type: signal.fact_type,
                    signal: signal@,
                    stored_fact_id: shown_id(v@[w as int].fact@.id),
                    stored_content: content_of(v@[w as int].fact@),
                    stored_negated: v@[w as int].fact@.flag("negated"@),
                    similarity: SimilarityView::SharedPairs(n as int),
                },
            );
            assert(is_worst(signal@, all, 1, w as int));
            assert(all[w as int].fact == v@[w as int].fact@);
            assert(!uncontradicted(signal@, all, 1));
            assert(keyword_verdict(signal@, stored, verdict));
            note_conflict(signal, v[w].fact, Similarity::SharedPairs(n), result);
        },
        None => {
            if support {
                assert(keyword_verdict(signal@, stored, Verdict::Consistent));
                note_consistent(signal, result);
            } else {
                let ghost verdict = Verdict::Drift(
                    "no anchored persona fact (zero shared bigrams)"@,
                );
                assert(keyword_verdict(signal@, stored, verdict));
                note_drift(signal, "no anchored persona fact (zero shared bigrams)", result);
            }
        },
    }
}

/// The number of shared pairs, as a rank.
fn overlap_rank(a: &str, b: &str) -> (n: i128)
    ensures
        n == shared(a@, b@),
{
    shared_bigrams(a, b) as i128
}

/// The view of the similarities of a draft.
pub open spec fn similarity_views(s: Similarities) -> Option<Seq<Option<ScoreView>>> {
    match s {
        Some(v) => Some(score_views(v@)),
        None => None,
    }
}

/// Check one signal by embedding, given its similarity to each stored fact. A
/// draft that could not be embedded is not judged.
pub fn check_semantic(
    signal: &PersonaSignal,
    persona: &Vec<&Fact>,
    similarities: &Similarities,
    thresholds: &PersonaThresholds,
    result: &mut PersonaCheckResult,
)
    requires
        old(result).consistent_count < usize::MAX,
        similarities matches Some(s) ==> s@.len() == persona@.len(),
    ensures
        final(result).consistent_count <= old(result).consistent_count + 1,
        exists|v: Verdict| #[trigger]
            semantic_verdict(
                signal@,
                ref_views(persona@),
                similarity_views(*similarities),
                *thresholds,
                v,
            ) && final(result)@ == old(result)@.with(signal@, v),
{
    let ghost stored = ref_views(persona@);
    let ghost given = similarity_views(*similarities);
    if !has_facet(persona, signal.fact_type) {
        let ghost verdict = Verdict::Drift("no stored persona fact of this type"@);
        note_drift(signal, "no stored persona fact of this type", result);
        assert(semantic_verdict(signal@, stored, given, *thresholds, verdict));
        return;
    }
    let scores: &Vec<Option<Score>> = match similarities {
        Some(s) => s,
        None => {
            assert(semantic_verdict(signal@, stored, given, *thresholds, Verdict::Skipped));
            return;
        },
    };
    let ghost s = score_views(scores@);
    let ghost all = Seq::new(stored.len(), |i: int| semantic_compared(signal@, stored[i], s[i]));
    let mut v: Vec<Candidate<'_>> = Vec::new();
    let mut i: usize = 0;
    while i < persona.len()
        invariant
            i <= persona@.len() == scores@.len(),
            stored == ref_views(persona@),
            s == score_views(scores@),
            all == Seq::new(stored.len(), |i: int| semantic_compared(signal@, stored[i], s[i])),
            v@.len() == i,
            forall|k: int|
                0 <= k < i ==> (#[trigger] all[k]).fact == v@[k].fact@ && all[k].rank == (
                match v@[k].rank {
                    Some(n) => Some(n as int),
                    None => None,
                }),
        decreases persona.len() - i,
    {
        let fact: &Fact = persona[i];
        assert(stored[i as int] == fact@);
        let rank: Option<i128> = if is_comparable(signal, fact) {
            match &scores[i] {
                Some(x) => Some(x.rank as i128),
                None => None,
            }
        } else {
            None
        };
        v.push(Candidate { fact, rank });
        assert(all[i as int] == semantic_compared(signal@, fact@, s[i as int]));
        i = i + 1;
    }
    let least: i128 = thresholds.conflict.rank as i128;
    let enough: i128 = thresholds.match_.rank as i128;
    let (worst, support) = weigh(signal, &v, least, enough, Ghost(all));
    match worst {
        Some(w) => {
            let similarity: Score = match &scores[w] {
                Some(x) => x.copy(),
                None => Score::zero(),
            };
            let ghost verdict = Verdict::Conflict(
                ConflictView {
                    fact_type: signal.fact_type,
                    signal: signal@,
                    stored_fact_id: shown_id(v@[w as int].fact@.id),
                    stored_content: content_of(v@[w as int].fact@),
                    stored_negated: v@[w as int].fact@.flag("negated"@),
                    similarity: SimilarityView::Score(similarity@),
                },
            );
            assert(is_worst(signal@, all, least as int, w as int));
            assert(all[w as int].fact == v@[w as int].fact@);
            assert(!uncontradicted(signal@, all, least as int));
            assert(semantic_verdict(signal@, stored, given, *thresholds, verdict));
            note_conflict(signal, v[w].fact, Similarity::Score(similarity), result);
        },
        None => {
            if support {
                assert(semantic_verdict(signal@, stored, given, *thresholds, Verdict::Consistent));
                note_consistent(signal, result);
            } else {
                let ghost verdict = Verdict::Drift(
                    "no anchored persona fact (best similarity below match threshold)"@,
                );
                assert(semantic_verdict(signal@, stored, given, *thresholds, verdict));
                note_drift(
                    signal,
                    "no anchored persona fact (best similarity below match threshold)",
                    result,
                );
            }
        },
    }
}

/// The persona guard. With embeddings it compares by similarity, and else by
/// keyword.
#[derive(Debug)]
pub struct PersonaCheckEngine {
    pub semantic: bool,
    pub thresholds: PersonaThresholds,
}

/// The result after checking the signals one after the other by keyword.
pub open spec fn keyword_checked(
    signals: Seq<SignalView>,
    persona: Seq<FactView>,
    r: ResultView,
) -> bool
    decreases signals.len(),
{
    if signals.len() == 0 {
        r.conflicts.len() == 0 && r.drift.len() == 0 && r.consistent_count == 0
    } else {
        exists|before: ResultView, v: Verdict|
            #![trigger before.with(signals.last(), v)]
            {
                &&& keyword_checked(signals.drop_last(), persona, before)
                &&& keyword_verdict(signals.last(), persona, v)
                &&& r == before.with(signals.last(), v)
            }
    }
}

/// The result after checking the signals one after the other by embedding.
pub open spec fn semantic_checked(
    signals: Seq<SignalView>,
    persona: Seq<FactView>,
    similarities: Seq<Option<Seq<Option<ScoreView>>>>,
    thresholds: PersonaThresholds,
    r: ResultView,
) -> bool
    decreases signals.len(),
{
    if signals.len() == 0 {
        r.conflicts.len() == 0 && r.drift.len() == 0 && r.consistent_count == 0
    } else {
        exists|before: ResultView, v: Verdict|
            #![trigger before.with(signals.last(), v)]
            {
                &&& semantic_checked(
                    signals.drop_last(),
                    persona,
                    similarities,
                    thresholds,
                    before,
                )
                &&& semantic_verdict(
                    signals.last(),
                    persona,
                    similarities[signals.len() - 1],
                    thresholds,
                    v,
                )
                &&& r == before.with(signals.last(), v)
            }
    }
}

impl PersonaCheckEngine {
    /// A guard.
    pub fn new(semantic: bool, thresholds: PersonaThresholds) -> (e: PersonaCheckEngine)
        ensures
            e.semantic == semantic,
            e.thresholds == thresholds,
    {
        PersonaCheckEngine { semantic, thresholds }
    }

    /// Check a draft against the stored facts by keyword: the signals in the
    /// draft are extracted and checked. Only persona facts take part.
    pub fn check_draft(&self, draft: &str, stored: &Vec<Fact>) -> (r: PersonaCheckResult)
        requires
            !self.semantic,
        ensures
            exists|signals: Seq<SignalView>| #[trigger]
                keyword_signals(draft@, signals) && r@.total_signals == signals.len()
                    && keyword_checked(signals, persona_only(fact_views(stored@)), r@),
    {
        let signals: Vec<PersonaSignal> = KeywordPersonaExtractor::new().extract(draft);
        let r: PersonaCheckResult = self.check(&signals, stored, &Vec::new());
        assert(keyword_signals(draft@, signal_views(signals@)));
        r
    }

    /// Check the signals of a draft against the stored facts. Only persona
    /// facts take part. On the semantic path `similarities` holds for each
    /// signal its similarity to each persona fact, in order.
    pub fn check(
        &self,
        signals: &Vec<PersonaSignal>,
        stored: &Vec<Fact>,
        similarities: &Vec<Similarities>,
    ) -> (r: PersonaCheckResult)
        requires
            self.semantic ==> similarities@.len() == signals@.len(),
            self.semantic ==> forall|i: int|
                0 <= i < similarities@.len() ==> ((#[trigger] similarities@[i]) matches Some(s)
                    ==> s@.len() == persona_only(fact_views(stored@)).len()),
        ensures
            r@.total_signals == signals@.len(),
            if self.semantic {
                semantic_checked(
                    signal_views(signals@),
                    persona_only(fact_views(stored@)),
                    Seq::new(
                        similarities@.len(),
                        |i: int| similarity_views(similarities@[i]),
                    ),
                    self.thresholds,
                    r@,
                )
            } else {
                keyword_checked(
                    signal_views(signals@),
                    persona_only(fact_views(stored@)),
                    r@,
                )
            },
    {
        let mut r: PersonaCheckResult = PersonaCheckResult::default();
        r.total_signals = signals.len();
        let persona: Vec<&Fact> = filter_persona_facts(stored);
        let ghost all = signal_views(signals@);
        let ghost p = ref_views(persona@);
        let ghost sims = Seq::new(
            similarities@.len(),
            |i: int| similarity_views(similarities@[i]),
        );
        let mut i: usize = 0;
        assert(r@.conflicts =~= Seq::empty());
        assert(r@.drift =~= Seq::empty());
        while i < signals.len()
            invariant
                i <= signals@.len(),
                all == signal_views(signals@),
                p == ref_views(persona@),
                p == persona_only(fact_views(stored@)),
                sims == Seq::new(
                    similarities@.len(),
                    |i: int| similarity_views(similarities@[i]),
                ),
                self.semantic ==> similarities@.len() == signals@.len(),
                self.semantic ==> forall|k: int|
                    0 <= k < similarities@.len() ==> ((#[trigger] similarities@[k]) matches Some(s)
                        ==> s@.len() == persona_only(fact_views(stored@)).len()),
                r.total_signals == signals@.len(),
                r.consistent_count <= i,
                self.semantic ==> semantic_checked(
                    all.subrange(0, i as int),
                    p,
                    sims,
                    self.thresholds,
                    r@,
                ),
                !self.semantic ==> keyword_checked(all.subrange(0, i as int), p, r@),
            decreases signals.len() - i,
        {
            let ghost before = r@;
            let ghost now = all.subrange(0, i + 1);
            assert(now.drop_last() == all.subrange(0, i as int));
            assert(now.last() == signals@[i as int]@);
            if self.semantic {
                assert(sims[i as int] == similarity_views(similarities@[i as int]));
                check_semantic(&signals[i], &persona, &similarities[i], &self.thresholds, &mut r);
                proof {
                    let v = choose|v: Verdict| #[trigger]
                        semantic_verdict(now.last(), p, sims[i as int], self.thresholds, v) && r@
                            == before.with(now.last(), v);
                    assert(r@ == before.with(now.last(), v));
                }
            } else {
                check_keyword(&signals[i], &persona, &mut r);
                proof {
                    let v = choose|v: Verdict| #[trigger]
                        keyword_verdict(now.last(), p, v) && r@ == before.with(now.last(), v);
                    assert(r@ == before.with(now.last(), v));
                }
            }
            i = i + 1;
        }
        assert(all.subrange(0, all.len() as int) == all);
        r
    }
}

/// Every signal is accounted for on the keyword path: it contradicts, drifts,
/// or is consistent.
pub proof fn law_every_signal_is_judged(
    signals: Seq<SignalView>,
    persona: Seq<FactView>,
    r: ResultView,
)
    requires
        keyword_checked(signals, persona, r),
    ensures
        r.conflicts.len() + r.drift.len() + r.consistent_count == signals.len(),
    decreases signals.len(),
{
    if signals.len() > 0 {
        let (before, v) = choose|before: ResultView, v: Verdict|
            #![trigger before.with(signals.last(), v)]
            {
                &&& keyword_checked(signals.drop_last(), persona, before)
                &&& keyword_verdict(signals.last(), persona, v)
                &&& r == before.with(signals.last(), v)
            };
        law_every_signal_is_judged(signals.drop_last(), persona, before);
    }
}

/// A draft without signals is clean.
pub proof fn law_no_signals_is_clean(persona: Seq<FactView>, r: ResultView)
    requires
        keyword_checked(Seq::empty(), persona, r),
    ensures
        r.conflicts.len() == 0 && r.drift.len() == 0,
{
}

/// The fact is tagged as what the agent says of itself.
pub open spec fn tagged_as_persona(f: FactView) -> bool {
    f.payload.get("attribution"@) == Some(JsonView::Text("agent_personality"@))
}

/// Where the persona facts stand among the stored ones: `places` lists their
/// indices, in order.
proof fn lemma_persona_places(stored: Seq<FactView>) -> (places: Seq<int>)
    ensures
        places.len() == persona_only(stored).len(),
        forall|j: int|
            0 <= j < places.len() ==> 0 <= #[trigger] places[j] < stored.len()
                && stored[places[j]] == persona_only(stored)[j] && tagged_as_persona(
                stored[places[j]],
            ),
        forall|j: int, k: int|
            0 <= j < k < places.len() ==> #[trigger] places[j] < #[trigger] places[k],
        forall|i: int|
            0 <= i < stored.len() && tagged_as_persona(#[trigger] stored[i]) ==> places.contains(i),
    decreases stored.len(),
{
    if stored.len() == 0 {
        Seq::empty()
    } else {
        let front = stored.drop_last();
        let n = front.len() as int;
        let before = lemma_persona_places(front);
        let places = if is_persona(stored.last()) {
            before.push(n)
        } else {
            before
        };
        assert forall|j: int| 0 <= j < before.len() implies front[#[trigger] before[j]]
            == stored[before[j]] by {}
        assert forall|i: int|
            0 <= i < stored.len() && tagged_as_persona(#[trigger] stored[i]) implies places.contains(
            i,
        ) by {
            if i < n {
                assert(front[i] == stored[i]);
                assert(before.contains(i));
                let j = choose|j: int| 0 <= j < before.len() && before[j] == i;
                assert(places[j] == i);
            } else {
                assert(places[before.len() as int] == n);
            }
        }
        places
    }
}

/// Two texts share a pair of neighbouring characters.
pub open spec fn share_a_pair(a: Seq<char>, b: Seq<char>) -> bool {
    exists|i: int, j: int|
        #![trigger a[i], b[j]]
        0 <= i < a.len() - 1 && 0 <= j < b.len() - 1 && a[i] == b[j] && a[i + 1] == b[j + 1]
}

/// A pair is shared exactly when some are counted.
proof fn lemma_shared(a: Seq<char>, b: Seq<char>, n: int)
    requires
        0 <= n <= b.len() - 1 || n == 0,
    ensures
        shared_count(a, b, n) >= 0,
        shared_count(a, b, n) >= 1 <==> exists|i: int, j: int|
            #![trigger a[i], b[j]]
            0 <= i < a.len() - 1 && 0 <= j < n && a[i] == b[j] && a[i + 1] == b[j + 1],
    decreases n,
{
    if n > 0 {
        lemma_shared(a, b, n - 1);
        if has_bigram(a, bigram(b, n - 1)) {
            let i = choose|i: int|
                0 <= i < a.len() - 1 && #[trigger] bigram(a, i) == bigram(b, n - 1);
            assert(a[i] == b[n - 1]);
        }
        if exists|i: int, j: int|
            #![trigger a[i], b[j]]
            0 <= i < a.len() - 1 && 0 <= j < n && a[i] == b[j] && a[i + 1] == b[j + 1] {
            let (i, j) = choose|i: int, j: int|
                #![trigger a[i], b[j]]
                0 <= i < a.len() - 1 && 0 <= j < n && a[i] == b[j] && a[i + 1] == b[j + 1];
            if j == n - 1 {
                assert(bigram(a, i) == bigram(b, n - 1));
            }
        }
    }
}

/// Of the pairs of a text, each that also stands in the other counts: one more
/// character adds one exactly when the pair that it ends stands there. A text
/// shares all its pairs with itself.
pub proof fn law_shared_pairs_are_counted(a: Seq<char>, b: Seq<char>, c: char)
    requires
        b.len() > 0,
    ensures
        shared(a, b.push(c)) == shared(a, b) + (if exists|i: int|
            0 <= i < a.len() - 1 && #[trigger] a[i] == b.last() && a[i + 1] == c {
            1int
        } else {
            0
        }),
        shared(b, b) == b.len() - 1,
        shared(a, b) > 0 <==> share_a_pair(a, b),
{
    let more = b.push(c);
    let n = b.len() - 1;
    lemma_count_prefix(a, more, b, n);
    assert(bigram(more, n) == (b.last(), c));
    if exists|i: int| 0 <= i < a.len() - 1 && #[trigger] a[i] == b.last() && a[i + 1] == c {
        let i = choose|i: int| 0 <= i < a.len() - 1 && #[trigger] a[i] == b.last() && a[i + 1] == c;
        assert(bigram(a, i) == bigram(more, n));
    }
    if has_bigram(a, bigram(more, n)) {
        let i = choose|i: int| 0 <= i < a.len() - 1 && #[trigger] bigram(a, i) == bigram(more, n);
        assert(a[i] == b.last());
    }
    lemma_own_pairs(b, n);
    lemma_shared(a, b, n);
}

/// The count of the first pairs depends on them alone.
proof fn lemma_count_prefix(a: Seq<char>, b: Seq<char>, c: Seq<char>, n: int)
    requires
        n < b.len(),
        n < c.len(),
        forall|i: int| 0 <= i <= n ==> b[i] == c[i],
    ensures
        shared_count(a, b, n) == shared_count(a, c, n),
    decreases n,
{
    if n > 0 {
        lemma_count_prefix(a, b, c, n - 1);
        assert(bigram(b, n - 1) == bigram(c, n - 1));
    }
}

/// Every pair of a text stands in it.
proof fn lemma_own_pairs(b: Seq<char>, n: int)
    requires
        0 <= n <= b.len() - 1,
    ensures
        shared_count(b, b, n) == n,
    decreases n,
{
    if n > 0 {
        lemma_own_pairs(b, n - 1);
        assert(bigram(b, n - 1) == bigram(b, n - 1));
    }
}

/// The stored fact bears on the signal: it is a persona fact of the signal's own
/// facet, and what it says shares a pair of characters with what the draft says.
pub open spec fn bears_on(f: FactView, signal: SignalView) -> bool {
    &&& tagged_as_persona(f)
    &&& f.fact_type == signal.fact_type
    &&& f.payload.get("content"@) matches Some(JsonView::Text(said)) && share_a_pair(
        signal.text,
        said,
    )
}

/// The stored fact is against something.
pub open spec fn is_against(f: FactView) -> bool {
    f.payload.get("negated"@) == Some(JsonView::Bool(true))
}

/// What the keyword path compares of a persona fact.
proof fn lemma_keyword_compared(signal: SignalView, f: FactView)
    requires
        tagged_as_persona(f),
    ensures
        bears_on(f, signal) <==> (keyword_compared(signal, f).rank is Some && keyword_compared(
            signal,
            f,
        ).rank->0 >= 1),
        contradicts(signal, keyword_compared(signal, f), 1) <==> bears_on(f, signal) && is_against(
            f,
        ) != signal.negated,
        agrees(signal, keyword_compared(signal, f)) && keyword_compared(signal, f).rank->0 >= 1
            <==> bears_on(f, signal) && is_against(f) == signal.negated,
{
    let said = content_of(f);
    if said.len() > 0 {
        lemma_shared(signal.text, said, said.len() - 1);
    }
}

/// The stored fact at `i` is the one that contradicts the signal most: it bears
/// on the signal and takes the other stance, and no other such fact shares more
/// pairs with the draft, nor does an earlier one share as many.
pub open spec fn contradicts_most(stored: Seq<FactView>, signal: SignalView, i: int) -> bool {
    &&& 0 <= i < stored.len()
    &&& bears_on(stored[i], signal)
    &&& is_against(stored[i]) != signal.negated
    &&& forall|k: int|
        0 <= k < stored.len() && bears_on(#[trigger] stored[k], signal) && is_against(stored[k])
            != signal.negated ==> {
            let there = shared(signal.text, content_of(stored[k]));
            let here = shared(signal.text, content_of(stored[i]));
            there < here || (there == here && i <= k)
        }
}

/// What the keyword guard says of one statement, in terms of what is stored. It
/// is a contradiction exactly when a persona fact of the statement's own facet
/// shares words with it and takes the other stance, and then the one that shares
/// most is named. Else it is consistent exactly when such a fact takes the same
/// stance. Else it drifts. Facts of other facets, and facts that are no persona,
/// do not count.
pub proof fn law_a_statement_is_held_against_its_own_facet(
    signal: SignalView,
    stored: Seq<FactView>,
    r: ResultView,
)
    requires
        keyword_checked(seq![signal], persona_only(stored), r),
    ensures
        ({
            let against = exists|i: int|
                0 <= i < stored.len() && bears_on(#[trigger] stored[i], signal) && is_against(
                    stored[i],
                ) != signal.negated;
            let with = exists|i: int|
                0 <= i < stored.len() && bears_on(#[trigger] stored[i], signal) && is_against(
                    stored[i],
                ) == signal.negated;
            if against {
                &&& r.conflicts.len() == 1 && r.drift.len() == 0 && r.consistent_count == 0
                &&& exists|i: int| #[trigger]
                    contradicts_most(stored, signal, i) && r.conflicts[0] == (ConflictView {
                        fact_type: stored[i].fact_type,
                        signal,
                        stored_fact_id: match stored[i].id {
                            Some(id) => id as int,
                            None => -1,
                        },
                        stored_content: stored[i].payload.get("content"@)->0->Text_0,
                        stored_negated: !signal.negated,
                        similarity: SimilarityView::SharedPairs(
                            shared(signal.text, stored[i].payload.get("content"@)->0->Text_0),
                        ),
                    })
            } else if with {
                r.conflicts.len() == 0 && r.drift.len() == 0 && r.consistent_count == 1
            } else {
                &&& r.conflicts.len() == 0 && r.consistent_count == 0 && r.drift.len() == 1
                &&& r.drift[0].fact_type == signal.fact_type
                &&& r.drift[0].signal == signal
                &&& r.drift[0].reason == (if exists|i: int|
                    0 <= i < stored.len() && tagged_as_persona(#[trigger] stored[i])
                        && stored[i].fact_type == signal.fact_type {
                    "no anchored persona fact (zero shared bigrams)"@
                } else {
                    "no stored persona fact of this type"@
                })
            }
        }),
{
    let persona = persona_only(stored);
    let places = lemma_persona_places(stored);
    let v = lemma_one_signal(signal, persona, r);
    let all = Seq::new(persona.len(), |i: int| keyword_compared(signal, persona[i]));
    assert forall|j: int| 0 <= j < persona.len() implies #[trigger] persona[j] == stored[places[j]]
        && all[j] == keyword_compared(signal, persona[j]) && tagged_as_persona(persona[j]) by {
        assert(places[j] < stored.len());
    }
    assert forall|j: int| 0 <= j < persona.len() implies contradicts(signal, #[trigger] all[j], 1)
        == (bears_on(stored[places[j]], signal) && is_against(stored[places[j]])
        != signal.negated) && (agrees(signal, all[j]) && all[j].rank->0 >= 1) == (bears_on(
        stored[places[j]],
        signal,
    ) && is_against(stored[places[j]]) == signal.negated) by {
        assert(persona[j] == stored[places[j]]);
        lemma_keyword_compared(signal, persona[j]);
    }
    assert forall|i: int| 0 <= i < stored.len() && tagged_as_persona(#[trigger] stored[i]) implies
        exists|j: int| 0 <= j < places.len() && #[trigger] places[j] == i by {
        assert(places.contains(i));
        let j = choose|j: int| 0 <= j < places.len() && places[j] == i;
        assert(places[j] == i);
    }
    let against = exists|i: int|
        0 <= i < stored.len() && bears_on(#[trigger] stored[i], signal) && is_against(stored[i])
            != signal.negated;
    let with = exists|i: int|
        0 <= i < stored.len() && bears_on(#[trigger] stored[i], signal) && is_against(stored[i])
            == signal.negated;
    if no_such_facet(signal, persona) {
        assert forall|i: int| 0 <= i < stored.len() && tagged_as_persona(
            #[trigger] stored[i],
        ) implies stored[i].fact_type != signal.fact_type by {
            let j = choose|j: int| 0 <= j < places.len() && #[trigger] places[j] == i;
            assert(persona[j].fact_type != signal.fact_type);
        }
        assert(!against && !with);
    } else {
        let j0 = choose|j: int|
            0 <= j < persona.len() && (#[trigger] persona[j]).fact_type == signal.fact_type;
        assert(tagged_as_persona(stored[places[j0]]));
        if against {
            let i = choose|i: int|
                0 <= i < stored.len() && bears_on(#[trigger] stored[i], signal) && is_against(
                    stored[i],
                ) != signal.negated;
            let j = choose|j: int| 0 <= j < places.len() && #[trigger] places[j] == i;
            assert(contradicts(signal, all[j], 1));
            assert(!uncontradicted(signal, all, 1));
            let w = choose|w: int| #[trigger]
                is_worst(signal, all, 1, w) && v == Verdict::Conflict(
                    ConflictView {
                        fact_type: signal.fact_type,
                        signal,
                        stored_fact_id: shown_id(all[w].fact.id),
                        stored_content: content_of(all[w].fact),
                        stored_negated: all[w].fact.flag("negated"@),
                        similarity: all[w].similarity,
                    },
                );
            let at = places[w];
            assert(contradicts(signal, all[w], 1));
            assert(persona[w] == stored[at]);
            assert(contradicts_most(stored, signal, at)) by {
                assert forall|k: int|
                    0 <= k < stored.len() && bears_on(#[trigger] stored[k], signal) && is_against(
                        stored[k],
                    ) != signal.negated implies {
                    let there = shared(signal.text, content_of(stored[k]));
                    let here = shared(signal.text, content_of(stored[at]));
                    there < here || (there == here && at <= k)
                } by {
                    let q = choose|q: int| 0 <= q < places.len() && #[trigger] places[q] == k;
                    assert(persona[q] == stored[k]);
                    assert(contradicts(signal, all[q], 1));
                    if w < q {
                        assert(places[w] < places[q]);
                    }
                }
            }
        } else {
            assert(uncontradicted(signal, all, 1)) by {
                assert forall|j: int| 0 <= j < all.len() implies !contradicts(
                    signal,
                    #[trigger] all[j],
                    1,
                ) by {
                    assert(persona[j] == stored[places[j]]);
                }
            }
            if with {
                let i = choose|i: int|
                    0 <= i < stored.len() && bears_on(#[trigger] stored[i], signal) && is_against(
                        stored[i],
                    ) == signal.negated;
                let j = choose|j: int| 0 <= j < places.len() && #[trigger] places[j] == i;
                assert(agrees(signal, all[j]) && all[j].rank->0 >= 1);
                assert(supported(signal, all, 1));
            } else {
                assert(!supported(signal, all, 1)) by {
                    assert forall|j: int| 0 <= j < all.len() implies !(agrees(
                        signal,
                        #[trigger] all[j],
                    ) && all[j].rank->0 >= 1) by {
                        assert(persona[j] == stored[places[j]]);
                    }
                }
            }
        }
    }
}

/// The result on one signal is its verdict.
proof fn lemma_one_signal(signal: SignalView, persona: Seq<FactView>, r: ResultView) -> (v: Verdict)
    requires
        keyword_checked(seq![signal], persona, r),
    ensures
        keyword_verdict(signal, persona, v),
        match v {
            Verdict::Conflict(c) => r.conflicts == seq![c] && r.drift.len() == 0
                && r.consistent_count == 0,
            Verdict::Drift(reason) => r.conflicts.len() == 0 && r.drift == seq![
                DriftView { fact_type: signal.fact_type, signal, reason },
            ] && r.consistent_count == 0,
            Verdict::Consistent => r.conflicts.len() == 0 && r.drift.len() == 0
                && r.consistent_count == 1,
            Verdict::Skipped => r.conflicts.len() == 0 && r.drift.len() == 0
                && r.consistent_count == 0,
        },
{
    let one = seq![signal];
    let (before, v) = choose|before: ResultView, v: Verdict|
        #![trigger before.with(one.last(), v)]
        {
            &&& keyword_checked(one.drop_last(), persona, before)
            &&& keyword_verdict(one.last(), persona, v)
            &&& r == before.with(one.last(), v)
        };
    assert(one.drop_last().len() == 0);
    match v {
        Verdict::Conflict(c) => {
            assert(r.conflicts =~= seq![c]);
        },
        Verdict::Drift(reason) => {
            assert(r.drift =~= seq![DriftView { fact_type: signal.fact_type, signal, reason }]);
        },
        _ => {},
    }
    v
}

/// The statements of a draft are judged one by one: one more adds what is said
/// of it alone to what is said of the others.
pub proof fn law_statements_are_judged_one_by_one(
    signals: Seq<SignalView>,
    signal: SignalView,
    stored: Seq<FactView>,
    r: ResultView,
) -> (parts: (ResultView, ResultView))
    requires
        keyword_checked(signals.push(signal), persona_only(stored), r),
    ensures
        keyword_checked(signals, persona_only(stored), parts.0),
        keyword_checked(seq![signal], persona_only(stored), parts.1),
        r.conflicts == parts.0.conflicts + parts.1.conflicts,
        r.drift == parts.0.drift + parts.1.drift,
        r.consistent_count == parts.0.consistent_count + parts.1.consistent_count,
{
    let persona = persona_only(stored);
    let more = signals.push(signal);
    assert(more.drop_last() =~= signals);
    let (before, v) = choose|before: ResultView, v: Verdict|
        #![trigger before.with(more.last(), v)]
        {
            &&& keyword_checked(more.drop_last(), persona, before)
            &&& keyword_verdict(more.last(), persona, v)
            &&& r == before.with(more.last(), v)
        };
    let none = ResultView {
        conflicts: Seq::empty(),
        drift: Seq::empty(),
        consistent_count: 0,
        total_signals: 0,
    };
    let one = none.with(signal, v);
    assert(seq![signal].drop_last() =~= Seq::empty());
    assert(keyword_checked(Seq::empty(), persona, none));
    assert(one == none.with(seq![signal].last(), v));
    assert(keyword_checked(seq![signal], persona, one));
    assert(r.conflicts =~= before.conflicts + one.conflicts);
    assert(r.drift =~= before.drift + one.drift);
    (before, one)
}

/// Every contradiction that is reported names a stored persona fact of the
/// statement's own facet that takes the other stance and shares words with it.
pub proof fn law_contradictions_are_of_one_facet(
    signals: Seq<SignalView>,
    stored: Seq<FactView>,
    r: ResultView,
)
    requires
        keyword_checked(signals, persona_only(stored), r),
    ensures
        forall|c: int|
            0 <= c < r.conflicts.len() ==> exists|s: int, i: int|
                #![trigger signals[s], stored[i]]
                {
                    &&& 0 <= s < signals.len()
                    &&& 0 <= i < stored.len()
                    &&& (#[trigger] r.conflicts[c]).signal == signals[s]
                    &&& bears_on(stored[i], signals[s])
                    &&& is_against(stored[i]) != signals[s].negated
                    &&& r.conflicts[c].fact_type == stored[i].fact_type
                    &&& stored[i].payload.get("content"@) == Some(
                        JsonView::Text(r.conflicts[c].stored_content),
                    )
                },
        r.consistent_count > 0 ==> exists|s: int, i: int|
            #![trigger signals[s], stored[i]]
            {
                &&& 0 <= s < signals.len()
                &&& 0 <= i < stored.len()
                &&& bears_on(stored[i], signals[s])
                &&& is_against(stored[i]) == signals[s].negated
            },
    decreases signals.len(),
{
    if signals.len() > 0 {
        let front = signals.drop_last();
        let signal = signals.last();
        assert(signals =~= front.push(signal));
        let (before, one) = law_statements_are_judged_one_by_one(front, signal, stored, r);
        law_contradictions_are_of_one_facet(front, stored, before);
        law_a_statement_is_held_against_its_own_facet(signal, stored, one);
        let n = front.len() as int;
        assert forall|c: int| 0 <= c < r.conflicts.len() implies exists|s: int, i: int|
            #![trigger signals[s], stored[i]]
            {
                &&& 0 <= s < signals.len()
                &&& 0 <= i < stored.len()
                &&& (#[trigger] r.conflicts[c]).signal == signals[s]
                &&& bears_on(stored[i], signals[s])
                &&& is_against(stored[i]) != signals[s].negated
                &&& r.conflicts[c].fact_type == stored[i].fact_type
                &&& stored[i].payload.get("content"@) == Some(
                    JsonView::Text(r.conflicts[c].stored_content),
                )
            } by {
            if c < before.conflicts.len() {
                assert(r.conflicts[c] == before.conflicts[c]);
                let (s, i) = choose|s: int, i: int|
                    #![trigger front[s], stored[i]]
                    {
                        &&& 0 <= s < front.len()
                        &&& 0 <= i < stored.len()
                        &&& before.conflicts[c].signal == front[s]
                        &&& bears_on(stored[i], front[s])
                        &&& is_against(stored[i]) != front[s].negated
                        &&& before.conflicts[c].fact_type == stored[i].fact_type
                        &&& stored[i].payload.get("content"@) == Some(
                            JsonView::Text(before.conflicts[c].stored_content),
                        )
                    };
                assert(signals[s] == front[s]);
                assert(bears_on(stored[i], signals[s]));
            } else {
                assert(r.conflicts[c] == one.conflicts[c - before.conflicts.len()]);
                let i = choose|i: int| #[trigger]
                    contradicts_most(stored, signal, i) && one.conflicts[0] == (ConflictView {
                        fact_type: stored[i].fact_type,
                        signal,
                        stored_fact_id: match stored[i].id {
                            Some(id) => id as int,
                            None => -1,
                        },
                        stored_content: stored[i].payload.get("content"@)->0->Text_0,
                        stored_negated: !signal.negated,
                        similarity: SimilarityView::SharedPairs(
                            shared(signal.text, stored[i].payload.get("content"@)->0->Text_0),
                        ),
                    });
                assert(signals[n] == signal);
                assert(bears_on(stored[i], signals[n]));
            }
        }
        if r.consistent_count > 0 {
            if before.consistent_count > 0 {
                let (s, i) = choose|s: int, i: int|
                    #![trigger front[s], stored[i]]
                    {
                        &&& 0 <= s < front.len()
                        &&& 0 <= i < stored.len()
                        &&& bears_on(stored[i], front[s])
                        &&& is_against(stored[i]) == front[s].negated
                    };
                assert(signals[s] == front[s]);
                assert(bears_on(stored[i], signals[s]));
            } else {
                let i = choose|i: int|
                    0 <= i < stored.len() && bears_on(#[trigger] stored[i], signal) && is_against(
                        stored[i],
                    ) == signal.negated;
                assert(signals[n] == signal);
                assert(bears_on(stored[i], signals[n]));
            }
        }
    }
}

/// The persona facts of two lists in a row.
pub proof fn lemma_persona_only_adds(a: Seq<FactView>, b: Seq<FactView>)
    ensures
        persona_only(a + b) == persona_only(a) + persona_only(b),
    decreases b.len(),
{
    if b.len() == 0 {
        assert(a + b =~= a);
        assert(persona_only(a) + persona_only(b) =~= persona_only(a));
    } else {
        assert((a + b).drop_last() =~= a + b.drop_last());
        lemma_persona_only_adds(a, b.drop_last());
        assert(persona_only(a + b) =~= persona_only(a) + persona_only(b));
    }
}

/// A fact that is not compared changes no verdict.
proof fn lemma_incomparable(
    signal: SignalView,
    v: Seq<Compared>,
    k: int,
    x: Compared,
    least: int,
    enough: int,
    reason: Seq<char>,
    verdict: Verdict,
)
    requires
        0 <= k <= v.len(),
        x.rank is None,
    ensures
        judged(signal, v, least, enough, reason, verdict) <==> judged(
            signal,
            v.insert(k, x),
            least,
            enough,
            reason,
            verdict,
        ),
{
    let w = v.insert(k, x);
    assert forall|i: int| 0 <= i < v.len() implies #[trigger] v[i] == w[if i < k {
        i
    } else {
        i + 1
    }] by {}
    assert forall|i: int| 0 <= i < w.len() implies i == k || #[trigger] w[i] == v[if i < k {
        i
    } else {
        i - 1
    }] by {}
    assert(uncontradicted(signal, v, least) <==> uncontradicted(signal, w, least)) by {
        if uncontradicted(signal, v, least) {
            assert forall|j: int| 0 <= j < w.len() implies !contradicts(
                signal,
                #[trigger] w[j],
                least,
            ) by {
                if j != k {
                    let i = if j < k {
                        j
                    } else {
                        j - 1
                    };
                    assert(!contradicts(signal, v[i], least));
                }
            }
        }
        if uncontradicted(signal, w, least) {
            assert forall|j: int| 0 <= j < v.len() implies !contradicts(
                signal,
                #[trigger] v[j],
                least,
            ) by {
                let i = if j < k {
                    j
                } else {
                    j + 1
                };
                assert(!contradicts(signal, w[i], least));
            }
        }
    }
    assert(supported(signal, v, enough) <==> supported(signal, w, enough)) by {
        if supported(signal, v, enough) {
            let j = choose|j: int|
                0 <= j < v.len() && agrees(signal, #[trigger] v[j]) && v[j].rank->0 >= enough;
            let i = if j < k {
                j
            } else {
                j + 1
            };
            assert(agrees(signal, w[i]));
        }
        if supported(signal, w, enough) {
            let j = choose|j: int|
                0 <= j < w.len() && agrees(signal, #[trigger] w[j]) && w[j].rank->0 >= enough;
            let i = if j < k {
                j
            } else {
                j - 1
            };
            assert(j != k);
            assert(agrees(signal, v[i]));
        }
    }
    assert forall|i: int| #[trigger] is_worst(signal, v, least, i) implies is_worst(
        signal,
        w,
        least,
        if i < k {
            i
        } else {
            i + 1
        },
    ) by {
        let m = if i < k {
            i
        } else {
            i + 1
        };
        assert(w[m] == v[i]);
        assert forall|j: int|
            0 <= j < w.len() && contradicts(signal, #[trigger] w[j], least) implies w[j].rank->0
            < w[m].rank->0 || (w[j].rank->0 == w[m].rank->0 && m <= j) by {
            let q = if j < k {
                j
            } else {
                j - 1
            };
            assert(j != k);
            assert(v[q] == w[j]);
            assert(contradicts(signal, v[q], least));
        }
    }
    assert forall|i: int| #[trigger] is_worst(signal, w, least, i) implies i != k && is_worst(
        signal,
        v,
        least,
        if i < k {
            i
        } else {
            i - 1
        },
    ) by {
        let m = if i < k {
            i
        } else {
            i - 1
        };
        assert(i != k);
        assert(w[i] == v[m]);
        assert forall|j: int|
            0 <= j < v.len() && contradicts(signal, #[trigger] v[j], least) implies v[j].rank->0
            < v[m].rank->0 || (v[j].rank->0 == v[m].rank->0 && m <= j) by {
            let q = if j < k {
                j
            } else {
                j + 1
            };
            assert(v[j] == w[q]);
            assert(contradicts(signal, w[q], least));
        }
    }
    if !uncontradicted(signal, v, least) {
        if judged(signal, v, least, enough, reason, verdict) {
            let i = choose|i: int| #[trigger]
                is_worst(signal, v, least, i) && verdict == Verdict::Conflict(
                    ConflictView {
                        fact_type: signal.fact_type,
                        signal,
                        stored_fact_id: shown_id(v[i].fact.id),
                        stored_content: content_of(v[i].fact),
                        stored_negated: v[i].fact.flag("negated"@),
                        similarity: v[i].similarity,
                    },
                );
            let m = if i < k {
                i
            } else {
                i + 1
            };
            assert(is_worst(signal, w, least, m));
            assert(w[m] == v[i]);
        }
        if judged(signal, w, least, enough, reason, verdict) {
            let i = choose|i: int| #[trigger]
                is_worst(signal, w, least, i) && verdict == Verdict::Conflict(
                    ConflictView {
                        fact_type: signal.fact_type,
                        signal,
                        stored_fact_id: shown_id(w[i].fact.id),
                        stored_content: content_of(w[i].fact),
                        stored_negated: w[i].fact.flag("negated"@),
                        similarity: w[i].similarity,
                    },
                );
            let m = if i < k {
                i
            } else {
                i - 1
            };
            assert(is_worst(signal, v, least, m));
            assert(w[i] == v[m]);
        }
    }
}

/// A persona fact of another facet changes no verdict.
proof fn lemma_other_facet(
    signal: SignalView,
    persona: Seq<FactView>,
    k: int,
    f: FactView,
    verdict: Verdict,
)
    requires
        0 <= k <= persona.len(),
        f.fact_type != signal.fact_type,
    ensures
        keyword_verdict(signal, persona, verdict) <==> keyword_verdict(
            signal,
            persona.insert(k, f),
            verdict,
        ),
{
    let more = persona.insert(k, f);
    assert(no_such_facet(signal, persona) <==> no_such_facet(signal, more)) by {
        if no_such_facet(signal, persona) {
            assert forall|i: int| 0 <= i < more.len() implies (#[trigger] more[i]).fact_type
                != signal.fact_type by {
                if i != k {
                    assert(more[i] == persona[if i < k {
                        i
                    } else {
                        i - 1
                    }]);
                }
            }
        }
        if no_such_facet(signal, more) {
            assert forall|i: int| 0 <= i < persona.len() implies (#[trigger] persona[i]).fact_type
                != signal.fact_type by {
                assert(persona[i] == more[if i < k {
                    i
                } else {
                    i + 1
                }]);
            }
        }
    }
    let v = Seq::new(persona.len(), |i: int| keyword_compared(signal, persona[i]));
    let w = Seq::new(more.len(), |i: int| keyword_compared(signal, more[i]));
    let x = keyword_compared(signal, f);
    assert(w =~= v.insert(k, x));
    lemma_incomparable(
        signal,
        v,
        k,
        x,
        1,
        1,
        "no anchored persona fact (zero shared bigrams)"@,
        verdict,
    );
}

/// What is stored of other facets, or is no persona at all, is no concern of a
/// statement: a stored fact that is no persona fact, or of whose facet the draft
/// says nothing, can be added or taken away, anywhere, and the guard says the
/// same.
pub proof fn law_other_facets_do_not_matter(
    signals: Seq<SignalView>,
    stored: Seq<FactView>,
    k: int,
    f: FactView,
    r: ResultView,
)
    requires
        0 <= k <= stored.len(),
        !tagged_as_persona(f) || forall|s: int|
            0 <= s < signals.len() ==> (#[trigger] signals[s]).fact_type != f.fact_type,
    ensures
        keyword_checked(signals, persona_only(stored), r) <==> keyword_checked(
            signals,
            persona_only(stored.insert(k, f)),
            r,
        ),
    decreases signals.len(),
{
    let a = stored.subrange(0, k);
    let b = stored.subrange(k, stored.len() as int);
    let p = persona_only(stored);
    let q = persona_only(stored.insert(k, f));
    assert(stored =~= a + b);
    assert(stored.insert(k, f) =~= a + (seq![f] + b));
    lemma_persona_only_adds(a, b);
    lemma_persona_only_adds(seq![f], b);
    lemma_persona_only_adds(a, seq![f] + b);
    let m = persona_only(a).len() as int;
    assert(seq![f].drop_last() =~= Seq::empty());
    assert(persona_only(Seq::<FactView>::empty()) =~= Seq::empty());
    if !tagged_as_persona(f) {
        assert(persona_only(seq![f]) =~= Seq::empty());
        assert(q =~= p);
    } else {
        assert(persona_only(seq![f]) =~= seq![f]);
        assert(q =~= p.insert(m, f));
        if signals.len() > 0 {
            let front = signals.drop_last();
            let signal = signals.last();
            assert(signals[signals.len() - 1] == signal);
            assert forall|s: int| 0 <= s < front.len() implies (#[trigger] front[s]).fact_type
                != f.fact_type by {
                assert(front[s] == signals[s]);
            }
            if keyword_checked(signals, p, r) {
                let (before, v) = choose|before: ResultView, v: Verdict|
                    #![trigger before.with(signals.last(), v)]
                    {
                        &&& keyword_checked(signals.drop_last(), p, before)
                        &&& keyword_verdict(signals.last(), p, v)
                        &&& r == before.with(signals.last(), v)
                    };
                law_other_facets_do_not_matter(front, stored, k, f, before);
                lemma_other_facet(signal, p, m, f, v);
                assert(r == before.with(signals.last(), v));
            }
            if keyword_checked(signals, q, r) {
                let (before, v) = choose|before: ResultView, v: Verdict|
                    #![trigger before.with(signals.last(), v)]
                    {
                        &&& keyword_checked(signals.drop_last(), q, before)
                        &&& keyword_verdict(signals.last(), q, v)
                        &&& r == before.with(signals.last(), v)
                    };
                law_other_facets_do_not_matter(front, stored, k, f, before);
                lemma_other_facet(signal, p, m, f, v);
                assert(r == before.with(signals.last(), v));
            }
        }
    }
}

/// The persona fact is as near to the signal as `least` asks: it is of the
/// signal's own facet, says something, and has a similarity of that rank.
pub open spec fn is_near(
    f: FactView,
    similarity: Option<ScoreView>,
    signal: SignalView,
    least: int,
) -> bool {
    &&& f.fact_type == signal.fact_type
    &&& f.payload.get("content"@) matches Some(JsonView::Text(said)) && said.len() > 0
    &&& similarity matches Some(x) && x.rank >= least
}

/// What the guard says of one statement by embedding, in terms of the persona
/// facts and their similarities. It is a contradiction exactly when a fact of
/// the statement's own facet takes the other stance and is near enough for a
/// conflict, and then the nearest is named. Else it is consistent exactly when a
/// fact of its facet and stance is near enough to match. Else it drifts. A
/// statement that could not be embedded is passed over, unless nothing is stored
/// of its facet.
pub proof fn law_a_statement_is_held_against_near_facts(
    signal: SignalView,
    persona: Seq<FactView>,
    similarities: Option<Seq<Option<ScoreView>>>,
    thresholds: PersonaThresholds,
    r: ResultView,
)
    requires
        semantic_checked(seq![signal], persona, seq![similarities], thresholds, r),
        similarities matches Some(s) ==> s.len() == persona.len(),
    ensures
        ({
            let known = exists|i: int|
                0 <= i < persona.len() && (#[trigger] persona[i]).fact_type == signal.fact_type;
            match similarities {
                None => r.conflicts.len() == 0 && r.consistent_count == 0 && r.drift.len() == (
                if known {
                    0nat
                } else {
                    1
                }),
                Some(s) => {
                    let against = exists|i: int|
                        0 <= i < persona.len() && is_near(
                            #[trigger] persona[i],
                            s[i],
                            signal,
                            thresholds.conflict.rank as int,
                        ) && is_against(persona[i]) != signal.negated;
                    let with = exists|i: int|
                        0 <= i < persona.len() && is_near(
                            #[trigger] persona[i],
                            s[i],
                            signal,
                            thresholds.match_.rank as int,
                        ) && is_against(persona[i]) == signal.negated;
                    if against {
                        &&& r.conflicts.len() == 1 && r.drift.len() == 0 && r.consistent_count == 0
                        &&& exists|i: int|
                            {
                                &&& 0 <= i < persona.len()
                                &&& is_near(
                                    #[trigger] persona[i],
                                    s[i],
                                    signal,
                                    thresholds.conflict.rank as int,
                                )
                                &&& is_against(persona[i]) != signal.negated
                                &&& forall|k: int|
                                    0 <= k < persona.len() && is_near(
                                        #[trigger] persona[k],
                                        s[k],
                                        signal,
                                        thresholds.conflict.rank as int,
                                    ) && is_against(persona[k]) != signal.negated ==> s[k]->0.rank
                                        < s[i]->0.rank || (s[k]->0.rank == s[i]->0.rank && i <= k)
                                &&& r.conflicts[0] == (ConflictView {
                                    fact_type: persona[i].fact_type,
                                    signal,
                                    stored_fact_id: match persona[i].id {
                                        Some(id) => id as int,
                                        None => -1,
                                    },
                                    stored_content: persona[i].payload.get("content"@)->0->Text_0,
                                    stored_negated: !signal.negated,
                                    similarity: SimilarityView::Score(s[i]->0),
                                })
                            }
                    } else if with {
                        r.conflicts.len() == 0 && r.drift.len() == 0 && r.consistent_count == 1
                    } else {
                        &&& r.conflicts.len() == 0 && r.consistent_count == 0 && r.drift.len() == 1
                        &&& r.drift[0].signal == signal
                        &&& r.drift[0].fact_type == signal.fact_type
                        &&& r.drift[0].reason == (if known {
                            "no anchored persona fact (best similarity below match threshold)"@
                        } else {
                            "no stored persona fact of this type"@
                        })
                    }
                },
            }
        }),
{
    let one = seq![signal];
    let rows = seq![similarities];
    let (before, v) = choose|before: ResultView, v: Verdict|
        #![trigger before.with(one.last(), v)]
        {
            &&& semantic_checked(one.drop_last(), persona, rows, thresholds, before)
            &&& semantic_verdict(one.last(), persona, rows[one.len() - 1], thresholds, v)
            &&& r == before.with(one.last(), v)
        };
    assert(one.drop_last().len() == 0);
    match v {
        Verdict::Conflict(c) => {
            assert(r.conflicts =~= seq![c]);
        },
        Verdict::Drift(reason) => {
            assert(r.drift =~= seq![DriftView { fact_type: signal.fact_type, signal, reason }]);
        },
        _ => {},
    }
    if similarities is Some && !no_such_facet(signal, persona) {
        let s = similarities->0;
        let least = thresholds.conflict.rank as int;
        let enough = thresholds.match_.rank as int;
        let all = Seq::new(persona.len(), |i: int| semantic_compared(signal, persona[i], s[i]));
        assert forall|i: int| 0 <= i < persona.len() implies contradicts(
            signal,
            #[trigger] all[i],
            least,
        ) == (is_near(persona[i], s[i], signal, least) && is_against(persona[i])
            != signal.negated) && (agrees(signal, all[i]) && all[i].rank->0 >= enough) == (is_near(
            persona[i],
            s[i],
            signal,
            enough,
        ) && is_against(persona[i]) == signal.negated) by {}
        if !uncontradicted(signal, all, least) {
            let w = choose|w: int| #[trigger]
                is_worst(signal, all, least, w) && v == Verdict::Conflict(
                    ConflictView {
                        fact_type: signal.fact_type,
                        signal,
                        stored_fact_id: shown_id(all[w].fact.id),
                        stored_content: content_of(all[w].fact),
                        stored_negated: all[w].fact.flag("negated"@),
                        similarity: all[w].similarity,
                    },
                );
            assert(contradicts(signal, all[w], least));
            assert(is_near(persona[w], s[w], signal, least));
            assert forall|k: int|
                0 <= k < persona.len() && is_near(#[trigger] persona[k], s[k], signal, least)
                    && is_against(persona[k]) != signal.negated implies s[k]->0.rank
                < s[w]->0.rank || (s[k]->0.rank == s[w]->0.rank && w <= k) by {
                assert(contradicts(signal, all[k], least));
            }
        } else {
            assert forall|i: int| 0 <= i < persona.len() implies !(is_near(
                #[trigger] persona[i],
                s[i],
                signal,
                least,
            ) && is_against(persona[i]) != signal.negated) by {
                assert(!contradicts(signal, all[i], least));
            }
            if supported(signal, all, enough) {
                let j = choose|j: int|
                    0 <= j < all.len() && agrees(signal, #[trigger] all[j]) && all[j].rank->0
                        >= enough;
                assert(is_near(persona[j], s[j], signal, enough));
            } else {
                assert forall|i: int| 0 <= i < persona.len() implies !(is_near(
                    #[trigger] persona[i],
                    s[i],
                    signal,
                    enough,
                ) && is_against(persona[i]) == signal.negated) by {
                    assert(!(agrees(signal, all[i]) && all[i].rank->0 >= enough));
                }
            }
        }
    }
}

/// By embedding, too, the statements of a draft are judged one by one, each by
/// its own similarities: one more adds what is said of it alone.
pub proof fn law_near_statements_are_judged_one_by_one(
    signals: Seq<SignalView>,
    signal: SignalView,
    persona: Seq<FactView>,
    similarities: Seq<Option<Seq<Option<ScoreView>>>>,
    thresholds: PersonaThresholds,
    r: ResultView,
) -> (parts: (ResultView, ResultView))
    requires
        semantic_checked(signals.push(signal), persona, similarities, thresholds, r),
    ensures
        semantic_checked(signals, persona, similarities, thresholds, parts.0),
        semantic_checked(
            seq![signal],
            persona,
            seq![similarities[signals.len() as int]],
            thresholds,
            parts.1,
        ),
        r.conflicts == parts.0.conflicts + parts.1.conflicts,
        r.drift == parts.0.drift + parts.1.drift,
        r.consistent_count == parts.0.consistent_count + parts.1.consistent_count,
{
    let more = signals.push(signal);
    assert(more.drop_last() =~= signals);
    let (before, v) = choose|before: ResultView, v: Verdict|
        #![trigger before.with(more.last(), v)]
        {
            &&& semantic_checked(more.drop_last(), persona, similarities, thresholds, before)
            &&& semantic_verdict(
                more.last(),
                persona,
                similarities[more.len() - 1],
                thresholds,
                v,
            )
            &&& r == before.with(more.last(), v)
        };
    let none = ResultView {
        conflicts: Seq::empty(),
        drift: Seq::empty(),
        consistent_count: 0,
        total_signals: 0,
    };
    let rows = seq![similarities[signals.len() as int]];
    let single = seq![signal];
    let one = none.with(signal, v);
    assert(single.drop_last() =~= Seq::empty());
    assert(semantic_checked(single.drop_last(), persona, rows, thresholds, none));
    assert(rows[single.len() - 1] == similarities[more.len() - 1]);
    assert(one == none.with(single.last(), v));
    assert(semantic_checked(single, persona, rows, thresholds, one));
    assert(r.conflicts =~= before.conflicts + one.conflicts);
    assert(r.drift =~= before.drift + one.drift);
    (before, one)
}

/// What takes part in a check is what is tagged as persona: one more stored fact
/// is added exactly when it is.
pub proof fn law_persona_facts_take_part(stored: Seq<FactView>, f: FactView)
    ensures
        persona_only(Seq::empty()).len() == 0,
        tagged_as_persona(f) ==> persona_only(stored.push(f)) == persona_only(stored).push(f),
        !tagged_as_persona(f) ==> persona_only(stored.push(f)) == persona_only(stored),
{
    assert(stored.push(f).drop_last() =~= stored);
}

} // verus!
