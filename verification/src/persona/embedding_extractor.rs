//! Persona signals by similarity to prototype sentences.
//!
//! The embeddings and the similarities between them are computed elsewhere;
//! what they amount to is decided here.
use vstd::prelude::*;

use crate::cognition::{Score, ScoreView};
use crate::persona::check::score_views;
use crate::persona::prototype::{PersonaThresholds, PrototypeVector, PrototypeVectorCache};
use crate::persona::{signal_views, PersonaSignal, SignalView};
use crate::text::{trim, trimmed};

verus! {

/// The prototype at index `i` wins: it is the most similar of those that can
/// be compared, and the first of these.
pub open spec fn wins(s: Seq<Option<ScoreView>>, i: int) -> bool {
    &&& 0 <= i < s.len()
    &&& s[i] is Some
    &&& forall|j: int|
        0 <= j < s.len() && (#[trigger] s[j]) is Some ==> s[j]->0.rank < s[i]->0.rank || (
        s[j]->0.rank == s[i]->0.rank && i <= j)
}

/// The signals of an utterance with these similarities to the prototypes: one,
/// of the winning prototype, if it is similar enough.
pub open spec fn similarity_signals<V>(
    utterance: Seq<char>,
    prototypes: Seq<PrototypeVector<V>>,
    s: Seq<Option<ScoreView>>,
    least: int,
    r: Seq<SignalView>,
) -> bool {
    let text = trimmed(utterance);
    if text.len() == 0 || forall|i: int| !#[trigger] wins(s, i) {
        r.len() == 0
    } else {
        exists|i: int| #[trigger]
            wins(s, i) && if s[i]->0.rank < 0 || s[i]->0.rank < least {
                r.len() == 0
            } else {
                r == seq![
                    SignalView {
                        text,
                        fact_type: prototypes[i].fact_type,
                        negated: prototypes[i].negated,
                        confidence: s[i]->0,
                    },
                ]
            }
    }
}

/// The extractor by similarity.
pub struct EmbeddingPersonaExtractor<'a, V> {
    pub cache: &'a PrototypeVectorCache<V>,
    pub thresholds: PersonaThresholds,
}

impl<'a, V> EmbeddingPersonaExtractor<'a, V> {
    /// An extractor over these prototypes.
    pub fn new(cache: &'a PrototypeVectorCache<V>, thresholds: PersonaThresholds) -> (e:
        EmbeddingPersonaExtractor<'a, V>)
        ensures
            e.cache == cache,
            e.thresholds == thresholds,
    {
        EmbeddingPersonaExtractor { cache, thresholds }
    }

    /// The text to embed for an utterance; none when there is nothing to say.
    pub fn text_to_embed(&self, utterance: &str) -> (r: Option<String>)
        ensures
            match r {
                Some(t) => t@ == trimmed(utterance@) && t@.len() > 0,
                None => trimmed(utterance@).len() == 0,
            },
    {
        let t: String = trim(utterance);
        if t.as_str().is_empty() {
            None
        } else {
            Some(t)
        }
    }

    /// The persona signals of an utterance, given its similarity to each
    /// prototype. A prototype that cannot be compared has none.
    pub fn extract(&self, utterance: &str, similarities: &Vec<Option<Score>>) -> (r: Vec<
        PersonaSignal,
    >)
        requires
            similarities@.len() == self.cache.vectors@.len(),
        ensures
            similarity_signals(
                utterance@,
                self.cache.vectors@,
                score_views(similarities@),
                self.thresholds.match_.rank as int,
                signal_views(r@),
            ),
    {
        let mut r: Vec<PersonaSignal> = Vec::new();
        let ghost s = score_views(similarities@);
        assert(signal_views(r@) =~= Seq::empty());
        let text: String = trim(utterance);
        if text.as_str().is_empty() {
            return r;
        }
        let mut best: Option<usize> = None;
        let mut i: usize = 0;
        while i < similarities.len()
            invariant
                i <= similarities@.len(),
                s == score_views(similarities@),
                match best {
                    Some(b) => {
                        &&& b < i
                        &&& s[b as int] is Some
                        &&& forall|j: int|
                            0 <= j < i && (#[trigger] s[j]) is Some ==> s[j]->0.rank
                                < s[b as int]->0.rank || (s[j]->0.rank == s[b as int]->0.rank && b
                                <= j)
                    },
                    None => forall|j: int| 0 <= j < i ==> (#[trigger] s[j]) is None,
                },
            decreases similarities.len() - i,
        {
            match &similarities[i] {
                Some(x) => {
                    assert(s[i as int] == Some(x@));
                    let better: bool = match best {
                        Some(b) => match &similarities[b] {
                            Some(y) => {
                                assert(s[b as int] == Some(y@));
                                x.rank > y.rank
                            },
                            None => true,
                        },
                        None => true,
                    };
                    if better {
                        best = Some(i);
                    }
                },
                None => {
                    assert(s[i as int] is None);
                },
            }
            i = i + 1;
        }
        match best {
            Some(b) => {
                assert(wins(s, b as int));
                match &similarities[b] {
                    Some(x) => {
                        assert(s[b as int] == Some(x@));
                        if x.rank >= 0 && x.rank >= self.thresholds.match_.rank {
                            let p: &PrototypeVector<V> = &self.cache.vectors[b];
                            r.push(
                                PersonaSignal {
                                    text,
                                    fact_type: p.fact_type,
                                    negated: p.negated,
                                    confidence: x.copy(),
                                },
                            );
                            assert(signal_views(r@) =~= seq![
                                SignalView {
                                    text: text@,
                                    fact_type: p.fact_type,
                                    negated: p.negated,
                                    confidence: x@,
                                },
                            ]);
                        }
                    },
                    None => {},
                }
            },
            None => {
                assert(forall|k: int| !#[trigger] wins(s, k));
            },
        }
        r
    }

    /// Whether signals come from embeddings: they do.
    pub fn is_semantic(&self) -> (r: bool)
        ensures
            r,
    {
        true
    }
}

/// At most one prototype wins.
pub proof fn law_one_prototype_wins(s: Seq<Option<ScoreView>>, i: int, j: int)
    requires
        wins(s, i),
        wins(s, j),
    ensures
        i == j,
{
}

/// An utterance gives a signal exactly when it says something and some prototype
/// is similar enough. The signal carries the utterance, trimmed, what the most
/// similar prototype expresses, and how similar it is.
pub proof fn law_nearest_prototype_speaks<V>(
    utterance: Seq<char>,
    prototypes: Seq<PrototypeVector<V>>,
    s: Seq<Option<ScoreView>>,
    least: int,
    r: Seq<SignalView>,
)
    requires
        similarity_signals(utterance, prototypes, s, least, r),
    ensures
        r.len() <= 1,
        r.len() == 1 <==> trimmed(utterance).len() > 0 && exists|i: int|
            0 <= i < s.len() && (#[trigger] s[i]) is Some && s[i]->0.rank >= 0 && s[i]->0.rank
                >= least,
        r.len() == 1 ==> exists|i: int|
            {
                &&& 0 <= i < s.len()
                &&& #[trigger] s[i] == Some(r[0].confidence)
                &&& r[0].text == trimmed(utterance)
                &&& r[0].fact_type == prototypes[i].fact_type
                &&& r[0].negated == prototypes[i].negated
                &&& s[i]->0.rank >= least
                &&& forall|j: int|
                    0 <= j < s.len() && (#[trigger] s[j]) is Some ==> s[j]->0.rank <= s[i]->0.rank
                &&& forall|j: int|
                    0 <= j < i && (#[trigger] s[j]) is Some ==> s[j]->0.rank < s[i]->0.rank
            },
{
    if exists|i: int| 0 <= i < s.len() && (#[trigger] s[i]) is Some {
        lemma_some_wins(s, s.len() as int);
        let w = choose|w: int| #[trigger] wins(s, w);
        if trimmed(utterance).len() > 0 {
            let i = choose|i: int| #[trigger]
                wins(s, i) && if s[i]->0.rank < 0 || s[i]->0.rank < least {
                    r.len() == 0
                } else {
                    r == seq![
                        SignalView {
                            text: trimmed(utterance),
                            fact_type: prototypes[i].fact_type,
                            negated: prototypes[i].negated,
                            confidence: s[i]->0,
                        },
                    ]
                };
            assert(s[i] is Some);
            if r.len() == 1 {
                assert(s[i] == Some(r[0].confidence));
            }
        }
    } else {
        assert forall|i: int| !#[trigger] wins(s, i) by {
            if wins(s, i) {
                assert(s[i] is Some);
            }
        }
    }
}

/// Where prototypes can be compared, one of them wins.
proof fn lemma_some_wins(s: Seq<Option<ScoreView>>, n: int)
    requires
        0 <= n <= s.len(),
        exists|i: int| 0 <= i < n && (#[trigger] s[i]) is Some,
    ensures
        exists|i: int| #[trigger] wins(s.subrange(0, n), i),
        n == s.len() ==> exists|i: int| #[trigger] wins(s, i),
    decreases n,
{
    let now = s.subrange(0, n);
    let front = s.subrange(0, n - 1);
    if exists|i: int| 0 <= i < n - 1 && (#[trigger] s[i]) is Some {
        lemma_some_wins(s, n - 1);
        let w = choose|w: int| #[trigger] wins(front, w);
        assert(forall|j: int| 0 <= j < n - 1 ==> now[j] == #[trigger] front[j]);
        assert(forall|j: int| 0 <= j < n - 1 ==> #[trigger] now[j] == front[j]);
        if now[n - 1] is Some && now[n - 1]->0.rank > now[w]->0.rank {
            assert(wins(now, n - 1));
        } else {
            assert(wins(now, w));
        }
    } else {
        let i = choose|i: int| 0 <= i < n && (#[trigger] s[i]) is Some;
        assert(forall|j: int| 0 <= j < n - 1 ==> (#[trigger] now[j]) == s[j]);
        assert(wins(now, n - 1));
    }
    if n == s.len() {
        assert(now =~= s);
    }
}

} // verus!
