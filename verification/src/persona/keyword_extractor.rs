//! Persona signals by keyword, for when no embeddings are at hand.
use vstd::prelude::*;

use crate::cognition::{FactType, Score, ScoreView};
use crate::persona::{signal_views, PersonaSignal, SignalView};
use crate::text::{byte_len, contains, has_part, len_in_bytes, occurs_at, trim, trimmed};

verus! {

/// A phrase that a speaker uses of themselves, and what it expresses.
pub struct MarkerView {
    pub marker: Seq<char>,
    pub fact_type: FactType,
    pub negated: bool,
}

/// A row of the table.
pub open spec fn marker(marker: Seq<char>, fact_type: FactType, negated: bool) -> MarkerView {
    MarkerView { marker, fact_type, negated }
}

/// The phrases that express a persona.
pub open spec fn keyword_markers() -> Seq<MarkerView> {
    seq![
        marker("我不喜欢"@, FactType::Preference, true),
        marker("我讨厌"@, FactType::Preference, true),
        marker("我喜欢"@, FactType::Preference, false),
        marker("我偏爱"@, FactType::Preference, false),
        marker("我爱"@, FactType::Preference, false),
        marker("我不要"@, FactType::Goal, true),
        marker("我不肯"@, FactType::Goal, true),
        marker("我要"@, FactType::Goal, false),
        marker("我宁可"@, FactType::Goal, false),
        marker("我是"@, FactType::Identity, false),
        marker("我向来"@, FactType::Identity, false),
        marker("我心里"@, FactType::Emotion, false),
        marker("心里"@, FactType::Emotion, false),
        marker("我害怕"@, FactType::Emotion, false),
        marker("我难过"@, FactType::Emotion, false),
        marker("我羡慕"@, FactType::Emotion, false),
        marker("我恨"@, FactType::Emotion, false),
    ]
}

/// A phrase that expresses a persona.
struct KeywordMarker {
    marker: &'static str,
    fact_type: FactType,
    negated: bool,
}

/// The values of a list of phrases.
spec fn marker_views(v: Seq<KeywordMarker>) -> Seq<MarkerView> {
    Seq::new(v.len(), |i: int| marker(v[i].marker@, v[i].fact_type, v[i].negated))
}

/// The table of phrases.
fn marker_table() -> (v: Vec<KeywordMarker>)
    ensures
        marker_views(v@) == keyword_markers(),
{
    let v: Vec<KeywordMarker> = vec![
        KeywordMarker { marker: "我不喜欢", fact_type: FactType::Preference, negated: true },
        KeywordMarker { marker: "我讨厌", fact_type: FactType::Preference, negated: true },
        KeywordMarker { marker: "我喜欢", fact_type: FactType::Preference, negated: false },
        KeywordMarker { marker: "我偏爱", fact_type: FactType::Preference, negated: false },
        KeywordMarker { marker: "我爱", fact_type: FactType::Preference, negated: false },
        KeywordMarker { marker: "我不要", fact_type: FactType::Goal, negated: true },
        KeywordMarker { marker: "我不肯", fact_type: FactType::Goal, negated: true },
        KeywordMarker { marker: "我要", fact_type: FactType::Goal, negated: false },
        KeywordMarker { marker: "我宁可", fact_type: FactType::Goal, negated: false },
        KeywordMarker { marker: "我是", fact_type: FactType::Identity, negated: false },
        KeywordMarker { marker: "我向来", fact_type: FactType::Identity, negated: false },
        KeywordMarker { marker: "我心里", fact_type: FactType::Emotion, negated: false },
        KeywordMarker { marker: "心里", fact_type: FactType::Emotion, negated: false },
        KeywordMarker { marker: "我害怕", fact_type: FactType::Emotion, negated: false },
        KeywordMarker { marker: "我难过", fact_type: FactType::Emotion, negated: false },
        KeywordMarker { marker: "我羡慕", fact_type: FactType::Emotion, negated: false },
        KeywordMarker { marker: "我恨", fact_type: FactType::Emotion, negated: false },
    ];
    assert(marker_views(v@) =~= keyword_markers());
    v
}

/// The phrase at index `i` stands in the text.
pub open spec fn stands(text: Seq<char>, i: int) -> bool {
    0 <= i < keyword_markers().len() && has_part(text, keyword_markers()[i].marker)
}

/// The phrase at index `i` decides: it is the longest, in bytes, of those in
/// the text, and the first of the longest.
pub open spec fn decides(text: Seq<char>, i: int) -> bool {
    &&& stands(text, i)
    &&& forall|j: int| #[trigger]
        stands(text, j) ==> {
            let a = byte_len(keyword_markers()[i].marker);
            let b = byte_len(keyword_markers()[j].marker);
            b < a || (b == a && i <= j)
        }
}

/// The signals of an utterance: one, of the phrase that decides, or none when
/// no phrase stands in it.
pub open spec fn keyword_signals(utterance: Seq<char>, r: Seq<SignalView>) -> bool {
    let text = trimmed(utterance);
    if text.len() == 0 || forall|i: int| !#[trigger] stands(text, i) {
        r.len() == 0
    } else {
        exists|i: int| #[trigger]
            decides(text, i) && r == seq![
                SignalView {
                    text,
                    fact_type: keyword_markers()[i].fact_type,
                    negated: keyword_markers()[i].negated,
                    confidence: ScoreView::one(),
                },
            ]
    }
}

/// The extractor by keyword. It has no state.
#[derive(Debug)]
pub struct KeywordPersonaExtractor;

impl KeywordPersonaExtractor {
    /// An extractor.
    pub fn new() -> (e: KeywordPersonaExtractor)
        ensures
            e == KeywordPersonaExtractor,
    {
        KeywordPersonaExtractor
    }

    /// The persona signals of an utterance.
    pub fn extract(&self, utterance: &str) -> (r: Vec<PersonaSignal>)
        ensures
            keyword_signals(utterance@, signal_views(r@)),
    {
        let mut r: Vec<PersonaSignal> = Vec::new();
        let text: String = trim(utterance);
        assert(signal_views(r@) =~= Seq::empty());
        if text.as_str().is_empty() {
            return r;
        }
        let table: Vec<KeywordMarker> = marker_table();
        let mut best: Option<usize> = None;
        let mut i: usize = 0;
        assert(table@.len() == keyword_markers().len());
        while i < table.len()
            invariant
                i <= table@.len() == keyword_markers().len(),
                marker_views(table@) == keyword_markers(),
                match best {
                    Some(b) => {
                        &&& b < i
                        &&& stands(text@, b as int)
                        &&& forall|j: int| #[trigger]
                            stands(text@, j) && j < i ==> {
                                let x = byte_len(keyword_markers()[b as int].marker);
                                let y = byte_len(keyword_markers()[j].marker);
                                y < x || (y == x && b <= j)
                            }
                    },
                    None => forall|j: int| #[trigger] stands(text@, j) ==> j >= i,
                },
            decreases table.len() - i,
        {
            assert(keyword_markers()[i as int] == marker_views(table@)[i as int]);
            let here: bool = contains(text.as_str(), table[i].marker);
            assert(here == stands(text@, i as int));
            if here {
                let longer: bool = match best {
                    Some(b) => {
                        assert(keyword_markers()[b as int] == marker_views(table@)[b as int]);
                        len_in_bytes(table[i].marker) > len_in_bytes(table[b].marker)
                    },
                    None => true,
                };
                if longer {
                    best = Some(i);
                }
            }
            i = i + 1;
        }
        match best {
            Some(b) => {
                assert(decides(text@, b as int));
                assert(keyword_markers()[b as int] == marker_views(table@)[b as int]);
                r.push(
                    PersonaSignal {
                        text,
                        fact_type: table[b].fact_type,
                        negated: table[b].negated,
                        confidence: Score::one(),
                    },
                );
                assert(signal_views(r@) =~= seq![
                    SignalView {
                        text: text@,
                        fact_type: keyword_markers()[b as int].fact_type,
                        negated: keyword_markers()[b as int].negated,
                        confidence: ScoreView::one(),
                    },
                ]);
            },
            None => {},
        }
        r
    }

    /// Whether signals come from embeddings: they do not.
    pub fn is_semantic(&self) -> (r: bool)
        ensures
            !r,
    {
        false
    }
}

impl Default for KeywordPersonaExtractor {
    fn default() -> (e: KeywordPersonaExtractor)
        ensures
            e == KeywordPersonaExtractor,
    {
        KeywordPersonaExtractor
    }
}

/// At most one phrase decides.
pub proof fn law_one_marker_decides(text: Seq<char>, i: int, j: int)
    requires
        decides(text, i),
        decides(text, j),
    ensures
        i == j,
{
    assert(stands(text, i));
    assert(stands(text, j));
}

/// An utterance gives a signal exactly when one of the phrases stands in it. The
/// signal carries the whole utterance, trimmed, and what the longest of the
/// phrases in it expresses: its facet and whether it is against something.
pub proof fn law_longest_phrase_speaks(utterance: Seq<char>, r: Seq<SignalView>)
    requires
        keyword_signals(utterance, r),
    ensures
        r.len() <= 1,
        r.len() == 1 <==> trimmed(utterance).len() > 0 && exists|j: int, at: int|
            #![trigger occurs_at(trimmed(utterance), keyword_markers()[j].marker, at)]
            0 <= j < keyword_markers().len() && occurs_at(
                trimmed(utterance),
                keyword_markers()[j].marker,
                at,
            ),
        r.len() == 1 ==> r[0].text == trimmed(utterance) && r[0].confidence == ScoreView::one()
            && exists|i: int, at: int|
            #![trigger occurs_at(trimmed(utterance), keyword_markers()[i].marker, at)]
            {
                &&& 0 <= i < keyword_markers().len()
                &&& occurs_at(trimmed(utterance), keyword_markers()[i].marker, at)
                &&& r[0].fact_type == keyword_markers()[i].fact_type
                &&& r[0].negated == keyword_markers()[i].negated
                &&& forall|j: int, there: int|
                    0 <= j < keyword_markers().len() && #[trigger] occurs_at(
                        trimmed(utterance),
                        keyword_markers()[j].marker,
                        there,
                    ) ==> byte_len(keyword_markers()[j].marker) < byte_len(
                        keyword_markers()[i].marker,
                    ) || (byte_len(keyword_markers()[j].marker) == byte_len(
                        keyword_markers()[i].marker,
                    ) && i <= j)
            },
{
    let text = trimmed(utterance);
    let all = keyword_markers();
    assert forall|j: int, at: int|
        0 <= j < all.len() && #[trigger] occurs_at(text, all[j].marker, at) implies stands(
        text,
        j,
    ) by {
        assert(has_part(text, all[j].marker));
    }
    if text.len() > 0 && !(forall|i: int| !#[trigger] stands(text, i)) {
        let i = choose|i: int| #[trigger]
            decides(text, i) && r == seq![
                SignalView {
                    text,
                    fact_type: all[i].fact_type,
                    negated: all[i].negated,
                    confidence: ScoreView::one(),
                },
            ];
        let at = choose|at: int| occurs_at(text, all[i].marker, at);
        assert(occurs_at(text, keyword_markers()[i].marker, at));
        assert forall|j: int, there: int|
            0 <= j < all.len() && #[trigger] occurs_at(text, all[j].marker, there) implies byte_len(
            all[j].marker,
        ) < byte_len(all[i].marker) || (byte_len(all[j].marker) == byte_len(all[i].marker) && i
            <= j) by {
            assert(stands(text, j));
        }
    }
}

/// A phrase that negates is longer than the phrase it negates can show: where
/// one that is against something stands in a text and every other phrase there
/// is shorter, the signal is against it.
pub proof fn law_negation_is_heard(utterance: Seq<char>, i: int, at: int, r: Seq<SignalView>)
    requires
        keyword_signals(utterance, r),
        0 <= i < keyword_markers().len(),
        occurs_at(trimmed(utterance), keyword_markers()[i].marker, at),
        trimmed(utterance).len() > 0,
        forall|j: int, there: int|
            0 <= j < keyword_markers().len() && j != i && #[trigger] occurs_at(
                trimmed(utterance),
                keyword_markers()[j].marker,
                there,
            ) ==> byte_len(keyword_markers()[j].marker) < byte_len(keyword_markers()[i].marker),
    ensures
        r.len() == 1,
        r[0].negated == keyword_markers()[i].negated,
        r[0].fact_type == keyword_markers()[i].fact_type,
{
    law_longest_phrase_speaks(utterance, r);
}

} // verus!
