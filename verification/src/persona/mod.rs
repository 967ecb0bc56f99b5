//! Persona: what a speaker says of themselves, kept consistent over time.
pub mod check;
pub mod embedding_extractor;
pub mod inject;
pub mod keyword_extractor;
pub mod prototype;
pub mod reconciler;
pub mod speaker_attribution;
pub mod timeline;

use vstd::prelude::*;

use crate::cognition::{Fact, FactType, FactView, Score, ScoreView};
use crate::json::{member, object, text, Json, JsonView};
use crate::persona::speaker_attribution::SpeakerAttribution;

verus! {

/// The attribution that marks a fact as persona.
pub const AGENT_PERSONALITY_ATTRIBUTION: &'static str = "agent_personality";

/// A statement of persona found in an utterance.
#[derive(Debug)]
pub struct PersonaSignal {
    /// The utterance.
    pub text: String,
    /// The facet it is about.
    pub fact_type: FactType,
    /// Whether it is a stance against something.
    pub negated: bool,
    /// How certain the extraction is.
    pub confidence: Score,
}

/// The value of a signal.
pub struct SignalView {
    pub text: Seq<char>,
    pub fact_type: FactType,
    pub negated: bool,
    pub confidence: ScoreView,
}

impl View for PersonaSignal {
    type V = SignalView;

    open spec fn view(&self) -> SignalView {
        SignalView {
            text: self.text@,
            fact_type: self.fact_type,
            negated: self.negated,
            confidence: self.confidence@,
        }
    }
}

/// The values of a list of signals.
pub open spec fn signal_views(v: Seq<PersonaSignal>) -> Seq<SignalView> {
    Seq::new(v.len(), |i: int| v[i]@)
}

impl PersonaSignal {
    /// A copy with the same value.
    pub fn copy(&self) -> (s: PersonaSignal)
        ensures
            s@ == self@,
    {
        PersonaSignal {
            text: self.text.clone(),
            fact_type: self.fact_type,
            negated: self.negated,
            confidence: self.confidence.copy(),
        }
    }
}

/// The payload of the fact that a signal gives.
pub open spec fn signal_payload(signal: SignalView, attribution: SpeakerAttribution) -> JsonView {
    JsonView::Object(
        seq![
            ("attribution"@, JsonView::Text(AGENT_PERSONALITY_ATTRIBUTION@)),
            ("speaker"@, JsonView::Text(attribution.speaker.name())),
            ("content"@, JsonView::Text(signal.text)),
            ("negated"@, JsonView::Bool(signal.negated)),
            ("confidence"@, signal.confidence.number()),
        ],
    )
}

/// The fact that a signal gives.
pub open spec fn signal_fact(
    signal: SignalView,
    attribution: SpeakerAttribution,
    logical_time: i64,
) -> FactView {
    FactView {
        confidence: signal.confidence.clamped(),
        ..FactView::fresh(
            attribution.entity_id,
            signal.fact_type,
            logical_time,
            logical_time,
            signal_payload(signal, attribution),
        )
    }
}

/// The fact that a signal gives, about the entity it is attributed to.
pub fn signal_to_fact(
    signal: &PersonaSignal,
    attribution: &SpeakerAttribution,
    logical_time: i64,
) -> (f: Fact)
    ensures
        f@ == signal_fact(signal@, *attribution, logical_time),
{
    let payload: Json = object(
        vec![
            member("attribution", text(AGENT_PERSONALITY_ATTRIBUTION)),
            member("speaker", text(attribution.speaker.as_str())),
            member("content", text(signal.text.as_str())),
            member("negated", Json::Bool(signal.negated)),
            member("confidence", signal.confidence.number()),
        ],
    );
    assert(payload@->Object_0 =~= signal_payload(signal@, *attribution)->Object_0);
    let mut f: Fact = Fact::fresh(
        attribution.entity_id,
        signal.fact_type,
        logical_time,
        logical_time,
        payload,
    );
    f.confidence = signal.confidence.clamped();
    f
}

/// The fact that a signal gives says what the signal said: it is tagged as
/// persona, is about the entity that spoke and of the signal's facet, holds the
/// statement, its stance and who spoke, and bears the time that it is given.
pub proof fn law_fact_says_what_the_signal_said(
    signal: SignalView,
    attribution: SpeakerAttribution,
    logical_time: i64,
)
    ensures
        ({
            let f = signal_fact(signal, attribution, logical_time);
            &&& f.entity_id == attribution.entity_id
            &&& f.fact_type == signal.fact_type
            &&& f.time == logical_time
            &&& f.created_at == logical_time
            &&& f.payload.get("attribution"@) == Some(JsonView::Text("agent_personality"@))
            &&& f.payload.get("speaker"@) == Some(JsonView::Text(attribution.speaker.name()))
            &&& f.payload.get("content"@) == Some(JsonView::Text(signal.text))
            &&& f.payload.get("negated"@) == Some(JsonView::Bool(signal.negated))
            &&& f.payload.get("confidence"@) == Some(JsonView::Other(signal.confidence.digits))
            &&& 0 <= f.confidence.rank <= 4_607_182_418_800_017_408
            &&& 0 <= signal.confidence.rank <= 4_607_182_418_800_017_408 ==> f.confidence
                == signal.confidence
            &&& f.status == "active"@
            &&& f.id is None
        }),
{
    reveal_strlit("attribution");
    reveal_strlit("speaker");
    reveal_strlit("content");
    reveal_strlit("negated");
    reveal_strlit("confidence");
    assert("attribution"@[0] == 'a');
    assert("speaker"@[0] == 's');
    assert("content"@.len() == 7);
    assert("negated"@[0] == 'n');
    assert("confidence"@.len() == 10);
    assert("content"@[0] == 'c' && "confidence"@[0] == 'c');
    let m = signal_payload(signal, attribution)->Object_0;
    let m1 = m.subrange(1, m.len() as int);
    let m2 = m1.subrange(1, m1.len() as int);
    let m3 = m2.subrange(1, m2.len() as int);
    let m4 = m3.subrange(1, m3.len() as int);
    assert(m1[0] == m[1] && m2[0] == m[2] && m3[0] == m[3] && m4[0] == m[4]);
    reveal_with_fuel(crate::json::lookup, 6);
}

} // verus!
