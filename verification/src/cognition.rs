//! What is observed and what is known: mentions, observations and facts.
use vstd::prelude::*;

use crate::json::{Json, JsonView, Number};
use crate::mcp::types::opt_text;
use crate::text::texts;

verus! {

/// The facet of an entity that a fact is about.
#[derive(Debug, Clone, Copy, PartialEq, Eq, Structural)]
pub enum FactType {
    Identity,
    Preference,
    Emotion,
    Goal,
    Relationship,
    Event,
    Occupation,
    Interest,
}

impl FactType {
    /// The name of the facet.
    pub open spec fn name(self) -> Seq<char> {
        match self {
            FactType::Identity => "Identity"@,
            FactType::Preference => "Preference"@,
            FactType::Emotion => "Emotion"@,
            FactType::Goal => "Goal"@,
            FactType::Relationship => "Relationship"@,
            FactType::Event => "Event"@,
            FactType::Occupation => "Occupation"@,
            FactType::Interest => "Interest"@,
        }
    }

    /// The name of the facet.
    pub fn label(self) -> (s: &'static str)
        ensures
            s@ == self.name(),
    {
        match self {
            FactType::Identity => "Identity",
            FactType::Preference => "Preference",
            FactType::Emotion => "Emotion",
            FactType::Goal => "Goal",
            FactType::Relationship => "Relationship",
            FactType::Event => "Event",
            FactType::Occupation => "Occupation",
            FactType::Interest => "Interest",
        }
    }
}

/// The rank of the score one.
pub const RANK_ONE: i64 = 4_607_182_418_800_017_408;

/// A score computed elsewhere in floating point. What is kept of one is an
/// integer that ranks as the score does, zero ranking 0 and one ranking
/// [`RANK_ONE`], and its decimal notation. (The bit pattern of a non-negative
/// `f64` is such a rank.)
#[derive(Debug)]
pub struct Score {
    pub rank: i64,
    pub digits: String,
}

/// The value of a score.
pub struct ScoreView {
    pub rank: int,
    pub digits: Seq<char>,
}

impl View for Score {
    type V = ScoreView;

    open spec fn view(&self) -> ScoreView {
        ScoreView { rank: self.rank as int, digits: self.digits@ }
    }
}

impl ScoreView {
    /// The score zero.
    pub open spec fn zero() -> ScoreView {
        ScoreView { rank: 0, digits: "0.0"@ }
    }

    /// The score one.
    pub open spec fn one() -> ScoreView {
        ScoreView { rank: RANK_ONE as int, digits: "1.0"@ }
    }

    /// The score, brought into the range from zero to one.
    pub open spec fn clamped(self) -> ScoreView {
        if self.rank < 0 {
            ScoreView::zero()
        } else if self.rank > RANK_ONE {
            ScoreView::one()
        } else {
            self
        }
    }

    /// The score as a JSON number.
    pub open spec fn number(self) -> JsonView {
        JsonView::Other(self.digits)
    }
}

impl Score {
    /// The score zero.
    pub fn zero() -> (s: Score)
        ensures
            s@ == ScoreView::zero(),
    {
        Score { rank: 0, digits: "0.0".to_owned() }
    }

    /// The score one.
    pub fn one() -> (s: Score)
        ensures
            s@ == ScoreView::one(),
    {
        Score { rank: RANK_ONE, digits: "1.0".to_owned() }
    }

    /// A copy with the same value.
    pub fn copy(&self) -> (s: Score)
        ensures
            s@ == self@,
    {
        Score { rank: self.rank, digits: self.digits.clone() }
    }

    /// The score, brought into the range from zero to one.
    pub fn clamped(&self) -> (s: Score)
        ensures
            s@ == self@.clamped(),
    {
        if self.rank < 0 {
            Score::zero()
        } else if self.rank > RANK_ONE {
            Score::one()
        } else {
            self.copy()
        }
    }

    /// The score as a JSON number.
    pub fn number(&self) -> (j: Json)
        ensures
            j@ == self@.number(),
    {
        Json::Number(Number::Other(self.digits.clone()))
    }
}

/// A stretch of text that names an entity.
#[derive(Debug)]
pub struct Mention {
    /// The entity, when it is known.
    pub entity_id: Option<i64>,
    /// The text itself.
    pub surface: String,
    /// The name the entity goes by.
    pub canonical_name: String,
}

/// The value of a mention.
pub struct MentionView {
    pub entity_id: Option<i64>,
    pub surface: Seq<char>,
    pub canonical_name: Seq<char>,
}

impl View for Mention {
    type V = MentionView;

    open spec fn view(&self) -> MentionView {
        MentionView {
            entity_id: self.entity_id,
            surface: self.surface@,
            canonical_name: self.canonical_name@,
        }
    }
}

impl MentionView {
    /// A mention of nobody.
    pub open spec fn nobody() -> MentionView {
        MentionView {
            entity_id: None,
            surface: Seq::empty(),
            canonical_name: Seq::empty(),
        }
    }
}

/// The view of an optional mention.
pub open spec fn opt_mention(m: Option<Mention>) -> Option<MentionView> {
    match m {
        Some(x) => Some(x@),
        None => None,
    }
}

impl Mention {
    /// A mention of nobody.
    pub fn nobody() -> (m: Mention)
        ensures
            m@ == MentionView::nobody(),
    {
        Mention { entity_id: None, surface: String::new(), canonical_name: String::new() }
    }
}

/// Something observed: who did what to whom.
#[derive(Debug)]
pub struct Observation {
    pub subject: Mention,
    pub action: String,
    pub object: Option<Mention>,
    pub modifiers: Vec<String>,
    pub timestamp: Option<i32>,
    pub evidence: Option<String>,
}

/// The value of an observation.
pub struct ObservationView {
    pub subject: MentionView,
    pub action: Seq<char>,
    pub object: Option<MentionView>,
    pub modifiers: Seq<Seq<char>>,
    pub timestamp: Option<i32>,
    pub evidence: Option<Seq<char>>,
}

impl View for Observation {
    type V = ObservationView;

    open spec fn view(&self) -> ObservationView {
        ObservationView {
            subject: self.subject@,
            action: self.action@,
            object: opt_mention(self.object),
            modifiers: texts(self.modifiers@),
            timestamp: self.timestamp,
            evidence: opt_text(self.evidence),
        }
    }
}

impl ObservationView {
    /// An observation without modifiers, time or evidence.
    pub open spec fn plain(
        subject: MentionView,
        action: Seq<char>,
        object: Option<MentionView>,
    ) -> ObservationView {
        ObservationView {
            subject,
            action,
            object,
            modifiers: Seq::empty(),
            timestamp: None,
            evidence: None,
        }
    }
}

impl Observation {
    /// An observation without modifiers, time or evidence.
    pub fn plain(subject: Mention, action: &str, object: Option<Mention>) -> (o: Observation)
        ensures
            o@ == ObservationView::plain(subject@, action@, opt_mention(object)),
    {
        let o = Observation {
            subject,
            action: action.to_owned(),
            object,
            modifiers: Vec::new(),
            timestamp: None,
            evidence: None,
        };
        assert(o@.modifiers =~= Seq::empty());
        o
    }
}

/// The values of a list of observations.
pub open spec fn observation_views(v: Seq<Observation>) -> Seq<ObservationView> {
    Seq::new(v.len(), |i: int| v[i]@)
}

/// Something known of an entity. Facts are only ever added.
#[derive(Debug)]
pub struct Fact {
    /// The id under which the fact is stored.
    pub id: Option<i64>,
    pub entity_id: i64,
    pub fact_type: FactType,
    /// Logical time of the fact.
    pub time: i64,
    pub payload: Json,
    pub evidence_id: Option<i64>,
    pub created_at: i64,
    pub confidence: Score,
    /// The facts that this one was inferred from.
    pub derived_from: Vec<i64>,
    pub status: String,
}

/// The value of a fact.
pub struct FactView {
    pub id: Option<i64>,
    pub entity_id: i64,
    pub fact_type: FactType,
    pub time: i64,
    pub payload: JsonView,
    pub evidence_id: Option<i64>,
    pub created_at: i64,
    pub confidence: ScoreView,
    pub derived_from: Seq<i64>,
    pub status: Seq<char>,
}

impl View for Fact {
    type V = FactView;

    open spec fn view(&self) -> FactView {
        FactView {
            id: self.id,
            entity_id: self.entity_id,
            fact_type: self.fact_type,
            time: self.time,
            payload: self.payload@,
            evidence_id: self.evidence_id,
            created_at: self.created_at,
            confidence: self.confidence@,
            derived_from: self.derived_from@,
            status: self.status@,
        }
    }
}

impl FactView {
    /// A new, active fact of full confidence that was not inferred.
    pub open spec fn fresh(
        entity_id: i64,
        fact_type: FactType,
        time: i64,
        created_at: i64,
        payload: JsonView,
    ) -> FactView {
        FactView {
            id: None,
            entity_id,
            fact_type,
            time,
            payload,
            evidence_id: None,
            created_at,
            confidence: ScoreView::one(),
            derived_from: Seq::empty(),
            status: "active"@,
        }
    }

    /// The text of the payload member `key`, when it is a string.
    pub open spec fn text_of(self, key: Seq<char>) -> Option<Seq<char>> {
        match self.payload.get(key) {
            Some(JsonView::Text(s)) => Some(s),
            _ => None,
        }
    }

    /// The payload member `key` is the boolean true.
    pub open spec fn flag(self, key: Seq<char>) -> bool {
        self.payload.get(key) == Some(JsonView::Bool(true))
    }
}

/// The values of a list of facts.
pub open spec fn fact_views(v: Seq<Fact>) -> Seq<FactView> {
    Seq::new(v.len(), |i: int| v[i]@)
}

impl Fact {
    /// A new, active fact of full confidence that was not inferred.
    pub fn fresh(
        entity_id: i64,
        fact_type: FactType,
        time: i64,
        created_at: i64,
        payload: Json,
    ) -> (f: Fact)
        ensures
            f@ == FactView::fresh(entity_id, fact_type, time, created_at, payload@),
    {
        let f = Fact {
            id: None,
            entity_id,
            fact_type,
            time,
            payload,
            evidence_id: None,
            created_at,
            confidence: Score::one(),
            derived_from: Vec::new(),
            status: "active".to_owned(),
        };
        assert(f@.derived_from =~= Seq::empty());
        f
    }

    /// A copy with the same value.
    pub fn copy(&self) -> (f: Fact)
        ensures
            f@ == self@,
    {
        let mut derived_from: Vec<i64> = Vec::new();
        let mut i: usize = 0;
        while i < self.derived_from.len()
            invariant
                i <= self.derived_from@.len(),
                derived_from@ == self.derived_from@.subrange(0, i as int),
            decreases self.derived_from.len() - i,
        {
            derived_from.push(self.derived_from[i]);
            assert(derived_from@ =~= self.derived_from@.subrange(0, i + 1));
            i = i + 1;
        }
        assert(derived_from@ =~= self.derived_from@);
        Fact {
            id: self.id,
            entity_id: self.entity_id,
            fact_type: self.fact_type,
            time: self.time,
            payload: self.payload.copy(),
            evidence_id: self.evidence_id,
            created_at: self.created_at,
            confidence: self.confidence.copy(),
            derived_from,
            status: self.status.clone(),
        }
    }

    /// The text of the payload member `key`, when it is a string.
    pub fn text_of(&self, key: &str) -> (r: Option<&str>)
        ensures
            match r {
                Some(s) => self@.text_of(key@) == Some(s@),
                None => self@.text_of(key@) is None,
            },
    {
        match self.payload.get(key) {
            Some(v) => v.as_str(),
            None => None,
        }
    }

    /// Whether the payload member `key` is the boolean true.
    pub fn flag(&self, key: &str) -> (r: bool)
        ensures
            r == self@.flag(key@),
    {
        match self.payload.get(key) {
            Some(v) => match v.as_bool() {
                Some(b) => b,
                None => false,
            },
            None => false,
        }
    }
}

/// Facets have different names: what is stored under a name can be told from
/// everything else.
pub proof fn law_facets_have_different_names(a: FactType, b: FactType)
    ensures
        a.name() == b.name() ==> a == b,
{
    reveal_strlit("Identity");
    reveal_strlit("Preference");
    reveal_strlit("Emotion");
    reveal_strlit("Goal");
    reveal_strlit("Relationship");
    reveal_strlit("Event");
    reveal_strlit("Occupation");
    reveal_strlit("Interest");
    assert("Identity"@[1] == 'd');
    assert("Interest"@[1] == 'n');
    assert("Occupation"@[0] == 'O');
    assert("Preference"@[0] == 'P');
    assert("Identity"@.len() == 8
        && "Preference"@.len() == 10
        && "Emotion"@.len() == 7
        && "Goal"@.len() == 4
        && "Relationship"@.len() == 12
        && "Event"@.len() == 5
        && "Occupation"@.len() == 10
        && "Interest"@.len() == 8);
}

/// A score is brought to the nearer end of the range from zero to one, and one
/// within the range stays: no two change places.
pub proof fn law_scores_keep_their_order(a: ScoreView, b: ScoreView)
    ensures
        0 <= a.clamped().rank <= RANK_ONE,
        0 <= a.rank <= RANK_ONE ==> a.clamped() == a,
        a.rank < 0 ==> a.clamped().rank == 0,
        a.rank > RANK_ONE ==> a.clamped().rank == RANK_ONE,
        a.rank <= b.rank ==> a.clamped().rank <= b.clamped().rank,
{
}

} // verus!
