use mnemosyne::cognition::{Fact, FactType, Score, RANK_ONE};
use mnemosyne::error::Error;
use mnemosyne::json::{Json, Number};
use mnemosyne::persona::check::{
    filter_persona_facts, has_facet, is_comparable, is_persona_fact, shared_bigrams,
    PersonaCheckEngine, PersonaCheckResult,
    Similarities, Similarity,
};
use mnemosyne::persona::embedding_extractor::EmbeddingPersonaExtractor;
use mnemosyne::persona::inject::{
    build_persona_card_at, build_persona_card_from_facts, load_persona_cards, lookup_persona_card,
    merge_persona_card_file, persona_card_to_text, value_str_array, MAX_PERSONA_ITEMS,
};
use mnemosyne::persona::keyword_extractor::KeywordPersonaExtractor;
use mnemosyne::persona::prototype::{
    embedding_plan, require_embeddings, validate_prototypes, validate_thresholds,
    PersonaPrototypeEntry, PersonaPrototypes, PersonaThresholds, PrototypeVectorCache,
    PERSONA_PROTOTYPES_PATH, RANK_NINETY_FIVE, RANK_THREE_QUARTERS,
};
use mnemosyne::persona::reconciler::{
    extract_negated, Neighbor, ReconcileDecision, Reconciler, ReconcilerConfig, TransitionType,
};
use mnemosyne::persona::speaker_attribution::{Speaker, SpeakerAttribution};
use mnemosyne::persona::timeline::{
    build_evolution_timeline, build_timeline_for_entity, find_current, find_start, FactStore,
    Milestone, MilestoneType, LARGE_GAP_THRESHOLD,
};
use mnemosyne::persona::{signal_to_fact, PersonaSignal, AGENT_PERSONALITY_ATTRIBUTION};
use mnemosyne::types::Message;

fn from_value(v: &serde_json::Value) -> Json {
    match v {
        serde_json::Value::Null => Json::Null,
        serde_json::Value::Bool(b) => Json::Bool(*b),
        serde_json::Value::Number(n) => {
            if let Some(u) = n.as_u64() {
                Json::Number(Number::PosInt(u))
            } else if let Some(i) = n.as_i64() {
                Json::Number(Number::NegInt(i))
            } else {
                Json::Number(Number::Other(n.to_string()))
            }
        }
        serde_json::Value::String(s) => Json::Text(s.clone()),
        serde_json::Value::Array(a) => Json::Array(a.iter().map(from_value).collect()),
        serde_json::Value::Object(m) => {
            Json::Object(m.iter().map(|(k, v)| (k.clone(), from_value(v))).collect())
        }
    }
}

fn json(text: &str) -> Json {
    from_value(&serde_json::from_str(text).expect("valid JSON"))
}

fn score(x: f64) -> Score {
    let bits = x.abs().to_bits() as i64;
    Score { rank: if x < 0.0 { -bits } else { bits }, digits: format!("{:?}", x) }
}

/// The cosine of two vectors of one length and of non-zero size.
fn cosine(a: &[f32], b: &[f32]) -> Option<f32> {
    if a.len() != b.len() {
        return None;
    }
    let dot: f32 = a.iter().zip(b).map(|(x, y)| x * y).sum();
    let size_a: f32 = a.iter().map(|x| x * x).sum::<f32>().sqrt();
    let size_b: f32 = b.iter().map(|x| x * x).sum::<f32>().sqrt();
    if size_a == 0.0 || size_b == 0.0 {
        return None;
    }
    Some(dot / (size_a * size_b))
}

fn similarity(a: &[f32], b: &[f32]) -> Score {
    score(f64::from(cosine(a, b).unwrap_or(0.0)))
}

fn thresholds() -> PersonaThresholds {
    PersonaThresholds {
        match_: score(f64::from(0.75_f32)),
        dedup: score(f64::from(0.95_f32)),
        conflict: score(f64::from(0.75_f32)),
    }
}

fn payload(content: &str, negated: Option<bool>, tagged: bool) -> Json {
    let mut members = vec![("content".to_string(), Json::Text(content.to_string()))];
    if let Some(n) = negated {
        members.push(("negated".to_string(), Json::Bool(n)));
    }
    if tagged {
        members.push((
            "attribution".to_string(),
            Json::Text(AGENT_PERSONALITY_ATTRIBUTION.to_string()),
        ));
    }
    Json::Object(members)
}

fn persona_fact(id: i64, fact_type: FactType, negated: bool, content: &str) -> Fact {
    let mut f = Fact::fresh(1, fact_type, 1, 1, payload(content, Some(negated), true));
    f.id = Some(id);
    f
}

fn make_fact(id: i64, fact_type: FactType, negated: bool, content: &str) -> Fact {
    let mut f = Fact::fresh(1, fact_type, 1, 1, payload(content, Some(negated), false));
    f.id = Some(id);
    f
}

fn timed_fact(id: i64, fact_type: FactType, time: i64, negated: Option<bool>, content: &str) -> Fact {
    let mut f = Fact::fresh(7, fact_type, time, time, payload(content, negated, negated.is_some()));
    f.id = Some(id);
    f
}

fn utterance_to_fact(
    utterance: &str,
    speaker: Speaker,
    entity_id: i64,
    logical_time: i64,
) -> Option<Fact> {
    let signals = KeywordPersonaExtractor::new().extract(utterance);
    if signals.is_empty() {
        return None;
    }
    let attribution = SpeakerAttribution::new(speaker, entity_id);
    Some(signal_to_fact(&signals[0], &attribution, logical_time))
}

// Speakers.

#[test]
fn from_message_identifies_agent() {
    let msg = Message::new("assistant", "我是白流苏");
    assert_eq!(Speaker::from_message(&msg), Some(Speaker::Agent), "assistant message → Agent speaker");
}

#[test]
fn from_message_identifies_user() {
    let msg = Message::new("user", "我喜欢这个建议");
    assert_eq!(Speaker::from_message(&msg), Some(Speaker::User), "user message → User speaker");
}

#[test]
fn from_message_rejects_non_persona_roles() {
    let system_msg = Message::new("system", "You are a helpful assistant.");
    let tool_msg = Message::new("tool", "result: 42");
    let unknown_msg = Message::new("narrator", "她转过身去。");
    assert!(Speaker::from_message(&system_msg).is_none(), "system role → None");
    assert!(Speaker::from_message(&tool_msg).is_none(), "tool role → None");
    assert!(Speaker::from_message(&unknown_msg).is_none(), "unknown role → None");
}

#[test]
fn speaker_as_str() {
    assert_eq!(Speaker::Agent.as_str(), "agent");
    assert_eq!(Speaker::User.as_str(), "user");
    assert_eq!(Speaker::Character.as_str(), "character");
}

#[test]
fn for_agent_attribution() {
    let attr = SpeakerAttribution::for_agent(42);
    assert_eq!(attr.speaker, Speaker::Agent, "speaker is Agent");
    assert_eq!(attr.entity_id, 42, "entity_id preserved");
}

#[test]
fn for_user_attribution() {
    let attr = SpeakerAttribution::for_user(99);
    assert_eq!(attr.speaker, Speaker::User, "speaker is User");
    assert_eq!(attr.entity_id, 99, "entity_id preserved");
}

#[test]
fn speaker_equality() {
    assert_eq!(Speaker::Agent, Speaker::Agent, "Agent equals itself");
    assert_ne!(Speaker::Agent, Speaker::User, "Agent != User");
    assert_ne!(Speaker::User, Speaker::Character, "User != Character");
}

// Prototypes.

#[test]
fn prototype_path_constant_defined() {
    assert!(!PERSONA_PROTOTYPES_PATH.is_empty());
}

#[test]
fn load_valid_prototype_config() {
    let config = PersonaPrototypes {
        version: 1,
        thresholds: PersonaThresholds::default(),
        prototypes: vec![
            PersonaPrototypeEntry {
                fact_type: FactType::Identity,
                negated: false,
                sentences: vec!["我是白流苏".to_string()],
            },
            PersonaPrototypeEntry {
                fact_type: FactType::Preference,
                negated: true,
                sentences: vec!["我讨厌应酬".to_string()],
            },
        ],
    };
    validate_prototypes(&config).expect("load config");
    assert_eq!(config.version, 1, "version preserved");
    assert_eq!(config.prototypes.len(), 2, "two prototype entries");
    assert_eq!(config.thresholds.match_.rank, score(0.75).rank, "default match threshold applied");
    assert_eq!(config.thresholds.match_.digits, "0.75");
}

#[test]
fn empty_sentences_rejected() {
    let config = PersonaPrototypes {
        version: 1,
        thresholds: PersonaThresholds::default(),
        prototypes: vec![PersonaPrototypeEntry {
            fact_type: FactType::Identity,
            negated: false,
            sentences: vec![],
        }],
    };
    assert!(
        matches!(validate_prototypes(&config), Err(Error::Config(_))),
        "empty sentences must be rejected"
    );
}

#[test]
fn no_prototypes_rejected() {
    let config =
        PersonaPrototypes { version: 1, thresholds: PersonaThresholds::default(), prototypes: vec![] };
    assert!(matches!(validate_prototypes(&config), Err(Error::Config(_))));
}

#[test]
fn threshold_out_of_range_rejected() {
    let t = PersonaThresholds {
        match_: score(1.5),
        dedup: score(f64::from(0.95_f32)),
        conflict: score(f64::from(0.75_f32)),
    };
    assert!(validate_thresholds(&t).is_err(), "out-of-range match threshold rejected");
    let below = PersonaThresholds { match_: score(-0.1), dedup: score(0.95), conflict: score(0.75) };
    assert!(validate_thresholds(&below).is_err());
}

#[test]
fn match_exceeds_conflict_rejected() {
    let t = PersonaThresholds {
        match_: score(f64::from(0.85_f32)),
        dedup: score(f64::from(0.95_f32)),
        conflict: score(f64::from(0.75_f32)),
    };
    assert!(validate_thresholds(&t).is_err(), "match > conflict must be rejected");
    assert!(validate_thresholds(&thresholds()).is_ok());
}

#[test]
fn rank_constants_are_bit_patterns() {
    assert_eq!(RANK_ONE, 1.0_f64.to_bits() as i64);
    assert_eq!(RANK_THREE_QUARTERS, f64::from(0.75_f32).to_bits() as i64);
    assert_eq!(RANK_NINETY_FIVE, f64::from(0.95_f32).to_bits() as i64);
}

#[test]
fn cache_build_fails_on_disabled_embedder() {
    match require_embeddings(false) {
        Err(Error::Config(msg)) => {
            assert!(msg.contains("enabled"), "error should mention enabled embedder: {msg}")
        }
        other => panic!("expected Config error, got {other:?}"),
    }
    assert!(require_embeddings(true).is_ok());
}

#[test]
fn by_type_index_groups_correctly() {
    let config = PersonaPrototypes {
        version: 1,
        thresholds: PersonaThresholds::default(),
        prototypes: vec![
            PersonaPrototypeEntry {
                fact_type: FactType::Identity,
                negated: false,
                sentences: vec!["s1".into(), "s2".into()],
            },
            PersonaPrototypeEntry {
                fact_type: FactType::Preference,
                negated: true,
                sentences: vec!["s3".into()],
            },
        ],
    };
    let plan = embedding_plan(&config);
    let cache = PrototypeVectorCache::assemble(plan, vec![10_u8, 20, 30]).expect("one vector each");
    let identity_indices = cache.indices_for_type(FactType::Identity).expect("Identity present");
    assert_eq!(identity_indices.len(), 2, "two Identity prototypes indexed");
    assert_eq!(identity_indices, &vec![0, 1]);
    let pref_indices = cache.indices_for_type(FactType::Preference).expect("Preference present");
    assert_eq!(pref_indices.len(), 1, "one Preference prototype indexed");
    assert!(cache.indices_for_type(FactType::Goal).is_none());
    assert_eq!(cache.vectors()[2].sentence, "s3");
    assert_eq!(cache.vectors()[2].vector, 30);
    assert!(cache.vectors()[2].negated);
}

#[test]
fn a_missing_vector_fails_the_cache() {
    let config = PersonaPrototypes {
        version: 1,
        thresholds: PersonaThresholds::default(),
        prototypes: vec![PersonaPrototypeEntry {
            fact_type: FactType::Identity,
            negated: false,
            sentences: vec!["s1".into(), "s2".into()],
        }],
    };
    let plan = embedding_plan(&config);
    assert!(PrototypeVectorCache::assemble(plan, vec![1_u8]).is_err());
}

// Reconciling.

#[test]
fn no_existing_facts_adds() {
    let reconciler = Reconciler::new(ReconcilerConfig { thresholds: thresholds() });
    let candidate = make_fact(10, FactType::Identity, false, "我是白流苏");
    let outcome = reconciler.reconcile(&candidate, &vec![]);
    assert!(matches!(outcome.decision, ReconcileDecision::Add), "no existing → Add");
}

#[test]
fn duplicate_above_dedup_is_noop() {
    let reconciler = Reconciler::new(ReconcilerConfig { thresholds: thresholds() });
    let candidate = make_fact(10, FactType::Identity, false, "我是白流苏");
    let existing = make_fact(1, FactType::Identity, false, "我是白流苏");
    let near = Neighbor { fact: &existing, similarity: similarity(&[1.0, 0.0], &[0.99, 0.01]) };
    let outcome = reconciler.reconcile(&candidate, &vec![near]);
    assert!(matches!(outcome.decision, ReconcileDecision::Noop), "near-duplicate → Noop");
}

#[test]
fn stance_flip_produces_transition() {
    let reconciler = Reconciler::new(ReconcilerConfig { thresholds: thresholds() });
    let candidate = make_fact(10, FactType::Preference, true, "我讨厌应酬");
    let existing = make_fact(1, FactType::Preference, false, "我喜欢应酬");
    let near = Neighbor { fact: &existing, similarity: similarity(&[1.0, 0.0], &[0.8, 0.6]) };
    let outcome = reconciler.reconcile(&candidate, &vec![near]);
    match outcome.decision {
        ReconcileDecision::AddWithTransition(meta) => {
            assert_eq!(meta.transition_from, 1, "transition references existing fact id");
            assert_eq!(meta.transition_type, TransitionType::StanceFlip, "stance-flip transition type");
        }
        other => panic!("expected AddWithTransition, got {other:?}"),
    }
}

#[test]
fn genuinely_new_fact_adds_without_transition() {
    let reconciler = Reconciler::new(ReconcilerConfig { thresholds: thresholds() });
    let candidate = make_fact(10, FactType::Goal, false, "我要活下去");
    let existing = make_fact(1, FactType::Identity, false, "我是白流苏");
    let near = Neighbor { fact: &existing, similarity: similarity(&[1.0, 0.0], &[0.3, 0.7]) };
    let outcome = reconciler.reconcile(&candidate, &vec![near]);
    assert!(
        matches!(outcome.decision, ReconcileDecision::Add),
        "low similarity → Add without transition"
    );
    assert_eq!(outcome.similarity.rank, 0);
}

#[test]
fn transition_takes_priority_over_duplicate() {
    let reconciler = Reconciler::new(ReconcilerConfig { thresholds: thresholds() });
    let candidate = make_fact(10, FactType::Preference, true, "我讨厌应酬");
    let existing = make_fact(1, FactType::Preference, false, "我喜欢应酬");
    let near = Neighbor { fact: &existing, similarity: similarity(&[1.0, 0.0], &[0.99, 0.01]) };
    let outcome = reconciler.reconcile(&candidate, &vec![near]);
    match outcome.decision {
        ReconcileDecision::AddWithTransition(meta) => {
            assert_eq!(meta.transition_from, 1, "stance-flip recorded even at dedup similarity");
        }
        other => panic!("expected AddWithTransition, got {other:?}"),
    }
}

#[test]
fn extract_negated_reads_payload() {
    let fact = make_fact(1, FactType::Preference, true, "我讨厌应酬");
    assert_eq!(extract_negated(&fact), Some(true), "negated flag extracted");
}

#[test]
fn extract_negated_missing_returns_none() {
    let mut fact = Fact::fresh(1, FactType::Identity, 1, 1, payload("我是白流苏", None, false));
    fact.id = Some(1);
    assert_eq!(extract_negated(&fact), None, "missing negated → None");
}

#[test]
fn transition_type_as_str() {
    assert_eq!(TransitionType::StanceFlip.as_str(), "stance_flip", "StanceFlip → 'stance_flip'");
}

// Timelines.

#[test]
fn stance_flip_is_detected_and_both_facts_kept() {
    let facts = vec![
        timed_fact(1, FactType::Preference, 2024, Some(false), "我喜欢应酬"),
        timed_fact(2, FactType::Preference, 2026, Some(true), "我不喜欢应酬"),
    ];
    let timeline = build_evolution_timeline(&facts);
    let flips: Vec<&Milestone> = timeline
        .milestones
        .iter()
        .filter(|m| m.milestone_type == MilestoneType::StanceFlip)
        .collect();
    assert_eq!(flips.len(), 1, "one stance flip milestone");
    assert_eq!(flips[0].fact.fact_type, FactType::Preference);
    assert_eq!(timeline.trajectory.len(), 2, "both facts must remain in the trajectory");
    assert_eq!(
        timeline.trajectory[0].payload.get("negated").and_then(|v| v.as_bool()),
        Some(false),
        "the earlier fact is preserved, not overwritten"
    );
    assert_eq!(
        timeline.trajectory[1].payload.get("negated").and_then(|v| v.as_bool()),
        Some(true),
        "the later fact is also preserved"
    );
}

#[test]
fn start_and_current_are_selected_by_time() {
    let facts = vec![
        timed_fact(1, FactType::Identity, 2020, None, "我是白流苏"),
        timed_fact(2, FactType::Preference, 2024, Some(false), "我喜欢安稳"),
        timed_fact(3, FactType::Preference, 2026, Some(true), "我不喜欢应酬"),
    ];
    let timeline = build_evolution_timeline(&facts);
    assert_eq!(
        timeline.start.as_ref().map(|f| f.time),
        Some(2020),
        "start is the earliest identity fact"
    );
    assert_eq!(
        timeline.current.as_ref().map(|f| f.time),
        Some(2026),
        "current is the latest persona fact"
    );
    let times: Vec<i64> = timeline.trajectory.iter().map(|f| f.time).collect();
    assert_eq!(times, vec![2020, 2024, 2026], "trajectory is time-ordered");
}

#[test]
fn the_order_of_the_input_does_not_matter() {
    let make = |order: [usize; 3]| {
        let list = |i: usize| match i {
            0 => timed_fact(1, FactType::Identity, 2020, None, "我是白流苏"),
            1 => timed_fact(2, FactType::Preference, 2024, Some(false), "我喜欢安稳"),
            _ => timed_fact(3, FactType::Preference, 2026, Some(true), "我不喜欢安稳"),
        };
        build_evolution_timeline(&order.iter().map(|i| list(*i)).collect())
    };
    let first = make([0, 1, 2]);
    for order in [[2, 1, 0], [1, 2, 0], [0, 2, 1]] {
        let other = make(order);
        let ids = |v: &Vec<Fact>| -> Vec<Option<i64>> { v.iter().map(|f| f.id).collect() };
        assert_eq!(ids(&other.trajectory), ids(&first.trajectory));
        assert_eq!(other.start.map(|f| f.id), first.start.as_ref().map(|f| f.id));
        assert_eq!(other.current.map(|f| f.id), first.current.as_ref().map(|f| f.id));
        let notes = |v: &Vec<Milestone>| -> Vec<String> { v.iter().map(|m| m.note.clone()).collect() };
        assert_eq!(notes(&other.milestones), notes(&first.milestones));
    }
}

#[test]
fn facts_of_the_same_times_are_ordered_by_id() {
    let facts = vec![
        timed_fact(3, FactType::Event, 2024, None, "c"),
        timed_fact(1, FactType::Event, 2024, None, "a"),
        timed_fact(2, FactType::Event, 2024, None, "b"),
    ];
    let ids: Vec<Option<i64>> =
        build_evolution_timeline(&facts).trajectory.iter().map(|f| f.id).collect();
    assert_eq!(ids, vec![Some(1), Some(2), Some(3)]);
}

#[test]
fn a_signal_is_compared_within_its_facet() {
    let signal = PersonaSignal {
        fact_type: FactType::Preference,
        text: "我喜欢应酬".to_string(),
        negated: false,
        confidence: Score::one(),
    };
    let near = timed_fact(1, FactType::Preference, 2024, Some(true), "我不喜欢应酬");
    let other = timed_fact(2, FactType::Goal, 2024, None, "我要学 Rust");
    let silent = timed_fact(3, FactType::Preference, 2024, None, "");
    assert!(is_comparable(&signal, &near));
    assert!(!is_comparable(&signal, &other));
    assert!(!is_comparable(&signal, &silent));
    assert!(has_facet(&vec![&near, &other], FactType::Goal));
    assert!(!has_facet(&vec![&near], FactType::Goal));
}

#[test]
fn large_time_gap_is_a_milestone() {
    let facts = vec![
        timed_fact(1, FactType::Event, 1000, None, "event A"),
        timed_fact(2, FactType::Event, 1000 + LARGE_GAP_THRESHOLD + 1, None, "event B"),
    ];
    let timeline = build_evolution_timeline(&facts);
    assert!(
        timeline.milestones.iter().any(|m| m.milestone_type == MilestoneType::LargeGap),
        "a large time gap must be a milestone"
    );
}

#[test]
fn a_gap_at_the_threshold_is_no_milestone() {
    let facts = vec![
        timed_fact(1, FactType::Event, 1000, None, "event A"),
        timed_fact(2, FactType::Event, 1000 + LARGE_GAP_THRESHOLD, None, "event B"),
    ];
    let timeline = build_evolution_timeline(&facts);
    assert!(timeline.milestones.iter().all(|m| m.milestone_type != MilestoneType::LargeGap));
}

#[test]
fn new_theme_is_a_milestone() {
    let facts = vec![
        timed_fact(1, FactType::Preference, 2024, Some(false), "我喜欢安稳"),
        timed_fact(2, FactType::Goal, 2026, Some(false), "我要去上海"),
    ];
    let timeline = build_evolution_timeline(&facts);
    assert!(
        timeline.milestones.iter().any(|m| m.milestone_type == MilestoneType::NewTheme
            && m.fact.fact_type == FactType::Goal),
        "a fresh fact_type must be flagged as a new theme"
    );
}

struct ListStore {
    facts: Vec<Fact>,
}

impl FactStore for ListStore {
    fn get_facts(&self, entity_id: i64) -> Result<Vec<Fact>, Error> {
        Ok(self.facts.iter().filter(|f| f.entity_id == entity_id).map(|f| f.copy()).collect())
    }
}

struct BrokenStore;

impl FactStore for BrokenStore {
    fn get_facts(&self, _entity_id: i64) -> Result<Vec<Fact>, Error> {
        Err(Error::Internal("the store is gone".to_string()))
    }
}

#[test]
fn timeline_rebuilt_from_store() {
    let store = ListStore {
        facts: vec![
            timed_fact(1, FactType::Identity, 1, None, "我是白流苏"),
            timed_fact(2, FactType::Preference, 2, Some(false), "我喜欢应酬"),
            timed_fact(3, FactType::Preference, 3, Some(true), "我不喜欢应酬"),
        ],
    };
    let timeline = build_timeline_for_entity(&store, 7).expect("build timeline");
    assert_eq!(timeline.trajectory.len(), 3, "all three facts are rebuilt");
    assert!(
        timeline.milestones.iter().any(|m| m.milestone_type == MilestoneType::StanceFlip),
        "the stance flip is detected from the store"
    );
    assert_eq!(
        timeline.start.as_ref().map(|f| f.fact_type),
        Some(FactType::Identity),
        "the origin is the identity fact"
    );
}

#[test]
fn a_broken_store_fails_the_timeline() {
    assert!(matches!(build_timeline_for_entity(&BrokenStore, 7), Err(Error::Internal(_))));
}

#[test]
fn an_unordered_list_becomes_a_trajectory() {
    let facts = vec![
        timed_fact(3, FactType::Event, 30, None, "c"),
        timed_fact(1, FactType::Event, 10, None, "a"),
        timed_fact(2, FactType::Event, 20, None, "b"),
    ];
    let timeline = build_evolution_timeline(&facts);
    let ids: Vec<Option<i64>> = timeline.trajectory.iter().map(|f| f.id).collect();
    assert_eq!(ids, vec![Some(1), Some(2), Some(3)]);
    assert!(build_evolution_timeline(&vec![]).start.is_none());
    assert!(find_start(&vec![]).is_none());
    assert!(find_current(&vec![]).is_none());
}

// Keywords.

#[test]
fn extracts_affirmative_identity() {
    let signals = KeywordPersonaExtractor::new().extract("我是白流苏");
    assert_eq!(signals.len(), 1, "one signal for identity statement");
    let sig = &signals[0];
    assert_eq!(sig.fact_type, FactType::Identity, "classified as Identity");
    assert!(!sig.negated, "affirmative identity not negated");
    assert_eq!(sig.confidence.rank, score(1.0).rank, "keyword match confidence is 1.0");
    assert_eq!(sig.confidence.digits, "1.0");
}

#[test]
fn negated_preference_beats_affirmative() {
    let signals = KeywordPersonaExtractor::new().extract("我不喜欢虚伪的应酬，太累了。");
    assert_eq!(signals.len(), 1, "one signal for negated preference");
    assert_eq!(signals[0].fact_type, FactType::Preference, "classified as Preference");
    assert!(signals[0].negated, "stance-against preference marked negated");
}

#[test]
fn negated_goal_beats_affirmative() {
    let signals = KeywordPersonaExtractor::new().extract("我不要你为我改什么。");
    assert_eq!(signals.len(), 1, "one signal for negated goal");
    assert_eq!(signals[0].fact_type, FactType::Goal, "classified as Goal");
    assert!(signals[0].negated, "stance-against goal marked negated");
}

#[test]
fn extracts_emotion() {
    let signals = KeywordPersonaExtractor::new().extract("我心里很害怕，一个人走了这么多年。");
    assert_eq!(signals.len(), 1, "one signal for emotion statement");
    assert_eq!(signals[0].fact_type, FactType::Emotion, "classified as Emotion");
    assert!(!signals[0].negated, "affirmative emotion not negated");
}

#[test]
fn keyword_extractor_no_signal_for_unrelated_utterance() {
    let signals = KeywordPersonaExtractor::new().extract("今天天气不错");
    assert!(signals.is_empty(), "unrelated utterance → no signal");
}

#[test]
fn keyword_extractor_empty_utterance_no_signal() {
    let extractor = KeywordPersonaExtractor::new();
    assert!(extractor.extract("").is_empty(), "empty utterance → no signal");
    assert!(extractor.extract("   ").is_empty(), "whitespace utterance → no signal");
}

#[test]
fn keyword_extractor_is_semantic_flag() {
    assert!(!KeywordPersonaExtractor::new().is_semantic(), "keyword extractor is not semantic");
}

#[test]
fn emotion_marker_without_prefix() {
    let signals = KeywordPersonaExtractor::new().extract("心里也有害怕的时候");
    assert_eq!(signals.len(), 1, "loose emotion marker matches");
    assert_eq!(signals[0].fact_type, FactType::Emotion, "classified as Emotion");
}

// Cards.

#[test]
fn aggregates_persona_card_from_facts() {
    let facts = vec![
        persona_fact(1, FactType::Identity, false, "我是白流苏，离过婚，爱过，也输过"),
        persona_fact(2, FactType::Preference, false, "我喜欢安稳"),
        persona_fact(3, FactType::Preference, true, "我不喜欢应酬"),
        persona_fact(4, FactType::Emotion, false, "我心里也有害怕的时候"),
        persona_fact(5, FactType::Goal, true, "我不要你为我改什么"),
        persona_fact(6, FactType::Relationship, false, "与你相识多年，是我最亲近的人"),
    ];
    let card = build_persona_card_from_facts("tenant-a", "agent-bailiusu", &facts);
    assert_eq!(card.tenant_id, "tenant-a");
    assert_eq!(card.agent_id, "agent-bailiusu");
    assert_eq!(card.identity, "我是白流苏，离过婚，爱过，也输过", "non-negated identity wins");
    assert_eq!(card.persona.len(), 4, "preference+emotion+goal → persona");
    assert!(card.persona.iter().any(|s| s.contains("我喜欢安稳")));
    assert!(card.persona.iter().any(|s| s.contains("我不喜欢应酬")));
    assert_eq!(
        card.relationship.as_array().map(|a| a.len()),
        Some(1),
        "one relationship fact → one relationship entry"
    );
    assert!(card.style.is_empty(), "style is never derived from facts");
    assert!(card.taboos.is_empty(), "taboos are never derived from facts");
    assert!(card.built_at > 0, "the card carries the time it was built at");
}

#[test]
fn negated_identity_is_fallback() {
    let facts = vec![persona_fact(1, FactType::Identity, true, "我不再是那个天真的人")];
    let card = build_persona_card_from_facts("default", "agent-x", &facts);
    assert_eq!(
        card.identity, "我不再是那个天真的人",
        "negated identity used when no affirmative one exists"
    );
}

#[test]
fn persona_list_is_bounded() {
    let facts: Vec<Fact> = (0..10)
        .map(|i| persona_fact(i, FactType::Preference, false, &format!("喜欢话题{i}")))
        .collect();
    let card = build_persona_card_from_facts("default", "agent-x", &facts);
    assert_eq!(card.persona.len(), MAX_PERSONA_ITEMS, "persona is capped");
}

#[test]
fn json_card_fills_missing_fields_and_overrides() {
    let facts = vec![
        persona_fact(1, FactType::Identity, false, "我是白流苏"),
        persona_fact(2, FactType::Preference, false, "我喜欢安稳"),
    ];
    let base = build_persona_card_from_facts("tenant-a", "agent-bailiusu", &facts);
    let file = json(
        r#"{
            "identity": "白流苏，离过婚，爱过，也输过",
            "style": ["话少，克制，偶尔揶揄"],
            "taboos": ["绝不说自己已经放下"],
            "relationship": {"status": "彼此揣着明白"}
        }"#,
    );
    let merged = merge_persona_card_file(base, &file);
    assert_eq!(merged.identity, "白流苏，离过婚，爱过，也输过", "file identity wins");
    assert_eq!(merged.style, vec!["话少，克制，偶尔揶揄"]);
    assert_eq!(merged.taboos, vec!["绝不说自己已经放下"]);
    assert_eq!(
        merged.relationship.get("status").and_then(|v| v.as_str()),
        Some("彼此揣着明白")
    );
    assert_eq!(
        merged.persona,
        vec!["我喜欢安稳"],
        "absent file persona falls back to aggregated facts"
    );
}

#[test]
fn missing_file_loads_empty() {
    let cards = load_persona_cards(Ok(None)).expect("missing file must not error");
    assert!(
        lookup_persona_card(&cards, "default", "agent-x").is_none(),
        "no entry in an empty card set"
    );
    assert!(load_persona_cards(Err(Error::Io("unreadable".to_string()))).is_err());
}

#[test]
fn cards_are_found_by_tenant_and_agent() {
    let cards = load_persona_cards(Ok(Some(json(
        r#"{"tenant-a": {"agent-x": {"identity": "我"}}}"#,
    ))))
    .expect("cards");
    let card = lookup_persona_card(&cards, "tenant-a", "agent-x").expect("the entry");
    assert_eq!(card.get("identity").and_then(|v| v.as_str()), Some("我"));
    assert!(lookup_persona_card(&cards, "tenant-b", "agent-x").is_none());
    assert!(lookup_persona_card(&cards, "tenant-a", "agent-y").is_none());
}

#[test]
fn a_file_relationship_is_joined_key_by_key() {
    let mut base = build_persona_card_at("t", "a", &vec![], 9);
    assert_eq!(base.built_at, 9);
    base.relationship = json(r#"{"stage": "companion", "status": "learned"}"#);
    let merged = merge_persona_card_file(base, &json(r#"{"relationship": {"status": "stranger"}}"#));
    assert_eq!(merged.relationship.get("status").and_then(|v| v.as_str()), Some("stranger"));
    assert_eq!(merged.relationship.get("stage").and_then(|v| v.as_str()), Some("companion"));
    let kept = merge_persona_card_file(merged, &json(r#"{"relationship": null}"#));
    assert_eq!(kept.relationship.get("stage").and_then(|v| v.as_str()), Some("companion"));
}

#[test]
fn a_file_never_replaces_learned_statements() {
    let facts = vec![persona_fact(1, FactType::Relationship, false, "与你相识多年")];
    let base = build_persona_card_at("t", "a", &facts, 9);
    let merged = merge_persona_card_file(base, &json(r#"{"relationship": {"status": "stranger"}}"#));
    assert_eq!(value_str_array(&merged.relationship), vec!["与你相识多年"]);
    assert!(merged.persona.is_empty() && merged.style.is_empty() && merged.taboos.is_empty());
    assert_eq!(merged.built_at, 9);
}

#[test]
fn a_long_file_leaves_room_for_learned_statements() {
    let facts = vec![persona_fact(1, FactType::Preference, false, "我喜欢安稳")];
    let base = build_persona_card_at("t", "a", &facts, 9);
    let lines: Vec<String> = (0..12).map(|i| format!("\"line {i}\"")).collect();
    let file = json(&format!("{{\"persona\": [{}]}}", lines.join(", ")));
    let merged = merge_persona_card_file(base, &file);
    assert_eq!(merged.persona.len(), 2 * MAX_PERSONA_ITEMS);
    assert_eq!(merged.persona[0], "line 0");
    assert_eq!(merged.persona[8], "line 8");
    assert_eq!(merged.persona[9], "我喜欢安稳");
}

#[test]
fn file_lines_come_first_and_the_rest_is_cut() {
    let facts: Vec<Fact> = (1..=5)
        .map(|i| persona_fact(i, FactType::Preference, false, &format!("喜欢话题{i}")))
        .collect();
    let base = build_persona_card_at("t", "a", &facts, 9);
    let learned = base.persona.clone();
    let lines: Vec<String> = (0..8).map(|i| format!("\"line {i}\"")).collect();
    let file = json(&format!("{{\"persona\": [{}]}}", lines.join(", ")));
    let merged = merge_persona_card_file(base, &file);
    assert_eq!(merged.persona.len(), 2 * MAX_PERSONA_ITEMS);
    assert_eq!(merged.persona[7], "line 7");
    assert_eq!(merged.persona[8..], learned[..2]);
}

#[test]
fn a_learned_line_among_those_of_the_file_is_enough() {
    let facts = vec![
        persona_fact(1, FactType::Preference, false, "我喜欢安稳"),
        persona_fact(2, FactType::Preference, false, "line 3"),
    ];
    let base = build_persona_card_at("t", "a", &facts, 9);
    let lines: Vec<String> = (0..12).map(|i| format!("\"line {i}\"")).collect();
    let file = json(&format!("{{\"persona\": [{}]}}", lines.join(", ")));
    let merged = merge_persona_card_file(base, &file);
    assert_eq!(merged.persona.len(), 2 * MAX_PERSONA_ITEMS);
    assert_eq!(merged.persona[9], "line 9");
}

#[test]
fn only_strings_are_read_from_a_card_list() {
    assert_eq!(value_str_array(&json(r#"["a", 1, null, "b"]"#)), vec!["a", "b"]);
    assert_eq!(value_str_array(&json(r#""a""#)), vec!["a"]);
    assert!(value_str_array(&json(r#"{"a": 1}"#)).is_empty());
}

#[test]
fn inject_text_output_contains_identity() {
    let facts = vec![persona_fact(1, FactType::Identity, false, "我是白流苏")];
    let card = build_persona_card_from_facts("default", "agent", &facts);
    let text = persona_card_to_text(&card, "[]");
    assert!(text.contains("我是白流苏"), "text includes identity");
    assert!(text.contains("agent"), "text includes the agent id");
}

// Extraction by embeddings.

fn stub_vector(text: &str) -> Vec<f32> {
    match text {
        "我是白流苏" => vec![1.0, 0.0, 0.0],
        "我喜欢安稳" => vec![0.0, 1.0, 0.0],
        "我不喜欢虚伪的应酬" => vec![0.0, -1.0, 0.0],
        "我是白流苏，离过婚，爱过，也输过" => vec![0.95, 0.05, 0.0],
        "今天天气不错" => vec![0.0, 0.0, 1.0],
        _ => vec![0.5, 0.5, 0.5],
    }
}

fn entry(fact_type: FactType, negated: bool, sentence: &str) -> PersonaPrototypeEntry {
    PersonaPrototypeEntry { fact_type, negated, sentences: vec![sentence.to_string()] }
}

fn cache_of(
    entries: Vec<PersonaPrototypeEntry>,
    embed: fn(&str) -> Vec<f32>,
) -> PrototypeVectorCache<Vec<f32>> {
    let config =
        PersonaPrototypes { version: 1, thresholds: PersonaThresholds::default(), prototypes: entries };
    let plan = embedding_plan(&config);
    let vectors: Vec<Vec<f32>> = plan.iter().map(|p| embed(&p.sentence)).collect();
    PrototypeVectorCache::assemble(plan, vectors).expect("build cache")
}

fn build_test_cache() -> PrototypeVectorCache<Vec<f32>> {
    cache_of(
        vec![
            entry(FactType::Identity, false, "我是白流苏"),
            entry(FactType::Preference, false, "我喜欢安稳"),
            entry(FactType::Preference, true, "我不喜欢虚伪的应酬"),
        ],
        stub_vector,
    )
}

/// Embeds the utterance where the extractor asks for it, and extracts.
fn extract_with(
    cache: &PrototypeVectorCache<Vec<f32>>,
    utterance: &str,
    embed: fn(&str) -> Vec<f32>,
) -> Vec<PersonaSignal> {
    let extractor = EmbeddingPersonaExtractor::new(cache, PersonaThresholds::default());
    match extractor.text_to_embed(utterance) {
        None => vec![],
        Some(text) => {
            let v = embed(&text);
            let similarities: Vec<Option<Score>> = cache
                .vectors()
                .iter()
                .map(|p| cosine(&v, &p.vector).map(|c| score(f64::from(c))))
                .collect();
            extractor.extract(utterance, &similarities)
        }
    }
}

#[test]
fn extracts_matching_signal() {
    let cache = build_test_cache();
    let signals = extract_with(&cache, "我是白流苏，离过婚，爱过，也输过", stub_vector);
    assert_eq!(signals.len(), 1, "one persona signal extracted from close-match utterance");
    let sig = &signals[0];
    assert_eq!(sig.fact_type, FactType::Identity, "classified as Identity");
    assert!(!sig.negated, "affirmative identity statement");
    assert!(
        sig.confidence.rank >= PersonaThresholds::default().match_.rank,
        "confidence meets match threshold"
    );
}

#[test]
fn embedding_extractor_no_signal_for_unrelated_utterance() {
    let cache = build_test_cache();
    let signals = extract_with(&cache, "今天天气不错", stub_vector);
    assert!(signals.is_empty(), "unrelated utterance yields no persona signal");
}

#[test]
fn extracts_negated_signal() {
    let cache = build_test_cache();
    let signals = extract_with(&cache, "我不喜欢虚伪的应酬", stub_vector);
    assert_eq!(signals.len(), 1, "negated prototype sentence matches itself");
    let sig = &signals[0];
    assert_eq!(sig.fact_type, FactType::Preference, "classified as Preference");
    assert!(sig.negated, "stance-against statement marked negated");
    assert!(sig.confidence.rank > score(0.99).rank, "self-match confidence should be ~1.0");
}

#[test]
fn embedding_extractor_empty_utterance_no_signal() {
    let cache = build_test_cache();
    let extractor = EmbeddingPersonaExtractor::new(&cache, PersonaThresholds::default());
    assert!(extractor.text_to_embed("").is_none(), "embedder not called for empty utterances");
    assert!(extractor.text_to_embed("   ").is_none(), "embedder not called for blank utterances");
    assert!(extract_with(&cache, "", stub_vector).is_empty(), "empty utterance → no signal");
    assert!(extract_with(&cache, "   ", stub_vector).is_empty(), "whitespace utterance → no signal");
}

#[test]
fn embedding_extractor_is_semantic_flag() {
    let cache = build_test_cache();
    let extractor = EmbeddingPersonaExtractor::new(&cache, PersonaThresholds::default());
    assert!(extractor.is_semantic(), "embedding extractor is semantic path");
}

#[test]
fn a_prototype_without_a_cosine_is_passed_over() {
    let cache = build_test_cache();
    let extractor = EmbeddingPersonaExtractor::new(&cache, PersonaThresholds::default());
    let signals = extractor.extract("话", &vec![None, Some(score(0.8)), None]);
    assert_eq!(signals.len(), 1);
    assert_eq!(signals[0].fact_type, FactType::Preference);
    assert_eq!(signals[0].text, "话");
    assert!(extractor.extract("话", &vec![None, None, None]).is_empty());
}

// Checking drafts.

fn check_vector(text: &str) -> Vec<f32> {
    match text {
        "我喜欢安稳" => vec![0.0, 1.0, 0.0],
        "我讨厌应酬" => vec![0.9, 0.1, 0.0],
        "我喜欢应酬" => vec![0.9, 0.1, 0.0],
        "我是白流苏" => vec![1.0, 0.0, 0.0],
        "我讨厌应酬，太累了。" => vec![0.9, 0.1, 0.0],
        "我喜欢安稳踏实。" => vec![0.0, 1.0, 0.0],
        "我是白流苏，离过婚。" => vec![1.0, 0.0, 0.0],
        _ => vec![0.5, 0.5, 0.5],
    }
}

fn check_semantic(draft: &str, stored: &Vec<Fact>) -> PersonaCheckResult {
    let cache = cache_of(
        vec![
            entry(FactType::Preference, false, "我喜欢安稳"),
            entry(FactType::Preference, true, "我讨厌应酬"),
            entry(FactType::Identity, false, "我是白流苏"),
        ],
        check_vector,
    );
    let signals = extract_with(&cache, draft, check_vector);
    let similarities: Vec<Similarities> = signals
        .iter()
        .map(|s| {
            let v = check_vector(&s.text);
            Some(
                filter_persona_facts(stored)
                    .iter()
                    .map(|f| {
                        f.text_of("content").map(|c| similarity(&v, &check_vector(c)))
                    })
                    .collect(),
            )
        })
        .collect();
    PersonaCheckEngine::new(true, thresholds()).check(&signals, stored, &similarities)
}

#[test]
fn detects_opposite_stance_conflict() {
    let stored = vec![persona_fact(1, FactType::Preference, false, "我喜欢应酬")];
    let result = check_semantic("我讨厌应酬，太累了。", &stored);
    assert_eq!(result.conflicts.len(), 1, "opposite stance → one conflict");
    let c = &result.conflicts[0];
    assert_eq!(c.stored_fact_id, 1, "conflict references the stored fact");
    assert!(!c.stored_negated, "stored fact kept its negation flag (affirmative)");
    assert!(result.drift.is_empty(), "no drift alongside the conflict");
}

#[test]
fn consistent_repeat_is_not_flagged() {
    let stored = vec![persona_fact(1, FactType::Preference, false, "我喜欢安稳")];
    let result = check_semantic("我喜欢安稳踏实。", &stored);
    assert!(result.conflicts.is_empty(), "no conflict on repeat");
    assert!(result.drift.is_empty(), "no drift on repeat");
    assert_eq!(result.consistent_count, 1, "repeat counted as consistent");
}

#[test]
fn check_unanchored_statement_is_drift() {
    let stored = vec![persona_fact(1, FactType::Preference, false, "我喜欢安稳")];
    let result = check_semantic("我是白流苏，离过婚。", &stored);
    assert!(result.conflicts.is_empty(), "no conflict for unanchored");
    assert_eq!(result.drift.len(), 1, "unanchored identity → drift");
}

#[test]
fn check_no_signal_is_clean() {
    let stored = vec![persona_fact(1, FactType::Preference, false, "我喜欢安稳")];
    let result = check_semantic("今天天气不错。", &stored);
    assert_eq!(result.total_signals, 0, "no persona signal");
    assert!(result.is_clean(), "clean when no signal");
}

#[test]
fn keyword_fallback_detects_conflict() {
    let engine = PersonaCheckEngine::new(false, thresholds());
    let stored = vec![persona_fact(1, FactType::Preference, false, "我喜欢应酬")];
    let result = engine.check_draft("我讨厌应酬，太累了。", &stored);
    assert_eq!(result.conflicts.len(), 1, "keyword path flags the flip");
    assert_eq!(result.conflicts[0].stored_fact_id, 1, "references stored fact");
    assert!(matches!(result.conflicts[0].similarity, Similarity::SharedPairs(n) if n >= 1));
}

#[test]
fn persona_fact_tagger() {
    let tagged = persona_fact(1, FactType::Identity, false, "我是白流苏");
    assert!(is_persona_fact(&tagged), "tagged fact is persona");
    let untagged = Fact::fresh(1, FactType::Identity, 1, 1, payload("我是白流苏", None, false));
    assert!(!is_persona_fact(&untagged), "untagged fact is not persona");
    assert_eq!(filter_persona_facts(&vec![untagged, tagged]).len(), 1);
}

#[test]
fn bigrams_are_counted_in_characters() {
    assert_eq!(shared_bigrams("我讨厌应酬", "我喜欢应酬"), 1);
    assert_eq!(shared_bigrams("abc", "xabcx"), 2);
    assert_eq!(shared_bigrams("a", "a"), 0);
}

#[test]
fn every_keyword_signal_is_accounted_for() {
    let engine = PersonaCheckEngine::new(false, thresholds());
    let stored = vec![persona_fact(1, FactType::Preference, false, "我喜欢应酬")];
    let mut signals = KeywordPersonaExtractor::new().extract("我讨厌应酬，太累了。");
    signals.extend(KeywordPersonaExtractor::new().extract("我是白流苏"));
    signals.extend(KeywordPersonaExtractor::new().extract("我喜欢应酬"));
    let result = engine.check(&signals, &stored, &vec![]);
    assert_eq!(result.total_signals, 3);
    assert_eq!(result.conflicts.len() + result.drift.len() + result.consistent_count, 3);
}

// From an utterance to a decision.

#[test]
fn pipeline_extracts_and_attributes_identity() {
    let fact = utterance_to_fact("我是白流苏，离过婚，爱过，也输过。", Speaker::Agent, 42, 100)
        .expect("identity signal extracted");
    assert_eq!(fact.entity_id, 42, "attributed to agent entity 42");
    assert_eq!(fact.fact_type, FactType::Identity, "classified as Identity");
    assert_eq!(fact.time, 100, "logical time preserved");
    assert_eq!(fact.text_of("speaker"), Some("agent"), "speaker field set to agent");
    assert_eq!(
        fact.payload.get("negated").and_then(|v| v.as_bool()),
        Some(false),
        "affirmative identity not negated"
    );
    assert_eq!(
        fact.text_of("attribution"),
        Some("agent_personality"),
        "persona attribution marker present"
    );
}

#[test]
fn pipeline_duplicate_recognition_noop() {
    let reconciler = Reconciler::new(ReconcilerConfig::default());
    let existing = utterance_to_fact("我是白流苏，离过婚，爱过，也输过。", Speaker::Agent, 42, 100)
        .expect("first identity extracted");
    let candidate = utterance_to_fact("我是白流苏，离过婚，爱过，也输过。", Speaker::Agent, 42, 200)
        .expect("second identity extracted");
    let near = Neighbor {
        fact: &existing,
        similarity: similarity(&[0.99, 0.01, 0.0], &[1.0, 0.0, 0.0]),
    };
    let outcome = reconciler.reconcile(&candidate, &vec![near]);
    assert!(matches!(outcome.decision, ReconcileDecision::Noop), "near-duplicate candidate → Noop");
}

#[test]
fn pipeline_stance_flip_transition_marking() {
    let reconciler = Reconciler::new(ReconcilerConfig::default());
    let mut existing = utterance_to_fact("我喜欢应酬，热闹。", Speaker::Agent, 42, 100)
        .expect("affirmative preference extracted");
    existing.id = Some(1);
    let mut candidate = utterance_to_fact("我讨厌应酬，太累了。", Speaker::Agent, 42, 200)
        .expect("negated preference extracted");
    candidate.id = Some(2);
    let near = Neighbor {
        fact: &existing,
        similarity: similarity(&[1.0, 0.0, 0.0], &[0.8, 0.6, 0.0]),
    };
    let outcome = reconciler.reconcile(&candidate, &vec![near]);
    match outcome.decision {
        ReconcileDecision::AddWithTransition(ref meta) => {
            assert_eq!(meta.transition_from, 1, "transition references existing fact id");
            assert_eq!(meta.transition_type, TransitionType::StanceFlip, "stance-flip transition type");
        }
        ref other => panic!("expected AddWithTransition, got {other:?}"),
    }
}

#[test]
fn pipeline_time_context_preservation() {
    let store = vec![
        utterance_to_fact("我喜欢应酬，热闹。", Speaker::Agent, 42, 100)
            .expect("affirmative preference extracted"),
        utterance_to_fact("我讨厌应酬，太累了。", Speaker::Agent, 42, 200)
            .expect("negated preference extracted"),
    ];
    let timeline = build_evolution_timeline(&store).trajectory;
    assert_eq!(timeline.len(), 2, "both stance-flip facts coexist");
    assert_eq!(timeline[0].time, 100, "earlier fact preserved at t=100");
    assert_eq!(timeline[1].time, 200, "later fact preserved at t=200");
    let earlier_negated = timeline[0].payload.get("negated").and_then(|v| v.as_bool());
    let later_negated = timeline[1].payload.get("negated").and_then(|v| v.as_bool());
    assert_eq!(earlier_negated, Some(false), "earlier fact is affirmative");
    assert_eq!(later_negated, Some(true), "later fact is negated (stance flip)");
}

#[test]
fn pipeline_genuinely_new_fact_adds() {
    let reconciler = Reconciler::new(ReconcilerConfig::default());
    let existing =
        utterance_to_fact("我是白流苏", Speaker::Agent, 42, 100).expect("identity extracted");
    let candidate =
        utterance_to_fact("我要活下去", Speaker::Agent, 42, 200).expect("goal extracted");
    let near = Neighbor {
        fact: &existing,
        similarity: similarity(&[0.1, 0.9, 0.0], &[1.0, 0.0, 0.0]),
    };
    let outcome = reconciler.reconcile(&candidate, &vec![near]);
    assert!(
        matches!(outcome.decision, ReconcileDecision::Add),
        "genuinely new candidate → Add without transition"
    );
}

#[test]
fn pipeline_attributes_user_speech_to_user_entity() {
    let fact = utterance_to_fact("我喜欢这个建议", Speaker::User, 99, 100)
        .expect("user preference extracted");
    assert_eq!(fact.entity_id, 99, "attributed to user entity 99");
    assert_eq!(fact.text_of("speaker"), Some("user"), "speaker field set to user");
}
