use mnemosyne::clock::seconds_counted;
use mnemosyne::cognition::{FactType, Mention};
use mnemosyne::error::Error;
use mnemosyne::knowledge::Evidence;
use mnemosyne::launch::{choose_transport, decay_interval, Launch};
use mnemosyne::observation_compiler::{
    action_fact_type, compile_observations, legacy_verb_fact_type, observation_actions,
    verb_to_fact_type, DefaultRule, Lexeme, LexemeEffect,
};
use mnemosyne::personality::extract_profile;
use mnemosyne::prompt::PromptBuilder;
use mnemosyne::relationship::{
    EmotionTrend, RelationshipStage, RelationshipState, RelationshipStore, AGENT_POSITIVE_DELTA,
    POSITIVE_DELTA,
};
use mnemosyne::types::{
    CompiledConversation, Decision, Importance, Memory, MemoryType, Message, SessionState,
};

fn importance(x: f64) -> Importance {
    Importance { rank: x.to_bits() as i64, percent: (x * 100.0).round() as u32 }
}

fn evidence(id: i64, content: &str) -> Evidence {
    Evidence {
        id,
        doc_id: 1,
        chapter_id: 1,
        content: content.into(),
        start_offset: None,
        end_offset: None,
        created_at: 0,
    }
}

fn msgs(list: &[(&str, &str)]) -> Vec<Message> {
    list.iter().map(|(r, c)| Message::new(r, c)).collect()
}

const AGENT: i64 = 1;
const USER: i64 = 2;

// Prompts.

#[test]
fn build_empty() {
    let p = PromptBuilder.build(&vec![], &CompiledConversation::default());
    assert!(p.contains("Session State"));
}

#[test]
fn build_shows_knowledge() {
    let mut mem = Memory::new("t1", MemoryType::Knowledge, "full", importance(0.8));
    mem.summary = "用sqlite-vec替换lancedb".to_string();
    let c = CompiledConversation { knowledge: vec![mem], ..Default::default() };
    let p = PromptBuilder.build(&vec![], &c);
    assert!(p.contains("sqlite-vec"));
    assert!(p.contains("80%"));
}

#[test]
fn build_shows_decision() {
    let c = CompiledConversation {
        decisions: vec![Decision {
            decision: "换用sqlite-vec".into(),
            rationale: "lancedb太重".into(),
            module: "store".into(),
            importance: importance(0.8),
        }],
        ..Default::default()
    };
    let p = PromptBuilder.build(&vec![], &c);
    assert!(p.contains("Decisions"));
    assert!(p.contains("sqlite-vec"));
}

#[test]
fn build_includes_recent() {
    let messages = vec![Message::new("user", "问题1"), Message::new("assistant", "回答1")];
    let p = PromptBuilder.build(&messages, &CompiledConversation::default());
    assert!(p.contains("问题1"));
}

#[test]
fn the_most_important_knowledge_is_kept() {
    let mut knowledge = Vec::new();
    for i in 0..7 {
        let mut m = Memory::new("t", MemoryType::Knowledge, "c", importance(0.1 * f64::from(i)));
        m.summary = format!("item-{i}");
        knowledge.push(m);
    }
    let c = CompiledConversation { knowledge, ..Default::default() };
    let p = PromptBuilder.build(&vec![], &c);
    assert!(p.contains("item-6") && p.contains("item-2"));
    assert!(!p.contains("item-1") && !p.contains("item-0"));
    assert!(p.find("item-6").unwrap() < p.find("item-5").unwrap());
}

#[test]
fn session_fields_are_shown_when_present() {
    let session = SessionState { current_goal: "ship it".to_string(), ..Default::default() };
    let c = CompiledConversation { session, ..Default::default() };
    let p = PromptBuilder.build(&vec![], &c);
    assert!(p.contains("ship it"));
}

// Personality.

#[test]
fn detects_sensitive() {
    let profile = extract_profile("林黛玉", &vec![evidence(1, "林丫头那孩子倒罢了，只是心重些")]);
    assert!(
        profile.traits.iter().any(|t| t.name == "sensitive"),
        "should detect 'sensitive' from '心重'"
    );
}

#[test]
fn max_confidence_used() {
    let list = vec![evidence(1, "侬今葬花人笑痴"), evidence(2, "多愁善感")];
    let profile = extract_profile("林黛玉", &list);
    let mel = profile.traits.iter().find(|t| t.name == "melancholic").unwrap();
    assert_eq!(mel.confidence, 90, "max confidence should be 0.90 (from '葬花')");
}

#[test]
fn empty_evidence_returns_empty() {
    let profile = extract_profile("林黛玉", &vec![]);
    assert!(profile.traits.is_empty(), "no evidence should produce no traits");
}

// Relationships, in hundredths.

#[test]
fn positive_emotion_raises_intimacy() {
    let mut store = RelationshipStore::new();
    let messages =
        msgs(&[("user", "谢谢你，今天真的很开心！"), ("user", "谢谢你的陪伴，让我感到温暖。")]);
    let state = store.apply_messages("tenant-a", AGENT, USER, &messages, &vec![]);
    assert_eq!(state.intimacy, 4, "two positive messages should raise intimacy to 0.04");
    assert_eq!(state.stage, RelationshipStage::Stranger);
    assert_eq!(state.emotion_trend, EmotionTrend::Rising);
    let loaded = store
        .get_relationship("tenant-a", state.agent_entity_id, state.user_entity_id)
        .expect("relationship exists after apply");
    assert_eq!(loaded.intimacy, 4, "persisted intimacy must match the applied value");
}

#[test]
fn only_the_user_and_the_assistant_move_the_relationship() {
    let mut store = RelationshipStore::new();
    let messages = msgs(&[("system", "谢谢，很开心"), ("tool", "谢谢，很开心")]);
    let state = store.apply_messages("tenant-a", AGENT, USER, &messages, &vec![]);
    assert_eq!(state.intimacy, 0);
    assert_eq!(state.emotion_trend, EmotionTrend::Stable);
    let messages = msgs(&[("system", "难过"), ("assistant", "谢谢，很开心")]);
    let state = store.apply_messages("tenant-a", AGENT, USER, &messages, &vec![]);
    assert_eq!(state.intimacy, 1);
    assert!(state.updated_at > 1_700_000_000, "the clock is read");
}

#[test]
fn a_clock_before_the_epoch_counts_as_zero() {
    assert_eq!(seconds_counted(Some(1_700_000_000)), 1_700_000_000);
    assert_eq!(seconds_counted(None), 0);
    assert_eq!(seconds_counted(Some(u64::MAX)), 0);
}

#[test]
fn negative_emotion_lowers_intimacy_and_clamps() {
    let mut store = RelationshipStore::new();
    let messages = msgs(&[("user", "我很伤心，觉得压力很大。")]);
    let state = store.apply_messages("tenant-a", AGENT, USER, &messages, &vec![]);
    assert!(state.intimacy >= 0, "intimacy must never go below zero, got {}", state.intimacy);
    assert_eq!(state.emotion_trend, EmotionTrend::Stable);
}

#[test]
fn assistant_emotion_drives_intimacy() {
    let mut store = RelationshipStore::new();
    let messages = msgs(&[
        ("assistant", "我很开心能认识你，谢谢你信任我。"),
        ("assistant", "我也很高兴能陪着你。"),
        ("assistant", "我们的相处让我感到温暖，真的很珍惜。"),
    ]);
    let state = store.apply_messages("tenant-a", AGENT, USER, &messages, &vec![]);
    assert_eq!(state.intimacy, 3 * AGENT_POSITIVE_DELTA);
    assert_eq!(
        state.emotion_trend,
        EmotionTrend::Rising,
        "agent warmth must move the trend, not stay stable"
    );
}

#[test]
fn mixed_user_and_agent_emotion_combine() {
    let mut store = RelationshipStore::new();
    let messages = msgs(&[("user", "谢谢你，今天很开心！"), ("assistant", "我也很高兴能帮你。")]);
    let state = store.apply_messages("tenant-a", AGENT, USER, &messages, &vec![]);
    assert_eq!(state.intimacy, POSITIVE_DELTA + AGENT_POSITIVE_DELTA);
}

#[test]
fn stage_mapping_follows_thresholds() {
    assert_eq!(RelationshipStage::from_intimacy(10), RelationshipStage::Stranger);
    assert_eq!(RelationshipStage::from_intimacy(30), RelationshipStage::Acquaintance);
    assert_eq!(RelationshipStage::from_intimacy(60), RelationshipStage::Companion);
    assert_eq!(RelationshipStage::from_intimacy(90), RelationshipStage::Partner);
    assert_eq!(RelationshipStage::from_intimacy(150), RelationshipStage::Partner);
    assert_eq!(RelationshipStage::from_intimacy(-50), RelationshipStage::Stranger);
}

#[test]
fn trend_tracks_delta_between_updates() {
    let mut store = RelationshipStore::new();
    let positive = msgs(&[("user", "谢谢你，我很开心")]);
    let negative = msgs(&[("user", "我很伤心")]);
    let first = store.apply_messages("tenant-a", AGENT, USER, &positive, &vec![]);
    assert_eq!(first.emotion_trend, EmotionTrend::Rising);
    let second = store.apply_messages("tenant-a", AGENT, USER, &negative, &vec![]);
    assert_eq!(
        second.emotion_trend,
        EmotionTrend::Declining,
        "a negative update after a positive one must be declining"
    );
}

#[test]
fn topics_are_kept_with_the_state() {
    let mut store = RelationshipStore::new();
    let topics: Vec<String> = (0..12).map(|i| format!("话题{i}")).collect();
    let state = store.apply_messages_at("t", AGENT, USER, &vec![], &topics, 77);
    assert_eq!(state.updated_at, 77);
    assert!(state.recent_topics.len() <= 10);
    assert!(state.recent_topics.iter().all(|t| topics.contains(t)));
}

#[test]
fn one_tenants_update_leaves_the_others_alone() {
    let mut store = RelationshipStore::new();
    let warm = msgs(&[("user", "谢谢你，我很开心")]);
    store.apply_messages("tenant-a", AGENT, USER, &warm, &vec![]);
    store.apply_messages("tenant-b", AGENT, USER, &warm, &vec![]);
    store.apply_messages("tenant-b", AGENT, USER, &warm, &vec![]);
    assert_eq!(store.get_relationship("tenant-a", AGENT, USER).map(|s| s.intimacy), Some(2));
    assert_eq!(store.get_relationship("tenant-b", AGENT, USER).map(|s| s.intimacy), Some(4));
    assert!(store.get_relationship("tenant-c", AGENT, USER).is_none());
}

#[test]
fn intimacy_never_exceeds_one() {
    let mut store = RelationshipStore::new();
    let warm = msgs(&[("user", "谢谢你，我很开心")]);
    for _ in 0..60 {
        store.apply_messages("t", AGENT, USER, &warm, &vec![]);
    }
    let state = store.get_relationship("t", AGENT, USER).unwrap();
    assert_eq!(state.intimacy, 100);
    assert_eq!(state.stage, RelationshipStage::Partner);
    assert_eq!(state.emotion_trend, EmotionTrend::Stable);
}

#[test]
fn stage_and_trend_names_round_trip() {
    for s in [
        RelationshipStage::Stranger,
        RelationshipStage::Acquaintance,
        RelationshipStage::Companion,
        RelationshipStage::Partner,
    ] {
        assert_eq!(RelationshipStage::parse(s.as_str()), Ok(s));
    }
    for t in [EmotionTrend::Rising, EmotionTrend::Stable, EmotionTrend::Declining] {
        assert_eq!(EmotionTrend::parse(t.as_str()), Ok(t));
    }
    assert!(RelationshipStage::parse("friend").is_err());
    assert!(EmotionTrend::parse("up").is_err());
    assert_eq!(RelationshipState::new("t", 1, 2).intimacy, 0);
}

// Observations.

fn resolver(text: &str) -> Option<Mention> {
    [(1, "Anna"), (2, "Vronsky"), (3, "刘备"), (4, "诸葛亮")]
        .into_iter()
        .find(|(_, name)| text.contains(name))
        .map(|(entity_id, name)| Mention {
            entity_id: Some(entity_id),
            surface: name.to_string(),
            canonical_name: name.to_string(),
        })
}

#[test]
fn compiles_english_subject_and_object_without_cjk_length_limits() {
    let observations = compile_observations(
        &vec!["Anna loved Vronsky"],
        &vec!["loved".to_string()],
        &vec![],
        &resolver,
    );
    assert_eq!(observations.len(), 1, "One transitive sentence should emit one observation");
    assert_eq!(
        observations[0].subject.canonical_name, "Anna",
        "English subject should resolve before the action"
    );
    assert_eq!(
        observations[0].object.as_ref().map(|m| m.canonical_name.as_str()),
        Some("Vronsky"),
        "English object should resolve after the action"
    );
}

#[test]
fn compiles_chinese_subject_and_object_on_character_boundaries() {
    let observations = compile_observations(
        &vec!["刘备拜访诸葛亮"],
        &vec!["拜访".to_string()],
        &vec![],
        &resolver,
    );
    assert_eq!(observations.len(), 1, "One Chinese action should emit one observation");
    assert_eq!(observations[0].subject.canonical_name, "刘备", "Chinese subject should remain intact");
    assert_eq!(
        observations[0].object.as_ref().map(|m| m.canonical_name.as_str()),
        Some("诸葛亮"),
        "Chinese object should remain intact"
    );
}

#[test]
fn no_verbs_no_observations() {
    assert!(compile_observations(&vec!["Anna loved Vronsky"], &vec![], &vec![], &resolver).is_empty());
    let none = compile_observations(
        &vec!["Anna met Vronsky"],
        &vec!["loved".to_string()],
        &vec![],
        &resolver,
    );
    assert!(none.is_empty());
}

#[test]
fn two_verbs_in_a_sentence_are_both_observed() {
    let observations = compile_observations(
        &vec!["Anna loved Vronsky and left Vronsky"],
        &vec!["left".to_string(), "loved".to_string()],
        &vec![],
        &resolver,
    );
    let actions: Vec<&str> = observations.iter().map(|o| o.action.as_str()).collect();
    assert_eq!(actions, vec!["loved", "left"]);
}

#[test]
fn short_sentences_are_passed_over() {
    let verbs = vec!["".to_string()];
    let observations = compile_observations(&vec!["é", "ab", ""], &verbs, &vec![], &resolver);
    assert!(observations.is_empty());
}

#[test]
fn overlapping_verbs_are_taken_once() {
    let observations = compile_observations(
        &vec!["Anna aaaa Vronsky"],
        &vec!["aa".to_string()],
        &vec![],
        &resolver,
    );
    assert_eq!(observations.len(), 2);
}

#[test]
fn actions_name_their_facets() {
    for a in observation_actions() {
        assert_eq!(action_fact_type(a.name), Some(a.fact_type));
    }
    assert_eq!(action_fact_type("no such action"), None);
}

#[test]
fn verbs_fall_back_to_the_fixed_table() {
    assert_eq!(legacy_verb_fact_type("have"), FactType::Identity);
    assert_eq!(legacy_verb_fact_type("xyzzy"), FactType::Event);
    assert_eq!(verb_to_fact_type("xyzzy", None), FactType::Event);
    let lexeme = Lexeme {
        lemma: "xyzzy".to_string(),
        semantic_class: "unheard".to_string(),
        effects: vec![LexemeEffect { effect_type: "none".to_string(), value: "none".to_string() }],
    };
    assert_eq!(verb_to_fact_type("have", Some(&lexeme)), FactType::Event);
}

#[test]
fn the_default_rule_turns_an_observation_into_a_fact() {
    let observations = compile_observations(
        &vec!["Anna loved Vronsky"],
        &vec!["loved".to_string()],
        &vec![],
        &resolver,
    );
    let facts = DefaultRule.apply(&observations[0], None);
    assert_eq!(facts.len(), 1);
    assert_eq!(facts[0].entity_id, 1);
}

#[test]
fn the_transport_is_chosen_by_name() {
    assert!(matches!(choose_transport("stdio", false, None), Ok(Launch::Stdio)));
    match choose_transport("http", true, Some("secret")) {
        Ok(Launch::Http { token }) => assert_eq!(token, "secret"),
        _ => panic!("HTTP is served to holders of the token"),
    }
}

#[test]
fn http_is_not_served_without_a_token() {
    match choose_transport("http", true, None) {
        Err(Error::Config(text)) => assert_eq!(
            text,
            "HTTP transport requires --http-token (refusing to serve without authentication)"
        ),
        _ => panic!("a token is required"),
    }
    match choose_transport("http", false, Some("secret")) {
        Err(Error::Config(text)) => assert_eq!(text, "invalid --http-addr; expected host:port"),
        _ => panic!("an address is required"),
    }
    match choose_transport("pigeon", true, None) {
        Err(Error::Config(text)) => assert_eq!(
            text,
            "unsupported --transport `pigeon` (expected `stdio` or `http`)"
        ),
        _ => panic!("there is no such transport"),
    }
}

#[test]
fn the_decay_interval_is_a_positive_number() {
    assert_eq!(decay_interval(Some("3600")), Some(3600));
    assert_eq!(decay_interval(Some("+60")), Some(60));
    assert_eq!(decay_interval(Some("18446744073709551615")), Some(u64::MAX));
    assert_eq!(decay_interval(Some("18446744073709551616")), None);
    assert_eq!(decay_interval(Some("0")), None);
    assert_eq!(decay_interval(Some("-1")), None);
    assert_eq!(decay_interval(Some("")), None);
    assert_eq!(decay_interval(Some("1h")), None);
    assert_eq!(decay_interval(None), None);
}

#[test]
fn names_parse_as_strings_do() {
    assert_eq!("companion".parse::<RelationshipStage>(), Ok(RelationshipStage::Companion));
    assert_eq!("rising".parse::<EmotionTrend>(), Ok(EmotionTrend::Rising));
    assert_eq!(
        "friend".parse::<RelationshipStage>(),
        Err("unknown relationship stage `friend`".to_string())
    );
    assert_eq!("up".parse::<EmotionTrend>(), Err("unknown emotion trend `up`".to_string()));
}
