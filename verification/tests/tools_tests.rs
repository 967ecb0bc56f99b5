use mnemosyne::cognition::{Fact, FactType, Score};
use mnemosyne::error::Error;
use mnemosyne::json::{Json, Number};
use mnemosyne::knowledge::KnowledgeEdge;
use mnemosyne::mcp::context_aware::{
    build_user_profile, context_mode, context_request, default_context_threshold, distilled_reply,
    idle_reply, user_access, DistillCounts, Percent, UserAccess, RANK_FORTY, RANK_HUNDRED,
};
use mnemosyne::mcp::decay_tool::{decay_reply, decay_request, DecayStats, DecayStrategy};
use mnemosyne::mcp::decision_tool::{
    decision_json, search_reply, search_request, shown_hits, trace_request, unknown_decision,
    DecisionRecord,
};
use mnemosyne::mcp::definitions::{
    decision_search_definition, decision_trace_definition, memory_decay_definition,
    persona_check_definition, persona_inject_definition, persona_timeline_definition,
    relationship_query_definition, relationship_update_definition, state_timeline_definition,
};
use mnemosyne::mcp::external_knowledge_tools::{
    attach_request, db_attached_reply, document_attached_reply, fact_compile_request,
    facts_compiled_reply, format_kind_str, index_reply, ingest_request, is_every_source,
    materialized_reply, no_documents, storage_plan, EntityLink, FormatKind, IngestMode, SourceKind,
    StoredFacts,
};
use mnemosyne::mcp::generalize_tool::{
    compile_failure, compiled_reply, default_title, generalize_input, generalize_request,
    nothing_compiled_reply, profile_failure, GeneralizeInput, GraphStats,
};
use mnemosyne::mcp::graph_search_tool::{
    doc_title, graph_reply, graph_search_request, matched_attributes, search_scope, GraphHit,
    Property, Scope,
};
use mnemosyne::mcp::ingest::{Action, Event, ExternalDoc, Ingest};
use mnemosyne::mcp::json_db::{
    parse_json_db, scored_row, search_json_db, JsonDbRow, RANK_HALF,
};
use mnemosyne::mcp::key_events_tool::{key_events_request, RANK_KEY_EVENT};
use mnemosyne::mcp::knowledge_tools::{
    after_lookup, cognitive_request, corrected_reply, correction_request, entity_not_found,
    entity_request, evidence_request, inspect_reply, inspect_request, match_edges, means_user,
    resolve_with_linker, unknown_entity_error, user_name, Correction, CorrectionAction,
    CorrectionEvent, CorrectionStage, LinkerHit, Lookup,
};
use mnemosyne::mcp::memory_compile::{
    choose_kept, commitment_speakers, compile_reply, compile_request, outcome_report,
    parse_messages, parse_outcomes, recent_start, CompileSummary, DecisionOutcome, DecisionState,
};
use mnemosyne::mcp::memory_transfer_tools::{
    export_path, import_failure, import_source, imported_reply, inline_reply, invalid_bundle,
    unreadable_file, written_reply, ImportSource, ImportStats, SnapshotSize,
};
use mnemosyne::mcp::paths::{file_stem, normalize, path_components, resolve_knowledge_path};
use mnemosyne::mcp::persona_check_tool::{check_path, check_reply, check_request, CheckPath};
use mnemosyne::mcp::persona_inject_tool::{inject_request, render_json, render_text};
use mnemosyne::mcp::portrait_tool::{
    portrait_failure, portrait_reply, portrait_request, PortraitError,
};
use mnemosyne::mcp::provenance_tool::{
    provenance_reply, provenance_request, unknown_fact, DerivationWalk, EvidenceAnchor,
};
use mnemosyne::mcp::relationship_tool::{
    no_relationship_reply, pair_request, serialize_state, timeline_reply, timeline_request,
    update_request,
};
use mnemosyne::mcp::state_timeline_tool::{
    check_scope, state_reply, state_request, state_timeline_dimensions, StateEvolution,
    StateInterval, StateTransition,
};
use mnemosyne::mcp::story_bridge_tool::bridge_request;
use mnemosyne::mcp::tenant_scope::{ensure_entity_tenant, tenant_argument};
use mnemosyne::mcp::types::{Refusal, ToolDefinition};
use mnemosyne::persona::check::{PersonaCheckEngine, PersonaCheckResult};
use mnemosyne::persona::inject::{
    build_persona_card_from_facts, load_persona_cards, lookup_persona_card,
    merge_persona_card_file,
};
use mnemosyne::persona::prototype::PersonaThresholds;
use mnemosyne::persona::timeline::build_evolution_timeline;
use mnemosyne::relationship::RelationshipStore;

fn from_value(v: &serde_json::Value) -> Json {
    match v {
        serde_json::Value::Null => Json::Null,
        serde_json::Value::Bool(b) => Json::Bool(*b),
        serde_json::Value::Number(n) => {
            if let Some(u) = n.as_u64() {
                Json::Number(Number::PosInt(u))
            } else if let Some(i) = n.as_i64() {
                Json::Number(Number::NegInt(i))
            } else {
                Json::Number(Number::Other(n.to_string()))
            }
        }
        serde_json::Value::String(s) => Json::Text(s.clone()),
        serde_json::Value::Array(a) => Json::Array(a.iter().map(from_value).collect()),
        serde_json::Value::Object(m) => {
            Json::Object(m.iter().map(|(k, v)| (k.clone(), from_value(v))).collect())
        }
    }
}

fn json(text: &str) -> Json {
    from_value(&serde_json::from_str(text).expect("valid JSON"))
}

fn to_value(j: &Json) -> serde_json::Value {
    match j {
        Json::Null => serde_json::Value::Null,
        Json::Bool(b) => serde_json::Value::Bool(*b),
        Json::Number(Number::PosInt(u)) => serde_json::Value::from(*u),
        Json::Number(Number::NegInt(i)) => serde_json::Value::from(*i),
        Json::Number(Number::Other(s)) => serde_json::from_str(s).expect("a JSON number"),
        Json::Text(s) => serde_json::Value::String(s.clone()),
        Json::Array(a) => serde_json::Value::Array(a.iter().map(to_value).collect()),
        Json::Object(m) => {
            serde_json::Value::Object(m.iter().map(|(k, v)| (k.clone(), to_value(v))).collect())
        }
    }
}

fn score(x: f64) -> Score {
    let bits = x.abs().to_bits() as i64;
    Score { rank: if x < 0.0 { -bits } else { bits }, digits: format!("{:?}", x) }
}

fn percent(x: f64) -> Percent {
    Percent { score: score(x), whole: format!("{x:.0}") }
}

fn fact(id: i64, entity_id: i64, fact_type: FactType, time: i64, payload: &str) -> Fact {
    let mut f = Fact::fresh(entity_id, fact_type, time, time, json(payload));
    f.id = Some(id);
    f
}

fn persona_fact(id: i64, fact_type: FactType, negated: bool, content: &str) -> Fact {
    let payload = format!(
        r#"{{"attribution": "agent_personality", "content": "{content}", "negated": {negated}}}"#
    );
    fact(id, 1, fact_type, 1, &payload)
}

fn required(def: &ToolDefinition) -> Vec<String> {
    def.input_schema
        .get("required")
        .and_then(|v| v.as_array())
        .expect("required array")
        .iter()
        .filter_map(|v| v.as_str().map(|s| s.to_string()))
        .collect()
}

fn says(r: Refusal) -> String {
    match r {
        Refusal::Graceful(s) => s,
        Refusal::Error(e) => panic!("expected a graceful refusal, got {e:?}"),
    }
}

// Definitions.

#[test]
fn definition_exposes_memory_decay_schema() {
    let def = memory_decay_definition();
    assert_eq!(def.name, "memory_decay");
    let strategies = def
        .input_schema
        .get("properties")
        .and_then(|p| p.get("strategy"))
        .and_then(|s| s.get("enum"))
        .and_then(|v| v.as_array())
        .expect("strategy enum");
    assert!(strategies.iter().any(|v| v.as_str() == Some("hybrid")), "hybrid strategy listed");
}

#[test]
fn decision_definitions_declare_contracts() {
    let trace = decision_trace_definition();
    assert_eq!(trace.name, "decision_trace");
    assert!(required(&trace).contains(&"decision_id".to_string()));
    let search = decision_search_definition();
    assert_eq!(search.name, "decision_search");
    assert!(required(&search).contains(&"subject".to_string()));
}

#[test]
fn definition_requires_agent_id_and_draft() {
    let def = persona_check_definition();
    let names = required(&def);
    assert!(names.contains(&"agent_id".to_string()), "schema requires agent_id");
    assert!(names.contains(&"draft".to_string()), "schema requires draft");
    assert_eq!(def.name, "persona_check");
}

#[test]
fn definition_requires_agent_id() {
    let def = persona_inject_definition();
    assert!(required(&def).contains(&"agent_id".to_string()), "schema requires agent_id");
    assert_eq!(def.name, "persona_inject");
}

#[test]
fn definitions_require_expected_fields() {
    let update = relationship_update_definition();
    let names = required(&update);
    assert!(names.contains(&"agent_id".to_string()));
    assert!(names.contains(&"user_id".to_string()));
    assert!(names.contains(&"messages".to_string()));
    assert_eq!(update.name, "relationship_update");
    let query = relationship_query_definition();
    assert_eq!(query.name, "relationship_query");
    let timeline = persona_timeline_definition();
    assert!(required(&timeline).contains(&"entity_id".to_string()));
    assert_eq!(timeline.name, "persona_timeline");
}

#[test]
fn state_timeline_definition_declares_contract() {
    let def = state_timeline_definition();
    assert_eq!(def.name, "state_timeline");
    assert!(required(&def).contains(&"entity_id".to_string()), "entity_id is required");
    let schema = to_value(&def.input_schema);
    let values: Vec<&str> = schema
        .pointer("/properties/dimension/enum")
        .and_then(|v| v.as_array())
        .expect("dimension enum array")
        .iter()
        .filter_map(|v| v.as_str())
        .collect();
    assert_eq!(values, state_timeline_dimensions());
}

// Context.

#[test]
fn below_threshold_is_read_only() {
    let q = context_request(&json(
        r#"{
            "tenant_id": "tenant-a",
            "user_id": "alice",
            "context_usage_percent": 20,
            "messages": [{"role": "user", "content": "I want to learn Rust."}]
        }"#,
    ))
    .expect("below-threshold call must succeed");
    assert_eq!(q.tenant_id, "tenant-a");
    assert_eq!(q.messages.len(), 1);
    let mode = context_mode(Some(percent(20.0)), None);
    assert!(!mode.triggered);
    assert_eq!(user_access(&mode), UserAccess::Find, "the user is not recorded");
    let unknown = to_value(&idle_reply(&mode, None, 0));
    assert!(unknown["current"]["user_entity_id"].is_null());
    assert_eq!(unknown["current"]["facts"], 0);
    let known = to_value(&idle_reply(&mode, Some(7), 3));
    assert_eq!(known["current"]["user_entity_id"], 7);
    assert_eq!(known["current"]["facts"], 3);
    let payload = to_value(&idle_reply(&mode, Some(1), 0));
    assert_eq!(payload["distill_mode"], false, "must stay read-only");
    assert_eq!(payload["current"]["facts"], 0, "no facts must be persisted below threshold");
    assert_eq!(payload["reason"], "context usage 20% below threshold 40% — no distillation");
}

#[test]
fn above_threshold_compiles_and_builds_profile() {
    let mode = context_mode(Some(percent(65.0)), Some(percent(40.0)));
    assert!(mode.triggered);
    assert_eq!(user_access(&mode), UserAccess::Resolve);
    let facts = vec![fact(1, 7, FactType::Goal, 1, r#"{"content": "I want to learn Rust."}"#)];
    let counts =
        DistillCounts { observations: 1, facts_compiled: 1, facts_stored: 1, distilled_memories: 0 };
    let profile = build_user_profile(&facts, 7);
    let payload = to_value(&distilled_reply(&mode, &counts, &profile));
    assert_eq!(payload["distill_mode"], true, "must trigger distill mode");
    assert!(payload["compiled"]["facts_stored"].as_u64().unwrap_or(0) > 0);
    let goals = payload["profile"]["goals"].as_array().expect("goals array");
    assert!(
        goals.iter().any(|g| g.as_str().unwrap_or("").contains("learn Rust")),
        "profile goals must include the compiled goal; got {goals:?}"
    );
}

#[test]
fn usage_and_threshold_are_held_in_range() {
    assert_eq!(RANK_FORTY, 40.0_f64.to_bits() as i64);
    assert_eq!(RANK_HUNDRED, 100.0_f64.to_bits() as i64);
    assert_eq!(default_context_threshold().score.rank, RANK_FORTY);
    assert!(context_mode(Some(percent(100.0)), Some(percent(250.0))).triggered, "full triggers");
    assert!(!context_mode(None, Some(percent(0.0))).triggered, "no report never triggers");
    assert!(context_mode(Some(percent(40.0)), None).triggered, "at the threshold");
}

// Decay.

#[test]
fn a_decay_request_names_its_strategy() {
    let q = decay_request(&json(r#"{"entity_id": 3, "force": true}"#), DecayStrategy::Hybrid)
        .expect("a request");
    assert_eq!(q.entity_id, Some(3));
    assert!(q.force);
    assert_eq!(q.strategy, DecayStrategy::Hybrid);
    assert_eq!(q.tenant_id, "default");
    assert!(matches!(
        decay_request(&json(r#"{"strategy": "sideways"}"#), DecayStrategy::Hybrid),
        Err(Error::InvalidInput(_))
    ));
    let def = to_value(&memory_decay_definition().input_schema);
    let names: Vec<String> = def["properties"]["strategy"]["enum"]
        .as_array()
        .expect("names")
        .iter()
        .filter_map(|v| v.as_str().map(|s| s.to_string()))
        .collect();
    let parsed: Vec<DecayStrategy> =
        names.iter().map(|n| DecayStrategy::parse(n).expect("a listed strategy")).collect();
    for i in 0..parsed.len() {
        for j in 0..i {
            assert_ne!(parsed[i], parsed[j]);
        }
    }
}

#[test]
fn decay_statistics_are_reported() {
    let v = to_value(&decay_reply(DecayStats {
        scanned: 3,
        archived: 2,
        kept: 1,
        high_value_protected: 1,
    }));
    assert_eq!(v["scanned"], 3);
    assert_eq!(v["archived"], 2);
    assert_eq!(v["kept"], 1);
    assert_eq!(v["high_value_protected"], 1);
}

// Decisions.

fn decision(subject: i64, verb: &str, object: &str, because: Vec<i64>) -> DecisionRecord {
    DecisionRecord {
        id: None,
        subject,
        verb: verb.to_string(),
        object: object.to_string(),
        made_at: 2026,
        because,
        outcome: None,
        status: "open".to_string(),
    }
}

#[test]
fn decision_trace_resolves_supporting_facts() {
    let support = fact(5, 7, FactType::Preference, 2026, r#"{"content": "用户最近情绪低落"}"#);
    let mut d = decision(7, "decline", "不给建议", vec![5, 404]);
    d.id = Some(1);
    let body = to_value(&decision_json(&d, &vec![Some(support), None]));
    assert_eq!(body["verb"], "decline");
    assert_eq!(body["status"], "open");
    assert!(body["outcome"].is_null(), "open decision has no outcome");
    let because = body["because"].as_array().expect("because array");
    assert_eq!(because.len(), 2, "both supporting ids reported");
    assert_eq!(because[0]["content"], "用户最近情绪低落", "existing fact resolved with content");
    assert_eq!(because[1]["missing"], true, "missing id flagged");
}

#[test]
fn decision_trace_rejects_bad_inputs() {
    assert!(
        matches!(trace_request(&json("{}")), Err(Error::InvalidInput(_))),
        "missing decision_id is InvalidInput"
    );
    assert!(
        matches!(trace_request(&json(r#"{"decision_id": 0}"#)), Err(Error::InvalidInput(_))),
        "non-positive decision_id is InvalidInput"
    );
    let id = trace_request(&json(r#"{"decision_id": 9999}"#)).expect("an id");
    assert!(matches!(unknown_decision(id), Error::NotFound(_)), "unknown decision is NotFound");
}

#[test]
fn decision_search_filters_by_keyword_and_limit() {
    let mut old = decision(7, "promise", "陪用户明天去医院", vec![]);
    old.made_at = 2024;
    let newest_first =
        [decision(7, "decide", "这周末学习 Rust", vec![]), old, decision(8, "promise", "陪用户去医院", vec![])];
    let search = |args: &str| -> serde_json::Value {
        let q = search_request(&json(args)).expect("search succeeds");
        let hits: Vec<&DecisionRecord> = newest_first
            .iter()
            .filter(|d| d.subject == q.subject && d.object.contains(&q.keyword))
            .collect();
        let shown = shown_hits(hits.len(), q.limit);
        to_value(&search_reply(
            hits[..shown].iter().map(|d| decision_json(d, &vec![])).collect(),
        ))
    };
    let body = search(r#"{"subject": 7, "keyword": "医院", "limit": 10}"#);
    let hits = body["decisions"].as_array().expect("decisions array");
    assert_eq!(hits.len(), 1, "one match in subject 7");
    assert_eq!(hits[0]["object"], "陪用户明天去医院");

    let body = search(r#"{"subject": 7, "keyword": "", "limit": 1}"#);
    let hits = body["decisions"].as_array().expect("decisions array");
    assert_eq!(hits.len(), 1, "limit caps the result count");
    assert_eq!(hits[0]["object"], "这周末学习 Rust", "newest first");
}

// External knowledge.

#[test]
fn search_json_db_matches_substring_and_sorts() {
    let row = |id: &str, text: &str, s: f64| JsonDbRow {
        id: id.into(),
        text: text.into(),
        score: score(s),
    };
    let rows =
        vec![row("low", "alpha beta", 0.3), row("high", "alpha gamma", 0.9), row("miss", "delta", 1.0)];
    let hits = search_json_db(&rows, "alpha", 10);
    assert_eq!(hits.len(), 2, "two rows match 'alpha'");
    assert_eq!(hits[0].id, "high", "higher score ranks first");
    assert_eq!(hits[1].id, "low");

    let top1 = search_json_db(&rows, "alpha", 1);
    assert_eq!(top1.len(), 1);
    assert_eq!(top1[0].id, "high");

    let all = search_json_db(&rows, "", 10);
    assert_eq!(all.len(), 3, "empty query returns every row");
    assert!(search_json_db(&rows, "alpha", 0).is_empty());
}

#[test]
fn load_json_db_accepts_array_and_wrapper() {
    let bare = json(r#"[{"id":"1","text":"one","score":0.4},{"id":"2","text":"two"}]"#);
    let rows: Vec<JsonDbRow> = parse_json_db("bare.json", &bare)
        .expect("bare loads")
        .into_iter()
        .map(|raw| {
            let s = match &raw.score {
                Some(Number::Other(d)) => d.parse().ok().map(score),
                Some(Number::PosInt(n)) => Some(score(*n as f64)),
                Some(Number::NegInt(n)) => Some(score(*n as f64)),
                None => None,
            };
            scored_row(raw, s)
        })
        .collect();
    assert_eq!(rows.len(), 2, "bare array yields 2 rows");
    assert_eq!(rows[0].score.rank, score(0.4).rank);
    assert_eq!(rows[1].score.rank, score(0.5).rank, "missing score defaults to 0.5");
    assert_eq!(RANK_HALF, 0.5_f64.to_bits() as i64);

    let wrapped = json(r#"{"documents":[{"id":"x","text":"hello"}]}"#);
    assert_eq!(parse_json_db("w.json", &wrapped).expect("wrapped loads").len(), 1, "one row");

    let bad = json(r#"[{"text":"no id"}]"#);
    assert!(
        matches!(parse_json_db("bad.json", &bad), Err(Error::InvalidInput(_))),
        "missing id must error"
    );
    assert!(parse_json_db("s.json", &json(r#""text""#)).is_err());
}

#[test]
fn knowledge_attach_document_registers_and_rebuilds_linker() {
    let q = attach_request(&json(
        r#"{
            "source_type": "document",
            "path": "/tmp/story.txt",
            "source_name": "story",
            "entity_links": [
                {"external_name": "Alicia", "canonical_name": "Alice", "source": "story"}
            ]
        }"#,
    ))
    .expect("attach succeeds");
    assert!(matches!(q.kind, SourceKind::Document));
    assert_eq!(q.source_name, "story", "source name recorded");
    assert_eq!(q.links.len(), 1);
    assert_eq!(q.links[0].external_name, "Alicia");
    assert_eq!(q.links[0].canonical_name, "Alice");
    let payload = to_value(&document_attached_reply(&q, FormatKind::Text, 1, 1));
    assert_eq!(payload["documents_loaded"].as_u64(), Some(1));
    assert_eq!(payload["format"].as_str(), Some("text"));
    assert_eq!(format_kind_str(FormatKind::Markdown), "markdown");
}

#[test]
fn knowledge_attach_db_registers_signal_provider() {
    let q = attach_request(&json(
        r#"{"source_type": "db", "connection": "/tmp/db.json", "source_name": "tech-db"}"#,
    ))
    .expect("attach succeeds");
    assert!(matches!(q.kind, SourceKind::Db), "kind is Db");
    assert_eq!(q.path, "/tmp/db.json");
    let file =
        json(r#"[{"id":"r1","text":"rust async","score":0.8},{"id":"r2","text":"python sync"}]"#);
    let rows: Vec<JsonDbRow> = parse_json_db(&q.path, &file)
        .expect("rows")
        .into_iter()
        .map(|raw| scored_row(raw, None))
        .collect();
    let hits = search_json_db(&rows, "rust", 5);
    assert_eq!(hits.len(), 1, "one row matches 'rust'");
    assert_eq!(hits[0].id, "r1");
    let v = to_value(&db_attached_reply(&q, 2, 0));
    assert_eq!(v["source_name"], "tech-db");
}

#[test]
fn knowledge_attach_rejects_unknown_source_type() {
    let refusal = attach_request(&json(r#"{"source_type": "quantum"}"#)).expect_err("refused");
    assert!(says(refusal).contains("quantum"), "error names the bad source_type");
}

/// A knowledge graph in memory: documents, chapters and passages.
struct MemoryGraph {
    documents: Vec<(i64, String, String)>,
    chapters: Vec<(i64, i64, i64)>,
    passages: Vec<(i64, String)>,
}

impl MemoryGraph {
    fn new() -> Self {
        MemoryGraph { documents: vec![], chapters: vec![], passages: vec![] }
    }

    fn ingest(&mut self, docs: Vec<ExternalDoc>) -> Ingest {
        let mut run = Ingest::start(docs);
        loop {
            let event = match run.action() {
                Action::FindDocument { title, source } => Event::DocumentFound(
                    self.documents
                        .iter()
                        .find(|(_, t, s)| t == title && s == source)
                        .map(|(id, _, _)| *id),
                ),
                Action::CreateDocument { doc } => {
                    let id = self.documents.len() as i64 + 1;
                    self.documents.push((id, doc.title.clone(), doc.source.clone()));
                    Event::DocumentCreated(id)
                }
                Action::FindChapter { doc_id, chapter_no } => Event::ChapterFound(
                    self.chapters
                        .iter()
                        .find(|(_, d, n)| *d == doc_id && *n == chapter_no)
                        .map(|(id, _, _)| *id),
                ),
                Action::CreateChapter { doc_id, chapter_no, .. } => {
                    let id = self.chapters.len() as i64 + 1;
                    self.chapters.push((id, doc_id, chapter_no));
                    Event::ChapterCreated(id)
                }
                Action::ListPassages { doc_id } => Event::PassagesListed(
                    self.passages
                        .iter()
                        .filter(|(d, _)| *d == doc_id)
                        .map(|(_, c)| c.clone())
                        .collect(),
                ),
                Action::CreatePassage { doc_id, doc, .. } => {
                    self.passages.push((doc_id, doc.text.clone()));
                    Event::PassageCreated
                }
                Action::Finished => return run,
            };
            assert!(run.expects(&event));
            run.step(event);
        }
    }
}

fn external_doc(title: &str, text: &str) -> ExternalDoc {
    ExternalDoc {
        title: title.to_string(),
        author: None,
        doc_type: "text".to_string(),
        source: "src".to_string(),
        chapter: None,
        text: text.to_string(),
    }
}

#[test]
fn knowledge_ingest_materializes_into_graph() {
    let q = ingest_request(&json(r#"{"source_name": "ingest-src", "mode": "materialize"}"#))
        .expect("ingest");
    assert!(matches!(q.mode, IngestMode::Materialize));
    let mut graph = MemoryGraph::new();
    let run = graph.ingest(vec![external_doc("t", "Zhaoyun charged through the enemy lines.")]);
    let payload = to_value(&materialized_reply(&q.source_name, &run));
    assert_eq!(payload["documents_created"].as_u64(), Some(1));
    assert_eq!(payload["evidence_created"].as_u64(), Some(1));
    assert!(graph.passages.iter().any(|(_, c)| c.contains("Zhaoyun")));
}

#[test]
fn knowledge_ingest_reingest_is_fully_idempotent() {
    let mut graph = MemoryGraph::new();
    let docs = || vec![external_doc("t", "Liu Bei met Guan Yu in the peach garden.")];
    let first = to_value(&materialized_reply("reingest-src", &graph.ingest(docs())));
    assert_eq!(first["documents_created"].as_u64(), Some(1));
    assert_eq!(first["chapters_created"].as_u64(), Some(1));
    assert_eq!(first["evidence_created"].as_u64(), Some(1));
    let second = to_value(&materialized_reply("reingest-src", &graph.ingest(docs())));
    assert_eq!(second["documents_created"].as_u64(), Some(0), "no duplicate document");
    assert_eq!(second["chapters_created"].as_u64(), Some(0), "no duplicate chapter");
    assert_eq!(second["evidence_created"].as_u64(), Some(0), "no duplicate evidence row");
    assert_eq!(graph.documents.len(), 1, "exactly one document after two ingests");
    assert_eq!(graph.chapters.len(), 1, "exactly one chapter for the document");
    assert_eq!(graph.passages.len(), 1, "exactly one evidence row");
}

#[test]
fn ingest_requests_are_checked() {
    assert!(matches!(ingest_request(&json("{}")), Err(Refusal::Error(Error::InvalidInput(_)))));
    let r = ingest_request(&json(r#"{"source_name": "s", "mode": "x"}"#)).expect_err("refused");
    assert!(says(r).contains("`x`"));
    let index = ingest_request(&json(r#"{"source_name": "s", "mode": "index"}"#)).expect("index");
    assert!(matches!(index.mode, IngestMode::Index));
    assert!(says(no_documents("s")).contains("s"));
    assert!(is_every_source("all"));
    assert!(!is_every_source("*"));
    assert!(!is_every_source("s"));
    assert_eq!(to_value(&index_reply("s", 2))["source_name"], "s");
}

#[test]
fn agent_fact_compile_persists_user_facts_and_opt_in_agent() {
    let messages = r#"[
        {"role": "user", "content": "I love Rust and plan to rewrite the service."},
        {"role": "assistant", "content": "You like Rust and want to rewrite the service."}
    ]"#;
    let stored = |q: &mnemosyne::mcp::external_knowledge_tools::FactCompileRequest| {
        let plan = storage_plan(q.include_agent_facts, 1, 1, 1);
        let stored = StoredFacts {
            user_entity_id: 1,
            agent_entity_id: 2,
            user: u64::from(plan.user),
            agent: u64::from(plan.agent),
            derived: u64::from(plan.derived),
            extracted: 3,
        };
        to_value(&facts_compiled_reply(q, &stored))
    };
    let q = fact_compile_request(&json(&format!(
        r#"{{"messages": {messages}, "tenant_id": "test-tenant", "user_id": "u1"}}"#
    )))
    .expect("compile");
    let payload = stored(&q);
    assert!(payload["user_facts_persisted"].as_u64().unwrap_or(0) >= 1, "always persisted");
    assert_eq!(payload["agent_facts_persisted"].as_u64(), Some(0), "disabled by default");
    assert_eq!(payload["derived_facts_persisted"].as_u64(), Some(0), "disabled by default");

    let q = fact_compile_request(&json(&format!(
        r#"{{
            "messages": {messages},
            "tenant_id": "test-tenant",
            "user_id": "u1",
            "agent_id": "a1",
            "include_agent_facts": true
        }}"#
    )))
    .expect("compile opt-in");
    let payload = stored(&q);
    assert_eq!(payload["include_agent_facts"].as_bool(), Some(true), "agent channel opted in");
    assert!(payload["user_facts_persisted"].as_u64().unwrap_or(0) >= 1);
    assert_eq!(payload["agent_facts_persisted"].as_u64(), Some(1));
    assert_eq!(payload["derived_facts_persisted"].as_u64(), Some(1));
    assert_ne!(payload["user_entity_id"], payload["agent_entity_id"]);
}

// Knowledge paths.

#[test]
fn a_knowledge_path_stays_inside_its_root() {
    let ok = resolve_knowledge_path("notes/a.txt", "/data", "/tmp").expect("inside");
    assert_eq!(ok, "/data/notes/a.txt");
    assert_eq!(resolve_knowledge_path("/tmp/x.txt", "/data", "/tmp").expect("temp"), "/tmp/x.txt");
    assert!(matches!(
        resolve_knowledge_path("../etc/passwd", "/data", "/tmp"),
        Err(Error::InvalidInput(_))
    ));
    assert!(resolve_knowledge_path("/etc/passwd", "/data", "/tmp").is_err());
    assert!(resolve_knowledge_path("a/../../b", "/data", "/tmp").is_err());
    let parts = path_components("/a/./b/../c");
    assert_eq!(normalize(&parts).expect("plain"), vec!["/", "a", "c"]);
    assert_eq!(file_stem("/a/b.tar.gz").as_deref(), Some("b.tar"));
    assert_eq!(file_stem("/a/.hidden").as_deref(), Some(".hidden"));
}

// Generalising.

fn input_of(args: &str) -> Result<GeneralizeInput, Refusal> {
    let a = json(args);
    let q = generalize_request(&a, "title".to_string());
    generalize_input(&a, &q.doc_type)
}

#[test]
fn raw_text_compiles_with_default_doc_type() {
    let args = json(r#"{"text": "我偏好简洁的架构，反对过度抽象。"}"#);
    let q = generalize_request(&args, default_title(5));
    assert!(matches!(generalize_input(&args, &q.doc_type), Ok(GeneralizeInput::Prose(_))));
    let stats = GraphStats { documents: 1, objects: 0, edges: 0, evidence: 1 };
    let v = to_value(&compiled_reply(&q, "conversation_cognition", stats));
    assert_eq!(v["doc_type"], "text", "default doc_type is text");
    assert_eq!(v["compiled"], true);
}

#[test]
fn explicit_profile_is_honored() {
    let args = json(
        r#"{
            "doc_type": "dialog",
            "profile": "conversation_cognition",
            "messages": [{"role": "user", "content": "我计划下周二上线。"}]
        }"#,
    );
    let q = generalize_request(&args, default_title(5));
    assert_eq!(q.profile.as_deref(), Some("conversation_cognition"));
    let stats = GraphStats { documents: 1, objects: 0, edges: 0, evidence: 1 };
    let v = to_value(&compiled_reply(&q, "conversation_cognition", stats));
    assert!(v.to_string().contains("conversation_cognition"), "profile echoed in result, got: {v}");
}

#[test]
fn unknown_profile_errors_gracefully() {
    let text = says(profile_failure("does_not_exist_pack", "no such profile"));
    assert!(text.contains("does_not_exist_pack"));
    assert!(says(compile_failure("broken")).contains("broken"));
}

#[test]
fn unsupported_doc_type_errors() {
    let text = says(input_of(r#"{"doc_type": "video", "text": "x"}"#).expect_err("refused"));
    assert!(text.contains("unsupported doc_type"), "clear message, got: {text}");
}

#[test]
fn dialog_requires_messages() {
    let text = says(input_of(r#"{"doc_type": "dialog"}"#).expect_err("refused"));
    assert!(text.contains("messages"), "error mentions messages, got: {text}");
}

#[test]
fn empty_dialog_is_graceful() {
    let input = input_of(r#"{"doc_type": "dialog", "messages": []}"#).expect("graceful");
    assert!(matches!(input, GeneralizeInput::Nothing), "empty dialog is graceful, not an error");
    let v = to_value(&nothing_compiled_reply("t"));
    assert!(v.to_string().contains("\"objects\":0"), "zero objects for empty dialog, got: {v}");
}

#[test]
fn text_requires_text_string() {
    let text = says(input_of(r#"{"doc_type": "text"}"#).expect_err("refused"));
    assert!(text.contains("text"), "error mentions text, got: {text}");
}

#[test]
fn a_default_title_carries_the_time() {
    assert_eq!(default_title(1700000000), "generalize-1700000000");
    assert_eq!(default_title(0), "generalize-0");
}

// Searching the graph.

#[test]
fn a_search_is_scoped_to_the_document_that_is_named() {
    assert_eq!(search_scope(None, None), Scope::Everywhere);
    assert_eq!(search_scope(Some("人物志"), Some(3)), Scope::Document(3));
    assert_eq!(search_scope(Some("no such title"), None), Scope::Nothing);
}

struct Node {
    name: &'static str,
    object_type: &'static str,
    properties: Vec<(&'static str, &'static str)>,
    confidence: f64,
}

fn search_graph(args: &str) -> serde_json::Value {
    let documents = vec![(1, "人物志".to_string())];
    let nodes = vec![
        Node {
            name: "张三",
            object_type: "person",
            properties: vec![("偏好", "围棋"), ("职业", "棋手")],
            confidence: 0.9,
        },
        Node {
            name: "李四",
            object_type: "person",
            properties: vec![("偏好", "象棋")],
            confidence: 0.8,
        },
        Node { name: "江南", object_type: "place", properties: vec![], confidence: 0.7 },
    ];
    let q = graph_search_request(&json(args));
    let mut hits = Vec::new();
    for n in &nodes {
        let properties: Vec<Property> = n
            .properties
            .iter()
            .map(|(k, v)| Property { key: k.to_string(), value: v.to_string() })
            .collect();
        let matched = matched_attributes(&properties, q.attribute.as_deref());
        let named = q.name_contains.as_deref().map_or(true, |s| n.name.contains(s));
        let typed = q.object_type.as_deref().map_or(true, |t| n.object_type == t);
        let answered = q.attribute.is_none() || !matched.is_empty();
        let titled = q.doc_title.as_deref().map_or(true, |t| t == doc_title(&documents, 1));
        if named && typed && answered && titled && (hits.len() as u64) < q.limit {
            hits.push(GraphHit {
                name: n.name.to_string(),
                object_type: n.object_type.to_string(),
                doc_title: doc_title(&documents, 1),
                confidence: score(n.confidence),
                edge_count: 0,
                matched_attributes: matched,
            });
        }
    }
    to_value(&graph_reply(&hits))
}

#[test]
fn search_by_type() {
    let v = search_graph(r#"{"object_type": "person"}"#);
    assert_eq!(v["total"], 2, "two persons, got: {v}");
    let names: Vec<&str> =
        v["results"].as_array().expect("results").iter().filter_map(|r| r["name"].as_str()).collect();
    assert!(names.contains(&"张三") && names.contains(&"李四"));
}

#[test]
fn search_by_name_substring() {
    let v = search_graph(r#"{"query": "张"}"#);
    assert_eq!(v["total"], 1, "one match, got: {v}");
    assert_eq!(v["results"][0]["name"], "张三");
}

#[test]
fn search_by_attribute() {
    let v = search_graph(r#"{"attribute": "棋"}"#);
    assert_eq!(v["total"], 2, "two chess-lovers, got: {v}");
    for r in v["results"].as_array().expect("results") {
        assert!(!r["matched_attributes"].as_array().expect("attrs").is_empty());
    }
}

#[test]
fn search_combined_filters() {
    let v = search_graph(r#"{"query": "李", "object_type": "person", "doc_title": "人物志"}"#);
    assert_eq!(v["total"], 1, "one match, got: {v}");
    assert_eq!(v["results"][0]["name"], "李四");
    assert_eq!(v["results"][0]["doc_title"], "人物志");
}

#[test]
fn search_respects_limit() {
    let v = search_graph(r#"{"object_type": "person", "limit": 1}"#);
    assert_eq!(v["total"], 1, "limit honored, got: {v}");
}

#[test]
fn attributes_match_in_any_case() {
    let properties = vec![
        Property { key: "Hobby".to_string(), value: "CHESS".to_string() },
        Property { key: "ÄMTER".to_string(), value: "none".to_string() },
    ];
    assert_eq!(matched_attributes(&properties, Some("chess")).len(), 1);
    assert_eq!(matched_attributes(&properties, Some("HOBBY")).len(), 1);
    assert_eq!(matched_attributes(&properties, Some("ämt")).len(), 1);
    assert!(matched_attributes(&properties, Some("golf")).is_empty());
    assert!(matched_attributes(&properties, None).is_empty());
}

// Inspecting and correcting the graph.

fn link(external_name: &str, source: &str) -> EntityLink {
    EntityLink {
        external_name: external_name.to_string(),
        canonical_name: "Mr. Smith".to_string(),
        source: source.to_string(),
    }
}

fn linker_hit(surface: &str, source: Option<&str>) -> Option<LinkerHit> {
    let links = || vec![link("John Smith", "crm"), link("J. Smith", "novel")];
    let known = links()
        .iter()
        .any(|l| l.external_name == surface && source.map_or(true, |s| l.source == s));
    if known {
        Some(LinkerHit { canonical: "Mr. Smith".to_string(), links: links() })
    } else {
        None
    }
}

#[test]
fn resolve_with_linker_maps_surface_to_canonical_and_collects_aliases() {
    let (canonical, aliases) = resolve_with_linker("John Smith", linker_hit("John Smith", None));
    assert_eq!(canonical, "Mr. Smith", "external surface resolves to canonical");
    assert_eq!(aliases.len(), 2, "both CRM and novel surfaces are listed as aliases");
    let mut pairs: Vec<(String, String)> =
        aliases.iter().map(|a| (a.source.clone(), a.external_name.clone())).collect();
    pairs.sort_unstable();
    assert_eq!(
        pairs,
        vec![
            ("crm".to_string(), "John Smith".to_string()),
            ("novel".to_string(), "J. Smith".to_string()),
        ]
    );
}

#[test]
fn source_hint_scopes_resolution_and_no_linker_falls_back() {
    let (canonical, _) = resolve_with_linker("John Smith", linker_hit("John Smith", Some("crm")));
    assert_eq!(canonical, "Mr. Smith", "source-scoped lookup resolves correctly");
    let (canonical, aliases) = resolve_with_linker("John Smith", None);
    assert_eq!(canonical, "John Smith", "without a linker the requested name is returned unchanged");
    assert!(aliases.is_empty(), "no aliases without a linker");
}

/// Inspects an entity in a graph that holds only "Mr. Smith".
fn inspect(args: &str) -> Result<serde_json::Value, String> {
    let q = inspect_request(&json(args)).expect("a request");
    let (canonical, aliases) =
        resolve_with_linker(&q.name, linker_hit(&q.name, q.source.as_deref()));
    let mut name = canonical.clone();
    let mut retried = false;
    loop {
        match after_lookup(&q.name, &canonical, name == "Mr. Smith", retried) {
            Lookup::Answer => {
                let picture = json(r#"{"object": {"name": "Mr. Smith"}}"#);
                return Ok(to_value(&inspect_reply(picture, &aliases)));
            }
            Lookup::Retry => {
                name = q.name.clone();
                retried = true;
            }
            Lookup::Fail(why) => return Err(why),
        }
    }
}

#[test]
fn inspect_entity_resolves_external_surface_to_graph_node() {
    let payload = inspect(r#"{"name": "John Smith"}"#).expect("handler succeeds");
    assert_eq!(payload["object"]["name"].as_str(), Some("Mr. Smith"));
    let aliases = payload["external_aliases"].as_array().expect("aliases array");
    assert_eq!(aliases.len(), 2, "both cross-source surfaces appear in the response");
}

#[test]
fn inspect_entity_unknown_surface_returns_error_not_panic() {
    let why = inspect(r#"{"name": "totally-unknown-person"}"#).expect_err("an error result");
    assert!(why.contains("totally-unknown-person"), "error message names the missing entity");
}

/// Runs a correction on a graph of one document and one `serves` edge.
fn correct(args: &str, edges: &mut Vec<KnowledgeEdge>) -> Result<serde_json::Value, String> {
    let q = correction_request(&json(args)).expect("a request");
    let again = correction_request(&json(args)).expect("a request");
    let mut c = Correction::start(q);
    loop {
        let event = match c.action() {
            CorrectionAction::FindDocument { title } => {
                CorrectionEvent::Found(if title == "三国演义" { Some(1) } else { None })
            }
            CorrectionAction::FindObject { name, .. } => CorrectionEvent::Found(match name {
                "赵云" => Some(10),
                "刘备" => Some(20),
                "关羽" => Some(30),
                _ => None,
            }),
            CorrectionAction::ListEdges { object } => CorrectionEvent::Edges(
                edges
                    .iter()
                    .filter(|e| e.source_id == object || e.target_id == object)
                    .map(|e| KnowledgeEdge {
                        id: e.id,
                        source_id: e.source_id,
                        target_id: e.target_id,
                        predicate: e.predicate.clone(),
                    })
                    .collect(),
            ),
            CorrectionAction::Retarget { edge, target } => {
                let mut n = 0;
                for e in edges.iter_mut().filter(|e| e.id == edge) {
                    e.target_id = target;
                    n += 1;
                }
                CorrectionEvent::Retargeted(n)
            }
            CorrectionAction::Finished => {
                let (old, new) = match c.stage {
                    CorrectionStage::Retarget { old, new } => (old, new),
                    other => panic!("unfinished: {other:?}"),
                };
                return Ok(to_value(&corrected_reply(&again, c.changed, old, new)));
            }
        };
        assert!(c.is_expected(&event));
        c.step(event)?;
    }
}

fn serves() -> Vec<KnowledgeEdge> {
    vec![
        KnowledgeEdge { id: 1, source_id: 10, target_id: 20, predicate: "serves".to_string() },
        KnowledgeEdge { id: 2, source_id: 10, target_id: 20, predicate: "admires".to_string() },
    ]
}

#[test]
fn correct_relation_unknown_doc_is_rejected_not_global() {
    let mut edges = serves();
    let why = correct(
        r#"{
            "source": "赵云",
            "predicate": "serves",
            "old_target": "刘备",
            "new_target": "关羽",
            "doc": "不存在的书"
        }"#,
        &mut edges,
    )
    .expect_err("unknown doc must be rejected, not applied globally");
    assert!(why.contains("不存在的书"), "error names the missing document, got: {why}");
    assert_eq!(edges.len(), 2, "edge count unchanged");
    assert_eq!(edges[0].target_id, 20, "edge still points at the original target");
}

#[test]
fn only_the_named_relation_is_corrected() {
    let mut edges = serves();
    let v = correct(
        r#"{"source": "赵云", "predicate": "serves", "old_target": "刘备", "new_target": "关羽"}"#,
        &mut edges,
    )
    .expect("corrected");
    assert_eq!(v["changed"], 1);
    assert_eq!(v["to_id"], 30);
    assert!(v["doc"].is_null());
    assert_eq!(edges[0].target_id, 30);
    assert_eq!(edges[1].target_id, 20, "another predicate stays");
    assert_eq!(match_edges(&serves(), "admires", 10, 20), vec![2]);
}

#[test]
fn knowledge_requests_are_checked() {
    assert!(matches!(inspect_request(&json("{}")), Err(Error::InvalidInput(_))));
    assert_eq!(entity_request(&json(r#"{"entity": "甲"}"#)).expect("ok").depth, 2);
    assert_eq!(entity_request(&json(r#"{"entity": "甲", "depth": 99}"#)).expect("ok").depth, 5);
    assert_eq!(evidence_request(&json(r#"{"query": "x"}"#)).expect("ok").limit, 20);
    assert_eq!(evidence_request(&json(r#"{"query": "x", "limit": 999}"#)).expect("ok").limit, 200);
    assert!(correction_request(&json(r#"{"source": "a"}"#)).is_err());
    assert_eq!(cognitive_request(&json(r#"{"name": "n"}"#)).expect("ok").tenant_id, "default");
    assert!(says(entity_not_found("丙")).contains("丙"));
    assert!(matches!(unknown_entity_error("丙"), Error::NotFound(_)));
    assert!(means_user("User"));
    assert!(means_user("user"));
    assert!(!means_user("丙"));
    assert!(!user_name("").is_empty());
    assert!(bridge_request(&json("{}")).is_err());
    assert_eq!(bridge_request(&json(r#"{"name": "n"}"#)).expect("ok").tenant_id, "default");
}

#[test]
fn key_events_ask_above_a_threshold() {
    assert_eq!(RANK_KEY_EVENT, 0.7_f64.to_bits() as i64);
    let q = key_events_request(&json(r#"{"name": "林黛玉"}"#), None).expect("ok");
    assert_eq!(q.threshold.rank, RANK_KEY_EVENT);
    let q = key_events_request(&json(r#"{"name": "林黛玉"}"#), Some(score(0.2))).expect("ok");
    assert_eq!(q.threshold.rank, score(0.2).rank);
    assert!(key_events_request(&json("{}"), None).is_err());
}

// Compiling conversations.

#[test]
fn handler_preserves_legacy_fields_and_persists_cognition() {
    let q = compile_request(&json(
        r#"{
            "tenant_id": "tenant-a",
            "user_id": "alice",
            "messages": [
                {"role": "user", "content": "I want to learn Rust."},
                {"role": "assistant", "content": "Let us start."}
            ]
        }"#,
    ))
    .expect("The unified memory_compile handler should accept valid messages");
    let summary = CompileSummary {
        user_entity_id: 1,
        observations_compiled: 1,
        facts_compiled: 1,
        facts_stored: 1,
        decisions_recorded: 0,
        lexicon_hash: "h".to_string(),
        lexicon_lexemes: 3,
    };
    let payload = to_value(&compile_reply(
        &q,
        &summary,
        vec![],
        json("[]"),
        json("[]"),
        json("{}"),
        "prompt",
        json("[]"),
    ));
    for field in ["knowledge", "decisions", "session", "prompt", "cognition", "distilled_memories"] {
        assert!(payload.get(field).is_some(), "the response must retain the `{field}` field");
    }
    assert_eq!(payload["cognition"]["user_entity_id"].as_i64(), Some(1));
    assert_eq!(payload["cognition"]["facts_stored"].as_u64(), Some(1));
    assert_eq!(payload["cognition"]["tenant_id"], "tenant-a");
}

#[test]
fn parser_preserves_optional_message_identifiers() {
    let messages = parse_messages(&vec![json(
        r#"{
            "role": "tool",
            "content": "completed",
            "turn_id": "turn-7",
            "tool_call_id": "call-9"
        }"#,
    )])
    .expect("A tool result with optional identifiers should parse");
    assert_eq!(messages[0].turn_id.as_deref(), Some("turn-7"));
    assert_eq!(messages[0].tool_call_id.as_deref(), Some("call-9"));
}

#[test]
fn handler_rejects_message_without_content() {
    let error = compile_request(&json(r#"{"messages": [{"role": "user"}]}"#))
        .expect_err("A message without content must fail before identity resolution");
    assert!(
        matches!(error, Error::InvalidInput(ref message) if message.contains("content")),
        "The missing content error must remain a typed InvalidInput, got {error:?}"
    );
}

#[test]
fn declared_outcomes_close_a_decision_exactly_once() {
    let open = DecisionState { id: 5, outcome: None, status: "open".to_string() };
    let declared = |outcome: &str| {
        parse_outcomes(&json(&format!(
            r#"{{"decision_outcomes": [{{"decision_id": 5, "outcome": "{outcome}"}}]}}"#
        )))
    };
    let first = declared("fulfilled").expect("a declared outcome must be recorded");
    assert_eq!(first[0].decision_id, 5);
    let closed = open.declare(first[0].outcome);
    assert_eq!(closed.outcome, Some(DecisionOutcome::Fulfilled), "the outcome must be persisted");
    let report = to_value(&outcome_report(
        5,
        Some(DecisionState { id: 5, outcome: closed.outcome, status: closed.status.clone() }),
    ));
    assert_eq!(report["outcome"], "fulfilled", "the report must echo the recorded outcome");
    assert_eq!(report["status"], "closed", "recording an outcome closes the decision");

    let conflicting = declared("violated").expect("a conflicting declaration is not an error");
    let still = closed.declare(conflicting[0].outcome);
    let report = to_value(&outcome_report(5, Some(still)));
    assert_eq!(report["outcome"], "fulfilled", "a recorded outcome must never be overwritten");

    let unknown = to_value(&outcome_report(1004, None));
    assert_eq!(unknown["missing"], true, "an unknown id must be reported as missing");

    assert!(
        matches!(declared("maybe"), Err(Error::InvalidInput(_))),
        "an unknown outcome is InvalidInput"
    );
}

#[test]
fn only_new_contents_are_kept() {
    let contents: Vec<String> = ["a", "b", "", "c", "d"].iter().map(|s| s.to_string()).collect();
    let rejected = vec![false, false, false, true, false];
    let existing = vec!["b".to_string()];
    assert_eq!(choose_kept(&contents, &rejected, &existing), vec![0, 4]);
}

#[test]
fn recent_messages_are_the_last_ones() {
    let messages: Vec<Json> = (0..9)
        .map(|i| json(&format!(r#"{{"role": "user", "content": "m{i}"}}"#)))
        .collect();
    let messages = parse_messages(&messages).expect("messages");
    assert_eq!(recent_start(&messages), 3);
    let speakers = commitment_speakers(1, Some(2));
    assert_eq!(speakers.len(), 2);
    assert_eq!(commitment_speakers(1, None).len(), 1);
}

// Moving memories.

#[test]
fn import_requires_content_or_path() {
    let text = says(import_source(&json("{}")).expect_err("missing content/path → error result"));
    assert!(text.contains("content") || text.contains("path"), "got: {text}");
}

#[test]
fn invalid_bundle_rejected() {
    assert!(matches!(
        import_source(&json(r#"{"content": "not a bundle"}"#)),
        Ok(ImportSource::Inline(s)) if s == "not a bundle"
    ));
    let text = says(invalid_bundle("expected ident at line 1 column 2"));
    assert!(text.contains("invalid memory bundle"), "clear error, got: {text}");
}

#[test]
fn snapshots_are_counted() {
    assert_eq!(export_path(&json(r#"{"path": "/tmp/m.json"}"#)).as_deref(), Some("/tmp/m.json"));
    assert_eq!(export_path(&json("{}")), None);
    let size = || SnapshotSize { documents: 1, objects: 2, edges: 3, evidence: 4 };
    assert_eq!(to_value(&inline_reply(size(), json("{}")))["objects"], 2);
    assert!(to_value(&written_reply("/tmp/m.json", size())).to_string().contains("/tmp/m.json"));
    let stats = ImportStats {
        documents_created: 1,
        objects_created: 1,
        objects_merged: 0,
        evidence_created: 0,
        edges_created: 0,
        links_created: 0,
    };
    assert_eq!(to_value(&imported_reply(stats))["objects_created"], 1);
    assert!(says(unreadable_file("/x", "gone")).contains("/x"));
    assert!(says(import_failure("full")).contains("full"));
}

// Personas.

fn keyword_check(args: &str, stored: &Vec<Fact>) -> serde_json::Value {
    let q = check_request(&json(args)).expect("call succeeds");
    let engine = PersonaCheckEngine::new(false, PersonaThresholds::default());
    let result: PersonaCheckResult = engine.check_draft(&q.draft, stored);
    to_value(&check_reply(&result))
}

fn draft(text: &str) -> String {
    format!(r#"{{"tenant_id": "tenant-a", "agent_id": "agent-bailiusu", "draft": "{text}"}}"#)
}

#[test]
fn contradictory_draft_reports_conflict() {
    let stored = vec![persona_fact(1, FactType::Preference, false, "我喜欢应酬")];
    let payload = keyword_check(&draft("我讨厌应酬，太累了。"), &stored);
    assert_eq!(payload["clean"], false, "must not be clean");
    let conflicts = payload["conflicts"].as_array().expect("conflicts array");
    assert_eq!(conflicts.len(), 1, "one conflict reported");
    assert_eq!(conflicts[0]["fact_type"], "Preference");
    assert!(conflicts[0]["draft_signal"]["negated"].as_bool().unwrap_or(false));
    assert_eq!(payload["drift"].as_array().expect("drift array").len(), 0);
}

#[test]
fn consistent_draft_is_clean() {
    let stored = vec![persona_fact(1, FactType::Preference, false, "我喜欢安稳")];
    let payload = keyword_check(&draft("我喜欢安稳踏实。"), &stored);
    assert_eq!(payload["clean"], true, "repeat must be clean");
    assert_eq!(payload["conflicts"].as_array().expect("conflicts").len(), 0);
    assert_eq!(payload["drift"].as_array().expect("drift").len(), 0);
}

#[test]
fn persona_check_tool_unanchored_statement_is_drift() {
    let stored = vec![persona_fact(1, FactType::Preference, false, "我喜欢安稳")];
    let payload = keyword_check(&draft("我是白流苏，离过婚。"), &stored);
    assert_eq!(payload["clean"], false, "unanchored must not be clean");
    let drift = payload["drift"].as_array().expect("drift array");
    assert_eq!(drift.len(), 1, "one drift reported");
    assert_eq!(drift[0]["fact_type"], "Identity");
}

#[test]
fn persona_check_tool_no_signal_is_clean() {
    let stored = vec![persona_fact(1, FactType::Preference, false, "我喜欢安稳")];
    let payload = keyword_check(&draft("今天天气不错。"), &stored);
    assert_eq!(payload["clean"], true, "no signal → clean");
    assert_eq!(payload["stats"]["total_signals"], 0);
}

#[test]
fn missing_draft_is_invalid_input() {
    let err = check_request(&json(r#"{"agent_id": "agent-bailiusu"}"#))
        .expect_err("missing draft must error");
    assert!(matches!(err, Error::InvalidInput(_)), "expected InvalidInput, got {err:?}");
    assert!(err.message().contains("draft"));
}

#[test]
fn the_semantic_path_needs_everything() {
    assert_eq!(check_path(true, true, true), CheckPath::Semantic);
    assert_eq!(check_path(false, true, true), CheckPath::Keyword);
    assert_eq!(check_path(true, false, true), CheckPath::Keyword);
    assert_eq!(check_path(true, true, false), CheckPath::Keyword);
}

#[test]
fn json_output_aggregates_fact_card() {
    let q = inject_request(&json(r#"{"tenant_id": "tenant-a", "agent_id": "agent-bailiusu"}"#))
        .expect("call succeeds");
    assert!(!q.as_text);
    let facts = vec![
        persona_fact(1, FactType::Identity, false, "我是白流苏"),
        persona_fact(2, FactType::Preference, false, "我喜欢安稳"),
    ];
    let card = build_persona_card_from_facts(&q.tenant_id, &q.agent_id, &facts);
    let payload = to_value(&render_json(&q.tenant_id, &q.agent_id, &card));
    assert_eq!(payload["tenant_id"], "tenant-a");
    assert_eq!(payload["agent_id"], "agent-bailiusu");
    assert_eq!(payload["persona_card"]["identity"], "我是白流苏");
    let persona = payload["persona_card"]["persona"].as_array().expect("persona");
    assert!(persona.iter().any(|v| v == "我喜欢安稳"));
}

#[test]
fn persona_inject_tool_text_output_contains_identity() {
    let q = inject_request(&json(
        r#"{"tenant_id": "tenant-a", "agent_id": "agent-bailiusu", "format": "text"}"#,
    ))
    .expect("call succeeds");
    assert!(q.as_text);
    let facts = vec![persona_fact(1, FactType::Identity, false, "我是白流苏，离过婚，爱过，也输过")];
    let card = build_persona_card_from_facts(&q.tenant_id, &q.agent_id, &facts);
    let text = render_text(&card, "[]");
    assert!(
        text.contains("我是白流苏，离过婚，爱过，也输过"),
        "text output includes identity, got: {text}"
    );
}

#[test]
fn json_card_merges_with_fact_fallback() {
    let facts = vec![
        persona_fact(1, FactType::Identity, false, "我是白流苏"),
        persona_fact(2, FactType::Preference, false, "我喜欢安稳"),
    ];
    let base = build_persona_card_from_facts("tenant-a", "agent-bailiusu", &facts);
    let cards = load_persona_cards(Ok(Some(json(
        r#"{
            "tenant-a": {
                "agent-bailiusu": {
                    "identity": "白流苏，离过婚，爱过，也输过",
                    "style": ["话少，克制，偶尔揶揄"],
                    "taboos": ["绝不说自己已经放下"]
                }
            }
        }"#,
    ))))
    .expect("card file");
    let file = lookup_persona_card(&cards, "tenant-a", "agent-bailiusu").expect("an entry");
    let merged = merge_persona_card_file(base, &file);
    let payload = to_value(&render_json("tenant-a", "agent-bailiusu", &merged));
    let card = &payload["persona_card"];
    assert_eq!(card["identity"], "白流苏，离过婚，爱过，也输过", "file identity wins");
    assert_eq!(card["style"], to_value(&json(r#"["话少，克制，偶尔揶揄"]"#)), "file style fills in");
    assert_eq!(card["taboos"], to_value(&json(r#"["绝不说自己已经放下"]"#)));
    let persona = card["persona"].as_array().expect("persona");
    assert!(persona.iter().any(|v| v == "我喜欢安稳"), "falls back to aggregated facts");
}

#[test]
fn missing_agent_id_is_invalid_input() {
    let err = inject_request(&json("{}")).expect_err("missing agent_id must error");
    assert!(matches!(err, Error::InvalidInput(_)), "expected InvalidInput, got {err:?}");
    assert!(err.message().contains("agent_id"));
}

// Provenance.

/// Audits a fact in a small store, in the scope of a tenant when one is asked for.
fn audit(
    args: &str,
    facts: &Vec<Fact>,
    owner: &str,
    anchor: Option<EvidenceAnchor>,
) -> Result<serde_json::Value, Error> {
    let args = json(args);
    let id = provenance_request(&args)?;
    let tenant = tenant_argument(&args)?;
    let stored = |id: i64| facts.iter().find(|f| f.id == Some(id)).map(|f| f.copy());
    let f = stored(id).ok_or_else(|| unknown_fact(id))?;
    ensure_entity_tenant(Some(owner), f.entity_id, tenant.as_deref())?;
    let mut walk = DerivationWalk::start(&f);
    while let Some(id) = walk.next() {
        walk.absorb(id, &stored(id));
    }
    Ok(to_value(&provenance_reply(&f, anchor, walk)))
}

#[test]
fn provenance_is_tenant_scoped_when_asked() {
    let facts = vec![fact(3, 7, FactType::Goal, 2026, r#"{"content": "我要学 Rust"}"#)];
    let error = audit(r#"{"fact_id": 3, "tenant_id": "tenant-b"}"#, &facts, "tenant-a", None)
        .expect_err("another tenant's fact must not be served");
    assert!(matches!(error, Error::NotFound(_)), "a cross-tenant fact is NotFound, got {error:?}");
    let payload = audit(r#"{"fact_id": 3, "tenant_id": "tenant-a"}"#, &facts, "tenant-a", None)
        .expect("the owning tenant is served");
    assert_eq!(payload["fact_id"], 3);
}

#[test]
fn a_long_chain_is_followed_for_eight_hops() {
    let facts: Vec<Fact> = (1..=13)
        .map(|i| {
            let mut f = fact(i, 7, FactType::Goal, i, r#"{"content": "x"}"#);
            if i < 13 {
                f.derived_from = vec![i + 1];
            }
            f
        })
        .collect();
    let payload = audit(r#"{"fact_id": 1}"#, &facts, "t", None).expect("audited");
    let ids: Vec<i64> = payload["derived_from"]
        .as_array()
        .expect("sources")
        .iter()
        .filter_map(|s| s["fact_id"].as_i64())
        .collect();
    assert_eq!(ids, vec![2, 3, 4, 5, 6, 7, 8, 9]);
}

#[test]
fn provenance_reports_evidence_and_derivation_chain() {
    let mut derived = fact(3, 7, FactType::Preference, 2026, r#"{"content": "prefers Rust"}"#);
    derived.confidence = score(0.85);
    derived.derived_from = vec![1, 2];
    let facts = vec![
        fact(1, 7, FactType::Preference, 2024, r#"{"content": "likes Python"}"#),
        fact(2, 7, FactType::Preference, 2025, r#"{"content": "started Rust"}"#),
        derived,
    ];
    let anchor = EvidenceAnchor {
        content: Some("2026-08-15: “我从去年开始喜欢 Rust”".to_string()),
        start_offset: None,
        end_offset: None,
    };
    let body = audit(r#"{"fact_id": 3}"#, &facts, "t", Some(anchor)).expect("lookup succeeds");
    assert_eq!(body["fact_id"], 3, "fact id echoed");
    assert_eq!(body["status"], "active", "status echoed");
    assert_eq!(body["confidence"], 0.85, "confidence echoed");
    let evidence = body["evidence"].as_str().expect("evidence content present");
    assert!(evidence.contains("喜欢 Rust"), "evidence carries original text, got {evidence}");
    assert!(body.get("evidence_start").is_some() && body.get("evidence_end").is_some());
    let chain = body["derived_from"].as_array().expect("chain is an array");
    assert_eq!(chain.len(), 2, "chain expands both source facts");
    let ids: Vec<i64> = chain.iter().filter_map(|v| v["fact_id"].as_i64()).collect();
    assert!(ids.contains(&1) && ids.contains(&2), "chain contains both source ids");
}

#[test]
fn provenance_handles_fact_without_evidence_or_chain() {
    let facts = vec![fact(4, 7, FactType::Event, 2026, r#"{"content": "went for a walk"}"#)];
    let body = audit(r#"{"fact_id": 4}"#, &facts, "t", None).expect("bare fact audits");
    assert!(body["evidence"].is_null(), "no evidence anchor → null");
    assert_eq!(body["derived_from"].as_array().map(Vec::len), Some(0), "empty array");
    assert_eq!(body["status"], "active", "bare fact is active");
}

#[test]
fn provenance_rejects_bad_inputs_and_missing_facts() {
    let none = vec![];
    assert!(matches!(audit("{}", &none, "t", None), Err(Error::InvalidInput(_))));
    assert!(matches!(audit(r#"{"fact_id": 0}"#, &none, "t", None), Err(Error::InvalidInput(_))));
    assert!(matches!(audit(r#"{"fact_id": 404}"#, &none, "t", None), Err(Error::NotFound(_))));
}

#[test]
fn a_circle_of_derivations_is_walked_once() {
    let mut a = fact(1, 7, FactType::Event, 1, "{}");
    a.derived_from = vec![2, 9];
    let mut b = fact(2, 7, FactType::Event, 2, "{}");
    b.derived_from = vec![1, 2];
    let body = audit(r#"{"fact_id": 1}"#, &vec![a, b], "t", None).expect("ends");
    let chain = body["derived_from"].as_array().expect("chain");
    assert!(chain.len() <= 3);
    assert!(chain.iter().any(|v| v["missing"] == true), "a dangling source is flagged");
}

// Relationships.

#[test]
fn relationship_update_applies_and_persists() {
    let q = update_request(&json(
        r#"{
            "tenant_id": "tenant-a",
            "agent_id": "agent-bailiusu",
            "user_id": "alice",
            "messages": [
                {"role": "user", "content": "谢谢你，今天很开心！"},
                {"role": "assistant", "content": "不客气。"},
                {"role": "user", "content": "谢谢你的温暖陪伴。"}
            ]
        }"#,
    ))
    .expect("call succeeds");
    let mut store = RelationshipStore::new();
    let state = store.apply_messages(&q.pair.tenant_id, 1, 2, &q.messages, &vec![]);
    let payload = to_value(&serialize_state(&state, &q.pair.agent_id, &q.pair.user_id));
    assert_eq!(payload["intimacy"], 0.04);
    assert_eq!(payload["stage"], "stranger");
    assert_eq!(payload["emotion_trend"], "rising");
    assert_eq!(payload["exists"], true);
    assert!(store.get_relationship("tenant-a", 1, 2).is_some());
}

#[test]
fn relationship_query_returns_default_when_absent() {
    let q = pair_request(&json(
        r#"{"tenant_id": "tenant-a", "agent_id": "agent-bailiusu", "user_id": "alice"}"#,
    ))
    .expect("call succeeds");
    assert!(RelationshipStore::new().get_relationship(&q.tenant_id, 1, 2).is_none());
    let payload = to_value(&no_relationship_reply(&q));
    assert_eq!(payload["exists"], false);
    assert_eq!(payload["intimacy"], 0.0);
}

#[test]
fn a_timeline_is_rendered() {
    assert!(timeline_request(&json("{}")).is_err());
    let id = timeline_request(&json(r#"{"entity_id": 7}"#)).expect("an id");
    let facts = vec![
        persona_fact(1, FactType::Preference, false, "我喜欢应酬"),
        persona_fact(2, FactType::Preference, true, "我不喜欢应酬"),
    ];
    let v = to_value(&timeline_reply(id, &build_evolution_timeline(&facts)));
    assert_eq!(v["entity_id"], 7);
    assert!(v.to_string().contains("stance_flip"));
}

// States.

#[test]
fn state_timeline_validates_inputs() {
    assert!(
        matches!(state_request(&json("{}")), Err(Error::InvalidInput(_))),
        "missing entity_id is InvalidInput"
    );
    assert!(
        matches!(
            state_request(&json(r#"{"entity_id": 7, "dimension": "nonsense"}"#)),
            Err(Error::InvalidInput(_))
        ),
        "unknown dimension is InvalidInput"
    );
    let q = state_request(&json(r#"{"entity_id": 7}"#)).expect("empty entity is not an error");
    let payload = to_value(&state_reply(&q, &vec![]));
    assert_eq!(payload["dimensions"].as_array().map(|d| d.len()), Some(0), "no facts");
}

#[test]
fn states_are_scoped_to_the_tenant_that_is_named() {
    assert!(matches!(
        state_request(&json(r#"{"entity_id": 7, "tenant_id": " "}"#)),
        Err(Error::InvalidInput(_))
    ));
    let q = state_request(&json(r#"{"entity_id": 7, "tenant_id": "t"}"#)).expect("ok");
    assert!(check_scope(&q, Some("t")).is_ok());
    let foreign = check_scope(&q, Some("other")).expect_err("foreign");
    let unknown = check_scope(&q, None).expect_err("unknown");
    assert!(matches!(foreign, Error::NotFound(_)));
    assert_eq!(foreign.message(), "no entity 7 in tenant `t`");
    assert_eq!(foreign.message(), unknown.message());
    let open = state_request(&json(r#"{"entity_id": 7}"#)).expect("ok");
    assert!(check_scope(&open, Some("other")).is_ok());
}

#[test]
fn states_are_shown_for_the_dimension_asked() {
    let interval = |from: i64, to: Option<i64>| StateInterval {
        from,
        to,
        value: json(r#""v""#),
        fact_ids: vec![1],
        evidence_ids: vec![],
    };
    let evolutions = vec![
        StateEvolution {
            key: "preference".to_string(),
            intervals: vec![interval(2024, Some(2025)), interval(2025, None)],
            transitions: vec![StateTransition {
                from_index: 0,
                to_index: 1,
                at: 2025,
                transition_type: "stance_flip".to_string(),
                evidence_ids: vec![],
            }],
        },
        StateEvolution { key: "goal".to_string(), intervals: vec![], transitions: vec![] },
    ];
    let q = state_request(&json(r#"{"entity_id": 7, "dimension": "preference"}"#)).expect("ok");
    let v = to_value(&state_reply(&q, &evolutions));
    let dimensions = v["dimensions"].as_array().expect("dimensions array");
    assert_eq!(dimensions.len(), 1, "filtered to the preference dimension");
    assert_eq!(dimensions[0]["dimension"], "preference");
    assert_eq!(dimensions[0]["intervals"][0]["to"], 2025);
    assert!(dimensions[0]["intervals"][1]["to"].is_null(), "the latest interval stays open");
    assert_eq!(dimensions[0]["transitions"][0]["transition_type"], "stance_flip");
    let all = state_request(&json(r#"{"entity_id": 7}"#)).expect("ok");
    assert_eq!(to_value(&state_reply(&all, &evolutions))["dimensions"].as_array().map(Vec::len), Some(2));
}

// Portraits.

#[test]
fn a_portrait_needs_a_text() {
    assert!(matches!(portrait_request(&json("{}")), Err(Error::InvalidInput(_))));
    let q = portrait_request(&json(r#"{"text": "我做过三个项目"}"#)).expect("ok");
    let v = to_value(&portrait_reply(&q, json(r#"{"projects": []}"#)));
    assert!(v.to_string().contains("projects"));
    assert_ne!(
        portrait_failure(PortraitError::EmptyInput),
        portrait_failure(PortraitError::MissingProjects)
    );
}
