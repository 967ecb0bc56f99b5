//! Checking an agent's draft against what is known of its persona.
use vstd::prelude::*;

use crate::error::Error;
use crate::json::{array, count, integer, member, object, text, Json, JsonView, Number};
use crate::mcp::args::{given_text, opt_str, str_or, text_or};
use crate::persona::check::{
    ConflictView, DriftView, PersonaCheckResult, PersonaConflict, PersonaDrift, ResultView,
    Similarity, SimilarityView,
};
use crate::persona::{PersonaSignal, SignalView};
use crate::text::{cat, decimal, decimal_text};

verus! {

/// The tool, over a handle to the fact store and a check engine.
pub struct PersonaCheckTool<S, E> {
    pub fact_store: S,
    pub engine: E,
}

/// A request to check a draft.
#[derive(Debug)]
pub struct CheckRequest {
    pub agent_id: String,
    pub draft: String,
    pub tenant_id: String,
}

/// What is wrong with a request, if anything.
pub open spec fn check_fault(args: JsonView) -> Option<Seq<char>> {
    if given_text(args, "agent_id"@) is None {
        Some("missing `agent_id`"@)
    } else if given_text(args, "draft"@) is None {
        Some("missing `draft`"@)
    } else {
        None
    }
}

/// Read a request to check a draft.
pub fn check_request(args: &Json) -> (r: Result<CheckRequest, Error>)
    ensures
        match r {
            Ok(q) => {
                &&& given_text(args@, "agent_id"@) == Some(q.agent_id@)
                &&& given_text(args@, "draft"@) == Some(q.draft@)
                &&& q.tenant_id@ == text_or(args@, "tenant_id"@, "default"@)
            },
            Err(e) => e is InvalidInput && check_fault(args@) == Some(e.text()),
        },
{
    let agent_id: String = match opt_str(args, "agent_id") {
        Some(s) => s,
        None => {
            return Err(Error::InvalidInput("missing `agent_id`".to_owned()));
        },
    };
    match opt_str(args, "draft") {
        Some(draft) => Ok(
            CheckRequest { agent_id, draft, tenant_id: str_or(args, "tenant_id", "default") },
        ),
        None => Err(Error::InvalidInput("missing `draft`".to_owned())),
    }
}

/// Which way a draft is checked.
#[derive(Debug, Clone, Copy, PartialEq, Eq, Structural)]
pub enum CheckPath {
    /// By meaning, with embeddings.
    Semantic,
    /// By key words, without any.
    Keyword,
}

/// Choose the way to check: by meaning only when the prototypes could be
/// read, embeddings are to be had, and the prototypes could be embedded.
pub fn check_path(config_loaded: bool, embedder_enabled: bool, cache_built: bool) -> (p: CheckPath)
    ensures
        p == (if config_loaded && embedder_enabled && cache_built {
            CheckPath::Semantic
        } else {
            CheckPath::Keyword
        }),
{
    if config_loaded && embedder_enabled && cache_built {
        CheckPath::Semantic
    } else {
        CheckPath::Keyword
    }
}

/// A signal on the wire.
pub open spec fn signal_wire(s: SignalView) -> JsonView {
    JsonView::Object(
        seq![
            ("text"@, JsonView::Text(s.text)),
            ("fact_type"@, JsonView::Text(s.fact_type.name())),
            ("negated"@, JsonView::Bool(s.negated)),
            ("confidence"@, s.confidence.number()),
        ],
    )
}

/// A signal on the wire.
pub fn serialize_signal(s: &PersonaSignal) -> (j: Json)
    ensures
        j@ == signal_wire(s@),
{
    let j: Json = object(
        vec![
            member("text", text(s.text.as_str())),
            member("fact_type", text(s.fact_type.label())),
            member("negated", Json::Bool(s.negated)),
            member("confidence", s.confidence.number()),
        ],
    );
    assert(j@->Object_0 =~= signal_wire(s@)->Object_0);
    j
}

/// A similarity as a JSON number.
pub open spec fn similarity_wire(s: SimilarityView) -> JsonView {
    match s {
        SimilarityView::Score(x) => x.number(),
        SimilarityView::SharedPairs(n) => JsonView::Other(decimal(n as nat) + ".0"@),
    }
}

/// A similarity as a JSON number.
pub fn serialize_similarity(s: &Similarity) -> (j: Json)
    ensures
        j@ == similarity_wire(s@),
{
    match s {
        Similarity::Score(x) => x.number(),
        Similarity::SharedPairs(n) => {
            let whole: String = decimal_text(*n as u64);
            Json::Number(Number::Other(cat(whole.as_str(), ".0")))
        },
    }
}

/// A contradiction on the wire.
pub open spec fn conflict_wire(c: ConflictView) -> JsonView {
    JsonView::Object(
        seq![
            ("fact_type"@, JsonView::Text(c.fact_type.name())),
            ("draft_signal"@, signal_wire(c.signal)),
            ("stored_fact_id"@, JsonView::Int(c.stored_fact_id as int)),
            ("stored_content"@, JsonView::Text(c.stored_content)),
            ("stored_negated"@, JsonView::Bool(c.stored_negated)),
            ("similarity"@, similarity_wire(c.similarity)),
        ],
    )
}

/// A contradiction on the wire.
pub fn serialize_conflict(c: &PersonaConflict) -> (j: Json)
    ensures
        j@ == conflict_wire(c@),
{
    let j: Json = object(
        vec![
            member("fact_type", text(c.fact_type.label())),
            member("draft_signal", serialize_signal(&c.draft_signal)),
            member("stored_fact_id", integer(c.stored_fact_id)),
            member("stored_content", text(c.stored_content.as_str())),
            member("stored_negated", Json::Bool(c.stored_negated)),
            member("similarity", serialize_similarity(&c.similarity)),
        ],
    );
    assert(j@->Object_0 =~= conflict_wire(c@)->Object_0);
    j
}

/// A statement without support on the wire.
pub open spec fn drift_wire(d: DriftView) -> JsonView {
    JsonView::Object(
        seq![
            ("fact_type"@, JsonView::Text(d.fact_type.name())),
            ("draft_signal"@, signal_wire(d.signal)),
            ("reason"@, JsonView::Text(d.reason)),
        ],
    )
}

/// A statement without support on the wire.
pub fn serialize_drift_item(d: &PersonaDrift) -> (j: Json)
    ensures
        j@ == drift_wire(d@),
{
    let j: Json = object(
        vec![
            member("fact_type", text(d.fact_type.label())),
            member("draft_signal", serialize_signal(&d.draft_signal)),
            member("reason", text(d.reason.as_str())),
        ],
    );
    assert(j@->Object_0 =~= drift_wire(d@)->Object_0);
    j
}

/// The list on the wire.
pub fn serialize_conflicts(v: &Vec<PersonaConflict>) -> (out: Vec<Json>)
    ensures
        out@.len() == v@.len(),
        forall|i: int| 0 <= i < v@.len() ==> (#[trigger] out@[i])@ == conflict_wire(v@[i]@),
{
    let mut out: Vec<Json> = Vec::new();
    let mut i: usize = 0;
    while i < v.len()
        invariant
            i <= v@.len(),
            out@.len() == i,
            forall|k: int| 0 <= k < i ==> (#[trigger] out@[k])@ == conflict_wire(v@[k]@),
        decreases v.len() - i,
    {
        out.push(serialize_conflict(&v[i]));
        i = i + 1;
    }
    out
}

/// The list on the wire.
pub fn serialize_drift(v: &Vec<PersonaDrift>) -> (out: Vec<Json>)
    ensures
        out@.len() == v@.len(),
        forall|i: int| 0 <= i < v@.len() ==> (#[trigger] out@[i])@ == drift_wire(v@[i]@),
{
    let mut out: Vec<Json> = Vec::new();
    let mut i: usize = 0;
    while i < v.len()
        invariant
            i <= v@.len(),
            out@.len() == i,
            forall|k: int| 0 <= k < i ==> (#[trigger] out@[k])@ == drift_wire(v@[k]@),
        decreases v.len() - i,
    {
        out.push(serialize_drift_item(&v[i]));
        i = i + 1;
    }
    out
}

/// The report on a check.
pub open spec fn check_report(r: ResultView) -> JsonView {
    JsonView::Object(
        seq![
            ("clean"@, JsonView::Bool(r.conflicts.len() == 0 && r.drift.len() == 0)),
            (
                "conflicts"@,
                JsonView::Array(Seq::new(r.conflicts.len(), |i: int| conflict_wire(r.conflicts[i]))),
            ),
            ("drift"@, JsonView::Array(Seq::new(r.drift.len(), |i: int| drift_wire(r.drift[i])))),
            (
                "stats"@,
                JsonView::Object(
                    seq![
                        ("consistent_count"@, JsonView::Int(r.consistent_count)),
                        ("total_signals"@, JsonView::Int(r.total_signals)),
                    ],
                ),
            ),
        ],
    )
}

/// Report on a check.
pub fn check_reply(r: &PersonaCheckResult) -> (j: Json)
    ensures
        j@ == check_report(r@),
{
    let ghost want = check_report(r@);
    let conflicts: Json = array(serialize_conflicts(&r.conflicts));
    assert(conflicts@->Array_0 =~= want->Object_0[1].1->Array_0);
    let drift: Json = array(serialize_drift(&r.drift));
    assert(drift@->Array_0 =~= want->Object_0[2].1->Array_0);
    let stats: Json = object(
        vec![
            member("consistent_count", count(r.consistent_count as u64)),
            member("total_signals", count(r.total_signals as u64)),
        ],
    );
    assert(stats@->Object_0 =~= want->Object_0[3].1->Object_0);
    let j: Json = object(
        vec![
            member("clean", Json::Bool(r.is_clean())),
            member("conflicts", conflicts),
            member("drift", drift),
            member("stats", stats),
        ],
    );
    assert(j@->Object_0 =~= want->Object_0);
    j
}

/// The report on a draft says what was found: it is clean exactly when there is
/// neither a contradiction nor a drift, it lists all of both, and it counts.
pub proof fn law_report_tells_the_verdict(r: ResultView)
    ensures
        ({
            let j = check_report(r);
            &&& j.get("clean"@) == Some(JsonView::Bool(r.conflicts.len() + r.drift.len() == 0))
            &&& j.get("conflicts"@) == Some(JsonView::Array(
                Seq::new(r.conflicts.len(), |i: int| conflict_wire(r.conflicts[i])),
            ))
            &&& j.get("drift"@) == Some(JsonView::Array(
                Seq::new(r.drift.len(), |i: int| drift_wire(r.drift[i])),
            ))
            &&& j.get("stats"@) is Some
            &&& j.get("stats"@)->0.get("consistent_count"@) == Some(JsonView::Int(r.consistent_count))
            &&& j.get("stats"@)->0.get("total_signals"@) == Some(JsonView::Int(r.total_signals))
        }),
{
    reveal_strlit("clean");
    reveal_strlit("conflicts");
    reveal_strlit("drift");
    reveal_strlit("stats");
    reveal_strlit("consistent_count");
    reveal_strlit("total_signals");
    assert("clean"@[0] == 'c');
    assert("drift"@[0] == 'd');
    assert("stats"@[0] == 's');
    let m = check_report(r)->Object_0;
    assert(m[0].0 == "clean"@);
    assert(m[1].0 == "conflicts"@);
    assert(m[2].0 == "drift"@);
    assert(m[3].0 == "stats"@);
    crate::json::law_first_member_counts(m, "clean"@, 0);
    crate::json::law_first_member_counts(m, "conflicts"@, 1);
    crate::json::law_first_member_counts(m, "drift"@, 2);
    crate::json::law_first_member_counts(m, "stats"@, 3);
    let stats = m[3].1->Object_0;
    assert(stats[0].0 == "consistent_count"@);
    assert(stats[1].0 == "total_signals"@);
    crate::json::law_first_member_counts(stats, "consistent_count"@, 0);
    crate::json::law_first_member_counts(stats, "total_signals"@, 1);
}

/// A contradiction is told with both sides: what the draft says, and what is
/// stored, with its stance.
pub proof fn law_contradiction_is_told(c: ConflictView)
    ensures
        ({
            let j = conflict_wire(c);
            &&& j.get("fact_type"@) == Some(JsonView::Text(c.fact_type.name()))
            &&& j.get("draft_signal"@) == Some(signal_wire(c.signal))
            &&& j.get("stored_fact_id"@) == Some(JsonView::Int(c.stored_fact_id as int))
            &&& j.get("stored_content"@) == Some(JsonView::Text(c.stored_content))
            &&& j.get("stored_negated"@) == Some(JsonView::Bool(c.stored_negated))
            &&& j.get("similarity"@) == Some(similarity_wire(c.similarity))
        }),
{
    reveal_strlit("fact_type");
    reveal_strlit("draft_signal");
    reveal_strlit("stored_fact_id");
    reveal_strlit("stored_content");
    reveal_strlit("stored_negated");
    reveal_strlit("similarity");
    assert("stored_content"@[7] == 'c');
    assert("stored_fact_id"@[7] == 'f');
    assert("stored_negated"@[7] == 'n');
    let m = conflict_wire(c)->Object_0;
    assert(m[0].0 == "fact_type"@);
    assert(m[1].0 == "draft_signal"@);
    assert(m[2].0 == "stored_fact_id"@);
    assert(m[3].0 == "stored_content"@);
    assert(m[4].0 == "stored_negated"@);
    assert(m[5].0 == "similarity"@);
    crate::json::law_first_member_counts(m, "fact_type"@, 0);
    crate::json::law_first_member_counts(m, "draft_signal"@, 1);
    crate::json::law_first_member_counts(m, "stored_fact_id"@, 2);
    crate::json::law_first_member_counts(m, "stored_content"@, 3);
    crate::json::law_first_member_counts(m, "stored_negated"@, 4);
    crate::json::law_first_member_counts(m, "similarity"@, 5);
}

/// A check needs an agent and a draft; the agent is asked for first.
pub proof fn law_checks_need_agent_and_draft(args: JsonView)
    ensures
        check_fault(args) is None <==> given_text(args, "agent_id"@) is Some && given_text(
            args,
            "draft"@,
        ) is Some,
        given_text(args, "agent_id"@) is None ==> check_fault(args) == Some("missing `agent_id`"@),
        given_text(args, "agent_id"@) is Some && given_text(args, "draft"@) is None ==> check_fault(
            args,
        ) == Some("missing `draft`"@),
{
}

} // verus!
