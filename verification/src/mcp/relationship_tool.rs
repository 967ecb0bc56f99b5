//! The relationship between an agent and a user, and the evolution of a
//! person.
use vstd::prelude::*;

use crate::cognition::{fact_views, Fact, FactView};
use crate::error::Error;
use crate::json::{array, elements, integer, member, object, strings, text, text_array, Json, JsonView, Number};
use crate::mcp::args::{given_int, given_text, opt_int, opt_str, str_or, text_or};
use crate::mcp::context_aware::{lemma_loose_fault_stays, loose_faults, read_message};
use crate::mcp::generalize_tool::are_bare_messages_of;
use crate::persona::timeline::{milestone_views, EvolutionTimeline, Milestone, MilestoneView};
use crate::relationship::RelationshipState;
use crate::text::{cat, decimal, decimal_text, texts};
use crate::types::Message;

verus! {

/// The tool that updates a relationship, over a handle to the fact store.
pub struct RelationshipUpdateTool<S> {
    pub store: S,
}

impl<S> RelationshipUpdateTool<S> {
    /// A tool over this store.
    pub fn new(store: S) -> (t: RelationshipUpdateTool<S>)
        ensures
            t.store == store,
    {
        RelationshipUpdateTool { store }
    }
}

/// The tool that reads a relationship, over a handle to the fact store.
pub struct RelationshipQueryTool<S> {
    pub store: S,
}

impl<S> RelationshipQueryTool<S> {
    /// A tool over this store.
    pub fn new(store: S) -> (t: RelationshipQueryTool<S>)
        ensures
            t.store == store,
    {
        RelationshipQueryTool { store }
    }
}

/// The tool that rebuilds an evolution, over a handle to the fact store.
pub struct PersonaTimelineTool<S> {
    pub store: S,
}

impl<S> PersonaTimelineTool<S> {
    /// A tool over this store.
    pub fn new(store: S) -> (t: PersonaTimelineTool<S>)
        ensures
            t.store == store,
    {
        PersonaTimelineTool { store }
    }
}

/// Whose relationship is meant.
#[derive(Debug)]
pub struct PairRequest {
    pub tenant_id: String,
    pub agent_id: String,
    pub user_id: String,
}

/// What is wrong with the names of a pair, if anything.
pub open spec fn pair_fault(args: JsonView) -> Option<Seq<char>> {
    if given_text(args, "agent_id"@) is None {
        Some("missing `agent_id`"@)
    } else if given_text(args, "user_id"@) is None {
        Some("missing `user_id`"@)
    } else {
        None
    }
}

/// The request is what the arguments say.
pub open spec fn is_pair_of(q: PairRequest, args: JsonView) -> bool {
    &&& given_text(args, "agent_id"@) == Some(q.agent_id@)
    &&& given_text(args, "user_id"@) == Some(q.user_id@)
    &&& q.tenant_id@ == text_or(args, "tenant_id"@, "default"@)
}

/// Read whose relationship is meant.
pub fn pair_request(args: &Json) -> (r: Result<PairRequest, Error>)
    ensures
        match r {
            Ok(q) => is_pair_of(q, args@),
            Err(e) => e is InvalidInput && pair_fault(args@) == Some(e.text()),
        },
{
    let tenant_id: String = str_or(args, "tenant_id", "default");
    let agent_id: String = match opt_str(args, "agent_id") {
        Some(s) => s,
        None => {
            return Err(Error::InvalidInput("missing `agent_id`".to_owned()));
        },
    };
    match opt_str(args, "user_id") {
        Some(user_id) => Ok(PairRequest { tenant_id, agent_id, user_id }),
        None => Err(Error::InvalidInput("missing `user_id`".to_owned())),
    }
}

/// The raw messages of an update; none when the argument is absent.
pub open spec fn raw_messages(args: JsonView) -> Option<Seq<JsonView>> {
    match args.get("messages"@) {
        None => Some(Seq::empty()),
        Some(JsonView::Array(v)) => Some(v),
        Some(_) => None,
    }
}

/// What is wrong with an update, if anything.
pub open spec fn update_fault(args: JsonView) -> Option<Seq<char>> {
    match pair_fault(args) {
        Some(f) => Some(f),
        None => match raw_messages(args) {
            Some(v) => loose_faults(v),
            None => Some("`messages` must be an array"@),
        },
    }
}

/// Read the messages of an update, without their ids.
pub fn parse_messages(args: &Json) -> (r: Result<Vec<Message>, Error>)
    ensures
        match r {
            Ok(v) => raw_messages(args@) matches Some(raw) && loose_faults(raw) is None
                && are_bare_messages_of(v@, raw),
            Err(e) => e is InvalidInput && (match raw_messages(args@) {
                Some(raw) => loose_faults(raw) == Some(e.text()),
                None => e.text() == "`messages` must be an array"@,
            }),
        },
{
    let mut v: Vec<Message> = Vec::new();
    let list: &Vec<Json> = match args.get("messages") {
        Some(m) => match m.as_array() {
            Some(l) => l,
            None => {
                return Err(Error::InvalidInput("`messages` must be an array".to_owned()));
            },
        },
        None => {
            return Ok(v);
        },
    };
    let ghost all = elements(list@);
    let mut i: usize = 0;
    while i < list.len()
        invariant
            i <= list@.len(),
            all == elements(list@),
            raw_messages(args@) == Some(all),
            v@.len() == i,
            loose_faults(all.subrange(0, i as int)) is None,
            forall|k: int|
                0 <= k < i ==> given_text(all[k], "role"@) == Some((#[trigger] v@[k]).role@)
                    && given_text(all[k], "content"@) == Some(v@[k].content@) && v@[k].turn_id is None
                    && v@[k].tool_call_id is None,
        decreases list.len() - i,
    {
        let ghost now = all.subrange(0, i + 1);
        assert(now.drop_last() == all.subrange(0, i as int));
        assert(now.last() == list@[i as int]@);
        match read_message(&list[i]) {
            Ok(m) => {
                v.push(Message::new(m.role.as_str(), m.content.as_str()));
            },
            Err(e) => {
                proof {
                    lemma_loose_fault_stays(all, i + 1);
                }
                return Err(e);
            },
        }
        i = i + 1;
    }
    assert(all.subrange(0, all.len() as int) == all);
    Ok(v)
}

/// A request to update a relationship.
#[derive(Debug)]
pub struct UpdateRequest {
    pub pair: PairRequest,
    pub messages: Vec<Message>,
}

/// Read a request to update a relationship.
pub fn update_request(args: &Json) -> (r: Result<UpdateRequest, Error>)
    ensures
        match r {
            Ok(q) => {
                &&& update_fault(args@) is None
                &&& is_pair_of(q.pair, args@)
                &&& raw_messages(args@) matches Some(raw) && are_bare_messages_of(
                    q.messages@,
                    raw,
                )
            },
            Err(e) => e is InvalidInput && update_fault(args@) == Some(e.text()),
        },
{
    match pair_request(args) {
        Ok(pair) => match parse_messages(args) {
            Ok(messages) => Ok(UpdateRequest { pair, messages }),
            Err(e) => Err(e),
        },
        Err(e) => Err(e),
    }
}

/// A number of hundredths from 0 to 100, as a decimal fraction in its shortest
/// form.
pub open spec fn fraction(n: int) -> Seq<char> {
    if n == 100 {
        "1.0"@
    } else if n % 10 == 0 {
        "0."@ + decimal((n / 10) as nat)
    } else if n < 10 {
        "0.0"@ + decimal(n as nat)
    } else {
        "0."@ + decimal(n as nat)
    }
}

/// A number of hundredths from 0 to 100, as a JSON number.
pub fn fraction_number(n: i64) -> (j: Json)
    requires
        0 <= n <= 100,
    ensures
        j@ == JsonView::Other(fraction(n as int)),
{
    let digits: String = if n == 100 {
        "1.0".to_owned()
    } else if n % 10 == 0 {
        let d: String = decimal_text((n / 10) as u64);
        cat("0.", d.as_str())
    } else if n < 10 {
        let d: String = decimal_text(n as u64);
        cat("0.0", d.as_str())
    } else {
        let d: String = decimal_text(n as u64);
        cat("0.", d.as_str())
    };
    Json::Number(Number::Other(digits))
}

/// A relationship on the wire.
pub open spec fn state_wire(s: RelationshipState, agent_id: Seq<char>, user_id: Seq<char>) -> JsonView {
    JsonView::Object(
        seq![
            ("tenant_id"@, JsonView::Text(s.tenant_id@)),
            ("agent_id"@, JsonView::Text(agent_id)),
            ("user_id"@, JsonView::Text(user_id)),
            ("exists"@, JsonView::Bool(true)),
            ("intimacy"@, JsonView::Other(fraction(s.intimacy as int))),
            ("stage"@, JsonView::Text(s.stage.name())),
            ("emotion_trend"@, JsonView::Text(s.emotion_trend.name())),
            ("recent_topics"@, text_array(texts(s.recent_topics@))),
            ("updated_at"@, JsonView::Int(s.updated_at as int)),
        ],
    )
}

/// A relationship on the wire.
pub fn serialize_state(s: &RelationshipState, agent_id: &str, user_id: &str) -> (j: Json)
    requires
        s.wf(),
    ensures
        j@ == state_wire(*s, agent_id@, user_id@),
{
    let j: Json = object(
        vec![
            member("tenant_id", text(s.tenant_id.as_str())),
            member("agent_id", text(agent_id)),
            member("user_id", text(user_id)),
            member("exists", Json::Bool(true)),
            member("intimacy", fraction_number(s.intimacy)),
            member("stage", text(s.stage.as_str())),
            member("emotion_trend", text(s.emotion_trend.as_str())),
            member("recent_topics", strings(&s.recent_topics)),
            member("updated_at", integer(s.updated_at)),
        ],
    );
    assert(j@->Object_0 =~= state_wire(*s, agent_id@, user_id@)->Object_0);
    j
}

/// The answer for a pair that has no relationship yet.
pub open spec fn no_relationship(tenant_id: Seq<char>, agent_id: Seq<char>, user_id: Seq<char>) -> JsonView {
    JsonView::Object(
        seq![
            ("tenant_id"@, JsonView::Text(tenant_id)),
            ("agent_id"@, JsonView::Text(agent_id)),
            ("user_id"@, JsonView::Text(user_id)),
            ("exists"@, JsonView::Bool(false)),
            ("intimacy"@, JsonView::Other(fraction(0))),
            ("stage"@, JsonView::Text("stranger"@)),
            ("emotion_trend"@, JsonView::Text("stable"@)),
            ("recent_topics"@, text_array(Seq::empty())),
            ("updated_at"@, JsonView::Int(0)),
        ],
    )
}

/// Answer for a pair that has no relationship yet.
pub fn no_relationship_reply(q: &PairRequest) -> (j: Json)
    ensures
        j@ == no_relationship(q.tenant_id@, q.agent_id@, q.user_id@),
{
    let none: Vec<String> = Vec::new();
    assert(texts(none@) =~= Seq::empty());
    let j: Json = object(
        vec![
            member("tenant_id", text(q.tenant_id.as_str())),
            member("agent_id", text(q.agent_id.as_str())),
            member("user_id", text(q.user_id.as_str())),
            member("exists", Json::Bool(false)),
            member("intimacy", fraction_number(0)),
            member("stage", text("stranger")),
            member("emotion_trend", text("stable")),
            member("recent_topics", strings(&none)),
            member("updated_at", integer(0)),
        ],
    );
    assert(j@->Object_0 =~= no_relationship(q.tenant_id@, q.agent_id@, q.user_id@)->Object_0);
    j
}

/// The entity whose evolution is asked for.
pub fn timeline_request(args: &Json) -> (r: Result<i64, Error>)
    ensures
        match r {
            Ok(id) => given_int(args@, "entity_id"@) == Some(id as int),
            Err(e) => given_int(args@, "entity_id"@) is None && e is InvalidInput && e.text()
                == "missing `entity_id`"@,
        },
{
    match opt_int(args, "entity_id") {
        Some(id) => Ok(id),
        None => Err(Error::InvalidInput("missing `entity_id`".to_owned())),
    }
}

/// The id as a JSON value, `null` when there is none.
pub open spec fn id_or_null(id: Option<i64>) -> JsonView {
    match id {
        Some(n) => JsonView::Int(n as int),
        None => JsonView::Null,
    }
}

/// The id as a JSON value, `null` when there is none.
pub fn nullable_id(id: Option<i64>) -> (j: Json)
    ensures
        j@ == id_or_null(id),
{
    match id {
        Some(n) => integer(n),
        None => Json::Null,
    }
}

/// A list of ids on the wire.
pub open spec fn ids_wire(v: Seq<i64>) -> JsonView {
    JsonView::Array(Seq::new(v.len(), |i: int| JsonView::Int(v[i] as int)))
}

/// A list of ids on the wire.
pub fn ids_to_json(v: &Vec<i64>) -> (j: Json)
    ensures
        j@ == ids_wire(v@),
{
    let mut out: Vec<Json> = Vec::new();
    let mut i: usize = 0;
    while i < v.len()
        invariant
            i <= v@.len(),
            out@.len() == i,
            forall|k: int| 0 <= k < i ==> (#[trigger] out@[k])@ == JsonView::Int(v@[k] as int),
        decreases v.len() - i,
    {
        out.push(integer(v[i]));
        i = i + 1;
    }
    let j: Json = array(out);
    assert(j@->Array_0 =~= ids_wire(v@)->Array_0);
    j
}

/// A fact on the wire.
pub open spec fn fact_wire(f: FactView) -> JsonView {
    JsonView::Object(
        seq![
            ("id"@, id_or_null(f.id)),
            ("entity_id"@, JsonView::Int(f.entity_id as int)),
            ("fact_type"@, JsonView::Text(f.fact_type.name())),
            ("time"@, JsonView::Int(f.time as int)),
            ("payload"@, f.payload),
            ("evidence_id"@, id_or_null(f.evidence_id)),
            ("created_at"@, JsonView::Int(f.created_at as int)),
            ("confidence"@, f.confidence.number()),
            ("derived_from"@, ids_wire(f.derived_from)),
            ("status"@, JsonView::Text(f.status)),
        ],
    )
}

/// A fact on the wire.
pub fn fact_to_json(f: &Fact) -> (j: Json)
    ensures
        j@ == fact_wire(f@),
{
    let j: Json = object(
        vec![
            member("id", nullable_id(f.id)),
            member("entity_id", integer(f.entity_id)),
            member("fact_type", text(f.fact_type.label())),
            member("time", integer(f.time)),
            member("payload", f.payload.copy()),
            member("evidence_id", nullable_id(f.evidence_id)),
            member("created_at", integer(f.created_at)),
            member("confidence", f.confidence.number()),
            member("derived_from", ids_to_json(&f.derived_from)),
            member("status", text(f.status.as_str())),
        ],
    );
    assert(j@->Object_0 =~= fact_wire(f@)->Object_0);
    j
}

/// A turning point on the wire.
pub open spec fn milestone_wire(m: MilestoneView) -> JsonView {
    JsonView::Object(
        seq![
            ("type"@, JsonView::Text(m.milestone_type.name())),
            ("note"@, JsonView::Text(m.note)),
            ("fact"@, fact_wire(m.fact)),
        ],
    )
}

/// A turning point on the wire.
pub fn milestone_to_json(m: &Milestone) -> (j: Json)
    ensures
        j@ == milestone_wire(m@),
{
    let j: Json = object(
        vec![
            member("type", text(m.milestone_type.as_str())),
            member("note", text(m.note.as_str())),
            member("fact", fact_to_json(&m.fact)),
        ],
    );
    assert(j@->Object_0 =~= milestone_wire(m@)->Object_0);
    j
}

/// A fact on the wire, `null` when there is none.
pub open spec fn fact_or_null(f: Option<FactView>) -> JsonView {
    match f {
        Some(x) => fact_wire(x),
        None => JsonView::Null,
    }
}

/// The view of an optional fact.
pub open spec fn opt_fact(f: Option<Fact>) -> Option<FactView> {
    match f {
        Some(x) => Some(x@),
        None => None,
    }
}

/// A fact on the wire, `null` when there is none.
pub fn nullable_fact(f: &Option<Fact>) -> (j: Json)
    ensures
        j@ == fact_or_null(opt_fact(*f)),
{
    match f {
        Some(x) => fact_to_json(x),
        None => Json::Null,
    }
}

/// The answer with an evolution.
pub open spec fn timeline_answer(
    entity_id: int,
    start: Option<FactView>,
    milestones: Seq<MilestoneView>,
    current: Option<FactView>,
    trajectory: Seq<FactView>,
) -> JsonView {
    JsonView::Object(
        seq![
            ("entity_id"@, JsonView::Int(entity_id)),
            ("start"@, fact_or_null(start)),
            (
                "milestones"@,
                JsonView::Array(Seq::new(milestones.len(), |i: int| milestone_wire(milestones[i]))),
            ),
            ("current"@, fact_or_null(current)),
            (
                "trajectory"@,
                JsonView::Array(Seq::new(trajectory.len(), |i: int| fact_wire(trajectory[i]))),
            ),
        ],
    )
}

/// Answer with an evolution.
pub fn timeline_reply(entity_id: i64, t: &EvolutionTimeline) -> (j: Json)
    ensures
        j@ == timeline_answer(
            entity_id as int,
            opt_fact(t.start),
            milestone_views(t.milestones@),
            opt_fact(t.current),
            fact_views(t.trajectory@),
        ),
{
    let ghost want = timeline_answer(
        entity_id as int,
        opt_fact(t.start),
        milestone_views(t.milestones@),
        opt_fact(t.current),
        fact_views(t.trajectory@),
    );
    let mut points: Vec<Json> = Vec::new();
    let mut i: usize = 0;
    while i < t.milestones.len()
        invariant
            i <= t.milestones@.len(),
            points@.len() == i,
            forall|k: int|
                0 <= k < i ==> (#[trigger] points@[k])@ == milestone_wire(t.milestones@[k]@),
        decreases t.milestones.len() - i,
    {
        points.push(milestone_to_json(&t.milestones[i]));
        i = i + 1;
    }
    let milestones: Json = array(points);
    assert(milestones@->Array_0 =~= want->Object_0[2].1->Array_0);
    let mut facts: Vec<Json> = Vec::new();
    let mut k: usize = 0;
    while k < t.trajectory.len()
        invariant
            k <= t.trajectory@.len(),
            facts@.len() == k,
            forall|m: int| 0 <= m < k ==> (#[trigger] facts@[m])@ == fact_wire(t.trajectory@[m]@),
        decreases t.trajectory.len() - k,
    {
        facts.push(fact_to_json(&t.trajectory[k]));
        k = k + 1;
    }
    let trajectory: Json = array(facts);
    assert(trajectory@->Array_0 =~= want->Object_0[4].1->Array_0);
    let j: Json = object(
        vec![
            member("entity_id", integer(entity_id)),
            member("start", nullable_fact(&t.start)),
            member("milestones", milestones),
            member("current", nullable_fact(&t.current)),
            member("trajectory", trajectory),
        ],
    );
    assert(j@->Object_0 =~= want->Object_0);
    j
}

/// The hundredths that a fraction stands for which is written with one digit in
/// front of the point and one or two behind it.
pub open spec fn read_hundredths(s: Seq<char>) -> int {
    (s[0] as int - '0' as int) * 100 + (s[2] as int - '0' as int) * 10 + (if s.len() > 3 {
        s[3] as int - '0' as int
    } else {
        0
    })
}

/// Intimacy is written as the fraction that it is: what is written reads back as
/// the same number of hundredths, and no zero is written at its end but the one
/// right behind the point.
pub proof fn law_fraction_reads_back(n: int)
    requires
        0 <= n <= 100,
    ensures
        read_hundredths(fraction(n)) == n,
        3 <= fraction(n).len() <= 4,
        fraction(n)[1] == '.',
        fraction(n).len() == 4 ==> fraction(n).last() != '0',
{
    reveal_strlit("1.0");
    reveal_strlit("0.");
    reveal_strlit("0.0");
    reveal_with_fuel(decimal, 3);
    assert(forall|d: nat| d < 10 ==> (#[trigger] crate::text::digit(d)) as int == '0' as int + d);
    if n < 100 && n % 10 != 0 && n >= 10 {
        assert(decimal(n as nat) =~= seq![
            crate::text::digit((n / 10) as nat),
            crate::text::digit((n % 10) as nat),
        ]);
    }
}

/// An update passes exactly when it names the agent and the user, and its
/// messages, if there are any, each have a role and a content.
pub proof fn law_updates_pass(args: JsonView)
    ensures
        update_fault(args) is None <==> {
            &&& given_text(args, "agent_id"@) is Some
            &&& given_text(args, "user_id"@) is Some
            &&& args.get("messages"@) is None || (args.get("messages"@)->0 matches JsonView::Array(v)
                && forall|i: int|
                0 <= i < v.len() ==> given_text(#[trigger] v[i], "role"@) is Some && given_text(
                    v[i],
                    "content"@,
                ) is Some)
        },
{
    if args.get("messages"@) is Some && args.get("messages"@)->0 is Array {
        crate::mcp::context_aware::law_loose_messages_need_role_and_content(
            args.get("messages"@)->0->Array_0,
        );
    } else {
        crate::mcp::context_aware::law_loose_messages_need_role_and_content(Seq::empty());
    }
}

/// A relationship is told as it is: how close the two are, at which stage, and
/// which way it goes.
pub proof fn law_relationship_is_told(s: RelationshipState, agent_id: Seq<char>, user_id: Seq<char>)
    ensures
        ({
            let j = state_wire(s, agent_id, user_id);
            &&& j.get("tenant_id"@) == Some(JsonView::Text(s.tenant_id@))
            &&& j.get("agent_id"@) == Some(JsonView::Text(agent_id))
            &&& j.get("user_id"@) == Some(JsonView::Text(user_id))
            &&& j.get("exists"@) == Some(JsonView::Bool(true))
            &&& j.get("intimacy"@) == Some(JsonView::Other(fraction(s.intimacy as int)))
            &&& j.get("stage"@) == Some(JsonView::Text(s.stage.name()))
            &&& j.get("emotion_trend"@) == Some(JsonView::Text(s.emotion_trend.name()))
            &&& j.get("recent_topics"@) == Some(text_array(texts(s.recent_topics@)))
            &&& j.get("updated_at"@) == Some(JsonView::Int(s.updated_at as int))
        }),
{
    reveal_strlit("tenant_id");
    reveal_strlit("agent_id");
    reveal_strlit("user_id");
    reveal_strlit("exists");
    reveal_strlit("intimacy");
    reveal_strlit("stage");
    reveal_strlit("emotion_trend");
    reveal_strlit("recent_topics");
    reveal_strlit("updated_at");
    assert("agent_id"@[0] == 'a');
    assert("emotion_trend"@[0] == 'e');
    assert("intimacy"@[0] == 'i');
    assert("recent_topics"@[0] == 'r');
    let m = state_wire(s, agent_id, user_id)->Object_0;
    assert(m[0].0 == "tenant_id"@);
    assert(m[1].0 == "agent_id"@);
    assert(m[2].0 == "user_id"@);
    assert(m[3].0 == "exists"@);
    assert(m[4].0 == "intimacy"@);
    assert(m[5].0 == "stage"@);
    assert(m[6].0 == "emotion_trend"@);
    assert(m[7].0 == "recent_topics"@);
    assert(m[8].0 == "updated_at"@);
    crate::json::law_first_member_counts(m, "tenant_id"@, 0);
    crate::json::law_first_member_counts(m, "agent_id"@, 1);
    crate::json::law_first_member_counts(m, "user_id"@, 2);
    crate::json::law_first_member_counts(m, "exists"@, 3);
    crate::json::law_first_member_counts(m, "intimacy"@, 4);
    crate::json::law_first_member_counts(m, "stage"@, 5);
    crate::json::law_first_member_counts(m, "emotion_trend"@, 6);
    crate::json::law_first_member_counts(m, "recent_topics"@, 7);
    crate::json::law_first_member_counts(m, "updated_at"@, 8);
}

/// Of a pair without a relationship it is told that there is none; the two are
/// strangers.
pub proof fn law_no_relationship_is_told(tenant_id: Seq<char>, agent_id: Seq<char>, user_id: Seq<char>)
    ensures
        ({
            let j = no_relationship(tenant_id, agent_id, user_id);
            &&& j.get("tenant_id"@) == Some(JsonView::Text(tenant_id))
            &&& j.get("agent_id"@) == Some(JsonView::Text(agent_id))
            &&& j.get("user_id"@) == Some(JsonView::Text(user_id))
            &&& j.get("exists"@) == Some(JsonView::Bool(false))
            &&& j.get("intimacy"@) == Some(JsonView::Other(fraction(0)))
            &&& j.get("stage"@) == Some(JsonView::Text("stranger"@))
            &&& j.get("emotion_trend"@) == Some(JsonView::Text("stable"@))
            &&& j.get("recent_topics"@) == Some(text_array(Seq::empty()))
            &&& j.get("updated_at"@) == Some(JsonView::Int(0))
        }),
{
    reveal_strlit("tenant_id");
    reveal_strlit("agent_id");
    reveal_strlit("user_id");
    reveal_strlit("exists");
    reveal_strlit("intimacy");
    reveal_strlit("stage");
    reveal_strlit("emotion_trend");
    reveal_strlit("recent_topics");
    reveal_strlit("updated_at");
    assert("agent_id"@[0] == 'a');
    assert("emotion_trend"@[0] == 'e');
    assert("intimacy"@[0] == 'i');
    assert("recent_topics"@[0] == 'r');
    let m = no_relationship(tenant_id, agent_id, user_id)->Object_0;
    assert(m[0].0 == "tenant_id"@);
    assert(m[1].0 == "agent_id"@);
    assert(m[2].0 == "user_id"@);
    assert(m[3].0 == "exists"@);
    assert(m[4].0 == "intimacy"@);
    assert(m[5].0 == "stage"@);
    assert(m[6].0 == "emotion_trend"@);
    assert(m[7].0 == "recent_topics"@);
    assert(m[8].0 == "updated_at"@);
    crate::json::law_first_member_counts(m, "tenant_id"@, 0);
    crate::json::law_first_member_counts(m, "agent_id"@, 1);
    crate::json::law_first_member_counts(m, "user_id"@, 2);
    crate::json::law_first_member_counts(m, "exists"@, 3);
    crate::json::law_first_member_counts(m, "intimacy"@, 4);
    crate::json::law_first_member_counts(m, "stage"@, 5);
    crate::json::law_first_member_counts(m, "emotion_trend"@, 6);
    crate::json::law_first_member_counts(m, "recent_topics"@, 7);
    crate::json::law_first_member_counts(m, "updated_at"@, 8);
}

/// An evolution is told from its origin over the turning points to the present,
/// with every fact on the way.
pub proof fn law_evolution_is_told(
    entity_id: int,
    start: Option<FactView>,
    milestones: Seq<MilestoneView>,
    current: Option<FactView>,
    trajectory: Seq<FactView>,
)
    ensures
        ({
            let j = timeline_answer(entity_id, start, milestones, current, trajectory);
            &&& j.get("entity_id"@) == Some(JsonView::Int(entity_id))
            &&& j.get("start"@) == Some(fact_or_null(start))
            &&& j.get("milestones"@) == Some(JsonView::Array(
                Seq::new(milestones.len(), |i: int| milestone_wire(milestones[i])),
            ))
            &&& j.get("current"@) == Some(fact_or_null(current))
            &&& j.get("trajectory"@) == Some(JsonView::Array(
                Seq::new(trajectory.len(), |i: int| fact_wire(trajectory[i])),
            ))
        }),
{
    reveal_strlit("entity_id");
    reveal_strlit("start");
    reveal_strlit("milestones");
    reveal_strlit("current");
    reveal_strlit("trajectory");
    assert("milestones"@[0] == 'm');
    assert("trajectory"@[0] == 't');
    let m = timeline_answer(entity_id, start, milestones, current, trajectory)->Object_0;
    assert(m[0].0 == "entity_id"@);
    assert(m[1].0 == "start"@);
    assert(m[2].0 == "milestones"@);
    assert(m[3].0 == "current"@);
    assert(m[4].0 == "trajectory"@);
    crate::json::law_first_member_counts(m, "entity_id"@, 0);
    crate::json::law_first_member_counts(m, "start"@, 1);
    crate::json::law_first_member_counts(m, "milestones"@, 2);
    crate::json::law_first_member_counts(m, "current"@, 3);
    crate::json::law_first_member_counts(m, "trajectory"@, 4);
}

/// A fact is told as it is stored.
pub proof fn law_fact_is_told(f: FactView)
    ensures
        ({
            let j = fact_wire(f);
            &&& j.get("id"@) == Some(id_or_null(f.id))
            &&& j.get("entity_id"@) == Some(JsonView::Int(f.entity_id as int))
            &&& j.get("fact_type"@) == Some(JsonView::Text(f.fact_type.name()))
            &&& j.get("time"@) == Some(JsonView::Int(f.time as int))
            &&& j.get("payload"@) == Some(f.payload)
            &&& j.get("evidence_id"@) == Some(id_or_null(f.evidence_id))
            &&& j.get("created_at"@) == Some(JsonView::Int(f.created_at as int))
            &&& j.get("confidence"@) == Some(f.confidence.number())
            &&& j.get("derived_from"@) == Some(ids_wire(f.derived_from))
            &&& j.get("status"@) == Some(JsonView::Text(f.status))
        }),
{
    reveal_strlit("id");
    reveal_strlit("entity_id");
    reveal_strlit("fact_type");
    reveal_strlit("time");
    reveal_strlit("payload");
    reveal_strlit("evidence_id");
    reveal_strlit("created_at");
    reveal_strlit("confidence");
    reveal_strlit("derived_from");
    reveal_strlit("status");
    assert("confidence"@[1] == 'o');
    assert("created_at"@[1] == 'r');
    assert("entity_id"@[0] == 'e');
    assert("fact_type"@[0] == 'f');
    let m = fact_wire(f)->Object_0;
    assert(m[0].0 == "id"@);
    assert(m[1].0 == "entity_id"@);
    assert(m[2].0 == "fact_type"@);
    assert(m[3].0 == "time"@);
    assert(m[4].0 == "payload"@);
    assert(m[5].0 == "evidence_id"@);
    assert(m[6].0 == "created_at"@);
    assert(m[7].0 == "confidence"@);
    assert(m[8].0 == "derived_from"@);
    assert(m[9].0 == "status"@);
    crate::json::law_first_member_counts(m, "id"@, 0);
    crate::json::law_first_member_counts(m, "entity_id"@, 1);
    crate::json::law_first_member_counts(m, "fact_type"@, 2);
    crate::json::law_first_member_counts(m, "time"@, 3);
    crate::json::law_first_member_counts(m, "payload"@, 4);
    crate::json::law_first_member_counts(m, "evidence_id"@, 5);
    crate::json::law_first_member_counts(m, "created_at"@, 6);
    crate::json::law_first_member_counts(m, "confidence"@, 7);
    crate::json::law_first_member_counts(m, "derived_from"@, 8);
    crate::json::law_first_member_counts(m, "status"@, 9);
}

/// A turning point is told with its kind, what it was and the fact that made it.
pub proof fn law_turning_point_is_told(m: MilestoneView)
    ensures
        ({
            let j = milestone_wire(m);
            &&& j.get("type"@) == Some(JsonView::Text(m.milestone_type.name()))
            &&& j.get("note"@) == Some(JsonView::Text(m.note))
            &&& j.get("fact"@) == Some(fact_wire(m.fact))
        }),
{
    reveal_strlit("type");
    reveal_strlit("note");
    reveal_strlit("fact");
    assert("fact"@[0] == 'f');
    assert("note"@[0] == 'n');
    assert("type"@[0] == 't');
    let m = milestone_wire(m)->Object_0;
    assert(m[0].0 == "type"@);
    assert(m[1].0 == "note"@);
    assert(m[2].0 == "fact"@);
    crate::json::law_first_member_counts(m, "type"@, 0);
    crate::json::law_first_member_counts(m, "note"@, 1);
    crate::json::law_first_member_counts(m, "fact"@, 2);
}

} // verus!
