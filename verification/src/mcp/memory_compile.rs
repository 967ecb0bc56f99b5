//! Compiling a conversation: reading the request, closing earlier decisions,
//! and choosing what is kept.
use vstd::prelude::*;

use crate::error::Error;
use crate::json::{
    count, elements, integer, member, object, text, Json, JsonView,
};
use crate::mcp::args::{
    flag_arg, flag_given, given_int, given_text, opt_int, opt_str, str_or, text_or,
};
use crate::mcp::types::opt_text;
use crate::text::{cat, cat3, same_text, texts, trim, trimmed};
use crate::types::{Decision, Memory, Message};

verus! {

/// How many of the last messages the prompt shows.
pub const RECENT_MESSAGES: usize = 6;

/// The tool, over handles to the distiller and the fact store.
pub struct MemoryCompileTool<D, S> {
    pub distiller: Option<D>,
    pub fact_store: S,
}

impl<D, S> MemoryCompileTool<D, S> {
    /// A tool over these handles.
    pub fn new(distiller: Option<D>, fact_store: S) -> (t: MemoryCompileTool<D, S>)
        ensures
            t.distiller == distiller,
            t.fact_store == fact_store,
    {
        MemoryCompileTool { distiller, fact_store }
    }
}

/// What is wrong with a message, if anything.
pub open spec fn message_fault(raw: JsonView) -> Option<Seq<char>> {
    if !(raw is Object) {
        Some("each message must be an object"@)
    } else if given_text(raw, "role"@) is None {
        Some("message missing `role`"@)
    } else if given_text(raw, "content"@) is None {
        Some("message missing `content`"@)
    } else {
        None
    }
}

/// The message is what the raw value says.
pub open spec fn is_message_of(m: Message, raw: JsonView) -> bool {
    &&& given_text(raw, "role"@) == Some(m.role@)
    &&& given_text(raw, "content"@) == Some(m.content@)
    &&& opt_text(m.turn_id) == given_text(raw, "turn_id"@)
    &&& opt_text(m.tool_call_id) == given_text(raw, "tool_call_id"@)
}

/// The first fault among the messages.
pub open spec fn messages_fault(v: Seq<JsonView>) -> Option<Seq<char>>
    decreases v.len(),
{
    if v.len() == 0 {
        None
    } else {
        match messages_fault(v.drop_last()) {
            Some(f) => Some(f),
            None => message_fault(v.last()),
        }
    }
}

/// The messages are what the raw values say, one for one.
pub open spec fn are_messages_of(m: Seq<Message>, raw: Seq<JsonView>) -> bool {
    &&& m.len() == raw.len()
    &&& forall|i: int| 0 <= i < m.len() ==> is_message_of(#[trigger] m[i], raw[i])
}

/// Read one message.
pub fn parse_message(raw: &Json) -> (r: Result<Message, Error>)
    ensures
        match r {
            Ok(m) => message_fault(raw@) is None && is_message_of(m, raw@),
            Err(e) => e is InvalidInput && message_fault(raw@) == Some(e.text()),
        },
{
    if raw.as_object().is_none() {
        return Err(Error::InvalidInput("each message must be an object".to_owned()));
    }
    let role: String = match opt_str(raw, "role") {
        Some(s) => s,
        None => {
            return Err(Error::InvalidInput("message missing `role`".to_owned()));
        },
    };
    let content: String = match opt_str(raw, "content") {
        Some(s) => s,
        None => {
            return Err(Error::InvalidInput("message missing `content`".to_owned()));
        },
    };
    Ok(
        Message {
            role,
            content,
            turn_id: opt_str(raw, "turn_id"),
            tool_call_id: opt_str(raw, "tool_call_id"),
        },
    )
}

/// A fault among the first messages is the fault of all.
proof fn lemma_fault_stays(v: Seq<JsonView>, n: int)
    requires
        0 <= n <= v.len(),
        messages_fault(v.subrange(0, n)) is Some,
    ensures
        messages_fault(v) == messages_fault(v.subrange(0, n)),
    decreases v.len() - n,
{
    if n == v.len() {
        assert(v.subrange(0, n) == v);
    } else {
        assert(v.subrange(0, n + 1).drop_last() == v.subrange(0, n));
        lemma_fault_stays(v, n + 1);
    }
}

/// Read the messages; the first fault fails them all.
pub fn parse_messages(values: &Vec<Json>) -> (r: Result<Vec<Message>, Error>)
    ensures
        match r {
            Ok(v) => messages_fault(elements(values@)) is None && are_messages_of(
                v@,
                elements(values@),
            ),
            Err(e) => e is InvalidInput && messages_fault(elements(values@)) == Some(e.text()),
        },
{
    let mut v: Vec<Message> = Vec::new();
    let ghost all = elements(values@);
    let mut i: usize = 0;
    while i < values.len()
        invariant
            i <= values@.len(),
            all == elements(values@),
            v@.len() == i,
            messages_fault(all.subrange(0, i as int)) is None,
            forall|k: int| 0 <= k < i ==> is_message_of(#[trigger] v@[k], all[k]),
        decreases values.len() - i,
    {
        let ghost now = all.subrange(0, i + 1);
        assert(now.drop_last() == all.subrange(0, i as int));
        assert(now.last() == values@[i as int]@);
        match parse_message(&values[i]) {
            Ok(m) => {
                v.push(m);
            },
            Err(e) => {
                proof {
                    lemma_fault_stays(all, i + 1);
                }
                return Err(e);
            },
        }
        i = i + 1;
    }
    assert(all.subrange(0, all.len() as int) == all);
    Ok(v)
}

/// What became of a decision.
#[derive(Debug, Clone, Copy, PartialEq, Eq, Structural)]
pub enum DecisionOutcome {
    Fulfilled,
    Violated,
}

impl DecisionOutcome {
    /// The name of the outcome.
    pub open spec fn name(self) -> Seq<char> {
        match self {
            DecisionOutcome::Fulfilled => "fulfilled"@,
            DecisionOutcome::Violated => "violated"@,
        }
    }

    /// The name of the outcome.
    pub fn as_str(self) -> (s: &'static str)
        ensures
            s@ == self.name(),
    {
        match self {
            DecisionOutcome::Fulfilled => "fulfilled",
            DecisionOutcome::Violated => "violated",
        }
    }

    /// The outcome of this name.
    pub fn parse(raw: &str) -> (r: Option<DecisionOutcome>)
        ensures
            match r {
                Some(o) => o.name() == raw@,
                None => forall|o: DecisionOutcome| #[trigger] o.name() != raw@,
            },
    {
        if same_text(raw, "fulfilled") {
            Some(DecisionOutcome::Fulfilled)
        } else if same_text(raw, "violated") {
            Some(DecisionOutcome::Violated)
        } else {
            None
        }
    }
}

/// A declared outcome of an earlier decision.
#[derive(Debug)]
pub struct Declaration {
    pub decision_id: i64,
    pub outcome: DecisionOutcome,
}

/// What is wrong with a declaration, if anything.
pub open spec fn declaration_fault(raw: JsonView) -> Option<Seq<char>> {
    if given_int(raw, "decision_id"@) is None {
        Some("each `decision_outcomes` entry needs an integer `decision_id`"@)
    } else {
        match given_text(raw, "outcome"@) {
            None => Some("each `decision_outcomes` entry needs a string `outcome`"@),
            Some(s) => if forall|o: DecisionOutcome| #[trigger] o.name() != s {
                Some("unknown outcome `"@ + s + "`, expected `fulfilled` or `violated`"@)
            } else {
                None
            },
        }
    }
}

/// The declaration is what the raw value says.
pub open spec fn is_declaration_of(d: Declaration, raw: JsonView) -> bool {
    &&& given_int(raw, "decision_id"@) == Some(d.decision_id as int)
    &&& given_text(raw, "outcome"@) == Some(d.outcome.name())
}

/// The first fault among declarations.
pub open spec fn declarations_fault(v: Seq<JsonView>) -> Option<Seq<char>>
    decreases v.len(),
{
    if v.len() == 0 {
        None
    } else {
        match declarations_fault(v.drop_last()) {
            Some(f) => Some(f),
            None => declaration_fault(v.last()),
        }
    }
}

/// The declarations that the arguments hold, raw; none when there are none.
pub open spec fn raw_declarations(args: JsonView) -> Seq<JsonView> {
    match args.get("decision_outcomes"@) {
        Some(JsonView::Array(v)) => v,
        _ => Seq::empty(),
    }
}

/// What is wrong with the declared outcomes, if anything.
pub open spec fn outcomes_fault(args: JsonView) -> Option<Seq<char>> {
    match args.get("decision_outcomes"@) {
        None => None,
        Some(JsonView::Null) => None,
        Some(JsonView::Array(v)) => declarations_fault(v),
        Some(_) => Some("`decision_outcomes` must be an array"@),
    }
}

/// Read one declaration.
fn parse_declaration(raw: &Json) -> (r: Result<Declaration, Error>)
    ensures
        match r {
            Ok(d) => declaration_fault(raw@) is None && is_declaration_of(d, raw@),
            Err(e) => e is InvalidInput && declaration_fault(raw@) == Some(e.text()),
        },
{
    let decision_id: i64 = match opt_int(raw, "decision_id") {
        Some(n) => n,
        None => {
            return Err(
                Error::InvalidInput(
                    "each `decision_outcomes` entry needs an integer `decision_id`".to_owned(),
                ),
            );
        },
    };
    match opt_str(raw, "outcome") {
        None => Err(
            Error::InvalidInput(
                "each `decision_outcomes` entry needs a string `outcome`".to_owned(),
            ),
        ),
        Some(s) => match DecisionOutcome::parse(s.as_str()) {
            Some(outcome) => {
                assert(outcome.name() == s@);
                Ok(Declaration { decision_id, outcome })
            },
            None => Err(
                Error::InvalidInput(
                    cat3(
                        "unknown outcome `",
                        s.as_str(),
                        "`, expected `fulfilled` or `violated`",
                    ),
                ),
            ),
        },
    }
}

/// A fault among the first declarations is the fault of all.
proof fn lemma_declaration_fault_stays(v: Seq<JsonView>, n: int)
    requires
        0 <= n <= v.len(),
        declarations_fault(v.subrange(0, n)) is Some,
    ensures
        declarations_fault(v) == declarations_fault(v.subrange(0, n)),
    decreases v.len() - n,
{
    if n == v.len() {
        assert(v.subrange(0, n) == v);
    } else {
        assert(v.subrange(0, n + 1).drop_last() == v.subrange(0, n));
        lemma_declaration_fault_stays(v, n + 1);
    }
}

/// Read the declared outcomes of earlier decisions. All are read before any
/// takes effect; the first fault fails them all.
pub fn parse_outcomes(args: &Json) -> (r: Result<Vec<Declaration>, Error>)
    ensures
        match r {
            Ok(v) => {
                &&& outcomes_fault(args@) is None
                &&& v@.len() == raw_declarations(args@).len()
                &&& forall|i: int|
                    0 <= i < v@.len() ==> is_declaration_of(
                        #[trigger] v@[i],
                        raw_declarations(args@)[i],
                    )
            },
            Err(e) => e is InvalidInput && outcomes_fault(args@) == Some(e.text()),
        },
{
    let mut v: Vec<Declaration> = Vec::new();
    let declared: &Json = match args.get("decision_outcomes") {
        Some(d) => d,
        None => {
            return Ok(v);
        },
    };
    if declared.is_null() {
        return Ok(v);
    }
    let list: &Vec<Json> = match declared.as_array() {
        Some(l) => l,
        None => {
            return Err(
                Error::InvalidInput("`decision_outcomes` must be an array".to_owned()),
            );
        },
    };
    let ghost all = elements(list@);
    assert(raw_declarations(args@) == all);
    let mut i: usize = 0;
    while i < list.len()
        invariant
            i <= list@.len(),
            all == elements(list@),
            all == raw_declarations(args@),
            outcomes_fault(args@) == declarations_fault(all),
            v@.len() == i,
            declarations_fault(all.subrange(0, i as int)) is None,
            forall|k: int| 0 <= k < i ==> is_declaration_of(#[trigger] v@[k], all[k]),
        decreases list.len() - i,
    {
        let ghost now = all.subrange(0, i + 1);
        assert(now.drop_last() == all.subrange(0, i as int));
        assert(now.last() == list@[i as int]@);
        match parse_declaration(&list[i]) {
            Ok(d) => {
                v.push(d);
            },
            Err(e) => {
                proof {
                    lemma_declaration_fault_stays(all, i + 1);
                }
                return Err(e);
            },
        }
        i = i + 1;
    }
    assert(all.subrange(0, all.len() as int) == all);
    Ok(v)
}

/// A decision as the store holds it after a declaration.
#[derive(Debug)]
pub struct DecisionState {
    pub id: i64,
    pub outcome: Option<DecisionOutcome>,
    pub status: String,
}

/// The outcome of a decision after a declaration: the first one that is
/// declared stays.
pub open spec fn outcome_after(recorded: Option<DecisionOutcome>, declared: DecisionOutcome) -> Option<
    DecisionOutcome,
> {
    match recorded {
        Some(o) => Some(o),
        None => Some(declared),
    }
}

impl DecisionState {
    /// Record a declared outcome, which closes the decision. An outcome that
    /// is recorded already is not overwritten.
    pub fn declare(self, outcome: DecisionOutcome) -> (d: DecisionState)
        ensures
            d.id == self.id,
            d.outcome == outcome_after(self.outcome, outcome),
            d.status@ == (if self.outcome is None {
                "closed"@
            } else {
                self.status@
            }),
    {
        match self.outcome {
            Some(_) => self,
            None => DecisionState {
                id: self.id,
                outcome: Some(outcome),
                status: "closed".to_owned(),
            },
        }
    }
}

/// The first outcome that is declared for a decision wins: a later one never
/// overwrites it.
pub proof fn law_first_outcome_wins(
    recorded: Option<DecisionOutcome>,
    first: DecisionOutcome,
    later: DecisionOutcome,
)
    ensures
        outcome_after(outcome_after(recorded, first), later) == outcome_after(recorded, first),
{
}

/// The report on a declaration: the state that the store holds, or that it
/// knows no such decision.
pub open spec fn outcome_report_view(decision_id: int, state: Option<DecisionState>) -> JsonView {
    match state {
        Some(d) => JsonView::Object(
            seq![
                ("decision_id"@, JsonView::Int(d.id as int)),
                (
                    "outcome"@,
                    match d.outcome {
                        Some(o) => JsonView::Text(o.name()),
                        None => JsonView::Null,
                    },
                ),
                ("status"@, JsonView::Text(d.status@)),
            ],
        ),
        None => JsonView::Object(
            seq![("decision_id"@, JsonView::Int(decision_id)), ("missing"@, JsonView::Bool(true))],
        ),
    }
}

/// Report on a declaration.
pub fn outcome_report(decision_id: i64, state: Option<DecisionState>) -> (j: Json)
    ensures
        j@ == outcome_report_view(decision_id as int, state),
{
    match state {
        Some(d) => {
            let outcome: Json = match d.outcome {
                Some(o) => text(o.as_str()),
                None => Json::Null,
            };
            let j: Json = object(
                vec![
                    member("decision_id", integer(d.id)),
                    member("outcome", outcome),
                    member("status", text(d.status.as_str())),
                ],
            );
            assert(j@->Object_0 =~= outcome_report_view(decision_id as int, state)->Object_0);
            j
        },
        None => {
            let j: Json = object(
                vec![
                    member("decision_id", integer(decision_id)),
                    member("missing", Json::Bool(true)),
                ],
            );
            assert(j@->Object_0 =~= outcome_report_view(decision_id as int, state)->Object_0);
            j
        },
    }
}

/// A request to compile a conversation.
#[derive(Debug)]
pub struct CompileRequest {
    pub messages: Vec<Message>,
    pub outcomes: Vec<Declaration>,
    pub tenant_id: String,
    pub user_id: String,
    /// The agent whose promises count too, if one is named.
    pub agent_id: Option<String>,
    pub distill: bool,
    pub conversation_id: String,
}

/// What is wrong with a request, if anything. Messages are looked at first.
pub open spec fn compile_fault(args: JsonView) -> Option<Seq<char>> {
    match args.get("messages"@) {
        Some(JsonView::Array(v)) => match messages_fault(v) {
            Some(f) => Some(f),
            None => outcomes_fault(args),
        },
        _ => Some("missing `messages` array"@),
    }
}

/// The agent that a request names; an empty name is none.
pub open spec fn named_agent(args: JsonView) -> Option<Seq<char>> {
    match given_text(args, "agent_id"@) {
        Some(s) => if s.len() > 0 {
            Some(s)
        } else {
            None
        },
        None => None,
    }
}

/// Read a request. Nothing is written before all of it has been read.
pub fn compile_request(args: &Json) -> (r: Result<CompileRequest, Error>)
    ensures
        match r {
            Ok(q) => {
                &&& compile_fault(args@) is None
                &&& args@.get("messages"@) matches Some(JsonView::Array(raw)) && are_messages_of(
                    q.messages@,
                    raw,
                )
                &&& q.outcomes@.len() == raw_declarations(args@).len()
                &&& forall|i: int|
                    0 <= i < q.outcomes@.len() ==> is_declaration_of(
                        #[trigger] q.outcomes@[i],
                        raw_declarations(args@)[i],
                    )
                &&& q.tenant_id@ == text_or(args@, "tenant_id"@, "default"@)
                &&& q.user_id@ == text_or(args@, "user_id"@, ""@)
                &&& opt_text(q.agent_id) == named_agent(args@)
                &&& q.distill == flag_given(args@, "distill"@)
                &&& q.conversation_id@ == text_or(args@, "conversation_id"@, "compile"@)
            },
            Err(e) => e is InvalidInput && compile_fault(args@) == Some(e.text()),
        },
{
    let raw: &Vec<Json> = match args.get("messages") {
        Some(v) => match v.as_array() {
            Some(l) => l,
            None => {
                return Err(Error::InvalidInput("missing `messages` array".to_owned()));
            },
        },
        None => {
            return Err(Error::InvalidInput("missing `messages` array".to_owned()));
        },
    };
    let messages: Vec<Message> = match parse_messages(raw) {
        Ok(v) => v,
        Err(e) => {
            return Err(e);
        },
    };
    let outcomes: Vec<Declaration> = match parse_outcomes(args) {
        Ok(v) => v,
        Err(e) => {
            return Err(e);
        },
    };
    let agent_id: Option<String> = match opt_str(args, "agent_id") {
        Some(s) => if s.as_str().is_empty() {
            None
        } else {
            Some(s)
        },
        None => None,
    };
    Ok(
        CompileRequest {
            messages,
            outcomes,
            tenant_id: str_or(args, "tenant_id", "default"),
            user_id: str_or(args, "user_id", ""),
            agent_id,
            distill: flag_arg(args, "distill"),
            conversation_id: str_or(args, "conversation_id", "compile"),
        },
    )
}

/// A role whose messages are searched for promises, and the entity that makes
/// them.
#[derive(Debug)]
pub struct SpeakerChannel {
    pub role: &'static str,
    pub entity_id: i64,
}

/// The channels to search for promises: the user's always, the agent's only
/// when the request named one.
pub fn commitment_speakers(user_entity_id: i64, agent_entity_id: Option<i64>) -> (v: Vec<
    SpeakerChannel,
>)
    ensures
        v@.len() == (if agent_entity_id is Some {
            2nat
        } else {
            1nat
        }),
        v@[0].role@ == "user"@ && v@[0].entity_id == user_entity_id,
        agent_entity_id matches Some(id) ==> v@[1].role@ == "assistant"@ && v@[1].entity_id == id,
{
    let mut v: Vec<SpeakerChannel> = Vec::new();
    v.push(SpeakerChannel { role: "user", entity_id: user_entity_id });
    if let Some(id) = agent_entity_id {
        v.push(SpeakerChannel { role: "assistant", entity_id: id });
    }
    v
}

/// Where the messages that the prompt shows begin.
pub fn recent_start(messages: &Vec<Message>) -> (n: usize)
    ensures
        n == (if messages@.len() <= RECENT_MESSAGES {
            0
        } else {
            messages@.len() - RECENT_MESSAGES
        }),
{
    if messages.len() <= RECENT_MESSAGES {
        0
    } else {
        messages.len() - RECENT_MESSAGES
    }
}

/// The form in which a decision is kept as knowledge.
pub open spec fn decision_text(d: Decision) -> Seq<char> {
    "Decision: "@ + d.decision@ + " — Rationale: "@ + d.rationale@
}

/// The form in which a decision is kept as knowledge.
pub fn decision_content(d: &Decision) -> (s: String)
    ensures
        s@ == decision_text(*d),
{
    let head: String = cat3("Decision: ", d.decision.as_str(), " — Rationale: ");
    cat(head.as_str(), d.rationale.as_str())
}

/// The form in which a memory is kept: without surrounding space.
pub fn knowledge_content(m: &Memory) -> (s: String)
    ensures
        s@ == trimmed(m.content@),
{
    trim(m.content.as_str())
}

/// Whether a content is worth keeping: it is not empty, no filter rejects it,
/// and it is not among what is kept already.
pub open spec fn worth_keeping(
    content: Seq<char>,
    rejected: bool,
    existing: Seq<Seq<char>>,
) -> bool {
    content.len() > 0 && !rejected && !existing.contains(content)
}

/// The indices of the first `n` contents that are worth keeping, in order.
pub open spec fn kept(
    contents: Seq<Seq<char>>,
    rejected: Seq<bool>,
    existing: Seq<Seq<char>>,
    n: nat,
) -> Seq<int>
    decreases n,
{
    if n == 0 {
        Seq::empty()
    } else {
        let before = kept(contents, rejected, existing, (n - 1) as nat);
        if worth_keeping(contents[n - 1], rejected[n - 1], existing) {
            before.push(n - 1)
        } else {
            before
        }
    }
}

/// Whether the content is among the texts.
fn is_among(content: &str, existing: &Vec<String>) -> (r: bool)
    ensures
        r == texts(existing@).contains(content@),
{
    let ghost all = texts(existing@);
    let mut i: usize = 0;
    while i < existing.len()
        invariant
            i <= existing@.len(),
            all == texts(existing@),
            forall|k: int| 0 <= k < i ==> #[trigger] all[k] != content@,
        decreases existing.len() - i,
    {
        assert(all[i as int] == existing@[i as int]@);
        if same_text(existing[i].as_str(), content) {
            return true;
        }
        i = i + 1;
    }
    false
}

/// Choose what to keep of the contents, given what the filters reject and
/// what is kept already.
pub fn choose_kept(
    contents: &Vec<String>,
    rejected: &Vec<bool>,
    existing: &Vec<String>,
) -> (v: Vec<usize>)
    requires
        contents@.len() == rejected@.len(),
    ensures
        crate::order::as_ints(v@) == kept(
            texts(contents@),
            rejected@,
            texts(existing@),
            contents@.len(),
        ),
{
    let mut v: Vec<usize> = Vec::new();
    let mut i: usize = 0;
    assert(crate::order::as_ints(v@) =~= Seq::empty());
    while i < contents.len()
        invariant
            i <= contents@.len() == rejected@.len(),
            crate::order::as_ints(v@) == kept(
                texts(contents@),
                rejected@,
                texts(existing@),
                i as nat,
            ),
        decreases contents.len() - i,
    {
        let ghost before = crate::order::as_ints(v@);
        assert(texts(contents@)[i as int] == contents@[i as int]@);
        if !contents[i].as_str().is_empty() && !rejected[i] && !is_among(
            contents[i].as_str(),
            existing,
        ) {
            v.push(i);
            assert(crate::order::as_ints(v@) =~= before.push(i as int));
        }
        i = i + 1;
    }
    v
}

/// The content at index `i`, one of the first `n`, is worth keeping.
pub open spec fn is_new_at(
    contents: Seq<Seq<char>>,
    rejected: Seq<bool>,
    existing: Seq<Seq<char>>,
    n: nat,
    i: int,
) -> bool {
    0 <= i < n && worth_keeping(contents[i], rejected[i], existing)
}

/// What is kept is new: nothing that was kept already, nothing a filter
/// rejected and nothing empty is kept again.
pub proof fn law_kept_is_new(
    contents: Seq<Seq<char>>,
    rejected: Seq<bool>,
    existing: Seq<Seq<char>>,
    n: nat,
)
    requires
        n <= contents.len() == rejected.len(),
    ensures
        forall|k: int|
            0 <= k < kept(contents, rejected, existing, n).len() ==> is_new_at(
                contents,
                rejected,
                existing,
                n,
                #[trigger] kept(contents, rejected, existing, n)[k],
            ),
    decreases n,
{
    if n > 0 {
        let before = kept(contents, rejected, existing, (n - 1) as nat);
        let now = kept(contents, rejected, existing, n);
        law_kept_is_new(contents, rejected, existing, (n - 1) as nat);
        assert forall|k: int| 0 <= k < now.len() implies is_new_at(
            contents,
            rejected,
            existing,
            n,
            #[trigger] now[k],
        ) by {
            if k < before.len() {
                assert(now[k] == before[k]);
            }
        }
    }
}

/// What the compilation of a conversation amounted to.
#[derive(Debug)]
pub struct CompileSummary {
    pub user_entity_id: i64,
    pub observations_compiled: u64,
    pub facts_compiled: u64,
    pub facts_stored: u64,
    pub decisions_recorded: u64,
    pub lexicon_hash: String,
    pub lexicon_lexemes: u64,
}

/// The part of the answer on cognition.
pub open spec fn cognition_view(
    s: CompileSummary,
    tenant_id: Seq<char>,
    user_id: Seq<char>,
    reports: Seq<JsonView>,
) -> JsonView {
    JsonView::Object(
        seq![
            ("user_entity_id"@, JsonView::Int(s.user_entity_id as int)),
            ("tenant_id"@, JsonView::Text(tenant_id)),
            (
                "user_id"@,
                JsonView::Text(
                    if user_id.len() == 0 {
                        "default"@
                    } else {
                        user_id
                    },
                ),
            ),
            ("observations_compiled"@, JsonView::Int(s.observations_compiled as int)),
            ("facts_compiled"@, JsonView::Int(s.facts_compiled as int)),
            ("facts_stored"@, JsonView::Int(s.facts_stored as int)),
            ("decisions_recorded"@, JsonView::Int(s.decisions_recorded as int)),
            ("decision_outcomes"@, JsonView::Array(reports)),
            (
                "lexicon"@,
                JsonView::Object(
                    seq![
                        ("content_hash"@, JsonView::Text(s.lexicon_hash@)),
                        ("lexemes"@, JsonView::Int(s.lexicon_lexemes as int)),
                    ],
                ),
            ),
        ],
    )
}

/// The answer to a request.
pub open spec fn compile_answer(
    knowledge: JsonView,
    decisions: JsonView,
    session: JsonView,
    prompt: Seq<char>,
    cognition: JsonView,
    memories: JsonView,
) -> JsonView {
    JsonView::Object(
        seq![
            ("knowledge"@, knowledge),
            ("decisions"@, decisions),
            ("session"@, session),
            ("prompt"@, JsonView::Text(prompt)),
            ("cognition"@, cognition),
            ("distilled_memories"@, memories),
        ],
    )
}

/// Answer a request. What was compiled is given in its JSON form.
pub fn compile_reply(
    request: &CompileRequest,
    summary: &CompileSummary,
    reports: Vec<Json>,
    knowledge: Json,
    decisions: Json,
    session: Json,
    prompt: &str,
    memories: Json,
) -> (j: Json)
    ensures
        j@ == compile_answer(
            knowledge@,
            decisions@,
            session@,
            prompt@,
            cognition_view(
                *summary,
                request.tenant_id@,
                request.user_id@,
                elements(reports@),
            ),
            memories@,
        ),
{
    let lexicon: Json = object(
        vec![
            member("content_hash", text(summary.lexicon_hash.as_str())),
            member("lexemes", count(summary.lexicon_lexemes)),
        ],
    );
    let user: &str = if request.user_id.as_str().is_empty() {
        "default"
    } else {
        request.user_id.as_str()
    };
    let ghost want = cognition_view(
        *summary,
        request.tenant_id@,
        request.user_id@,
        elements(reports@),
    );
    assert(lexicon@->Object_0 =~= want->Object_0[8].1->Object_0);
    let cognition: Json = object(
        vec![
            member("user_entity_id", integer(summary.user_entity_id)),
            member("tenant_id", text(request.tenant_id.as_str())),
            member("user_id", text(user)),
            member("observations_compiled", count(summary.observations_compiled)),
            member("facts_compiled", count(summary.facts_compiled)),
            member("facts_stored", count(summary.facts_stored)),
            member("decisions_recorded", count(summary.decisions_recorded)),
            member("decision_outcomes", crate::json::array(reports)),
            member("lexicon", lexicon),
        ],
    );
    assert(cognition@->Object_0 =~= want->Object_0);
    let j: Json = object(
        vec![
            member("knowledge", knowledge),
            member("decisions", decisions),
            member("session", session),
            member("prompt", text(prompt)),
            member("cognition", cognition),
            member("distilled_memories", memories),
        ],
    );
    assert(j@->Object_0 =~= compile_answer(
        knowledge@,
        decisions@,
        session@,
        prompt@,
        want,
        memories@,
    )->Object_0);
    j
}

/// A content is kept exactly when it says something, no filter rejects it and it
/// is not among what is kept already; what is kept stays in its order.
pub proof fn law_new_contents_are_kept(
    contents: Seq<Seq<char>>,
    rejected: Seq<bool>,
    existing: Seq<Seq<char>>,
    n: nat,
    i: int,
)
    requires
        n <= contents.len() == rejected.len(),
    ensures
        kept(contents, rejected, existing, n).contains(i) <==> 0 <= i < n && contents[i].len() > 0
            && !rejected[i] && !existing.contains(contents[i]),
        forall|a: int, b: int|
            0 <= a < b < kept(contents, rejected, existing, n).len() ==> #[trigger] kept(
                contents,
                rejected,
                existing,
                n,
            )[a] < #[trigger] kept(contents, rejected, existing, n)[b],
    decreases n,
{
    if n > 0 {
        let m = (n - 1) as nat;
        let before = kept(contents, rejected, existing, m);
        let all = kept(contents, rejected, existing, n);
        law_new_contents_are_kept(contents, rejected, existing, m, i);
        law_kept_is_new(contents, rejected, existing, m);
        if before.contains(i) {
            let k = choose|k: int| 0 <= k < before.len() && before[k] == i;
            assert(all[k] == i);
        }
        if all.contains(i) && !before.contains(i) {
            let k = choose|k: int| 0 <= k < all.len() && all[k] == i;
            if k < before.len() {
                assert(before[k] == i);
            }
        }
        if worth_keeping(contents[n - 1], rejected[n - 1], existing) {
            assert(all[before.len() as int] == n - 1);
        }
        assert forall|a: int, b: int| 0 <= a < b < all.len() implies #[trigger] all[a]
            < #[trigger] all[b] by {
            assert(all[a] == before[a]);
            assert(is_new_at(contents, rejected, existing, m, before[a]));
            if b < before.len() {
                assert(all[b] == before[b]);
            }
        }
    }
}

/// Messages pass exactly when each is an object with a role and a content in
/// words, and the first that is not says what is wrong.
pub proof fn law_messages_need_role_and_content(v: Seq<JsonView>)
    ensures
        messages_fault(v) is None <==> forall|i: int|
            0 <= i < v.len() ==> (#[trigger] v[i]) is Object && given_text(v[i], "role"@) is Some
                && given_text(v[i], "content"@) is Some,
        messages_fault(v) is Some ==> exists|i: int|
            {
                &&& 0 <= i < v.len()
                &&& message_fault(#[trigger] v[i]) == messages_fault(v)
                &&& forall|k: int| 0 <= k < i ==> message_fault(#[trigger] v[k]) is None
            },
    decreases v.len(),
{
    if v.len() > 0 {
        let front = v.drop_last();
        law_messages_need_role_and_content(front);
        assert(v[v.len() - 1] == v.last());
        if messages_fault(front) is Some {
            let i = choose|i: int|
                {
                    &&& 0 <= i < front.len()
                    &&& message_fault(#[trigger] front[i]) == messages_fault(front)
                    &&& forall|k: int| 0 <= k < i ==> message_fault(#[trigger] front[k]) is None
                };
            assert(v[i] == front[i]);
            assert forall|k: int| 0 <= k < i implies message_fault(#[trigger] v[k]) is None by {
                assert(front[k] == v[k]);
            }
            assert(!(v[i] is Object) || given_text(v[i], "role"@) is None || given_text(
                v[i],
                "content"@,
            ) is None);
        } else {
            assert forall|k: int| 0 <= k < front.len() implies message_fault(
                #[trigger] v[k],
            ) is None && v[k] is Object && given_text(v[k], "role"@) is Some && given_text(
                v[k],
                "content"@,
            ) is Some by {
                assert(front[k] == v[k]);
            }
        }
    }
}

/// Declarations pass exactly when each names a decision by number and an outcome
/// that is `fulfilled` or `violated`.
pub proof fn law_declarations_name_decision_and_outcome(v: Seq<JsonView>)
    ensures
        declarations_fault(v) is None <==> forall|i: int|
            0 <= i < v.len() ==> given_int(#[trigger] v[i], "decision_id"@) is Some && (given_text(
                v[i],
                "outcome"@,
            ) == Some("fulfilled"@) || given_text(v[i], "outcome"@) == Some("violated"@)),
    decreases v.len(),
{
    assert(DecisionOutcome::Fulfilled.name() == "fulfilled"@);
    assert(DecisionOutcome::Violated.name() == "violated"@);
    if v.len() > 0 {
        let front = v.drop_last();
        law_declarations_name_decision_and_outcome(front);
        assert(v[v.len() - 1] == v.last());
        assert forall|k: int| 0 <= k < front.len() implies #[trigger] v[k] == front[k] by {}
        assert forall|k: int| 0 <= k < front.len() implies #[trigger] front[k] == v[k] by {}
    }
}

/// A declared outcome is recorded where there is none yet, and what is recorded
/// stays.
pub proof fn law_declared_outcome_is_recorded(
    recorded: DecisionOutcome,
    declared: DecisionOutcome,
)
    ensures
        outcome_after(None, declared) == Some(declared),
        outcome_after(Some(recorded), declared) == Some(recorded),
{
}

/// What a conversation was compiled into is told part by part.
pub proof fn law_compiled_conversation_is_told(
    knowledge: JsonView,
    decisions: JsonView,
    session: JsonView,
    prompt: Seq<char>,
    cognition: JsonView,
    memories: JsonView,
)
    ensures
        ({
            let j = compile_answer(knowledge, decisions, session, prompt, cognition, memories);
            &&& j.get("knowledge"@) == Some(knowledge)
            &&& j.get("decisions"@) == Some(decisions)
            &&& j.get("session"@) == Some(session)
            &&& j.get("prompt"@) == Some(JsonView::Text(prompt))
            &&& j.get("cognition"@) == Some(cognition)
            &&& j.get("distilled_memories"@) == Some(memories)
        }),
{
    reveal_strlit("knowledge");
    reveal_strlit("decisions");
    reveal_strlit("session");
    reveal_strlit("prompt");
    reveal_strlit("cognition");
    reveal_strlit("distilled_memories");
    assert("cognition"@[0] == 'c');
    assert("decisions"@[0] == 'd');
    assert("knowledge"@[0] == 'k');
    let m = compile_answer(knowledge, decisions, session, prompt, cognition, memories)->Object_0;
    assert(m[0].0 == "knowledge"@);
    assert(m[1].0 == "decisions"@);
    assert(m[2].0 == "session"@);
    assert(m[3].0 == "prompt"@);
    assert(m[4].0 == "cognition"@);
    assert(m[5].0 == "distilled_memories"@);
    crate::json::law_first_member_counts(m, "knowledge"@, 0);
    crate::json::law_first_member_counts(m, "decisions"@, 1);
    crate::json::law_first_member_counts(m, "session"@, 2);
    crate::json::law_first_member_counts(m, "prompt"@, 3);
    crate::json::law_first_member_counts(m, "cognition"@, 4);
    crate::json::law_first_member_counts(m, "distilled_memories"@, 5);
}

/// What was compiled is told by its numbers, under the user; a user without a
/// name is the default one.
pub proof fn law_cognition_is_told(s: CompileSummary, tenant_id: Seq<char>, user_id: Seq<char>, reports: Seq<JsonView>)
    ensures
        ({
            let j = cognition_view(s, tenant_id, user_id, reports);
            &&& j.get("user_entity_id"@) == Some(JsonView::Int(s.user_entity_id as int))
            &&& j.get("tenant_id"@) == Some(JsonView::Text(tenant_id))
            &&& j.get("user_id"@) == Some(JsonView::Text(if user_id.len() > 0 { user_id } else { "default"@ }))
            &&& j.get("observations_compiled"@) == Some(JsonView::Int(s.observations_compiled as int))
            &&& j.get("facts_compiled"@) == Some(JsonView::Int(s.facts_compiled as int))
            &&& j.get("facts_stored"@) == Some(JsonView::Int(s.facts_stored as int))
            &&& j.get("decisions_recorded"@) == Some(JsonView::Int(s.decisions_recorded as int))
            &&& j.get("decision_outcomes"@) == Some(JsonView::Array(reports))
            &&& j.get("lexicon"@) is Some
            &&& j.get("lexicon"@)->0.get("content_hash"@) == Some(JsonView::Text(s.lexicon_hash@))
            &&& j.get("lexicon"@)->0.get("lexemes"@) == Some(JsonView::Int(s.lexicon_lexemes as int))
        }),
{
    reveal_strlit("user_entity_id");
    reveal_strlit("tenant_id");
    reveal_strlit("user_id");
    reveal_strlit("observations_compiled");
    reveal_strlit("facts_compiled");
    reveal_strlit("facts_stored");
    reveal_strlit("decisions_recorded");
    reveal_strlit("decision_outcomes");
    reveal_strlit("lexicon");
    reveal_strlit("content_hash");
    reveal_strlit("lexemes");
    assert("facts_compiled"@[0] == 'f');
    assert("lexicon"@[0] == 'l');
    assert("user_entity_id"@[0] == 'u');
    assert("user_id"@[0] == 'u');
    let m = cognition_view(s, tenant_id, user_id, reports)->Object_0;
    assert(m[0].0 == "user_entity_id"@);
    assert(m[1].0 == "tenant_id"@);
    assert(m[2].0 == "user_id"@);
    assert(m[3].0 == "observations_compiled"@);
    assert(m[4].0 == "facts_compiled"@);
    assert(m[5].0 == "facts_stored"@);
    assert(m[6].0 == "decisions_recorded"@);
    assert(m[7].0 == "decision_outcomes"@);
    assert(m[8].0 == "lexicon"@);
    crate::json::law_first_member_counts(m, "user_entity_id"@, 0);
    crate::json::law_first_member_counts(m, "tenant_id"@, 1);
    crate::json::law_first_member_counts(m, "user_id"@, 2);
    crate::json::law_first_member_counts(m, "observations_compiled"@, 3);
    crate::json::law_first_member_counts(m, "facts_compiled"@, 4);
    crate::json::law_first_member_counts(m, "facts_stored"@, 5);
    crate::json::law_first_member_counts(m, "decisions_recorded"@, 6);
    crate::json::law_first_member_counts(m, "decision_outcomes"@, 7);
    crate::json::law_first_member_counts(m, "lexicon"@, 8);
    let lexicon = m[8].1->Object_0;
    assert(lexicon[0].0 == "content_hash"@);
    assert(lexicon[1].0 == "lexemes"@);
    crate::json::law_first_member_counts(lexicon, "content_hash"@, 0);
    crate::json::law_first_member_counts(lexicon, "lexemes"@, 1);
}

/// Of a decision that the store knows it is reported what became of it, under
/// its own id.
pub proof fn law_known_decision_is_reported(decision_id: int, d: DecisionState)
    ensures
        ({
            let j = outcome_report_view(decision_id, Some(d));
            &&& j.get("decision_id"@) == Some(JsonView::Int(d.id as int))
            &&& j.get("outcome"@) == Some(match d.outcome {
                Some(o) => JsonView::Text(o.name()),
                None => JsonView::Null,
            })
            &&& j.get("status"@) == Some(JsonView::Text(d.status@))
        }),
{
    reveal_strlit("decision_id");
    reveal_strlit("outcome");
    reveal_strlit("status");
    let m = outcome_report_view(decision_id, Some(d))->Object_0;
    assert(m[0].0 == "decision_id"@);
    assert(m[1].0 == "outcome"@);
    assert(m[2].0 == "status"@);
    crate::json::law_first_member_counts(m, "decision_id"@, 0);
    crate::json::law_first_member_counts(m, "outcome"@, 1);
    crate::json::law_first_member_counts(m, "status"@, 2);
}

/// A decision that the store does not know is reported as missing, under the id
/// that was declared.
pub proof fn law_unknown_decision_is_reported(decision_id: int)
    ensures
        ({
            let j = outcome_report_view(decision_id, None);
            &&& j.get("decision_id"@) == Some(JsonView::Int(decision_id))
            &&& j.get("missing"@) == Some(JsonView::Bool(true))
        }),
{
    reveal_strlit("decision_id");
    reveal_strlit("missing");
    let m = outcome_report_view(decision_id, None)->Object_0;
    assert(m[0].0 == "decision_id"@);
    assert(m[1].0 == "missing"@);
    crate::json::law_first_member_counts(m, "decision_id"@, 0);
    crate::json::law_first_member_counts(m, "missing"@, 1);
}

/// A request passes when it has messages that each have a role and a content,
/// and declares either nothing or decisions with an outcome. Messages are looked
/// at first.
pub proof fn law_conversations_are_compiled(args: JsonView, v: Seq<JsonView>, d: Seq<JsonView>)
    requires
        args.get("messages"@) == Some(JsonView::Array(v)),
    ensures
        compile_fault(args) is None ==> messages_fault(v) is None,
        messages_fault(v) is Some ==> compile_fault(args) == messages_fault(v),
        messages_fault(v) is None && args.get("decision_outcomes"@) is None ==> compile_fault(
            args,
        ) is None,
        messages_fault(v) is None && args.get("decision_outcomes"@) == Some(JsonView::Null)
            ==> compile_fault(args) is None,
        messages_fault(v) is None && args.get("decision_outcomes"@) == Some(JsonView::Array(d))
            ==> compile_fault(args) == declarations_fault(d),
        messages_fault(v) is None && args.get("decision_outcomes"@) is Some && !(args.get(
            "decision_outcomes"@,
        )->0 is Null) && !(args.get("decision_outcomes"@)->0 is Array) ==> compile_fault(args)
            is Some,
{
}

/// An agent is named by a text that is not empty.
pub proof fn law_agent_is_named(args: JsonView, name: Seq<char>)
    ensures
        named_agent(args) == Some(name) <==> args.get("agent_id"@) == Some(JsonView::Text(name))
            && name.len() > 0,
{
}

/// A decision that is kept as knowledge tells what was decided, and why.
pub proof fn law_kept_decision_tells_why(d: Decision)
    ensures
        exists|before: Seq<char>, between: Seq<char>|
            decision_text(d) == #[trigger] (before + d.decision@) + #[trigger] (between
                + d.rationale@),
{
    let before = "Decision: "@;
    let between = " — Rationale: "@;
    assert(decision_text(d) =~= (before + d.decision@) + (between + d.rationale@));
}

/// Outcomes have different names.
pub proof fn law_outcomes_have_different_names(a: DecisionOutcome, b: DecisionOutcome)
    ensures
        a.name() == b.name() ==> a == b,
{
    reveal_strlit("fulfilled");
    reveal_strlit("violated");
    assert("fulfilled"@.len() == 9
        && "violated"@.len() == 8);
}

} // verus!
