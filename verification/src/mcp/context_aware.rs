//! Watching how full a host's context is: below a threshold the call only
//! reports, at or above it the conversation is compiled and distilled and the
//! user's profile is built anew.
use vstd::prelude::*;

use crate::cognition::{fact_views, Fact, FactType, FactView, Score, ScoreView};
use crate::error::Error;
use crate::json::{
    count, elements, integer, member, object, strings, text, text_array, Json, JsonView,
};
use crate::mcp::args::{given_text, opt_str, str_or, text_or};
use crate::mcp::memory_compile::is_message_of;
use crate::mcp::relationship_tool::{id_or_null, nullable_id};
use crate::text::{ascending, cat3, insert_ascending, texts};
use crate::types::Message;

verus! {

/// The rank of the percentage 40.
pub const RANK_FORTY: i64 = 4_630_826_316_843_712_512;

/// The rank of the percentage 100.
pub const RANK_HUNDRED: i64 = 4_636_737_291_354_636_288;

/// The tool, over handles to the distiller and the fact store.
pub struct ContextCheckTool<D, S> {
    pub distiller: Option<D>,
    pub fact_store: S,
}

impl<D, S> ContextCheckTool<D, S> {
    /// A tool over these handles.
    pub fn new(distiller: Option<D>, fact_store: S) -> (t: ContextCheckTool<D, S>)
        ensures
            t.distiller == distiller,
            t.fact_store == fact_store,
    {
        ContextCheckTool { distiller, fact_store }
    }
}

/// A percentage computed elsewhere in floating point: a score, and its
/// notation rounded to a whole number.
#[derive(Debug)]
pub struct Percent {
    pub score: Score,
    pub whole: String,
}

/// The value of a percentage.
pub struct PercentView {
    pub score: ScoreView,
    pub whole: Seq<char>,
}

impl View for Percent {
    type V = PercentView;

    open spec fn view(&self) -> PercentView {
        PercentView { score: self.score@, whole: self.whole@ }
    }
}

impl PercentView {
    /// Zero.
    pub open spec fn zero() -> PercentView {
        PercentView { score: ScoreView::zero(), whole: "0"@ }
    }

    /// One.
    pub open spec fn one() -> PercentView {
        PercentView { score: ScoreView::one(), whole: "1"@ }
    }

    /// Forty.
    pub open spec fn forty() -> PercentView {
        PercentView { score: ScoreView { rank: RANK_FORTY as int, digits: "40.0"@ }, whole: "40"@ }
    }

    /// A hundred.
    pub open spec fn hundred() -> PercentView {
        PercentView {
            score: ScoreView { rank: RANK_HUNDRED as int, digits: "100.0"@ },
            whole: "100"@,
        }
    }

    /// The percentage, brought into the range from `low` to a hundred.
    pub open spec fn from(self, low: PercentView) -> PercentView {
        if self.score.rank < low.score.rank {
            low
        } else if self.score.rank > RANK_HUNDRED {
            PercentView::hundred()
        } else {
            self
        }
    }
}

impl Percent {
    /// Zero.
    pub fn zero() -> (p: Percent)
        ensures
            p@ == PercentView::zero(),
    {
        Percent { score: Score::zero(), whole: "0".to_owned() }
    }

    /// One.
    pub fn one() -> (p: Percent)
        ensures
            p@ == PercentView::one(),
    {
        Percent { score: Score::one(), whole: "1".to_owned() }
    }

    /// Forty.
    pub fn forty() -> (p: Percent)
        ensures
            p@ == PercentView::forty(),
    {
        Percent {
            score: Score { rank: RANK_FORTY, digits: "40.0".to_owned() },
            whole: "40".to_owned(),
        }
    }

    /// A hundred.
    pub fn hundred() -> (p: Percent)
        ensures
            p@ == PercentView::hundred(),
    {
        Percent {
            score: Score { rank: RANK_HUNDRED, digits: "100.0".to_owned() },
            whole: "100".to_owned(),
        }
    }

    /// The percentage, brought into the range from `low` to a hundred.
    fn hold_from(self, low: Percent) -> (p: Percent)
        ensures
            p@ == self@.from(low@),
    {
        if self.score.rank < low.score.rank {
            low
        } else if self.score.rank > RANK_HUNDRED {
            Percent::hundred()
        } else {
            self
        }
    }
}

/// The default threshold: 40 percent.
pub fn default_context_threshold() -> (p: Percent)
    ensures
        p@ == PercentView::forty(),
{
    Percent::forty()
}

/// The view of an optional percentage.
pub open spec fn opt_percent(p: Option<Percent>) -> Option<PercentView> {
    match p {
        Some(x) => Some(x@),
        None => None,
    }
}

/// The usage that counts: between 0 and 100, 0 when none is reported.
pub open spec fn counted_usage(reported: Option<PercentView>) -> PercentView {
    match reported {
        Some(p) => p.from(PercentView::zero()),
        None => PercentView::zero(),
    }
}

/// The threshold that counts: between 1 and 100, 40 when none is asked for.
pub open spec fn counted_threshold(asked: Option<PercentView>) -> PercentView {
    match asked {
        Some(p) => p.from(PercentView::one()),
        None => PercentView::forty(),
    }
}

/// What the reported usage calls for.
#[derive(Debug)]
pub struct ContextMode {
    pub usage: Percent,
    pub threshold: Percent,
    /// The conversation is to be compiled and distilled.
    pub triggered: bool,
}

/// Decide what the reported usage calls for: distillation when it reaches the
/// threshold.
pub fn context_mode(usage: Option<Percent>, threshold: Option<Percent>) -> (m: ContextMode)
    ensures
        m.usage@ == counted_usage(opt_percent(usage)),
        m.threshold@ == counted_threshold(opt_percent(threshold)),
        m.triggered == (m.usage@.score.rank >= m.threshold@.score.rank),
{
    let usage: Percent = match usage {
        Some(p) => p.hold_from(Percent::zero()),
        None => Percent::zero(),
    };
    let threshold: Percent = match threshold {
        Some(p) => p.hold_from(Percent::one()),
        None => default_context_threshold(),
    };
    let triggered: bool = usage.score.rank >= threshold.score.rank;
    ContextMode { usage, threshold, triggered }
}

/// How the user of a call is come by.
#[derive(Debug, Clone, Copy, PartialEq, Eq)]
pub enum UserAccess {
    /// Looked up only: an unknown user stays unknown, and nothing at all is
    /// written.
    Find,
    /// Looked up, and recorded when unknown.
    Resolve,
}

/// Decide how the user is come by: a call that does not distil only reads.
pub fn user_access(mode: &ContextMode) -> (a: UserAccess)
    ensures
        a is Find <==> !mode.triggered,
{
    if mode.triggered {
        UserAccess::Resolve
    } else {
        UserAccess::Find
    }
}

/// A full context always triggers distillation, whatever the threshold.
pub proof fn law_full_context_triggers(usage: PercentView, threshold: Option<PercentView>)
    requires
        usage.score.rank >= RANK_HUNDRED,
    ensures
        counted_usage(Some(usage)).score.rank >= counted_threshold(threshold).score.rank,
{
}

/// A call that reports no usage never triggers distillation.
pub proof fn law_no_report_never_triggers(threshold: Option<PercentView>)
    ensures
        counted_usage(None).score.rank < counted_threshold(threshold).score.rank,
{
}

/// What is wrong with a message, if anything.
pub open spec fn loose_fault(raw: JsonView) -> Option<Seq<char>> {
    if given_text(raw, "role"@) is None {
        Some("message missing `role`"@)
    } else if given_text(raw, "content"@) is None {
        Some("message missing `content`"@)
    } else {
        None
    }
}

/// The first fault among the messages.
pub open spec fn loose_faults(v: Seq<JsonView>) -> Option<Seq<char>>
    decreases v.len(),
{
    if v.len() == 0 {
        None
    } else {
        match loose_faults(v.drop_last()) {
            Some(f) => Some(f),
            None => loose_fault(v.last()),
        }
    }
}

/// A fault among the first messages is the fault of all.
pub proof fn lemma_loose_fault_stays(v: Seq<JsonView>, n: int)
    requires
        0 <= n <= v.len(),
        loose_faults(v.subrange(0, n)) is Some,
    ensures
        loose_faults(v) == loose_faults(v.subrange(0, n)),
    decreases v.len() - n,
{
    if n == v.len() {
        assert(v.subrange(0, n) == v);
    } else {
        assert(v.subrange(0, n + 1).drop_last() == v.subrange(0, n));
        lemma_loose_fault_stays(v, n + 1);
    }
}

/// Read one message; what is no object has no `role`.
pub fn read_message(raw: &Json) -> (r: Result<Message, Error>)
    ensures
        match r {
            Ok(m) => loose_fault(raw@) is None && is_message_of(m, raw@),
            Err(e) => e is InvalidInput && loose_fault(raw@) == Some(e.text()),
        },
{
    let role: String = match opt_str(raw, "role") {
        Some(s) => s,
        None => {
            return Err(Error::InvalidInput("message missing `role`".to_owned()));
        },
    };
    let content: String = match opt_str(raw, "content") {
        Some(s) => s,
        None => {
            return Err(Error::InvalidInput("message missing `content`".to_owned()));
        },
    };
    Ok(
        Message {
            role,
            content,
            turn_id: opt_str(raw, "turn_id"),
            tool_call_id: opt_str(raw, "tool_call_id"),
        },
    )
}

/// Read the messages; the first fault fails them all.
pub fn parse_messages(values: &Vec<Json>) -> (r: Result<Vec<Message>, Error>)
    ensures
        match r {
            Ok(v) => {
                &&& loose_faults(elements(values@)) is None
                &&& v@.len() == values@.len()
                &&& forall|i: int|
                    0 <= i < v@.len() ==> is_message_of(#[trigger] v@[i], elements(values@)[i])
            },
            Err(e) => e is InvalidInput && loose_faults(elements(values@)) == Some(e.text()),
        },
{
    let mut v: Vec<Message> = Vec::new();
    let ghost all = elements(values@);
    let mut i: usize = 0;
    while i < values.len()
        invariant
            i <= values@.len(),
            all == elements(values@),
            v@.len() == i,
            loose_faults(all.subrange(0, i as int)) is None,
            forall|k: int| 0 <= k < i ==> is_message_of(#[trigger] v@[k], all[k]),
        decreases values.len() - i,
    {
        let ghost now = all.subrange(0, i + 1);
        assert(now.drop_last() == all.subrange(0, i as int));
        assert(now.last() == values@[i as int]@);
        match read_message(&values[i]) {
            Ok(m) => {
                v.push(m);
            },
            Err(e) => {
                proof {
                    lemma_loose_fault_stays(all, i + 1);
                }
                return Err(e);
            },
        }
        i = i + 1;
    }
    assert(all.subrange(0, all.len() as int) == all);
    Ok(v)
}

/// A request to check the context.
#[derive(Debug)]
pub struct ContextRequest {
    pub messages: Vec<Message>,
    pub tenant_id: String,
    pub user_id: String,
    pub conversation_id: String,
}

/// What is wrong with a request, if anything.
pub open spec fn context_fault(args: JsonView) -> Option<Seq<char>> {
    match args.get("messages"@) {
        Some(JsonView::Array(v)) => loose_faults(v),
        _ => Some("missing `messages` array"@),
    }
}

/// Read a request.
pub fn context_request(args: &Json) -> (r: Result<ContextRequest, Error>)
    ensures
        match r {
            Ok(q) => {
                &&& context_fault(args@) is None
                &&& args@.get("messages"@) matches Some(JsonView::Array(raw)) && {
                    &&& q.messages@.len() == raw.len()
                    &&& forall|i: int|
                        0 <= i < raw.len() ==> is_message_of(#[trigger] q.messages@[i], raw[i])
                }
                &&& q.tenant_id@ == text_or(args@, "tenant_id"@, "default"@)
                &&& q.user_id@ == text_or(args@, "user_id"@, ""@)
                &&& q.conversation_id@ == text_or(args@, "conversation_id"@, "context-check"@)
            },
            Err(e) => e is InvalidInput && context_fault(args@) == Some(e.text()),
        },
{
    let raw: &Vec<Json> = match args.get("messages") {
        Some(v) => match v.as_array() {
            Some(l) => l,
            None => {
                return Err(Error::InvalidInput("missing `messages` array".to_owned()));
            },
        },
        None => {
            return Err(Error::InvalidInput("missing `messages` array".to_owned()));
        },
    };
    match parse_messages(raw) {
        Ok(messages) => Ok(
            ContextRequest {
                messages,
                tenant_id: str_or(args, "tenant_id", "default"),
                user_id: str_or(args, "user_id", ""),
                conversation_id: str_or(args, "conversation_id", "context-check"),
            },
        ),
        Err(e) => Err(e),
    }
}

/// The contents of the facts of a facet, in order; a fact without one counts
/// as the empty text.
pub open spec fn contents_of(facts: Seq<FactView>, facet: FactType) -> Seq<Seq<char>>
    decreases facts.len(),
{
    if facts.len() == 0 {
        Seq::empty()
    } else {
        let before = contents_of(facts.drop_last(), facet);
        if facts.last().fact_type == facet {
            before.push(content_or_empty(facts.last()))
        } else {
            before
        }
    }
}

/// The content of a fact, or the empty text.
pub open spec fn content_or_empty(fact: FactView) -> Seq<char> {
    match fact.text_of("content"@) {
        Some(s) => s,
        None => ""@,
    }
}

/// `v` holds each of the texts in `all` once, in ascending order.
pub open spec fn sorted_unique(v: Seq<Seq<char>>, all: Seq<Seq<char>>) -> bool {
    &&& ascending(v)
    &&& forall|t: Seq<char>| #[trigger] v.contains(t) <==> all.contains(t)
}

/// The facet has a bucket of its own in a profile.
pub open spec fn profiled(facet: FactType) -> bool {
    facet is Preference || facet is Goal || facet is Emotion || facet is Identity
        || facet is Occupation
}

/// How many of the facts are of a facet without a bucket.
pub open spec fn unprofiled(facts: Seq<FactView>) -> nat
    decreases facts.len(),
{
    if facts.len() == 0 {
        0
    } else {
        unprofiled(facts.drop_last()) + (if profiled(facts.last().fact_type) {
            0nat
        } else {
            1nat
        })
    }
}

/// What is known of a user, by facet.
#[derive(Debug)]
pub struct UserProfile {
    pub entity_id: i64,
    pub preferences: Vec<String>,
    pub goals: Vec<String>,
    pub emotions: Vec<String>,
    pub identity: Vec<String>,
    pub occupation: Vec<String>,
    pub others: u64,
}

impl UserProfile {
    /// The profile sums up the facts.
    pub open spec fn sums_up(self, facts: Seq<FactView>) -> bool {
        &&& sorted_unique(texts(self.preferences@), contents_of(facts, FactType::Preference))
        &&& sorted_unique(texts(self.goals@), contents_of(facts, FactType::Goal))
        &&& sorted_unique(texts(self.emotions@), contents_of(facts, FactType::Emotion))
        &&& sorted_unique(texts(self.identity@), contents_of(facts, FactType::Identity))
        &&& sorted_unique(texts(self.occupation@), contents_of(facts, FactType::Occupation))
        &&& self.others == unprofiled(facts)
    }

    /// The profile on the wire.
    pub open spec fn wire(self) -> JsonView {
        JsonView::Object(
            seq![
                ("entity_id"@, JsonView::Int(self.entity_id as int)),
                ("preferences"@, text_array(texts(self.preferences@))),
                ("goals"@, text_array(texts(self.goals@))),
                ("emotions"@, text_array(texts(self.emotions@))),
                ("identity"@, text_array(texts(self.identity@))),
                ("occupation"@, text_array(texts(self.occupation@))),
                ("other_facts"@, JsonView::Int(self.others as int)),
            ],
        )
    }

    /// The profile on the wire.
    pub fn to_json(&self) -> (j: Json)
        ensures
            j@ == self.wire(),
    {
        let j: Json = object(
            vec![
                member("entity_id", integer(self.entity_id)),
                member("preferences", strings(&self.preferences)),
                member("goals", strings(&self.goals)),
                member("emotions", strings(&self.emotions)),
                member("identity", strings(&self.identity)),
                member("occupation", strings(&self.occupation)),
                member("other_facts", count(self.others)),
            ],
        );
        assert(j@->Object_0 =~= self.wire()->Object_0);
        j
    }
}

/// The statements of a facet have one sorted form, so a profile depends on
/// the facts alone.
pub proof fn law_profile_is_determined(
    a: Seq<Seq<char>>,
    b: Seq<Seq<char>>,
    all: Seq<Seq<char>>,
)
    requires
        sorted_unique(a, all),
        sorted_unique(b, all),
    ensures
        a == b,
{
    crate::text::law_ascending_lists_agree(a, b);
}

/// One more text keeps a list sorted and complete.
proof fn lemma_one_more(
    before: Seq<Seq<char>>,
    after: Seq<Seq<char>>,
    all: Seq<Seq<char>>,
    s: Seq<char>,
)
    requires
        sorted_unique(before, all),
        ascending(after),
        forall|t: Seq<char>| #[trigger] after.contains(t) <==> before.contains(t) || t == s,
    ensures
        sorted_unique(after, all.push(s)),
{
    let more = all.push(s);
    assert forall|t: Seq<char>| #[trigger] after.contains(t) <==> more.contains(t) by {
        if all.contains(t) {
            let k = choose|k: int| 0 <= k < all.len() && all[k] == t;
            assert(more[k] == t);
        }
        assert(more[all.len() as int] == s);
        if more.contains(t) && t != s {
            let k = choose|k: int| 0 <= k < more.len() && more[k] == t;
            assert(all[k] == t);
        }
    }
}

/// Sum up the facts of a user: for each facet the statements, each once and
/// in ascending order.
pub fn build_user_profile(facts: &Vec<Fact>, entity_id: i64) -> (p: UserProfile)
    ensures
        p.entity_id == entity_id,
        p.sums_up(fact_views(facts@)),
{
    let mut p = UserProfile {
        entity_id,
        preferences: Vec::new(),
        goals: Vec::new(),
        emotions: Vec::new(),
        identity: Vec::new(),
        occupation: Vec::new(),
        others: 0,
    };
    let ghost all = fact_views(facts@);
    let mut i: usize = 0;
    assert(all.subrange(0, 0) =~= Seq::empty());
    while i < facts.len()
        invariant
            i <= facts@.len(),
            all == fact_views(facts@),
            p.entity_id == entity_id,
            p.others <= i,
            p.sums_up(all.subrange(0, i as int)),
        decreases facts.len() - i,
    {
        let ghost now = all.subrange(0, i + 1);
        let ghost old_p = p;
        assert(now.drop_last() == all.subrange(0, i as int));
        assert(now.last() == facts@[i as int]@);
        let content: &str = match facts[i].text_of("content") {
            Some(s) => s,
            None => "",
        };
        match facts[i].fact_type {
            FactType::Preference => {
                insert_ascending(&mut p.preferences, content);
                proof {
                    lemma_one_more(
                        texts(old_p.preferences@),
                        texts(p.preferences@),
                        contents_of(now.drop_last(), FactType::Preference),
                        content@,
                    );
                }
            },
            FactType::Goal => {
                insert_ascending(&mut p.goals, content);
                proof {
                    lemma_one_more(
                        texts(old_p.goals@),
                        texts(p.goals@),
                        contents_of(now.drop_last(), FactType::Goal),
                        content@,
                    );
                }
            },
            FactType::Emotion => {
                insert_ascending(&mut p.emotions, content);
                proof {
                    lemma_one_more(
                        texts(old_p.emotions@),
                        texts(p.emotions@),
                        contents_of(now.drop_last(), FactType::Emotion),
                        content@,
                    );
                }
            },
            FactType::Identity => {
                insert_ascending(&mut p.identity, content);
                proof {
                    lemma_one_more(
                        texts(old_p.identity@),
                        texts(p.identity@),
                        contents_of(now.drop_last(), FactType::Identity),
                        content@,
                    );
                }
            },
            FactType::Occupation => {
                insert_ascending(&mut p.occupation, content);
                proof {
                    lemma_one_more(
                        texts(old_p.occupation@),
                        texts(p.occupation@),
                        contents_of(now.drop_last(), FactType::Occupation),
                        content@,
                    );
                }
            },
            _ => {
                p.others = p.others + 1;
            },
        }
        i = i + 1;
    }
    assert(all.subrange(0, all.len() as int) == all);
    p
}

/// The report below the threshold. Of a user who is not known there are no
/// facts.
pub open spec fn idle_report(
    usage: PercentView,
    threshold: PercentView,
    user_entity_id: Option<i64>,
    facts: int,
) -> JsonView {
    JsonView::Object(
        seq![
            ("context_usage_percent"@, usage.score.number()),
            ("threshold_percent"@, threshold.score.number()),
            ("distill_mode"@, JsonView::Bool(false)),
            (
                "reason"@,
                JsonView::Text(
                    "context usage "@ + usage.whole + "% below threshold "@ + threshold.whole
                        + "% — no distillation"@,
                ),
            ),
            (
                "current"@,
                JsonView::Object(
                    seq![
                        ("user_entity_id"@, id_or_null(user_entity_id)),
                        (
                            "facts"@,
                            JsonView::Int(
                                if user_entity_id is Some {
                                    facts
                                } else {
                                    0
                                },
                            ),
                        ),
                    ],
                ),
            ),
        ],
    )
}

/// Report below the threshold, with the user and the number of their facts when
/// the user is known.
pub fn idle_reply(mode: &ContextMode, user_entity_id: Option<i64>, facts: u64) -> (j: Json)
    ensures
        j@ == idle_report(mode.usage@, mode.threshold@, user_entity_id, facts as int),
{
    let ghost want = idle_report(mode.usage@, mode.threshold@, user_entity_id, facts as int);
    let head: String = cat3("context usage ", mode.usage.whole.as_str(), "% below threshold ");
    let reason: String = cat3(
        head.as_str(),
        mode.threshold.whole.as_str(),
        "% — no distillation",
    );
    let current: Json = object(
        vec![
            member("user_entity_id", nullable_id(user_entity_id)),
            member(
                "facts",
                count(
                    if user_entity_id.is_some() {
                        facts
                    } else {
                        0
                    },
                ),
            ),
        ],
    );
    assert(current@->Object_0 =~= want->Object_0[4].1->Object_0);
    let j: Json = object(
        vec![
            member("context_usage_percent", mode.usage.score.number()),
            member("threshold_percent", mode.threshold.score.number()),
            member("distill_mode", Json::Bool(false)),
            member("reason", text(reason.as_str())),
            member("current", current),
        ],
    );
    assert(j@->Object_0 =~= want->Object_0);
    j
}

/// What a distillation amounted to.
#[derive(Debug)]
pub struct DistillCounts {
    pub observations: u64,
    pub facts_compiled: u64,
    pub facts_stored: u64,
    pub distilled_memories: u64,
}

/// The report after a distillation.
pub open spec fn distilled_report(
    usage: PercentView,
    threshold: PercentView,
    counts: DistillCounts,
    profile: JsonView,
) -> JsonView {
    JsonView::Object(
        seq![
            ("context_usage_percent"@, usage.score.number()),
            ("threshold_percent"@, threshold.score.number()),
            ("distill_mode"@, JsonView::Bool(true)),
            (
                "reason"@,
                JsonView::Text("context usage exceeded threshold — distillation activated"@),
            ),
            (
                "compiled"@,
                JsonView::Object(
                    seq![
                        ("observations"@, JsonView::Int(counts.observations as int)),
                        ("facts_compiled"@, JsonView::Int(counts.facts_compiled as int)),
                        ("facts_stored"@, JsonView::Int(counts.facts_stored as int)),
                        ("distilled_memories"@, JsonView::Int(counts.distilled_memories as int)),
                    ],
                ),
            ),
            ("profile"@, profile),
        ],
    )
}

/// Report after a distillation.
pub fn distilled_reply(mode: &ContextMode, counts: &DistillCounts, profile: &UserProfile) -> (j: Json)
    ensures
        j@ == distilled_report(mode.usage@, mode.threshold@, *counts, profile.wire()),
{
    let ghost want = distilled_report(mode.usage@, mode.threshold@, *counts, profile.wire());
    let compiled: Json = object(
        vec![
            member("observations", count(counts.observations)),
            member("facts_compiled", count(counts.facts_compiled)),
            member("facts_stored", count(counts.facts_stored)),
            member("distilled_memories", count(counts.distilled_memories)),
        ],
    );
    assert(compiled@->Object_0 =~= want->Object_0[4].1->Object_0);
    let j: Json = object(
        vec![
            member("context_usage_percent", mode.usage.score.number()),
            member("threshold_percent", mode.threshold.score.number()),
            member("distill_mode", Json::Bool(true)),
            member("reason", text("context usage exceeded threshold — distillation activated")),
            member("compiled", compiled),
            member("profile", profile.to_json()),
        ],
    );
    assert(j@->Object_0 =~= want->Object_0);
    j
}

/// Within their ranges the usage and the threshold count as they are, from 0
/// and from 1 up to 100; what lies outside counts as the nearest end. Without a
/// report the usage counts as 0, and without a wish the threshold as 40.
pub proof fn law_percentages_are_held_to_their_range(p: PercentView)
    ensures
        0 <= p.score.rank <= 4_636_737_291_354_636_288 ==> counted_usage(Some(p)) == p,
        p.score.rank < 0 ==> counted_usage(Some(p)).score.rank == 0,
        p.score.rank > 4_636_737_291_354_636_288 ==> counted_usage(Some(p)).score.rank
            == 4_636_737_291_354_636_288,
        4_607_182_418_800_017_408 <= p.score.rank <= 4_636_737_291_354_636_288
            ==> counted_threshold(Some(p)) == p,
        p.score.rank < 4_607_182_418_800_017_408 ==> counted_threshold(Some(p)).score.rank
            == 4_607_182_418_800_017_408,
        p.score.rank > 4_636_737_291_354_636_288 ==> counted_threshold(Some(p)).score.rank
            == 4_636_737_291_354_636_288,
        counted_usage(None).score.rank == 0,
        counted_threshold(None).score.rank == 4_630_826_316_843_712_512,
        counted_threshold(None).score.digits == "40.0"@,
{
}

/// More usage never stops a distillation, and a lower threshold never does.
pub proof fn law_more_usage_keeps_triggering(
    usage: PercentView,
    more: PercentView,
    threshold: PercentView,
    lower: PercentView,
)
    requires
        usage.score.rank <= more.score.rank,
        lower.score.rank <= threshold.score.rank,
        counted_usage(Some(usage)).score.rank >= counted_threshold(Some(threshold)).score.rank,
    ensures
        counted_usage(Some(more)).score.rank >= counted_threshold(Some(threshold)).score.rank,
        counted_usage(Some(usage)).score.rank >= counted_threshold(Some(lower)).score.rank,
{
}

/// The contents of a facet are those of its facts.
proof fn lemma_contents_of(facts: Seq<FactView>, facet: FactType, s: Seq<char>)
    ensures
        contents_of(facts, facet).contains(s) <==> exists|i: int|
            0 <= i < facts.len() && (#[trigger] facts[i]).fact_type == facet && content_or_empty(
                facts[i],
            ) == s,
    decreases facts.len(),
{
    if facts.len() > 0 {
        let front = facts.drop_last();
        let before = contents_of(front, facet);
        let all = contents_of(facts, facet);
        lemma_contents_of(front, facet, s);
        if before.contains(s) {
            let k = choose|k: int| 0 <= k < before.len() && before[k] == s;
            assert(all[k] == s);
            let i = choose|i: int|
                0 <= i < front.len() && (#[trigger] front[i]).fact_type == facet
                    && content_or_empty(front[i]) == s;
            assert(facts[i] == front[i]);
        }
        if facts.last().fact_type == facet {
            assert(all[before.len() as int] == content_or_empty(facts.last()));
            assert(facts[facts.len() - 1] == facts.last());
        }
        if all.contains(s) && !before.contains(s) {
            let k = choose|k: int| 0 <= k < all.len() && all[k] == s;
            if k < before.len() {
                assert(before[k] == s);
            }
            assert(facts[facts.len() - 1].fact_type == facet);
        }
        if exists|i: int|
            0 <= i < facts.len() && (#[trigger] facts[i]).fact_type == facet && content_or_empty(
                facts[i],
            ) == s {
            let i = choose|i: int|
                0 <= i < facts.len() && (#[trigger] facts[i]).fact_type == facet
                    && content_or_empty(facts[i]) == s;
            if i < front.len() {
                assert(front[i] == facts[i]);
            }
        }
    }
}

/// A profile says what the facts say, each statement under its own facet: it is
/// in the list of a facet exactly when a fact of that facet states it. In each
/// list no statement stands twice.
pub proof fn law_profile_says_what_the_facts_say(
    p: UserProfile,
    facts: Seq<FactView>,
    s: Seq<char>,
)
    requires
        p.sums_up(facts),
    ensures
        texts(p.preferences@).contains(s) <==> exists|i: int|
            0 <= i < facts.len() && (#[trigger] facts[i]).fact_type == FactType::Preference
                && content_or_empty(facts[i]) == s,
        texts(p.goals@).contains(s) <==> exists|i: int|
            0 <= i < facts.len() && (#[trigger] facts[i]).fact_type == FactType::Goal
                && content_or_empty(facts[i]) == s,
        texts(p.emotions@).contains(s) <==> exists|i: int|
            0 <= i < facts.len() && (#[trigger] facts[i]).fact_type == FactType::Emotion
                && content_or_empty(facts[i]) == s,
        texts(p.identity@).contains(s) <==> exists|i: int|
            0 <= i < facts.len() && (#[trigger] facts[i]).fact_type == FactType::Identity
                && content_or_empty(facts[i]) == s,
        texts(p.occupation@).contains(s) <==> exists|i: int|
            0 <= i < facts.len() && (#[trigger] facts[i]).fact_type == FactType::Occupation
                && content_or_empty(facts[i]) == s,
{
    lemma_contents_of(facts, FactType::Preference, s);
    lemma_contents_of(facts, FactType::Goal, s);
    lemma_contents_of(facts, FactType::Emotion, s);
    lemma_contents_of(facts, FactType::Identity, s);
    lemma_contents_of(facts, FactType::Occupation, s);
}

/// What a fact states is its content, where that is a text.
pub proof fn law_content_is_what_a_fact_states(fact: FactView)
    ensures
        match fact.payload.get("content"@) {
            Some(JsonView::Text(s)) => content_or_empty(fact) == s,
            _ => content_or_empty(fact).len() == 0,
        },
{
    reveal_strlit("");
}

/// A fact of a facet that has no list of its own is counted, and no other.
pub proof fn law_other_facts_are_counted(facts: Seq<FactView>, f: FactView)
    ensures
        unprofiled(Seq::empty()) == 0,
        unprofiled(facts.push(f)) == unprofiled(facts) + (if f.fact_type == FactType::Relationship
            || f.fact_type == FactType::Event || f.fact_type == FactType::Interest {
            1nat
        } else {
            0
        }),
{
    assert(facts.push(f).drop_last() =~= facts);
}

/// Messages pass exactly when each has a role and a content in words, and the
/// first that has not says what is wrong.
pub proof fn law_loose_messages_need_role_and_content(v: Seq<JsonView>)
    ensures
        loose_faults(v) is None <==> forall|i: int|
            0 <= i < v.len() ==> given_text(#[trigger] v[i], "role"@) is Some && given_text(
                v[i],
                "content"@,
            ) is Some,
        loose_faults(v) is Some ==> exists|i: int|
            {
                &&& 0 <= i < v.len()
                &&& loose_fault(#[trigger] v[i]) == loose_faults(v)
                &&& forall|k: int| 0 <= k < i ==> loose_fault(#[trigger] v[k]) is None
            },
    decreases v.len(),
{
    if v.len() > 0 {
        let front = v.drop_last();
        law_loose_messages_need_role_and_content(front);
        assert(v[v.len() - 1] == v.last());
        if loose_faults(front) is Some {
            let i = choose|i: int|
                {
                    &&& 0 <= i < front.len()
                    &&& loose_fault(#[trigger] front[i]) == loose_faults(front)
                    &&& forall|k: int| 0 <= k < i ==> loose_fault(#[trigger] front[k]) is None
                };
            assert(v[i] == front[i]);
            assert forall|k: int| 0 <= k < i implies loose_fault(#[trigger] v[k]) is None by {
                assert(front[k] == v[k]);
            }
            assert(given_text(v[i], "role"@) is None || given_text(v[i], "content"@) is None);
        } else {
            assert forall|k: int| 0 <= k < front.len() implies loose_fault(#[trigger] v[k]) is None
                && given_text(v[k], "role"@) is Some && given_text(v[k], "content"@) is Some by {
                assert(front[k] == v[k]);
            }
        }
    }
}

/// A profile is told facet by facet.
pub proof fn law_profile_is_told(p: UserProfile)
    ensures
        ({
            let j = p.wire();
            &&& j.get("entity_id"@) == Some(JsonView::Int(p.entity_id as int))
            &&& j.get("preferences"@) == Some(text_array(texts(p.preferences@)))
            &&& j.get("goals"@) == Some(text_array(texts(p.goals@)))
            &&& j.get("emotions"@) == Some(text_array(texts(p.emotions@)))
            &&& j.get("identity"@) == Some(text_array(texts(p.identity@)))
            &&& j.get("occupation"@) == Some(text_array(texts(p.occupation@)))
            &&& j.get("other_facts"@) == Some(JsonView::Int(p.others as int))
        }),
{
    reveal_strlit("entity_id");
    reveal_strlit("preferences");
    reveal_strlit("goals");
    reveal_strlit("emotions");
    reveal_strlit("identity");
    reveal_strlit("occupation");
    reveal_strlit("other_facts");
    assert("emotions"@[0] == 'e');
    assert("identity"@[0] == 'i');
    assert("other_facts"@[0] == 'o');
    assert("preferences"@[0] == 'p');
    let m = p.wire()->Object_0;
    assert(m[0].0 == "entity_id"@);
    assert(m[1].0 == "preferences"@);
    assert(m[2].0 == "goals"@);
    assert(m[3].0 == "emotions"@);
    assert(m[4].0 == "identity"@);
    assert(m[5].0 == "occupation"@);
    assert(m[6].0 == "other_facts"@);
    crate::json::law_first_member_counts(m, "entity_id"@, 0);
    crate::json::law_first_member_counts(m, "preferences"@, 1);
    crate::json::law_first_member_counts(m, "goals"@, 2);
    crate::json::law_first_member_counts(m, "emotions"@, 3);
    crate::json::law_first_member_counts(m, "identity"@, 4);
    crate::json::law_first_member_counts(m, "occupation"@, 5);
    crate::json::law_first_member_counts(m, "other_facts"@, 6);
}

/// The report says how full the context is, what the threshold is, and that
/// nothing was distilled.
pub proof fn law_report_tells_the_mode(
    usage: PercentView,
    threshold: PercentView,
    user_entity_id: Option<i64>,
    facts: int,
)
    ensures
        ({
            let j = idle_report(usage, threshold, user_entity_id, facts);
            &&& j.get("context_usage_percent"@) == Some(JsonView::Other(usage.score.digits))
            &&& j.get("threshold_percent"@) == Some(JsonView::Other(threshold.score.digits))
            &&& j.get("distill_mode"@) == Some(JsonView::Bool(false))
            &&& j.get("reason"@) == Some(JsonView::Text(
                "context usage "@ + usage.whole + "% below threshold "@ + threshold.whole
                    + "% — no distillation"@,
            ))
            &&& j.get("current"@) is Some
            &&& j.get("current"@)->0.get("user_entity_id"@) == Some(id_or_null(user_entity_id))
            &&& j.get("current"@)->0.get("facts"@) == Some(JsonView::Int(if user_entity_id is Some { facts } else { 0 }))
        }),
{
    reveal_strlit("context_usage_percent");
    reveal_strlit("threshold_percent");
    reveal_strlit("distill_mode");
    reveal_strlit("reason");
    reveal_strlit("current");
    reveal_strlit("user_entity_id");
    reveal_strlit("facts");
    let m = idle_report(usage, threshold, user_entity_id, facts)->Object_0;
    assert(m[0].0 == "context_usage_percent"@);
    assert(m[1].0 == "threshold_percent"@);
    assert(m[2].0 == "distill_mode"@);
    assert(m[3].0 == "reason"@);
    assert(m[4].0 == "current"@);
    crate::json::law_first_member_counts(m, "context_usage_percent"@, 0);
    crate::json::law_first_member_counts(m, "threshold_percent"@, 1);
    crate::json::law_first_member_counts(m, "distill_mode"@, 2);
    crate::json::law_first_member_counts(m, "reason"@, 3);
    crate::json::law_first_member_counts(m, "current"@, 4);
    let current = m[4].1->Object_0;
    assert(current[0].0 == "user_entity_id"@);
    assert(current[1].0 == "facts"@);
    crate::json::law_first_member_counts(current, "user_entity_id"@, 0);
    crate::json::law_first_member_counts(current, "facts"@, 1);
}

/// After a distillation the report says so, with the profile that came of it.
pub proof fn law_distillation_is_told(
    usage: PercentView,
    threshold: PercentView,
    counts: DistillCounts,
    profile: JsonView,
)
    ensures
        ({
            let j = distilled_report(usage, threshold, counts, profile);
            &&& j.get("context_usage_percent"@) == Some(JsonView::Other(usage.score.digits))
            &&& j.get("threshold_percent"@) == Some(JsonView::Other(threshold.score.digits))
            &&& j.get("distill_mode"@) == Some(JsonView::Bool(true))
            &&& j.get("reason"@) == Some(JsonView::Text(
                "context usage exceeded threshold — distillation activated"@,
            ))
            &&& j.get("compiled"@) is Some
            &&& j.get("compiled"@)->0.get("observations"@) == Some(JsonView::Int(counts.observations as int))
            &&& j.get("compiled"@)->0.get("facts_compiled"@) == Some(JsonView::Int(counts.facts_compiled as int))
            &&& j.get("compiled"@)->0.get("facts_stored"@) == Some(JsonView::Int(counts.facts_stored as int))
            &&& j.get("compiled"@)->0.get("distilled_memories"@) == Some(JsonView::Int(counts.distilled_memories as int))
            &&& j.get("profile"@) == Some(profile)
        }),
{
    reveal_strlit("context_usage_percent");
    reveal_strlit("threshold_percent");
    reveal_strlit("distill_mode");
    reveal_strlit("reason");
    reveal_strlit("compiled");
    reveal_strlit("profile");
    reveal_strlit("observations");
    reveal_strlit("facts_compiled");
    reveal_strlit("facts_stored");
    reveal_strlit("distilled_memories");
    assert("facts_stored"@[0] == 'f');
    assert("observations"@[0] == 'o');
    let m = distilled_report(usage, threshold, counts, profile)->Object_0;
    assert(m[0].0 == "context_usage_percent"@);
    assert(m[1].0 == "threshold_percent"@);
    assert(m[2].0 == "distill_mode"@);
    assert(m[3].0 == "reason"@);
    assert(m[4].0 == "compiled"@);
    assert(m[5].0 == "profile"@);
    crate::json::law_first_member_counts(m, "context_usage_percent"@, 0);
    crate::json::law_first_member_counts(m, "threshold_percent"@, 1);
    crate::json::law_first_member_counts(m, "distill_mode"@, 2);
    crate::json::law_first_member_counts(m, "reason"@, 3);
    crate::json::law_first_member_counts(m, "compiled"@, 4);
    crate::json::law_first_member_counts(m, "profile"@, 5);
    let compiled = m[4].1->Object_0;
    assert(compiled[0].0 == "observations"@);
    assert(compiled[1].0 == "facts_compiled"@);
    assert(compiled[2].0 == "facts_stored"@);
    assert(compiled[3].0 == "distilled_memories"@);
    crate::json::law_first_member_counts(compiled, "observations"@, 0);
    crate::json::law_first_member_counts(compiled, "facts_compiled"@, 1);
    crate::json::law_first_member_counts(compiled, "facts_stored"@, 2);
    crate::json::law_first_member_counts(compiled, "distilled_memories"@, 3);
}

} // verus!
