//! Why an agent acted as it did: decisions, and the facts that support them.
use vstd::prelude::*;

use crate::cognition::{Fact, FactView};
use crate::error::Error;
use crate::json::{array, integer, member, object, text, Json, JsonView};
use crate::mcp::args::{given_int, opt_int};
use crate::mcp::knowledge_tools::missing;
use crate::mcp::memory_compile::DecisionOutcome;
use crate::mcp::relationship_tool::{id_or_null, nullable_id, opt_fact};
use crate::text::{cat, cat3, signed_decimal, signed_text};

verus! {

/// The tool that traces a decision, over a handle to the fact store.
pub struct DecisionTraceTool<S> {
    pub store: S,
}

impl<S> DecisionTraceTool<S> {
    /// A tool over this store.
    pub fn new(store: S) -> (t: DecisionTraceTool<S>)
        ensures
            t.store == store,
    {
        DecisionTraceTool { store }
    }
}

/// The tool that searches decisions, over a handle to the fact store.
pub struct DecisionSearchTool<S> {
    pub store: S,
}

impl<S> DecisionSearchTool<S> {
    /// A tool over this store.
    pub fn new(store: S) -> (t: DecisionSearchTool<S>)
        ensures
            t.store == store,
    {
        DecisionSearchTool { store }
    }
}

/// A decision as it is stored.
#[derive(Debug)]
pub struct DecisionRecord {
    pub id: Option<i64>,
    /// Who decided.
    pub subject: i64,
    pub verb: String,
    pub object: String,
    pub made_at: i64,
    /// The facts that support it.
    pub because: Vec<i64>,
    pub outcome: Option<DecisionOutcome>,
    pub status: String,
}

/// A supporting fact on the wire: what the store holds of it, or that it is
/// missing.
pub open spec fn support_wire(id: i64, fact: Option<FactView>) -> JsonView {
    match fact {
        Some(f) => JsonView::Object(
            seq![
                ("fact_id"@, id_or_null(f.id)),
                ("fact_type"@, JsonView::Text(f.fact_type.name())),
                ("content"@, content_wire(f)),
                ("status"@, JsonView::Text(f.status)),
            ],
        ),
        None => JsonView::Object(
            seq![("fact_id"@, JsonView::Int(id as int)), ("missing"@, JsonView::Bool(true))],
        ),
    }
}

/// The content of a fact, whatever it is; `null` when there is none.
pub open spec fn content_wire(f: FactView) -> JsonView {
    match f.payload.get("content"@) {
        Some(v) => v,
        None => JsonView::Null,
    }
}

/// The content of a fact, whatever it is; `null` when there is none.
pub fn content_to_json(f: &Fact) -> (j: Json)
    ensures
        j@ == content_wire(f@),
{
    match f.payload.get("content") {
        Some(v) => v.copy(),
        None => Json::Null,
    }
}

/// A supporting fact on the wire.
pub fn support_to_json(id: i64, fact: &Option<Fact>) -> (j: Json)
    ensures
        j@ == support_wire(id, opt_fact(*fact)),
{
    match fact {
        Some(f) => {
            let j: Json = object(
                vec![
                    member("fact_id", nullable_id(f.id)),
                    member("fact_type", text(f.fact_type.label())),
                    member("content", content_to_json(f)),
                    member("status", text(f.status.as_str())),
                ],
            );
            assert(j@->Object_0 =~= support_wire(id, opt_fact(*fact))->Object_0);
            j
        },
        None => {
            let j: Json = object(
                vec![member("fact_id", integer(id)), member("missing", Json::Bool(true))],
            );
            assert(j@->Object_0 =~= support_wire(id, opt_fact(*fact))->Object_0);
            j
        },
    }
}

/// The outcome as a JSON value, `null` when there is none.
pub open spec fn outcome_or_null(o: Option<DecisionOutcome>) -> JsonView {
    match o {
        Some(x) => JsonView::Text(x.name()),
        None => JsonView::Null,
    }
}

/// A decision on the wire; `facts` are the supporting facts that the store
/// holds, in the order of `because`.
pub open spec fn decision_wire(d: DecisionRecord, facts: Seq<Option<Fact>>) -> JsonView {
    JsonView::Object(
        seq![
            ("decision_id"@, id_or_null(d.id)),
            ("subject"@, JsonView::Int(d.subject as int)),
            ("verb"@, JsonView::Text(d.verb@)),
            ("object"@, JsonView::Text(d.object@)),
            ("made_at"@, JsonView::Int(d.made_at as int)),
            (
                "because"@,
                JsonView::Array(
                    Seq::new(
                        d.because@.len(),
                        |i: int| support_wire(d.because@[i], opt_fact(facts[i])),
                    ),
                ),
            ),
            ("outcome"@, outcome_or_null(d.outcome)),
            ("status"@, JsonView::Text(d.status@)),
        ],
    )
}

/// A decision on the wire, with the supporting facts that the store holds.
pub fn decision_json(d: &DecisionRecord, facts: &Vec<Option<Fact>>) -> (j: Json)
    requires
        facts@.len() == d.because@.len(),
    ensures
        j@ == decision_wire(*d, facts@),
{
    let ghost want = decision_wire(*d, facts@);
    let mut support: Vec<Json> = Vec::new();
    let mut i: usize = 0;
    while i < d.because.len()
        invariant
            i <= d.because@.len() == facts@.len(),
            support@.len() == i,
            forall|k: int|
                0 <= k < i ==> (#[trigger] support@[k])@ == support_wire(
                    d.because@[k],
                    opt_fact(facts@[k]),
                ),
        decreases d.because.len() - i,
    {
        support.push(support_to_json(d.because[i], &facts[i]));
        i = i + 1;
    }
    let because: Json = array(support);
    assert(because@->Array_0 =~= want->Object_0[5].1->Array_0);
    let outcome: Json = match d.outcome {
        Some(o) => text(o.as_str()),
        None => Json::Null,
    };
    let j: Json = object(
        vec![
            member("decision_id", nullable_id(d.id)),
            member("subject", integer(d.subject)),
            member("verb", text(d.verb.as_str())),
            member("object", text(d.object.as_str())),
            member("made_at", integer(d.made_at)),
            member("because", because),
            member("outcome", outcome),
            member("status", text(d.status.as_str())),
        ],
    );
    assert(j@->Object_0 =~= want->Object_0);
    j
}

/// What is wrong with an id argument that has to be positive, if anything.
pub open spec fn id_fault(args: JsonView, key: Seq<char>) -> Option<Seq<char>> {
    match given_int(args, key) {
        None => Some(missing(key)),
        Some(n) => if n <= 0 {
            Some(key + " must be positive, got "@ + signed_decimal(n))
        } else {
            None
        },
    }
}

/// Read an id argument that has to be positive.
pub fn positive_id(args: &Json, key: &str) -> (r: Result<i64, Error>)
    ensures
        match r {
            Ok(id) => id_fault(args@, key@) is None && given_int(args@, key@) == Some(id as int),
            Err(e) => e is InvalidInput && id_fault(args@, key@) == Some(e.text()),
        },
{
    match opt_int(args, key) {
        None => Err(Error::InvalidInput(cat3("missing required argument `", key, "`"))),
        Some(n) => if n <= 0 {
            let digits: String = signed_text(n);
            Err(Error::InvalidInput(cat3(key, " must be positive, got ", digits.as_str())))
        } else {
            Ok(n)
        },
    }
}

/// Read which decision is to be traced.
pub fn trace_request(args: &Json) -> (r: Result<i64, Error>)
    ensures
        match r {
            Ok(id) => id_fault(args@, "decision_id"@) is None && given_int(
                args@,
                "decision_id"@,
            ) == Some(id as int),
            Err(e) => e is InvalidInput && id_fault(args@, "decision_id"@) == Some(e.text()),
        },
{
    positive_id(args, "decision_id")
}

/// The error for a decision that is not stored.
pub fn unknown_decision(decision_id: i64) -> (e: Error)
    ensures
        e is NotFound,
        e.text() == "no decision with id "@ + signed_decimal(decision_id as int),
{
    let digits: String = signed_text(decision_id);
    Error::NotFound(cat("no decision with id ", digits.as_str()))
}

/// A request to search decisions.
#[derive(Debug)]
pub struct SearchRequest {
    pub subject: i64,
    /// What to look for; everything when it is empty.
    pub keyword: String,
    pub limit: u64,
}

/// What is wrong with a search, if anything.
pub open spec fn search_fault(args: JsonView) -> Option<Seq<char>> {
    if given_int(args, "subject"@) is None {
        Some(missing("subject"@))
    } else {
        match args.get("keyword"@) {
            Some(JsonView::Null) | None | Some(JsonView::Text(_)) => match args.get("limit"@) {
                Some(JsonView::Null) | None => None,
                Some(v) => if v.natural() is None {
                    Some("`limit` must be an integer"@)
                } else {
                    None
                },
            },
            Some(_) => Some("`keyword` must be a string"@),
        }
    }
}

/// The keyword of a search; empty when none is given.
pub open spec fn keyword_asked(args: JsonView) -> Seq<char> {
    match args.get("keyword"@) {
        Some(JsonView::Text(s)) => s,
        _ => ""@,
    }
}

/// How many decisions to return; ten when nothing else is asked.
pub open spec fn limit_asked(args: JsonView) -> int {
    match args.get("limit"@) {
        Some(v) => match v.natural() {
            Some(n) => n,
            None => 10,
        },
        None => 10,
    }
}

/// Read who decided.
pub fn parse_subject(args: &Json) -> (r: Result<i64, Error>)
    ensures
        match r {
            Ok(id) => given_int(args@, "subject"@) == Some(id as int),
            Err(e) => given_int(args@, "subject"@) is None && e is InvalidInput && e.text()
                == missing("subject"@),
        },
{
    match opt_int(args, "subject") {
        Some(n) => Ok(n),
        None => Err(
            Error::InvalidInput(cat3("missing required argument `", "subject", "`")),
        ),
    }
}

/// Read a request to search decisions.
pub fn search_request(args: &Json) -> (r: Result<SearchRequest, Error>)
    ensures
        match r {
            Ok(q) => {
                &&& search_fault(args@) is None
                &&& given_int(args@, "subject"@) == Some(q.subject as int)
                &&& q.keyword@ == keyword_asked(args@)
                &&& q.limit == limit_asked(args@)
            },
            Err(e) => e is InvalidInput && search_fault(args@) == Some(e.text()),
        },
{
    let subject: i64 = match parse_subject(args) {
        Ok(n) => n,
        Err(e) => {
            return Err(e);
        },
    };
    let keyword: String = match args.get("keyword") {
        None => "".to_owned(),
        Some(v) => if v.is_null() {
            "".to_owned()
        } else {
            match v.as_str() {
                Some(s) => s.to_owned(),
                None => {
                    return Err(Error::InvalidInput("`keyword` must be a string".to_owned()));
                },
            }
        },
    };
    let limit: u64 = match args.get("limit") {
        None => 10,
        Some(v) => if v.is_null() {
            10
        } else {
            match v.as_u64() {
                Some(n) => n,
                None => {
                    return Err(Error::InvalidInput("`limit` must be an integer".to_owned()));
                },
            }
        },
    };
    Ok(SearchRequest { subject, keyword, limit })
}

/// How many of the hits are returned.
pub fn shown_hits(hits: usize, limit: u64) -> (n: usize)
    ensures
        n == (if hits <= limit {
            hits as int
        } else {
            limit as int
        }),
{
    if hits as u64 <= limit {
        hits
    } else {
        limit as usize
    }
}

/// The answer to a search.
pub open spec fn search_answer(decisions: Seq<JsonView>) -> JsonView {
    JsonView::Object(
        seq![
            ("decisions"@, JsonView::Array(decisions)),
        ],
    )
}

/// Answer a search.
pub fn search_reply(decisions: Vec<Json>) -> (j: Json)
    ensures
        j@ == search_answer(crate::json::elements(decisions@)),
{
    let j: Json = object(
        vec![
            member("decisions", array(decisions)),
        ],
    );
    assert(j@->Object_0 =~= search_answer(crate::json::elements(decisions@))->Object_0);
    j
}

/// An id passes exactly when it is a positive number.
pub proof fn law_ids_are_positive(args: JsonView, key: Seq<char>)
    ensures
        id_fault(args, key) is None <==> (given_int(args, key) is Some && given_int(args, key)->0
            > 0),
{
}

/// A search passes exactly when it names who decided by number, and the keyword
/// is a text and the limit a number where they are given. Without a keyword
/// everything is looked for, and without a limit ten decisions.
pub proof fn law_searches_pass(args: JsonView)
    ensures
        search_fault(args) is None <==> {
            &&& given_int(args, "subject"@) is Some
            &&& args.get("keyword"@) is None || args.get("keyword"@)->0 is Null || args.get(
                "keyword"@,
            )->0 is Text
            &&& args.get("limit"@) is None || args.get("limit"@)->0 is Null || (args.get(
                "limit"@,
            )->0 matches JsonView::Int(n) && 0 <= n <= u64::MAX)
        },
        args.get("keyword"@) is None ==> keyword_asked(args).len() == 0,
        args.get("keyword"@) matches Some(JsonView::Text(s)) ==> keyword_asked(args) == s,
        args.get("limit"@) is None ==> limit_asked(args) == 10,
        args.get("limit"@) matches Some(JsonView::Int(n)) ==> 0 <= n <= u64::MAX ==> limit_asked(
            args,
        ) == n,
{
    reveal_strlit("");
}

/// A decision is told with who decided what and when, what it rests on, and what
/// became of it.
pub proof fn law_decision_is_told(d: DecisionRecord, facts: Seq<Option<Fact>>)
    ensures
        ({
            let j = decision_wire(d, facts);
            &&& j.get("decision_id"@) == Some(id_or_null(d.id))
            &&& j.get("subject"@) == Some(JsonView::Int(d.subject as int))
            &&& j.get("verb"@) == Some(JsonView::Text(d.verb@))
            &&& j.get("object"@) == Some(JsonView::Text(d.object@))
            &&& j.get("made_at"@) == Some(JsonView::Int(d.made_at as int))
            &&& j.get("because"@) == Some(JsonView::Array(
                Seq::new(
                    d.because@.len(),
                    |i: int| support_wire(d.because@[i], opt_fact(facts[i])),
                ),
            ))
            &&& j.get("outcome"@) == Some(outcome_or_null(d.outcome))
            &&& j.get("status"@) == Some(JsonView::Text(d.status@))
        }),
{
    reveal_strlit("decision_id");
    reveal_strlit("subject");
    reveal_strlit("verb");
    reveal_strlit("object");
    reveal_strlit("made_at");
    reveal_strlit("because");
    reveal_strlit("outcome");
    reveal_strlit("status");
    assert("because"@[0] == 'b');
    assert("made_at"@[0] == 'm');
    assert("object"@[0] == 'o');
    assert("outcome"@[0] == 'o');
    assert("status"@[0] == 's');
    assert("subject"@[0] == 's');
    let m = decision_wire(d, facts)->Object_0;
    assert(m[0].0 == "decision_id"@);
    assert(m[1].0 == "subject"@);
    assert(m[2].0 == "verb"@);
    assert(m[3].0 == "object"@);
    assert(m[4].0 == "made_at"@);
    assert(m[5].0 == "because"@);
    assert(m[6].0 == "outcome"@);
    assert(m[7].0 == "status"@);
    crate::json::law_first_member_counts(m, "decision_id"@, 0);
    crate::json::law_first_member_counts(m, "subject"@, 1);
    crate::json::law_first_member_counts(m, "verb"@, 2);
    crate::json::law_first_member_counts(m, "object"@, 3);
    crate::json::law_first_member_counts(m, "made_at"@, 4);
    crate::json::law_first_member_counts(m, "because"@, 5);
    crate::json::law_first_member_counts(m, "outcome"@, 6);
    crate::json::law_first_member_counts(m, "status"@, 7);
}

/// All decisions that were found are shown, in order.
pub proof fn law_found_decisions_are_shown(decisions: Seq<JsonView>)
    ensures
        ({
            let j = search_answer(decisions);
            &&& j.get("decisions"@) == Some(JsonView::Array(decisions))
        }),
{
    reveal_strlit("decisions");
    let m = search_answer(decisions)->Object_0;
    assert(m[0].0 == "decisions"@);
    crate::json::law_first_member_counts(m, "decisions"@, 0);
}

/// A fact that supports a decision is told in short.
pub proof fn law_support_is_told(id: i64, f: FactView)
    ensures
        ({
            let j = support_wire(id, Some(f));
            &&& j.get("fact_id"@) == Some(id_or_null(f.id))
            &&& j.get("fact_type"@) == Some(JsonView::Text(f.fact_type.name()))
            &&& j.get("content"@) == Some(content_wire(f))
            &&& j.get("status"@) == Some(JsonView::Text(f.status))
        }),
{
    reveal_strlit("fact_id");
    reveal_strlit("fact_type");
    reveal_strlit("content");
    reveal_strlit("status");
    assert("content"@[0] == 'c');
    assert("fact_id"@[0] == 'f');
    let m = support_wire(id, Some(f))->Object_0;
    assert(m[0].0 == "fact_id"@);
    assert(m[1].0 == "fact_type"@);
    assert(m[2].0 == "content"@);
    assert(m[3].0 == "status"@);
    crate::json::law_first_member_counts(m, "fact_id"@, 0);
    crate::json::law_first_member_counts(m, "fact_type"@, 1);
    crate::json::law_first_member_counts(m, "content"@, 2);
    crate::json::law_first_member_counts(m, "status"@, 3);
}

/// A supporting fact that the store does not hold is told as missing, under its
/// id.
pub proof fn law_missing_support_is_told(id: i64)
    ensures
        ({
            let j = support_wire(id, None);
            &&& j.get("fact_id"@) == Some(JsonView::Int(id as int))
            &&& j.get("missing"@) == Some(JsonView::Bool(true))
        }),
{
    reveal_strlit("fact_id");
    reveal_strlit("missing");
    assert("fact_id"@[0] == 'f');
    assert("missing"@[0] == 'm');
    let m = support_wire(id, None)->Object_0;
    assert(m[0].0 == "fact_id"@);
    assert(m[1].0 == "missing"@);
    crate::json::law_first_member_counts(m, "fact_id"@, 0);
    crate::json::law_first_member_counts(m, "missing"@, 1);
}

} // verus!
