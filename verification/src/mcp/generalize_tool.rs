//! Compiling a conversation or a piece of prose into the knowledge graph.
use vstd::prelude::*;

use crate::json::{count, elements, member, object, text, Json, JsonView};
use crate::mcp::args::{given_text, opt_str, str_or, text_or};
use crate::mcp::memory_compile::{are_messages_of, messages_fault, parse_messages};
use crate::mcp::types::{opt_text, Refusal};
use crate::text::{cat, cat3, same_text, signed_decimal, signed_text};
use crate::types::Message;

verus! {

/// The tool, over a handle to the knowledge store.
pub struct GeneralizeCompileHandler<S> {
    pub store: S,
}

/// The title of a document that has none, compiled at this time.
pub open spec fn dated_title(seconds: int) -> Seq<char> {
    "generalize-"@ + signed_decimal(seconds)
}

/// The title of a document that has none, compiled at this time, in seconds
/// since the Unix epoch.
pub fn default_title(seconds: i64) -> (s: String)
    ensures
        s@ == dated_title(seconds as int),
{
    let digits: String = signed_text(seconds);
    cat("generalize-", digits.as_str())
}

/// A request to compile.
#[derive(Debug)]
pub struct GeneralizeRequest {
    /// What kind of data it is: `dialog` or `text`.
    pub doc_type: String,
    pub title: String,
    pub source: String,
    pub tenant_id: String,
    /// The domain profile to use; the one for conversations when none is
    /// named.
    pub profile: Option<String>,
}

/// Read what a request says besides its data; `title` is the title of a
/// document that has none.
pub fn generalize_request(args: &Json, title: String) -> (q: GeneralizeRequest)
    ensures
        q.doc_type@ == text_or(args@, "doc_type"@, "text"@),
        q.title@ == text_or(args@, "title"@, title@),
        q.source@ == text_or(args@, "source"@, "generalize_compile"@),
        q.tenant_id@ == text_or(args@, "tenant_id"@, "default"@),
        opt_text(q.profile) == given_text(args@, "profile"@),
{
    GeneralizeRequest {
        doc_type: str_or(args, "doc_type", "text"),
        title: str_or(args, "title", title.as_str()),
        source: str_or(args, "source", "generalize_compile"),
        tenant_id: str_or(args, "tenant_id", "default"),
        profile: opt_str(args, "profile"),
    }
}

/// The data of a request.
#[derive(Debug)]
pub enum GeneralizeInput {
    /// A conversation that says something.
    Dialog(Vec<Message>),
    /// A conversation without messages: there is nothing to compile.
    Nothing,
    /// Prose.
    Prose(String),
}

/// The messages are what the raw values say, without ids.
pub open spec fn are_bare_messages_of(m: Seq<Message>, raw: Seq<JsonView>) -> bool {
    &&& m.len() == raw.len()
    &&& forall|i: int|
        0 <= i < m.len() ==> given_text(raw[i], "role"@) == Some((#[trigger] m[i]).role@)
            && given_text(raw[i], "content"@) == Some(m[i].content@) && m[i].turn_id is None
            && m[i].tool_call_id is None
}

/// The words in which the data of a request is refused, if it is.
pub open spec fn input_fault(args: JsonView, doc_type: Seq<char>) -> Option<Seq<char>> {
    if doc_type == "dialog"@ {
        match args.get("messages"@) {
            Some(JsonView::Array(v)) => messages_fault(v),
            _ => Some("doc_type=dialog requires `messages` array"@),
        }
    } else if doc_type == "text"@ {
        if given_text(args, "text"@) is None {
            Some("doc_type=text requires `text` string"@)
        } else {
            None
        }
    } else {
        Some("unsupported doc_type `"@ + doc_type + "`; expected `dialog` or `text`"@)
    }
}

/// Read the data of a request. What is wrong with it is reported gracefully.
pub fn generalize_input(args: &Json, doc_type: &str) -> (r: Result<GeneralizeInput, Refusal>)
    ensures
        match r {
            Ok(input) => {
                &&& input_fault(args@, doc_type@) is None
                &&& match input {
                    GeneralizeInput::Dialog(m) => doc_type@ == "dialog"@ && m@.len() > 0 && (
                    args@.get("messages"@) matches Some(JsonView::Array(raw))
                        && are_bare_messages_of(m@, raw)),
                    GeneralizeInput::Nothing => doc_type@ == "dialog"@ && (args@.get("messages"@)
                        matches Some(JsonView::Array(raw)) && raw.len() == 0),
                    GeneralizeInput::Prose(t) => doc_type@ == "text"@ && given_text(
                        args@,
                        "text"@,
                    ) == Some(t@),
                }
            },
            Err(refusal) => input_fault(args@, doc_type@) matches Some(f) && refusal.says(f),
        },
{
    assert("dialog"@ != "text"@) by {
        reveal_strlit("dialog");
        reveal_strlit("text");
        assert("dialog"@.len() == 6 && "text"@.len() == 4);
    }
    if same_text(doc_type, "dialog") {
        let raw: &Vec<Json> = match args.get("messages") {
            Some(v) => match v.as_array() {
                Some(l) => l,
                None => {
                    return Err(
                        Refusal::Graceful("doc_type=dialog requires `messages` array".to_owned()),
                    );
                },
            },
            None => {
                return Err(
                    Refusal::Graceful("doc_type=dialog requires `messages` array".to_owned()),
                );
            },
        };
        match parse_messages(raw) {
            Ok(messages) => {
                if messages.len() == 0 {
                    Ok(GeneralizeInput::Nothing)
                } else {
                    Ok(GeneralizeInput::Dialog(without_ids(messages, Ghost(elements(raw@)))))
                }
            },
            Err(e) => Err(Refusal::Graceful(e.message())),
        }
    } else if same_text(doc_type, "text") {
        match opt_str(args, "text") {
            Some(t) => Ok(GeneralizeInput::Prose(t)),
            None => Err(Refusal::Graceful("doc_type=text requires `text` string".to_owned())),
        }
    } else {
        Err(
            Refusal::Graceful(
                cat3("unsupported doc_type `", doc_type, "`; expected `dialog` or `text`"),
            ),
        )
    }
}

/// The messages without their ids.
fn without_ids(v: Vec<Message>, raw: Ghost<Seq<JsonView>>) -> (r: Vec<Message>)
    requires
        are_messages_of(v@, raw@),
    ensures
        are_bare_messages_of(r@, raw@),
{
    let mut r: Vec<Message> = Vec::new();
    let mut i: usize = 0;
    while i < v.len()
        invariant
            i <= v@.len(),
            are_messages_of(v@, raw@),
            r@.len() == i,
            forall|k: int|
                0 <= k < i ==> (#[trigger] r@[k]).role@ == v@[k].role@ && r@[k].content@
                    == v@[k].content@ && r@[k].turn_id is None && r@[k].tool_call_id is None,
        decreases v.len() - i,
    {
        r.push(Message::new(v[i].role.as_str(), v[i].content.as_str()));
        i = i + 1;
    }
    assert forall|k: int| 0 <= k < r@.len() implies given_text(raw@[k], "role"@) == Some(
        (#[trigger] r@[k]).role@,
    ) && given_text(raw@[k], "content"@) == Some(r@[k].content@) by {
        assert(crate::mcp::memory_compile::is_message_of(v@[k], raw@[k]));
    }
    r
}

/// What a compilation added to the graph.
#[derive(Debug, Clone, Copy)]
pub struct GraphStats {
    pub documents: u64,
    pub objects: u64,
    pub edges: u64,
    pub evidence: u64,
}

/// What a compilation added, on the wire.
pub open spec fn stats_wire(s: GraphStats) -> JsonView {
    JsonView::Object(
        seq![
            ("documents"@, JsonView::Int(s.documents as int)),
            ("objects"@, JsonView::Int(s.objects as int)),
            ("edges"@, JsonView::Int(s.edges as int)),
            ("evidence"@, JsonView::Int(s.evidence as int)),
        ],
    )
}

/// What a compilation added, on the wire.
pub fn stats_to_json(s: GraphStats) -> (j: Json)
    ensures
        j@ == stats_wire(s),
{
    let j: Json = object(
        vec![
            member("documents", count(s.documents)),
            member("objects", count(s.objects)),
            member("edges", count(s.edges)),
            member("evidence", count(s.evidence)),
        ],
    );
    assert(j@->Object_0 =~= stats_wire(s)->Object_0);
    j
}

/// The answer to a conversation without messages.
pub open spec fn nothing_compiled(title: Seq<char>) -> JsonView {
    JsonView::Object(
        seq![
            ("compiled"@, JsonView::Bool(true)),
            ("doc_type"@, JsonView::Text("dialog"@)),
            ("title"@, JsonView::Text(title)),
            ("message"@, JsonView::Text("no messages supplied; nothing compiled"@)),
            ("stats"@, stats_wire(GraphStats { documents: 0, objects: 0, edges: 0, evidence: 0 })),
        ],
    )
}

/// Answer a conversation without messages.
pub fn nothing_compiled_reply(title: &str) -> (j: Json)
    ensures
        j@ == nothing_compiled(title@),
{
    let j: Json = object(
        vec![
            member("compiled", Json::Bool(true)),
            member("doc_type", text("dialog")),
            member("title", text(title)),
            member("message", text("no messages supplied; nothing compiled")),
            member("stats", stats_to_json(GraphStats { documents: 0, objects: 0, edges: 0, evidence: 0 })),
        ],
    );
    assert(j@->Object_0 =~= nothing_compiled(title@)->Object_0);
    j
}

/// The answer after data was compiled.
pub open spec fn compiled_answer(doc_type: Seq<char>, title: Seq<char>, profile: Seq<char>, stats: GraphStats) -> JsonView {
    JsonView::Object(
        seq![
            ("compiled"@, JsonView::Bool(true)),
            ("doc_type"@, JsonView::Text(doc_type)),
            ("title"@, JsonView::Text(title)),
            ("profile"@, JsonView::Text(profile)),
            ("stats"@, stats_wire(stats)),
        ],
    )
}

/// Answer after data was compiled with this profile.
pub fn compiled_reply(q: &GeneralizeRequest, profile: &str, stats: GraphStats) -> (j: Json)
    ensures
        j@ == compiled_answer(q.doc_type@, q.title@, profile@, stats),
{
    let j: Json = object(
        vec![
            member("compiled", Json::Bool(true)),
            member("doc_type", text(q.doc_type.as_str())),
            member("title", text(q.title.as_str())),
            member("profile", text(profile)),
            member("stats", stats_to_json(stats)),
        ],
    );
    assert(j@->Object_0 =~= compiled_answer(q.doc_type@, q.title@, profile@, stats)->Object_0);
    j
}

/// Report that a profile could not be loaded.
pub fn profile_failure(name: &str, why: &str) -> (r: Refusal)
    ensures
        r.says("load profile `"@ + name@ + "`: "@ + why@),
{
    let head: String = cat3("load profile `", name, "`: ");
    Refusal::Graceful(cat(head.as_str(), why))
}

/// Report that the data could not be compiled.
pub fn compile_failure(why: &str) -> (r: Refusal)
    ensures
        r.says("compile failed: "@ + why@),
{
    Refusal::Graceful(cat("compile failed: ", why))
}

/// The data of a request passes exactly when it is a conversation of messages
/// that each have a role and a content, or a text.
pub proof fn law_conversations_and_texts_pass(args: JsonView, doc_type: Seq<char>)
    ensures
        input_fault(args, doc_type) is None <==> {
            ||| doc_type == "text"@ && given_text(args, "text"@) is Some
            ||| doc_type == "dialog"@ && (args.get("messages"@) matches Some(JsonView::Array(v))
                && forall|i: int|
                0 <= i < v.len() ==> (#[trigger] v[i]) is Object && given_text(
                    v[i],
                    "role"@,
                ) is Some && given_text(v[i], "content"@) is Some)
        },
{
    reveal_strlit("text");
    reveal_strlit("dialog");
    assert("text"@.len() != "dialog"@.len());
    if args.get("messages"@) is Some && args.get("messages"@)->0 is Array {
        crate::mcp::memory_compile::law_messages_need_role_and_content(
            args.get("messages"@)->0->Array_0,
        );
    }
}

/// A compilation is told with what it added.
pub proof fn law_compilation_is_told(doc_type: Seq<char>, title: Seq<char>, profile: Seq<char>, stats: GraphStats)
    ensures
        ({
            let j = compiled_answer(doc_type, title, profile, stats);
            &&& j.get("compiled"@) == Some(JsonView::Bool(true))
            &&& j.get("doc_type"@) == Some(JsonView::Text(doc_type))
            &&& j.get("title"@) == Some(JsonView::Text(title))
            &&& j.get("profile"@) == Some(JsonView::Text(profile))
            &&& j.get("stats"@) is Some
            &&& j.get("stats"@)->0.get("documents"@) == Some(JsonView::Int(stats.documents as int))
            &&& j.get("stats"@)->0.get("objects"@) == Some(JsonView::Int(stats.objects as int))
            &&& j.get("stats"@)->0.get("edges"@) == Some(JsonView::Int(stats.edges as int))
            &&& j.get("stats"@)->0.get("evidence"@) == Some(JsonView::Int(stats.evidence as int))
        }),
{
    reveal_strlit("compiled");
    reveal_strlit("doc_type");
    reveal_strlit("title");
    reveal_strlit("profile");
    reveal_strlit("stats");
    reveal_strlit("documents");
    reveal_strlit("objects");
    reveal_strlit("edges");
    reveal_strlit("evidence");
    assert("compiled"@[0] == 'c');
    assert("doc_type"@[0] == 'd');
    assert("stats"@[0] == 's');
    assert("title"@[0] == 't');
    let m = compiled_answer(doc_type, title, profile, stats)->Object_0;
    assert(m[0].0 == "compiled"@);
    assert(m[1].0 == "doc_type"@);
    assert(m[2].0 == "title"@);
    assert(m[3].0 == "profile"@);
    assert(m[4].0 == "stats"@);
    crate::json::law_first_member_counts(m, "compiled"@, 0);
    crate::json::law_first_member_counts(m, "doc_type"@, 1);
    crate::json::law_first_member_counts(m, "title"@, 2);
    crate::json::law_first_member_counts(m, "profile"@, 3);
    crate::json::law_first_member_counts(m, "stats"@, 4);
    let stats = m[4].1->Object_0;
    assert(stats[0].0 == "documents"@);
    assert(stats[1].0 == "objects"@);
    assert(stats[2].0 == "edges"@);
    assert(stats[3].0 == "evidence"@);
    crate::json::law_first_member_counts(stats, "documents"@, 0);
    crate::json::law_first_member_counts(stats, "objects"@, 1);
    crate::json::law_first_member_counts(stats, "edges"@, 2);
    crate::json::law_first_member_counts(stats, "evidence"@, 3);
}

/// A conversation without messages is answered like one that was compiled and
/// added nothing.
pub proof fn law_empty_conversation_adds_nothing(title: Seq<char>)
    ensures
        ({
            let j = nothing_compiled(title);
            &&& j.get("compiled"@) == Some(JsonView::Bool(true))
            &&& j.get("doc_type"@) == Some(JsonView::Text("dialog"@))
            &&& j.get("title"@) == Some(JsonView::Text(title))
            &&& j.get("message"@) == Some(JsonView::Text("no messages supplied; nothing compiled"@))
            &&& j.get("stats"@) is Some
            &&& j.get("stats"@)->0.get("documents"@) == Some(JsonView::Int(0))
            &&& j.get("stats"@)->0.get("objects"@) == Some(JsonView::Int(0))
            &&& j.get("stats"@)->0.get("edges"@) == Some(JsonView::Int(0))
            &&& j.get("stats"@)->0.get("evidence"@) == Some(JsonView::Int(0))
        }),
{
    reveal_strlit("compiled");
    reveal_strlit("doc_type");
    reveal_strlit("title");
    reveal_strlit("message");
    reveal_strlit("stats");
    reveal_strlit("documents");
    reveal_strlit("objects");
    reveal_strlit("edges");
    reveal_strlit("evidence");
    assert("compiled"@[0] == 'c');
    assert("doc_type"@[0] == 'd');
    assert("stats"@[0] == 's');
    assert("title"@[0] == 't');
    let m = nothing_compiled(title)->Object_0;
    assert(m[0].0 == "compiled"@);
    assert(m[1].0 == "doc_type"@);
    assert(m[2].0 == "title"@);
    assert(m[3].0 == "message"@);
    assert(m[4].0 == "stats"@);
    crate::json::law_first_member_counts(m, "compiled"@, 0);
    crate::json::law_first_member_counts(m, "doc_type"@, 1);
    crate::json::law_first_member_counts(m, "title"@, 2);
    crate::json::law_first_member_counts(m, "message"@, 3);
    crate::json::law_first_member_counts(m, "stats"@, 4);
    let stats = m[4].1->Object_0;
    assert(stats[0].0 == "documents"@);
    assert(stats[1].0 == "objects"@);
    assert(stats[2].0 == "edges"@);
    assert(stats[3].0 == "evidence"@);
    crate::json::law_first_member_counts(stats, "documents"@, 0);
    crate::json::law_first_member_counts(stats, "objects"@, 1);
    crate::json::law_first_member_counts(stats, "edges"@, 2);
    crate::json::law_first_member_counts(stats, "evidence"@, 3);
}

/// Documents without a title that are compiled at different times have different
/// titles.
pub proof fn law_dated_titles_differ(a: int, b: int)
    ensures
        dated_title(a) == dated_title(b) ==> a == b,
{
    let n = "generalize-"@.len() as int;
    assert(dated_title(a).subrange(n, dated_title(a).len() as int) =~= signed_decimal(a));
    assert(dated_title(b).subrange(n, dated_title(b).len() as int) =~= signed_decimal(b));
    crate::text::law_different_numbers_are_written_differently(a, b);
}

} // verus!
