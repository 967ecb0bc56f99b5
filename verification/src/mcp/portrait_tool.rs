//! A person's portrait out of a resume or similar text.
use vstd::prelude::*;

use crate::error::Error;
use crate::json::{count, member, object, text, Json, JsonView};
use crate::mcp::args::{given_text, req_str, str_or, text_or};
use crate::mcp::knowledge_tools::missing;

verus! {

/// The tool. The extraction keeps no state.
#[derive(Debug)]
pub struct PortraitTool {}

impl PortraitTool {
    /// The tool.
    pub fn new() -> (t: PortraitTool)
        ensures
            t == (PortraitTool {  }),
    {
        PortraitTool {  }
    }
}

impl Default for PortraitTool {
    fn default() -> (t: PortraitTool)
        ensures
            t == (PortraitTool {  }),
    {
        PortraitTool::new()
    }
}

/// A request for a portrait.
#[derive(Debug)]
pub struct PortraitRequest {
    pub text: String,
    pub source_name: String,
}

/// Read a request for a portrait.
pub fn portrait_request(args: &Json) -> (r: Result<PortraitRequest, Error>)
    ensures
        match r {
            Ok(q) => given_text(args@, "text"@) == Some(q.text@) && q.source_name@ == text_or(
                args@,
                "source_name"@,
                "resume"@,
            ),
            Err(e) => given_text(args@, "text"@) is None && e is InvalidInput && e.text()
                == missing("text"@),
        },
{
    match req_str(args, "text") {
        Ok(text) => Ok(
            PortraitRequest { text, source_name: str_or(args, "source_name", "resume") },
        ),
        Err(e) => Err(e),
    }
}

/// Why there is no portrait.
#[derive(Debug, Clone, Copy, PartialEq, Eq, Structural)]
pub enum PortraitError {
    /// The text is empty.
    EmptyInput,
    /// No section of projects was found.
    MissingProjects,
}

/// The words in which a failure is reported.
pub open spec fn portrait_failure_text(e: PortraitError) -> Seq<char> {
    match e {
        PortraitError::EmptyInput =>
            "portrait extraction failed: input is empty (no extractable lines)"@,
        PortraitError::MissingProjects =>
            "portrait extraction failed: no project section marker (`—`) found"@,
    }
}

/// The words in which a failure is reported.
pub fn portrait_failure(e: PortraitError) -> (s: &'static str)
    ensures
        s@ == portrait_failure_text(e),
{
    match e {
        PortraitError::EmptyInput =>
            "portrait extraction failed: input is empty (no extractable lines)",
        PortraitError::MissingProjects =>
            "portrait extraction failed: no project section marker (`—`) found",
    }
}

/// The answer with a portrait.
pub open spec fn portrait_answer(q: PortraitRequest, portrait: JsonView) -> JsonView {
    JsonView::Object(
        seq![
            ("source_name"@, JsonView::Text(q.source_name@)),
            ("extracted_chars"@, JsonView::Int(q.text@.len() as int)),
            ("portrait"@, portrait),
        ],
    )
}

/// Answer with a portrait.
pub fn portrait_reply(q: &PortraitRequest, portrait: Json) -> (j: Json)
    ensures
        j@ == portrait_answer(*q, portrait@),
{
    let chars: Vec<char> = crate::text::chars_of(q.text.as_str());
    let j: Json = object(
        vec![
            member("source_name", text(q.source_name.as_str())),
            member("extracted_chars", count(chars.len() as u64)),
            member("portrait", portrait),
        ],
    );
    assert(j@->Object_0 =~= portrait_answer(*q, portrait@)->Object_0);
    j
}

/// The answer tells the source and how many characters of it were read.
pub proof fn law_portrait_is_answered(q: PortraitRequest, portrait: JsonView)
    ensures
        ({
            let j = portrait_answer(q, portrait);
            &&& j.get("source_name"@) == Some(JsonView::Text(q.source_name@))
            &&& j.get("extracted_chars"@) == Some(JsonView::Int(q.text@.len() as int))
            &&& j.get("portrait"@) == Some(portrait)
        }),
{
    reveal_strlit("source_name");
    reveal_strlit("extracted_chars");
    reveal_strlit("portrait");
    let m = portrait_answer(q, portrait)->Object_0;
    assert(m[0].0 == "source_name"@);
    assert(m[1].0 == "extracted_chars"@);
    assert(m[2].0 == "portrait"@);
    crate::json::law_first_member_counts(m, "source_name"@, 0);
    crate::json::law_first_member_counts(m, "extracted_chars"@, 1);
    crate::json::law_first_member_counts(m, "portrait"@, 2);
}

} // verus!
