//! The key events of a person.
use vstd::prelude::*;

use crate::cognition::{Score, ScoreView};
use crate::error::Error;
use crate::json::Json;
use crate::mcp::args::{given_text, opt_str, req_str};
use crate::mcp::json_db::opt_score;
use crate::mcp::knowledge_tools::missing;
use crate::mcp::types::opt_text;

verus! {

/// The rank of the score 0.7.
pub const RANK_KEY_EVENT: i64 = 4_604_480_259_023_595_110;

/// The tool, over a handle to the knowledge store.
pub struct KeyEventsTool<S> {
    pub store: S,
}

impl<S> KeyEventsTool<S> {
    /// A tool over this store.
    pub fn new(store: S) -> (t: KeyEventsTool<S>)
        ensures
            t.store == store,
    {
        KeyEventsTool { store }
    }
}

/// A request for key events.
#[derive(Debug)]
pub struct KeyEventsRequest {
    pub name: String,
    pub doc_title: Option<String>,
    /// How important an event has to be.
    pub threshold: Score,
}

/// The threshold that counts: between zero and one, 0.7 when none is asked
/// for.
pub open spec fn event_threshold(asked: Option<ScoreView>) -> ScoreView {
    match asked {
        Some(s) => s.clamped(),
        None => ScoreView { rank: RANK_KEY_EVENT as int, digits: "0.7"@ },
    }
}

/// Read a request; `threshold` is the number that the arguments give for it.
pub fn key_events_request(args: &Json, threshold: Option<Score>) -> (r: Result<
    KeyEventsRequest,
    Error,
>)
    ensures
        match r {
            Ok(q) => {
                &&& given_text(args@, "name"@) == Some(q.name@)
                &&& opt_text(q.doc_title) == given_text(args@, "doc_title"@)
                &&& q.threshold@ == event_threshold(opt_score(threshold))
            },
            Err(e) => given_text(args@, "name"@) is None && e is InvalidInput && e.text()
                == missing("name"@),
        },
{
    match req_str(args, "name") {
        Ok(name) => {
            let threshold: Score = match threshold {
                Some(s) => s.clamped(),
                None => Score { rank: RANK_KEY_EVENT, digits: "0.7".to_owned() },
            };
            Ok(KeyEventsRequest { name, doc_title: opt_str(args, "doc_title"), threshold })
        },
        Err(e) => Err(e),
    }
}

/// A threshold lies between zero and one. One that is asked for in that range
/// counts as it is, and one beside it as the nearer end.
pub proof fn law_thresholds_are_held_to_their_range(asked: Option<ScoreView>)
    ensures
        0 <= event_threshold(asked).rank <= crate::cognition::RANK_ONE,
        asked is Some && 0 <= asked->0.rank <= crate::cognition::RANK_ONE ==> event_threshold(asked)
            == asked->0,
        asked is Some && asked->0.rank < 0 ==> event_threshold(asked).rank == 0,
        asked is Some && asked->0.rank > crate::cognition::RANK_ONE ==> event_threshold(asked).rank
            == crate::cognition::RANK_ONE,
{
}

} // verus!
