//! Carrying the story of a character over into facts.
use vstd::prelude::*;

use crate::error::Error;
use crate::json::Json;
use crate::mcp::args::{given_text, req_str, str_or, text_or};
use crate::mcp::knowledge_tools::missing;

verus! {

/// The tool, over handles to the knowledge store and the fact store.
pub struct StoryBridgeTool<K, F> {
    pub kstore: K,
    pub fstore: F,
}

impl<K, F> StoryBridgeTool<K, F> {
    /// A tool over these stores.
    pub fn new(kstore: K, fstore: F) -> (t: StoryBridgeTool<K, F>)
        ensures
            t.kstore == kstore,
            t.fstore == fstore,
    {
        StoryBridgeTool { kstore, fstore }
    }
}

/// A request to carry a story over.
#[derive(Debug)]
pub struct BridgeRequest {
    pub name: String,
    pub tenant_id: String,
}

/// Read a request to carry a story over.
pub fn bridge_request(args: &Json) -> (r: Result<BridgeRequest, Error>)
    ensures
        match r {
            Ok(q) => given_text(args@, "name"@) == Some(q.name@) && q.tenant_id@ == text_or(
                args@,
                "tenant_id"@,
                "default"@,
            ),
            Err(e) => given_text(args@, "name"@) is None && e is InvalidInput && e.text()
                == missing("name"@),
        },
{
    match req_str(args, "name") {
        Ok(name) => Ok(BridgeRequest { name, tenant_id: str_or(args, "tenant_id", "default") }),
        Err(e) => Err(e),
    }
}

} // verus!
