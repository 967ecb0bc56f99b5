//! Protocol types: what a tool is, what it returns, and the JSON-RPC 2.0
//! envelopes that carry both.
use vstd::prelude::*;

use crate::error::Error;
use crate::json::{array, member, members, object, text, Json, JsonView};

verus! {

/// Server identification, sent when a client initializes.
#[derive(Debug)]
pub struct Implementation {
    /// Human-readable server name.
    pub name: String,
    /// Version of the server.
    pub version: String,
}

/// A single content block in a tool result.
#[derive(Debug)]
pub struct ContentBlock {
    /// Block type, always `"text"`.
    pub block_type: String,
    /// The text.
    pub text: Option<String>,
    /// MIME type hint.
    pub mime_type: Option<String>,
}

/// The view of an optional string.
pub open spec fn opt_text(o: Option<String>) -> Option<Seq<char>> {
    match o {
        Some(s) => Some(s@),
        None => None,
    }
}

/// The value of a content block.
pub struct BlockView {
    pub block_type: Seq<char>,
    pub text: Option<Seq<char>>,
    pub mime_type: Option<Seq<char>>,
}

impl View for ContentBlock {
    type V = BlockView;

    open spec fn view(&self) -> BlockView {
        BlockView {
            block_type: self.block_type@,
            text: opt_text(self.text),
            mime_type: opt_text(self.mime_type),
        }
    }
}

impl BlockView {
    /// A block of plain text.
    pub open spec fn plain(payload: Seq<char>) -> BlockView {
        BlockView { block_type: "text"@, text: Some(payload), mime_type: None }
    }

    /// The block on the wire; what is absent is left out.
    pub open spec fn wire(self) -> JsonView {
        let base = seq![("type"@, JsonView::Text(self.block_type))];
        let with_text = match self.text {
            Some(t) => base.push(("text"@, JsonView::Text(t))),
            None => base,
        };
        JsonView::Object(
            match self.mime_type {
                Some(t) => with_text.push(("mimeType"@, JsonView::Text(t))),
                None => with_text,
            },
        )
    }
}

impl ContentBlock {
    /// A block of plain text.
    pub fn text(payload: &str) -> (b: ContentBlock)
        ensures
            b@ == BlockView::plain(payload@),
    {
        ContentBlock {
            block_type: "text".to_owned(),
            text: Some(payload.to_owned()),
            mime_type: None,
        }
    }

    /// The block on the wire.
    pub fn to_json(&self) -> (j: Json)
        ensures
            j@ == self@.wire(),
    {
        let mut v: Vec<(String, Json)> = Vec::new();
        v.push(member("type", text(self.block_type.as_str())));
        match &self.text {
            Some(t) => {
                v.push(member("text", text(t.as_str())));
            },
            None => {},
        }
        match &self.mime_type {
            Some(t) => {
                v.push(member("mimeType", text(t.as_str())));
            },
            None => {},
        }
        assert(members(v@) =~= self@.wire()->Object_0);
        object(v)
    }
}

/// The values of a list of content blocks.
pub open spec fn block_views(v: Seq<ContentBlock>) -> Seq<BlockView> {
    Seq::new(v.len(), |i: int| v[i]@)
}

/// What a tool returns.
#[derive(Debug)]
pub struct ToolCallResult {
    /// Content blocks for the client.
    pub content: Vec<ContentBlock>,
    /// The call failed gracefully; the content says how.
    pub is_error: bool,
}

/// The value of a tool result.
pub struct ToolResultView {
    pub content: Seq<BlockView>,
    pub is_error: bool,
}

impl View for ToolCallResult {
    type V = ToolResultView;

    open spec fn view(&self) -> ToolResultView {
        ToolResultView { content: block_views(self.content@), is_error: self.is_error }
    }
}

impl ToolResultView {
    /// The result on the wire.
    pub open spec fn wire(self) -> JsonView {
        JsonView::Object(
            seq![
                (
                    "content"@,
                    JsonView::Array(Seq::new(self.content.len(), |i: int| self.content[i].wire())),
                ),
                ("isError"@, JsonView::Bool(self.is_error)),
            ],
        )
    }

    /// A result of one plain text block.
    pub open spec fn plain(payload: Seq<char>, is_error: bool) -> ToolResultView {
        ToolResultView { content: seq![BlockView::plain(payload)], is_error }
    }
}

impl ToolCallResult {
    /// A successful result of one text block.
    pub fn text(payload: &str) -> (r: ToolCallResult)
        ensures
            r@ == ToolResultView::plain(payload@, false),
    {
        let r = ToolCallResult { content: vec![ContentBlock::text(payload)], is_error: false };
        assert(r@.content =~= seq![BlockView::plain(payload@)]);
        r
    }

    /// A failed result of one text block.
    pub fn error(message: &str) -> (r: ToolCallResult)
        ensures
            r@ == ToolResultView::plain(message@, true),
    {
        let r = ToolCallResult { content: vec![ContentBlock::text(message)], is_error: true };
        assert(r@.content =~= seq![BlockView::plain(message@)]);
        r
    }

    /// The result on the wire.
    pub fn to_json(&self) -> (j: Json)
        ensures
            j@ == self@.wire(),
    {
        let mut blocks: Vec<Json> = Vec::new();
        let mut i: usize = 0;
        while i < self.content.len()
            invariant
                i <= self.content@.len(),
                blocks@.len() == i,
                forall|k: int| 0 <= k < i ==> (#[trigger] blocks@[k])@ == self.content@[k]@.wire(),
            decreases self.content.len() - i,
        {
            blocks.push(self.content[i].to_json());
            i = i + 1;
        }
        let content: Json = array(blocks);
        assert(content@->Array_0 =~= Seq::new(
            self@.content.len(),
            |i: int| self@.content[i].wire(),
        ));
        let j: Json = object(
            vec![member("content", content), member("isError", Json::Bool(self.is_error))],
        );
        assert(j@->Object_0 =~= self@.wire()->Object_0);
        j
    }
}

/// A tool's JSON answer, with the flag that marks a graceful failure. On the
/// wire it is one text block of MIME type `application/json`.
#[derive(Debug)]
pub struct JsonReply {
    pub value: Json,
    pub is_error: bool,
}

impl JsonReply {
    /// A successful answer.
    pub fn ok(value: Json) -> (r: JsonReply)
        ensures
            r.value == value,
            !r.is_error,
    {
        JsonReply { value, is_error: false }
    }

    /// An answer that reports a failure.
    pub fn failed(value: Json) -> (r: JsonReply)
        ensures
            r.value == value,
            r.is_error,
    {
        JsonReply { value, is_error: true }
    }
}

/// Why a tool call ends without an answer.
#[derive(Debug)]
pub enum Refusal {
    /// The call fails.
    Error(Error),
    /// The call succeeds, and its result reports the failure in these words.
    Graceful(String),
}

impl Refusal {
    /// The call fails with an invalid-input error of this text.
    pub open spec fn is_invalid(self, message: Seq<char>) -> bool {
        match self {
            Refusal::Error(e) => e is InvalidInput && e.text() == message,
            Refusal::Graceful(_) => false,
        }
    }

    /// The failure is reported in these words.
    pub open spec fn says(self, message: Seq<char>) -> bool {
        match self {
            Refusal::Error(_) => false,
            Refusal::Graceful(s) => s@ == message,
        }
    }
}

/// A tool as the server announces it.
#[derive(Debug)]
pub struct ToolDefinition {
    /// Tool name, unique within a server.
    pub name: String,
    /// Human-readable description.
    pub description: String,
    /// JSON Schema of the tool's `arguments` object.
    pub input_schema: Json,
}

/// The value of a tool definition.
pub struct DefinitionView {
    pub name: Seq<char>,
    pub description: Seq<char>,
    pub input_schema: JsonView,
}

impl View for ToolDefinition {
    type V = DefinitionView;

    open spec fn view(&self) -> DefinitionView {
        DefinitionView {
            name: self.name@,
            description: self.description@,
            input_schema: self.input_schema@,
        }
    }
}

impl DefinitionView {
    /// The definition on the wire.
    pub open spec fn wire(self) -> JsonView {
        JsonView::Object(
            seq![
                ("name"@, JsonView::Text(self.name)),
                ("description"@, JsonView::Text(self.description)),
                ("input_schema"@, self.input_schema),
            ],
        )
    }
}

impl ToolDefinition {
    /// A copy with the same value.
    pub fn copy(&self) -> (d: ToolDefinition)
        ensures
            d@ == self@,
    {
        ToolDefinition {
            name: self.name.clone(),
            description: self.description.clone(),
            input_schema: self.input_schema.copy(),
        }
    }

    /// The definition on the wire.
    pub fn to_json(&self) -> (j: Json)
        ensures
            j@ == self@.wire(),
    {
        let j: Json = object(
            vec![
                member("name", text(self.name.as_str())),
                member("description", text(self.description.as_str())),
                member("input_schema", self.input_schema.copy()),
            ],
        );
        assert(j@->Object_0 =~= self@.wire()->Object_0);
        j
    }
}

/// The values of a list of tool definitions.
pub open spec fn definition_views(v: Seq<ToolDefinition>) -> Seq<DefinitionView> {
    Seq::new(v.len(), |i: int| v[i]@)
}

/// The payload of a `tools/list` response.
#[derive(Debug)]
pub struct ListToolsResult {
    /// All tools of the server.
    pub tools: Vec<ToolDefinition>,
}

/// A tool list on the wire.
pub open spec fn tool_list_wire(tools: Seq<DefinitionView>) -> JsonView {
    JsonView::Object(
        seq![("tools"@, JsonView::Array(Seq::new(tools.len(), |i: int| tools[i].wire())))],
    )
}

impl ListToolsResult {
    /// The list on the wire.
    pub fn to_json(&self) -> (j: Json)
        ensures
            j@ == tool_list_wire(definition_views(self.tools@)),
    {
        let mut out: Vec<Json> = Vec::new();
        let mut i: usize = 0;
        while i < self.tools.len()
            invariant
                i <= self.tools@.len(),
                out@.len() == i,
                forall|k: int| 0 <= k < i ==> (#[trigger] out@[k])@ == self.tools@[k]@.wire(),
            decreases self.tools.len() - i,
        {
            out.push(self.tools[i].to_json());
            i = i + 1;
        }
        let tools: Json = array(out);
        let ghost views = definition_views(self.tools@);
        assert(tools@->Array_0 =~= Seq::new(views.len(), |i: int| views[i].wire()));
        let j: Json = object(vec![member("tools", tools)]);
        assert(j@->Object_0 =~= tool_list_wire(views)->Object_0);
        j
    }
}

/// JSON-RPC 2.0 request.
#[derive(Debug)]
pub struct JSONRPCRequest {
    /// Always `"2.0"`.
    pub jsonrpc: String,
    /// The client's id.
    pub id: Json,
    /// Method name.
    pub method: String,
    /// Method parameters.
    pub params: Option<Json>,
}

/// JSON-RPC 2.0 error object.
#[derive(Debug)]
pub struct JSONRPCError {
    /// Error code.
    pub code: i64,
    /// Short error message.
    pub message: String,
    /// Additional data.
    pub data: Option<Json>,
}

/// JSON-RPC 2.0 response.
#[derive(Debug)]
pub struct JSONRPCResponse {
    /// Always `"2.0"`.
    pub jsonrpc: String,
    /// The client's id again.
    pub id: Json,
    /// Result, unless there is an error.
    pub result: Option<Json>,
    /// Error, unless there is a result.
    pub error: Option<JSONRPCError>,
}

/// The view of an optional JSON value.
pub open spec fn opt_json(o: Option<Json>) -> Option<JsonView> {
    match o {
        Some(j) => Some(j@),
        None => None,
    }
}

/// The value of an error object without data.
pub struct RpcErrorView {
    pub code: int,
    pub message: Seq<char>,
    pub data: Option<JsonView>,
}

/// The value of a response.
pub struct ResponseView {
    pub jsonrpc: Seq<char>,
    pub id: JsonView,
    pub result: Option<JsonView>,
    pub error: Option<RpcErrorView>,
}

impl View for JSONRPCResponse {
    type V = ResponseView;

    open spec fn view(&self) -> ResponseView {
        ResponseView {
            jsonrpc: self.jsonrpc@,
            id: self.id@,
            result: opt_json(self.result),
            error: match self.error {
                Some(e) => Some(
                    RpcErrorView { code: e.code as int, message: e.message@, data: opt_json(e.data) },
                ),
                None => None,
            },
        }
    }
}

impl ResponseView {
    /// The response to request `id` that carries `result`.
    pub open spec fn success(id: JsonView, result: JsonView) -> ResponseView {
        ResponseView { jsonrpc: "2.0"@, id, result: Some(result), error: None }
    }

    /// The response to request `id` that reports an error.
    pub open spec fn failure(id: JsonView, code: int, message: Seq<char>) -> ResponseView {
        ResponseView {
            jsonrpc: "2.0"@,
            id,
            result: None,
            error: Some(RpcErrorView { code, message, data: None }),
        }
    }
}

impl JSONRPCResponse {
    /// The response to request `id` that carries `result`.
    pub fn success(id: Json, result: Json) -> (r: JSONRPCResponse)
        ensures
            r@ == ResponseView::success(id@, result@),
    {
        JSONRPCResponse { jsonrpc: "2.0".to_owned(), id, result: Some(result), error: None }
    }

    /// The response to request `id` that reports an error.
    pub fn failure(id: Json, code: i64, message: String) -> (r: JSONRPCResponse)
        ensures
            r@ == ResponseView::failure(id@, code as int, message@),
    {
        JSONRPCResponse {
            jsonrpc: "2.0".to_owned(),
            id,
            result: None,
            error: Some(JSONRPCError { code, message, data: None }),
        }
    }
}

/// A message: request, response, or notification.
#[derive(Debug)]
pub enum JSONRPCMessage {
    /// A request that expects a response.
    Request(JSONRPCRequest),
    /// A response to an earlier request.
    Response(JSONRPCResponse),
    /// A notification, which expects none.
    Notification {
        /// Always `"2.0"`.
        jsonrpc: String,
        /// Method name.
        method: String,
        /// Method parameters.
        params: Option<Json>,
    },
}

/// A result is told block by block, and whether it reports a failure.
pub proof fn law_result_is_told(r: ToolResultView)
    ensures
        ({
            let j = r.wire();
            &&& j.get("content"@) == Some(JsonView::Array(
                Seq::new(r.content.len(), |i: int| r.content[i].wire()),
            ))
            &&& j.get("isError"@) == Some(JsonView::Bool(r.is_error))
        }),
{
    reveal_strlit("content");
    reveal_strlit("isError");
    assert("content"@[0] == 'c');
    assert("isError"@[0] == 'i');
    let m = r.wire()->Object_0;
    assert(m[0].0 == "content"@);
    assert(m[1].0 == "isError"@);
    crate::json::law_first_member_counts(m, "content"@, 0);
    crate::json::law_first_member_counts(m, "isError"@, 1);
}

/// A tool is announced by its name, what it is for and what it takes.
pub proof fn law_definition_is_told(d: DefinitionView)
    ensures
        ({
            let j = d.wire();
            &&& j.get("name"@) == Some(JsonView::Text(d.name))
            &&& j.get("description"@) == Some(JsonView::Text(d.description))
            &&& j.get("input_schema"@) == Some(d.input_schema)
        }),
{
    reveal_strlit("name");
    reveal_strlit("description");
    reveal_strlit("input_schema");
    let m = d.wire()->Object_0;
    assert(m[0].0 == "name"@);
    assert(m[1].0 == "description"@);
    assert(m[2].0 == "input_schema"@);
    crate::json::law_first_member_counts(m, "name"@, 0);
    crate::json::law_first_member_counts(m, "description"@, 1);
    crate::json::law_first_member_counts(m, "input_schema"@, 2);
}

/// A block is told by its type and its text; what it does not have is left out.
pub proof fn law_block_is_told(b: BlockView)
    ensures
        ({
            let j = b.wire();
            &&& j.get("type"@) == Some(JsonView::Text(b.block_type))
            &&& j.get("text"@) == (match b.text {
                Some(t) => Some(JsonView::Text(t)),
                None => None,
            })
            &&& j.get("mimeType"@) == (match b.mime_type {
                Some(t) => Some(JsonView::Text(t)),
                None => None,
            })
        }),
{
    reveal_strlit("type");
    reveal_strlit("text");
    reveal_strlit("mimeType");
    assert("type"@[1] == 'y' && "text"@[1] == 'e');
    assert("mimeType"@.len() == 8);
    let m = b.wire()->Object_0;
    assert(m[0].0 == "type"@);
    crate::json::law_first_member_counts(m, "type"@, 0);
    crate::json::law_first_member_counts(m, "text"@, 1);
    if b.text is Some {
        assert(m[1].0 == "text"@);
        crate::json::law_first_member_counts(m, "mimeType"@, 2);
    } else {
        crate::json::law_first_member_counts(m, "mimeType"@, 1);
        if b.mime_type is Some {
            assert(m[1].0 == "mimeType"@);
            crate::json::law_first_member_counts(m, "text"@, 2);
        }
    }
}

/// A response answers its request: it carries the request's id, and either a
/// result or an error, never both.
pub proof fn law_response_answers_its_request(
    id: JsonView,
    result: JsonView,
    code: int,
    message: Seq<char>,
)
    ensures
        ResponseView::success(id, result).id == id,
        ResponseView::success(id, result).result == Some(result),
        ResponseView::success(id, result).error is None,
        ResponseView::failure(id, code, message).id == id,
        ResponseView::failure(id, code, message).result is None,
        ResponseView::failure(id, code, message).error is Some,
        ResponseView::failure(id, code, message).error->0.code == code,
        ResponseView::failure(id, code, message).error->0.message == message,
{
}

} // verus!
