//! The server: which tools there are, and how a JSON-RPC message is answered.
//!
//! Running a tool is outside work, so a `tools/call` request is handled in
//! two steps: [`MCPServer::dispatch`] decides what is to be done, and
//! [`finish_call`] turns the tool's outcome into the response.
use vstd::prelude::*;

use crate::error::Error;
use crate::json::{elements, member, object, text, Json, JsonView};
use crate::mcp::types::{
    definition_views, tool_list_wire, DefinitionView, Implementation, JSONRPCMessage,
    JSONRPCRequest, JSONRPCResponse, ListToolsResult, ResponseView, ToolCallResult, ToolDefinition,
    ToolResultView,
};
use crate::text::{
    cat3, is_before, law_text_order_total, law_text_order_transitive, same_text, text_lt,
};

verus! {

/// JSON-RPC error code: parse error.
pub const ERR_PARSE: i64 = -32700;

/// JSON-RPC error code: invalid request.
pub const ERR_INVALID_REQUEST: i64 = -32600;

/// JSON-RPC error code: method not found.
pub const ERR_METHOD_NOT_FOUND: i64 = -32601;

/// JSON-RPC error code: invalid params.
pub const ERR_INVALID_PARAMS: i64 = -32602;

/// JSON-RPC error code: internal error.
pub const ERR_INTERNAL: i64 = -32603;

/// The argument names that a schema's `required` array lists; entries that
/// are no strings do not count.
pub open spec fn required_names(schema: JsonView) -> Seq<Seq<char>> {
    match schema.get("required"@) {
        Some(JsonView::Array(v)) => string_entries(v),
        _ => Seq::empty(),
    }
}

/// The texts of the entries that are strings.
pub open spec fn string_entries(v: Seq<JsonView>) -> Seq<Seq<char>>
    decreases v.len(),
{
    if v.len() == 0 {
        Seq::empty()
    } else {
        match v.last() {
            JsonView::Text(s) => string_entries(v.drop_last()).push(s),
            _ => string_entries(v.drop_last()),
        }
    }
}

/// The argument `key` is given and is not `null`.
pub open spec fn is_given(args: JsonView, key: Seq<char>) -> bool {
    match args.get(key) {
        Some(v) => !(v is Null),
        None => false,
    }
}

/// The first of `names` that is not given.
pub open spec fn first_missing(args: JsonView, names: Seq<Seq<char>>) -> Option<Seq<char>>
    decreases names.len(),
{
    if names.len() == 0 {
        None
    } else if !is_given(args, names[0]) {
        Some(names[0])
    } else {
        first_missing(args, names.subrange(1, names.len() as int))
    }
}

/// What is wrong with the arguments of a tool with this schema, if anything.
pub open spec fn argument_fault(schema: JsonView, args: JsonView) -> Option<Seq<char>> {
    let names = required_names(schema);
    if names.len() == 0 {
        None
    } else if !(args is Object) {
        Some("arguments must be an object"@)
    } else {
        match first_missing(args, names) {
            Some(key) => Some("missing required argument `"@ + key + "`"@),
            None => None,
        }
    }
}

/// The names that a schema requires.
fn collect_required(schema: &Json) -> (names: Vec<&str>)
    ensures
        names@.len() == required_names(schema@).len(),
        forall|i: int| 0 <= i < names@.len() ==> (#[trigger] names@[i])@ == required_names(schema@)[i],
{
    let mut names: Vec<&str> = Vec::new();
    match schema.get("required") {
        Some(list) => match list.as_array() {
            Some(v) => {
                let ghost all = elements(v@);
                let mut i: usize = 0;
                while i < v.len()
                    invariant
                        i <= v@.len(),
                        all == elements(v@),
                        names@.len() == string_entries(all.subrange(0, i as int)).len(),
                        forall|k: int|
                            0 <= k < names@.len() ==> (#[trigger] names@[k])@ == string_entries(
                                all.subrange(0, i as int),
                            )[k],
                    decreases v.len() - i,
                {
                    let ghost now = all.subrange(0, i + 1);
                    assert(now.drop_last() == all.subrange(0, i as int));
                    assert(now.last() == v@[i as int]@);
                    match v[i].as_str() {
                        Some(s) => {
                            names.push(s);
                        },
                        None => {},
                    }
                    i = i + 1;
                }
                assert(all.subrange(0, all.len() as int) == all);
            },
            None => {},
        },
        None => {},
    }
    names
}

/// Check that every argument a schema requires is present and not `null`.
/// Types and other constraints are not checked.
pub fn validate_arguments(schema: &Json, args: &Json) -> (r: Result<(), Error>)
    ensures
        match r {
            Ok(_) => argument_fault(schema@, args@) is None,
            Err(e) => e is InvalidInput && argument_fault(schema@, args@) == Some(e.text()),
        },
{
    let names: Vec<&str> = collect_required(schema);
    let ghost all = required_names(schema@);
    if names.len() == 0 {
        return Ok(());
    }
    if args.as_object().is_none() {
        return Err(Error::InvalidInput("arguments must be an object".to_owned()));
    }
    let mut i: usize = 0;
    assert(all.subrange(0, all.len() as int) == all);
    while i < names.len()
        invariant
            i <= names@.len() == all.len(),
            all == required_names(schema@),
            args@ is Object,
            all.len() > 0,
            forall|k: int| 0 <= k < names@.len() ==> (#[trigger] names@[k])@ == all[k],
            first_missing(args@, all) == first_missing(
                args@,
                all.subrange(i as int, all.len() as int),
            ),
        decreases names.len() - i,
    {
        let ghost rest = all.subrange(i as int, all.len() as int);
        assert(rest[0] == names@[i as int]@);
        assert(rest.subrange(1, rest.len() as int) == all.subrange(i + 1, all.len() as int));
        let given: bool = match args.get(names[i]) {
            Some(v) => !v.is_null(),
            None => false,
        };
        if !given {
            return Err(Error::InvalidInput(cat3("missing required argument `", names[i], "`")));
        }
        i = i + 1;
    }
    Ok(())
}

/// The registered tools, each with the handle by which it is run.
///
/// The entries stand in ascending order of their names, so each name occurs
/// once.
pub struct ToolRegistry<H> {
    pub tools: Vec<(ToolDefinition, H)>,
}

impl<H> ToolRegistry<H> {
    /// The names ascend.
    pub open spec fn wf(self) -> bool {
        forall|i: int, j: int|
            0 <= i < j < self.tools@.len() ==> text_lt(
                (#[trigger] self.tools@[i]).0.name@,
                (#[trigger] self.tools@[j]).0.name@,
            )
    }

    /// A tool of this name is registered.
    pub open spec fn has(self, name: Seq<char>) -> bool {
        exists|i: int| 0 <= i < self.tools@.len() && (#[trigger] self.tools@[i]).0.name@ == name
    }

    /// The index at which the tool of this name stands.
    pub open spec fn index_of(self, name: Seq<char>) -> int {
        choose|i: int| 0 <= i < self.tools@.len() && (#[trigger] self.tools@[i]).0.name@ == name
    }

    /// The tool registered under `name`: its definition and its handle.
    pub open spec fn find(self, name: Seq<char>) -> Option<(DefinitionView, H)> {
        if self.has(name) {
            let i = self.index_of(name);
            Some((self.tools@[i].0@, self.tools@[i].1))
        } else {
            None
        }
    }

    /// A name stands at one index only.
    proof fn lemma_at(self, i: int)
        requires
            self.wf(),
            0 <= i < self.tools@.len(),
        ensures
            self.find(self.tools@[i].0.name@) == Some((self.tools@[i].0@, self.tools@[i].1)),
    {
        let name = self.tools@[i].0.name@;
        let k = self.index_of(name);
        assert(self.tools@[i].0.name@ == name);
        law_text_order_total(name, name);
        if k < i {
            assert(text_lt(self.tools@[k].0.name@, self.tools@[i].0.name@));
        } else if i < k {
            assert(text_lt(self.tools@[i].0.name@, self.tools@[k].0.name@));
        }
    }

    /// The definitions in order.
    pub open spec fn listed(self) -> Seq<DefinitionView> {
        Seq::new(self.tools@.len(), |i: int| self.tools@[i].0@)
    }

    /// A registry without tools.
    pub fn new() -> (r: ToolRegistry<H>)
        ensures
            r.wf(),
            r.tools@.len() == 0,
    {
        ToolRegistry { tools: Vec::new() }
    }

    /// The index of the first entry whose name is not before `name`.
    fn place(&self, name: &str) -> (i: usize)
        requires
            self.wf(),
        ensures
            i <= self.tools@.len(),
            forall|j: int| 0 <= j < i ==> text_lt((#[trigger] self.tools@[j]).0.name@, name@),
            forall|j: int|
                i <= j < self.tools@.len() ==> !text_lt((#[trigger] self.tools@[j]).0.name@, name@),
    {
        let mut i: usize = 0;
        while i < self.tools.len() && is_before(self.tools[i].0.name.as_str(), name)
            invariant
                i <= self.tools@.len(),
                forall|j: int| 0 <= j < i ==> text_lt((#[trigger] self.tools@[j]).0.name@, name@),
            decreases self.tools.len() - i,
        {
            i = i + 1;
        }
        proof {
            assert forall|j: int| i <= j < self.tools@.len() implies !text_lt(
                (#[trigger] self.tools@[j]).0.name@,
                name@,
            ) by {
                if j > i && text_lt(self.tools@[j].0.name@, name@) {
                    assert(text_lt(self.tools@[i as int].0.name@, self.tools@[j].0.name@));
                    law_text_order_transitive(
                        self.tools@[i as int].0.name@,
                        self.tools@[j].0.name@,
                        name@,
                    );
                }
            }
        }
        i
    }

    /// Register a tool. A tool already registered under its name is replaced;
    /// all others stay as they are.
    pub fn register(&mut self, def: ToolDefinition, handler: H)
        requires
            old(self).wf(),
        ensures
            final(self).wf(),
            forall|name: Seq<char>| #[trigger]
                final(self).find(name) == (if name == def.name@ {
                    Some((def@, handler))
                } else {
                    old(self).find(name)
                }),
    {
        let ghost before = self.tools@;
        let ghost was = *self;
        let ghost name = def.name@;
        let i: usize = self.place(def.name.as_str());
        let ghost entry = (def, handler);
        let replaces: bool = i < self.tools.len() && same_text(
            self.tools[i].0.name.as_str(),
            def.name.as_str(),
        );
        if replaces {
            self.tools.set(i, (def, handler));
            assert(self.tools@ == before.update(i as int, entry));
        } else {
            self.tools.insert(i, (def, handler));
            assert(self.tools@ == before.insert(i as int, entry));
        }
        proof {
            assert(self.tools@[i as int] == entry);
            let gap = if replaces {
                0int
            } else {
                1
            };
            if i < before.len() {
                law_text_order_total(before[i as int].0.name@, name);
            }
            assert forall|a: int, b: int| 0 <= a < b < self.tools@.len() implies text_lt(
                (#[trigger] self.tools@[a]).0.name@,
                (#[trigger] self.tools@[b]).0.name@,
            ) by {
                if a < i {
                    assert(self.tools@[a] == before[a]);
                } else if a > i {
                    assert(self.tools@[a] == before[a - gap]);
                }
                if b < i {
                    assert(self.tools@[b] == before[b]);
                } else if b > i {
                    assert(self.tools@[b] == before[b - gap]);
                }
                if a == i && b - gap > i {
                    assert(text_lt(before[i as int].0.name@, before[b - gap].0.name@));
                    if !replaces {
                        law_text_order_transitive(
                            name,
                            before[i as int].0.name@,
                            before[b - gap].0.name@,
                        );
                    }
                }
            }
            self.lemma_at(i as int);
            assert forall|n: Seq<char>| n != name implies #[trigger] self.find(n) == was.find(n) by {
                if was.has(n) {
                    let k = was.index_of(n);
                    was.lemma_at(k);
                    let k2 = if k < i {
                        k
                    } else {
                        k + gap
                    };
                    assert(self.tools@[k2] == before[k]);
                    self.lemma_at(k2);
                }
                if self.has(n) {
                    let k = self.index_of(n);
                    self.lemma_at(k);
                    let k2 = if k < i {
                        k
                    } else {
                        k - gap
                    };
                    assert(self.tools@[k] == before[k2]);
                    was.lemma_at(k2);
                }
            }
        }
    }

    /// All definitions, in ascending order of their names.
    pub fn definitions(&self) -> (v: Vec<ToolDefinition>)
        ensures
            definition_views(v@) == self.listed(),
    {
        let mut v: Vec<ToolDefinition> = Vec::new();
        let mut i: usize = 0;
        while i < self.tools.len()
            invariant
                i <= self.tools@.len(),
                v@.len() == i,
                forall|k: int| 0 <= k < i ==> (#[trigger] v@[k])@ == self.tools@[k].0@,
            decreases self.tools.len() - i,
        {
            v.push(self.tools[i].0.copy());
            i = i + 1;
        }
        assert(definition_views(v@) =~= self.listed());
        v
    }

    /// The tool registered under `name`.
    pub fn get_entry(&self, name: &str) -> (r: Option<&(ToolDefinition, H)>)
        requires
            self.wf(),
        ensures
            match r {
                Some(e) => e.0.name@ == name@ && self.find(name@) == Some((e.0@, e.1)),
                None => self.find(name@) is None,
            },
    {
        let i: usize = self.place(name);
        if i < self.tools.len() && same_text(self.tools[i].0.name.as_str(), name) {
            proof {
                self.lemma_at(i as int);
            }
            Some(&self.tools[i])
        } else {
            proof {
                assert forall|j: int| 0 <= j < self.tools@.len() implies (
                #[trigger] self.tools@[j]).0.name@ != name@ by {
                    law_text_order_total(self.tools@[j].0.name@, name@);
                    if j > i {
                        law_text_order_total(self.tools@[i as int].0.name@, name@);
                    }
                }
            }
            None
        }
    }
}

impl<H> Default for ToolRegistry<H> {
    /// An empty registry.
    fn default() -> (r: ToolRegistry<H>)
        ensures
            r.wf(),
            r.tools@.len() == 0,
    {
        ToolRegistry::new()
    }
}

/// A server under construction.
pub struct ServerBuilder<H> {
    pub implementation: Implementation,
    pub registry: ToolRegistry<H>,
}

impl<H> ServerBuilder<H> {
    /// A builder for a server of this identity, without tools.
    pub fn new(implementation: Implementation) -> (b: ServerBuilder<H>)
        ensures
            b.implementation == implementation,
            b.registry.wf(),
            b.registry.tools@.len() == 0,
    {
        ServerBuilder { implementation, registry: ToolRegistry::new() }
    }

    /// The same builder with one more tool registered.
    pub fn tool(self, def: ToolDefinition, handler: H) -> (b: ServerBuilder<H>)
        requires
            self.registry.wf(),
        ensures
            b.implementation == self.implementation,
            b.registry.wf(),
            forall|name: Seq<char>| #[trigger]
                b.registry.find(name) == (if name == def.name@ {
                    Some((def@, handler))
                } else {
                    self.registry.find(name)
                }),
    {
        let mut registry = self.registry;
        registry.register(def, handler);
        ServerBuilder { implementation: self.implementation, registry }
    }

    /// The finished server.
    pub fn build(self) -> (s: MCPServer<H>)
        ensures
            s.implementation == self.implementation,
            s.registry == self.registry,
    {
        MCPServer { implementation: self.implementation, registry: self.registry }
    }
}

/// A server with its tools.
pub struct MCPServer<H> {
    pub implementation: Implementation,
    pub registry: ToolRegistry<H>,
}

/// What is to be done about a message.
pub enum Handling<'a, H> {
    /// Nothing.
    Ignore,
    /// Send this response.
    Respond(JSONRPCResponse),
    /// Run a tool on these arguments, then answer request `id` with what
    /// [`finish_call`] makes of the outcome.
    Call { id: Json, handler: &'a H, arguments: Json },
}

/// What is to be done about a request.
pub enum Plan<H> {
    Respond(ResponseView),
    Call { id: JsonView, handler: H, arguments: JsonView },
}

/// The handling carries out the plan.
pub open spec fn carries_out<H>(h: Handling<'_, H>, plan: Plan<H>) -> bool {
    match h {
        Handling::Ignore => false,
        Handling::Respond(r) => plan == Plan::<H>::Respond(r@),
        Handling::Call { id, handler, arguments } => plan == (Plan::Call {
            id: id@,
            handler: *handler,
            arguments: arguments@,
        }),
    }
}

/// The result of `initialize`.
pub open spec fn server_info(name: Seq<char>, version: Seq<char>) -> JsonView {
    JsonView::Object(
        seq![
            ("protocolVersion"@, JsonView::Text("2024-11-05"@)),
            (
                "serverInfo"@,
                JsonView::Object(
                    seq![("name"@, JsonView::Text(name)), ("version"@, JsonView::Text(version))],
                ),
            ),
            (
                "capabilities"@,
                JsonView::Object(seq![("tools"@, JsonView::Object(Seq::empty()))]),
            ),
        ],
    )
}

/// The arguments of a `tools/call` request; an empty object when it has none.
pub open spec fn call_arguments(params: JsonView) -> JsonView {
    match params.get("arguments"@) {
        Some(a) => a,
        None => JsonView::Object(Seq::empty()),
    }
}

impl<H> MCPServer<H> {
    /// What is to be done about a `tools/call` request with these parameters:
    /// run the named tool, or report that no tool is named, that there is no
    /// such tool, or that its arguments are at fault.
    pub open spec fn call_plan(self, id: JsonView, params: JsonView) -> Plan<H> {
        match params.get("name"@) {
            Some(JsonView::Text(name)) => match self.registry.find(name) {
                Some((def, handler)) => match argument_fault(
                    def.input_schema,
                    call_arguments(params),
                ) {
                    Some(fault) => Plan::Respond(
                        ResponseView::failure(id, ERR_INVALID_PARAMS as int, fault),
                    ),
                    None => Plan::Call { id, handler, arguments: call_arguments(params) },
                },
                None => Plan::Respond(
                    ResponseView::failure(
                        id,
                        ERR_METHOD_NOT_FOUND as int,
                        "tool `"@ + name + "` not found"@,
                    ),
                ),
            },
            _ => Plan::Respond(
                ResponseView::failure(
                    id,
                    ERR_INVALID_PARAMS as int,
                    "missing `name` in tools/call"@,
                ),
            ),
        }
    }

    /// What is to be done about a request.
    pub open spec fn request_plan(self, id: JsonView, method: Seq<char>, params: JsonView) -> Plan<H> {
        if method == "initialize"@ {
            Plan::Respond(
                ResponseView::success(
                    id,
                    server_info(self.implementation.name@, self.implementation.version@),
                ),
            )
        } else if method == "ping"@ {
            Plan::Respond(ResponseView::success(id, JsonView::Object(Seq::empty())))
        } else if method == "tools/list"@ {
            Plan::Respond(ResponseView::success(id, tool_list_wire(self.registry.listed())))
        } else if method == "tools/call"@ {
            self.call_plan(id, params)
        } else {
            Plan::Respond(
                ResponseView::failure(
                    id,
                    ERR_METHOD_NOT_FOUND as int,
                    "method `"@ + method + "` not found"@,
                ),
            )
        }
    }

    /// A server of this identity, without tools.
    pub fn new(implementation: Implementation) -> (s: MCPServer<H>)
        ensures
            s.implementation == implementation,
            s.registry.wf(),
            s.registry.tools@.len() == 0,
    {
        ServerBuilder::new(implementation).build()
    }

    /// The tools of the server.
    pub fn registry(&self) -> (r: &ToolRegistry<H>)
        ensures
            *r == self.registry,
    {
        &self.registry
    }

    /// Decide what to do about a message. Only requests are answered.
    pub fn dispatch(&self, msg: JSONRPCMessage) -> (h: Handling<'_, H>)
        requires
            self.registry.wf(),
        ensures
            match msg {
                JSONRPCMessage::Request(req) => carries_out(
                    h,
                    self.request_plan(req.id@, req.method@, params_of(req)),
                ),
                _ => h is Ignore,
            },
    {
        match msg {
            JSONRPCMessage::Request(req) => self.handle_request(req),
            JSONRPCMessage::Notification { .. } => Handling::Ignore,
            JSONRPCMessage::Response(_) => Handling::Ignore,
        }
    }

    /// Decide what to do about a request.
    pub fn handle_request(&self, req: JSONRPCRequest) -> (h: Handling<'_, H>)
        requires
            self.registry.wf(),
        ensures
            carries_out(h, self.request_plan(req.id@, req.method@, params_of(req))),
    {
        let method: &str = req.method.as_str();
        if same_text(method, "initialize") {
            let info: Json = object(
                vec![
                    member("name", text(self.implementation.name.as_str())),
                    member("version", text(self.implementation.version.as_str())),
                ],
            );
            let nothing: Json = object(Vec::new());
            let capabilities: Json = object(vec![member("tools", nothing)]);
            let result: Json = object(
                vec![
                    member("protocolVersion", text("2024-11-05")),
                    member("serverInfo", info),
                    member("capabilities", capabilities),
                ],
            );
            proof {
                let want = server_info(self.implementation.name@, self.implementation.version@);
                assert(info@->Object_0 =~= want->Object_0[1].1->Object_0);
                assert(nothing@->Object_0 =~= Seq::empty());
                assert(capabilities@->Object_0 =~= want->Object_0[2].1->Object_0);
                assert(result@->Object_0 =~= want->Object_0);
            }
            Handling::Respond(JSONRPCResponse::success(req.id, result))
        } else if same_text(method, "ping") {
            let nothing: Json = object(Vec::new());
            assert(nothing@->Object_0 =~= Seq::empty());
            Handling::Respond(JSONRPCResponse::success(req.id, nothing))
        } else if same_text(method, "tools/list") {
            let list = ListToolsResult { tools: self.registry.definitions() };
            Handling::Respond(JSONRPCResponse::success(req.id, list.to_json()))
        } else if same_text(method, "tools/call") {
            self.handle_tool_call(req)
        } else {
            let message: String = cat3("method `", method, "` not found");
            Handling::Respond(JSONRPCResponse::failure(req.id, ERR_METHOD_NOT_FOUND, message))
        }
    }

    /// Decide what to do about a `tools/call` request. What the client got
    /// wrong is reported to it, with its request id.
    pub fn handle_tool_call(&self, req: JSONRPCRequest) -> (h: Handling<'_, H>)
        requires
            self.registry.wf(),
        ensures
            carries_out(h, self.call_plan(req.id@, params_of(req))),
    {
        let params: Json = match req.params {
            Some(p) => p,
            None => Json::Null,
        };
        let name: &str = match params.get("name") {
            Some(v) => match v.as_str() {
                Some(s) => s,
                None => {
                    return Handling::Respond(
                        JSONRPCResponse::failure(
                            req.id,
                            ERR_INVALID_PARAMS,
                            "missing `name` in tools/call".to_owned(),
                        ),
                    );
                },
            },
            None => {
                return Handling::Respond(
                    JSONRPCResponse::failure(
                        req.id,
                        ERR_INVALID_PARAMS,
                        "missing `name` in tools/call".to_owned(),
                    ),
                );
            },
        };
        let arguments: Json = match params.get("arguments") {
            Some(a) => a.copy(),
            None => {
                let nothing: Json = object(Vec::new());
                assert(nothing@->Object_0 =~= Seq::empty());
                nothing
            },
        };
        match self.registry.get_entry(name) {
            None => {
                let message: String = cat3("tool `", name, "` not found");
                Handling::Respond(JSONRPCResponse::failure(req.id, ERR_METHOD_NOT_FOUND, message))
            },
            Some(entry) => match validate_arguments(&entry.0.input_schema, &arguments) {
                Err(e) => Handling::Respond(
                    JSONRPCResponse::failure(req.id, ERR_INVALID_PARAMS, e.message()),
                ),
                Ok(_) => Handling::Call { id: req.id, handler: &entry.1, arguments },
            },
        }
    }
}

/// The parameters of a request; `null` when it has none.
pub open spec fn params_of(req: JSONRPCRequest) -> JsonView {
    match req.params {
        Some(p) => p@,
        None => JsonView::Null,
    }
}

/// The result object that reports a tool's outcome: what it returned, or its
/// error as a failed result.
pub open spec fn outcome_wire(outcome: Result<ToolCallResult, Error>) -> JsonView {
    match outcome {
        Ok(r) => r@.wire(),
        Err(e) => ToolResultView::plain(e.text(), true).wire(),
    }
}

/// The response to `tools/call` request `id` after the tool has run. A tool
/// that fails still yields a result, flagged as an error.
pub fn finish_call(id: Json, outcome: Result<ToolCallResult, Error>) -> (r: JSONRPCResponse)
    ensures
        r@ == ResponseView::success(id@, outcome_wire(outcome)),
{
    let result: Json = match outcome {
        Ok(r) => r.to_json(),
        Err(e) => {
            let message: String = e.message();
            ToolCallResult::error(message.as_str()).to_json()
        },
    };
    JSONRPCResponse::success(id, result)
}

/// What the serving loop does next.
pub enum ServeStep<'a, H> {
    /// Stop: the client has closed the connection.
    Stop,
    /// Stop: the connection failed.
    Fail(Error),
    /// Do this about the message, then read on.
    Handle(Handling<'a, H>),
}

/// Decide what the serving loop does about what it received. A message that
/// does not parse is answered with a parse error under the id `null`, and the
/// connection stays open; any other failure ends it.
pub fn serve_step<H>(
    server: &MCPServer<H>,
    received: Result<Option<JSONRPCMessage>, Error>,
) -> (step: ServeStep<'_, H>)
    requires
        server.registry.wf(),
    ensures
        match received {
            Ok(None) => step is Stop,
            Ok(Some(JSONRPCMessage::Request(req))) => step matches ServeStep::Handle(h) && carries_out(
                h,
                server.request_plan(req.id@, req.method@, params_of(req)),
            ),
            Ok(Some(_)) => step matches ServeStep::Handle(h) && h is Ignore,
            Err(Error::JsonRpcParse(m)) => step matches ServeStep::Handle(h) && carries_out(
                h,
                Plan::Respond(ResponseView::failure(JsonView::Null, ERR_PARSE as int, m@)),
            ),
            Err(e) => step == ServeStep::<H>::Fail(e),
        },
{
    match received {
        Ok(None) => ServeStep::Stop,
        Ok(Some(msg)) => ServeStep::Handle(server.dispatch(msg)),
        Err(Error::JsonRpcParse(m)) => ServeStep::Handle(
            Handling::Respond(JSONRPCResponse::failure(Json::Null, ERR_PARSE, m)),
        ),
        Err(e) => ServeStep::Fail(e),
    }
}

/// Every response repeats the id of its request and carries either a result
/// or an error, never both.
pub proof fn law_responses_are_well_formed<H>(
    server: MCPServer<H>,
    id: JsonView,
    method: Seq<char>,
    params: JsonView,
    outcome: Result<ToolCallResult, Error>,
)
    ensures
        match server.request_plan(id, method, params) {
            Plan::Respond(r) => r.jsonrpc == "2.0"@ && r.id == id && (r.result is Some
                <==> r.error is None),
            Plan::Call { id: asked, .. } => {
                let r = ResponseView::success(asked, outcome_wire(outcome));
                r.jsonrpc == "2.0"@ && r.id == id && r.result is Some && r.error is None
            },
        },
{
}

/// A tool runs only if it is registered under the name the client gave and
/// every argument its schema requires is given.
pub proof fn law_only_valid_calls_run<H>(
    server: MCPServer<H>,
    id: JsonView,
    method: Seq<char>,
    params: JsonView,
)
    ensures
        server.request_plan(id, method, params) matches Plan::Call { handler, arguments, .. } ==> {
            &&& method == "tools/call"@
            &&& params.get("name"@) matches Some(JsonView::Text(name))
            &&& server.registry.find(name) matches Some((def, h))
            &&& h == handler
            &&& argument_fault(def.input_schema, arguments) is None
        },
{
}

/// No name is missing exactly when all of them are given.
proof fn lemma_nothing_missing(args: JsonView, names: Seq<Seq<char>>)
    ensures
        first_missing(args, names) is None <==> forall|i: int|
            0 <= i < names.len() ==> is_given(args, #[trigger] names[i]),
    decreases names.len(),
{
    if names.len() > 0 {
        let rest = names.subrange(1, names.len() as int);
        lemma_nothing_missing(args, rest);
        if is_given(args, names[0]) {
            assert forall|i: int| 0 <= i < rest.len() implies #[trigger] rest[i] == names[i + 1] by {
            }
            if first_missing(args, rest) is None {
                assert forall|i: int| 0 <= i < names.len() implies is_given(
                    args,
                    #[trigger] names[i],
                ) by {
                    if i > 0 {
                        assert(rest[i - 1] == names[i]);
                    }
                }
            } else {
                let k = choose|k: int| 0 <= k < rest.len() && !is_given(args, #[trigger] rest[k]);
                assert(!is_given(args, names[k + 1]));
            }
        }
    }
}

/// Arguments pass exactly when they are an object in which every required name
/// is given and not `null`; a schema that requires nothing passes anything.
pub proof fn law_arguments_pass_when_complete(schema: JsonView, args: JsonView)
    ensures
        argument_fault(schema, args) is None <==> {
            ||| required_names(schema).len() == 0
            ||| args is Object && forall|i: int|
                0 <= i < required_names(schema).len() ==> is_given(
                    args,
                    #[trigger] required_names(schema)[i],
                )
        },
{
    lemma_nothing_missing(args, required_names(schema));
}

/// A call that is right runs: where a tool is registered under the name that the
/// client gives, and every argument that its schema requires is given and not
/// `null`, that tool is run on exactly the arguments of the call, for the request
/// that asked for it.
pub proof fn law_right_calls_run<H>(
    server: MCPServer<H>,
    id: JsonView,
    name: Seq<char>,
    params: JsonView,
    args: JsonView,
    def: DefinitionView,
    handler: H,
    required: Seq<JsonView>,
)
    requires
        params.get("name"@) == Some(JsonView::Text(name)),
        params.get("arguments"@) == Some(args),
        server.registry.find(name) == Some((def, handler)),
        def.input_schema.get("required"@) == Some(JsonView::Array(required)),
        args is Object,
        forall|i: int|
            0 <= i < required.len() ==> {
                &&& (#[trigger] required[i]) is Text
                &&& args.get(required[i]->Text_0) is Some
                &&& !(args.get(required[i]->Text_0)->0 is Null)
            },
    ensures
        server.request_plan(id, "tools/call"@, params) == (Plan::Call {
            id,
            handler,
            arguments: args,
        }),
{
    lemma_method_names();
    lemma_string_entries(required);
    lemma_nothing_missing(args, string_entries(required));
    assert forall|i: int| 0 <= i < string_entries(required).len() implies is_given(
        args,
        #[trigger] string_entries(required)[i],
    ) by {
        assert(required[i] is Text);
    }
}

/// A list of texts has them as its entries.
proof fn lemma_string_entries(v: Seq<JsonView>)
    requires
        forall|i: int| 0 <= i < v.len() ==> (#[trigger] v[i]) is Text,
    ensures
        string_entries(v).len() == v.len(),
        forall|i: int| 0 <= i < v.len() ==> #[trigger] string_entries(v)[i] == v[i]->Text_0,
    decreases v.len(),
{
    if v.len() > 0 {
        let front = v.drop_last();
        assert forall|i: int| 0 <= i < front.len() implies (#[trigger] front[i]) is Text by {
            assert(front[i] == v[i]);
        }
        lemma_string_entries(front);
        assert(v[v.len() - 1] is Text);
        assert forall|i: int| 0 <= i < v.len() implies #[trigger] string_entries(v)[i]
            == v[i]->Text_0 by {
            if i < front.len() {
                assert(string_entries(front)[i] == front[i]->Text_0);
            }
        }
    }
}

/// The names of the methods differ.
proof fn lemma_method_names()
    ensures
        "tools/call"@ != "initialize"@,
        "tools/call"@ != "ping"@,
        "tools/call"@ != "tools/list"@,
        "tools/list"@ != "initialize"@,
        "tools/list"@ != "ping"@,
        "ping"@ != "initialize"@,
{
    reveal_strlit("tools/call");
    reveal_strlit("tools/list");
    reveal_strlit("initialize");
    reveal_strlit("ping");
    assert("tools/call"@[0] == 't');
    assert("initialize"@[0] == 'i');
    assert("ping"@[0] == 'p');
    assert("tools/list"@[0] == 't');
    assert("tools/call"@[6] == 'c');
    assert("tools/list"@[6] == 'l');
}

/// What is wrong with a request is said to who asked, with the code that stands
/// for it: a method or a tool that is not there, a call that names no tool, and a
/// call that leaves out a required argument, which is named.
pub proof fn law_wrong_requests_are_answered<H>(
    server: MCPServer<H>,
    id: JsonView,
    method: Seq<char>,
    params: JsonView,
)
    ensures
        method != "initialize"@ && method != "ping"@ && method != "tools/list"@ && method
            != "tools/call"@ ==> server.request_plan(id, method, params) == Plan::<H>::Respond(
            ResponseView::failure(id, -32601, "method `"@ + method + "` not found"@),
        ),
        !(params.get("name"@) is Some && params.get("name"@)->0 is Text) ==> server.request_plan(
            id,
            "tools/call"@,
            params,
        ) == Plan::<H>::Respond(
            ResponseView::failure(id, -32602, "missing `name` in tools/call"@),
        ),
        params.get("name"@) matches Some(JsonView::Text(name)) ==> server.registry.find(
            name,
        ) is None ==> server.request_plan(id, "tools/call"@, params) == Plan::<H>::Respond(
            ResponseView::failure(id, -32601, "tool `"@ + name + "` not found"@),
        ),
{
    lemma_method_names();
}

/// The first required argument that is not given is the one that is named.
pub proof fn law_first_missing_argument_is_named(
    schema: JsonView,
    args: JsonView,
    required: Seq<JsonView>,
    k: int,
)
    requires
        schema.get("required"@) == Some(JsonView::Array(required)),
        args is Object,
        forall|i: int| 0 <= i < required.len() ==> (#[trigger] required[i]) is Text,
        0 <= k < required.len(),
        args.get(required[k]->Text_0) is None || args.get(required[k]->Text_0)->0 is Null,
        forall|i: int|
            0 <= i < k ==> args.get((#[trigger] required[i])->Text_0) is Some && !(args.get(
                required[i]->Text_0,
            )->0 is Null),
    ensures
        argument_fault(schema, args) == Some(
            "missing required argument `"@ + required[k]->Text_0 + "`"@,
        ),
{
    lemma_string_entries(required);
    let names = string_entries(required);
    assert forall|i: int| 0 <= i < k implies is_given(args, #[trigger] names[i]) by {
        assert(names[i] == required[i]->Text_0);
    }
    lemma_first_missing(args, names, k);
}

/// The first name that is not given is missing.
proof fn lemma_first_missing(args: JsonView, names: Seq<Seq<char>>, k: int)
    requires
        0 <= k < names.len(),
        !is_given(args, names[k]),
        forall|i: int| 0 <= i < k ==> is_given(args, #[trigger] names[i]),
    ensures
        first_missing(args, names) == Some(names[k]),
    decreases k,
{
    if k > 0 {
        let rest = names.subrange(1, names.len() as int);
        assert(is_given(args, names[0]));
        assert forall|i: int| 0 <= i < k - 1 implies is_given(args, #[trigger] rest[i]) by {
            assert(rest[i] == names[i + 1]);
        }
        lemma_first_missing(args, rest, k - 1);
    }
}

/// A client that greets is told who answers, one that pings gets an empty reply,
/// and one that asks for the tools gets all of them, in the order of their names.
pub proof fn law_greeting_ping_and_list<H>(server: MCPServer<H>, id: JsonView, params: JsonView)
    ensures
        server.request_plan(id, "initialize"@, params) == Plan::<H>::Respond(
            ResponseView::success(
                id,
                server_info(server.implementation.name@, server.implementation.version@),
            ),
        ),
        server.request_plan(id, "ping"@, params) == Plan::<H>::Respond(
            ResponseView::success(id, JsonView::Object(Seq::empty())),
        ),
        server.request_plan(id, "tools/list"@, params) == Plan::<H>::Respond(
            ResponseView::success(
                id,
                tool_list_wire(Seq::new(server.registry.tools@.len(), |i: int|
                    server.registry.tools@[i].0@)),
            ),
        ),
{
    lemma_method_names();
    assert(server.registry.listed() =~= Seq::new(
        server.registry.tools@.len(),
        |i: int| server.registry.tools@[i].0@,
    ));
}

/// A tool that fails is reported as failed, in the words of its error; one that
/// does not is reported as it returned.
pub proof fn law_tool_failures_are_told(r: ToolCallResult, e: Error)
    ensures
        outcome_wire(Ok(r)) == r@.wire(),
        outcome_wire(Err(e)) == (ToolResultView {
            content: seq![crate::mcp::types::BlockView::plain(e.text())],
            is_error: true,
        }).wire(),
{
}

} // verus!
