use std::io::{BufRead, Cursor, Read};

use mnemosyne::error::Error;
use mnemosyne::json::{Json, Number};
use mnemosyne::knowledge::KnowledgeEdge;
use mnemosyne::mcp::http_server::{
    check_auth, constant_time_eq, is_batch, shutting_down, unreadable_body, AppState,
    HttpTransport, PostExchange, Sessions, WaitEvent, WaitStep,
};
use mnemosyne::mcp::registration::{
    build_server, ExternalHandlers, KnowledgeHandlers, MemoryHandlers, ServerHandlers,
    StoryHandlers, TransferHandlers,
};
use mnemosyne::mcp::server::{
    finish_call, serve_step, validate_arguments, Handling, MCPServer, ServeStep, ServerBuilder,
    ERR_INVALID_PARAMS, ERR_METHOD_NOT_FOUND, ERR_PARSE,
};
use mnemosyne::mcp::sse::{sse_frame, SseStep, SseTransport};
use mnemosyne::mcp::tenant_scope::{ensure_entity_tenant, let_in, tenant_argument};
use mnemosyne::mcp::trace_path_tool::{
    no_path_reply, node_name, path_reply, trace_request, trace_start, PathSearch, PathStep,
    TraceStart,
};
use mnemosyne::mcp::transport::{
    classify, frame_line, not_text_error, too_long_error, LineEvent, LineOutcome, StdioTransport, MAX_LINE_BYTES,
};
use mnemosyne::mcp::types::{
    ContentBlock, Implementation, JSONRPCMessage, JSONRPCRequest, JSONRPCResponse, JsonReply,
    ToolCallResult, ToolDefinition,
};

fn from_value(v: &serde_json::Value) -> Json {
    match v {
        serde_json::Value::Null => Json::Null,
        serde_json::Value::Bool(b) => Json::Bool(*b),
        serde_json::Value::Number(n) => {
            if let Some(u) = n.as_u64() {
                Json::Number(Number::PosInt(u))
            } else if let Some(i) = n.as_i64() {
                Json::Number(Number::NegInt(i))
            } else {
                Json::Number(Number::Other(n.to_string()))
            }
        }
        serde_json::Value::String(s) => Json::Text(s.clone()),
        serde_json::Value::Array(a) => Json::Array(a.iter().map(from_value).collect()),
        serde_json::Value::Object(m) => {
            Json::Object(m.iter().map(|(k, v)| (k.clone(), from_value(v))).collect())
        }
    }
}

fn json(text: &str) -> Json {
    from_value(&serde_json::from_str(text).expect("valid JSON"))
}

fn to_value(j: &Json) -> serde_json::Value {
    match j {
        Json::Null => serde_json::Value::Null,
        Json::Bool(b) => serde_json::Value::Bool(*b),
        Json::Number(Number::PosInt(u)) => serde_json::Value::from(*u),
        Json::Number(Number::NegInt(i)) => serde_json::Value::from(*i),
        Json::Number(Number::Other(s)) => serde_json::from_str(s).expect("a JSON number"),
        Json::Text(s) => serde_json::Value::String(s.clone()),
        Json::Array(a) => serde_json::Value::Array(a.iter().map(to_value).collect()),
        Json::Object(m) => {
            serde_json::Value::Object(m.iter().map(|(k, v)| (k.clone(), to_value(v))).collect())
        }
    }
}

fn named(name: &str) -> Implementation {
    Implementation { name: name.into(), version: "1.0.0".into() }
}

fn request(id: u64, method: &str, params: Option<&str>) -> JSONRPCMessage {
    JSONRPCMessage::Request(JSONRPCRequest {
        jsonrpc: "2.0".into(),
        id: Json::Number(Number::PosInt(id)),
        method: method.into(),
        params: params.map(json),
    })
}

fn tool(name: &str, schema: &str) -> ToolDefinition {
    ToolDefinition { name: name.into(), description: "a tool".into(), input_schema: json(schema) }
}

/// Serves one message; a called handler answers with its own name.
fn serve(
    server: &MCPServer<&'static str>,
    msg: JSONRPCMessage,
) -> Option<JSONRPCResponse> {
    match serve_step(server, Ok(Some(msg))) {
        ServeStep::Handle(Handling::Ignore) => None,
        ServeStep::Handle(Handling::Respond(r)) => Some(r),
        ServeStep::Handle(Handling::Call { id, handler, arguments: _ }) => {
            Some(finish_call(id, Ok(ToolCallResult::text(handler))))
        }
        ServeStep::Stop | ServeStep::Fail(_) => panic!("the message must be handled"),
    }
}

fn result_of(r: &JSONRPCResponse) -> serde_json::Value {
    to_value(r.result.as_ref().expect("result present"))
}

// Types.

#[test]
fn content_block_text_shape() {
    let b = ContentBlock::text("hi");
    assert_eq!(b.block_type, "text");
    assert_eq!(b.text.as_deref(), Some("hi"));
    assert!(b.mime_type.is_none());
}

#[test]
fn tool_call_result_error() {
    let r = ToolCallResult::error("bad input");
    assert!(r.is_error);
    assert_eq!(r.content.len(), 1);
    assert_eq!(r.content[0].text.as_deref(), Some("bad input"));
}

// The server.

#[test]
fn initialize_response_shape() {
    let server: MCPServer<&'static str> = MCPServer::new(named("test"));
    let r = serve(&server, request(1, "initialize", None)).expect("one response sent");
    let result = result_of(&r);
    assert_eq!(result["serverInfo"]["name"].as_str(), Some("test"));
    assert!(result.get("capabilities").is_some());
}

#[test]
fn tools_list_returns_registered() {
    let server = ServerBuilder::new(named("test"))
        .tool(tool("noop", r#"{"type": "object"}"#), "noop")
        .build();
    let r = serve(&server, request(2, "tools/list", None)).expect("a response");
    let result = result_of(&r);
    let tools = result["tools"].as_array().expect("tools array");
    assert_eq!(tools.len(), 1);
    assert_eq!(tools[0]["name"].as_str(), Some("noop"));
    assert_eq!(tools[0]["input_schema"]["type"].as_str(), Some("object"));
}

#[test]
fn unknown_method_error() {
    let server: MCPServer<&'static str> = MCPServer::new(named("test"));
    let r = serve(&server, request(3, "frobnicate", None)).expect("a response");
    assert_eq!(r.error.expect("error").code, ERR_METHOD_NOT_FOUND);
}

#[test]
fn tools_call_invokes_handler() {
    let server = ServerBuilder::new(named("test"))
        .tool(tool("noop", r#"{"type": "object"}"#), "noop")
        .build();
    let r = serve(&server, request(4, "tools/call", Some(r#"{"name": "noop", "arguments": {}}"#)))
        .expect("a response");
    let result = result_of(&r);
    let content = result["content"].as_array().expect("content array");
    assert_eq!(content.len(), 1);
    assert_eq!(content[0]["text"].as_str(), Some("noop"));
    assert_eq!(result["isError"].as_bool(), Some(false));
}

#[test]
fn tools_call_unknown_tool() {
    let server: MCPServer<&'static str> = MCPServer::new(named("test"));
    let r = serve(&server, request(5, "tools/call", Some(r#"{"name": "ghost", "arguments": {}}"#)))
        .expect("a response");
    let err = r.error.expect("error");
    assert_eq!(err.code, ERR_METHOD_NOT_FOUND);
    assert!(err.message.contains("ghost"));
}

#[test]
fn tools_call_validates_required_args() {
    let server = ServerBuilder::new(named("test"))
        .tool(tool("needs_foo", r#"{"type": "object", "required": ["foo"]}"#), "noop")
        .build();
    let r = serve(
        &server,
        request(6, "tools/call", Some(r#"{"name": "needs_foo", "arguments": {}}"#)),
    )
    .expect("a response");
    let err = r.error.expect("error present");
    assert_eq!(err.code, ERR_INVALID_PARAMS);
    assert!(err.message.contains("foo"));
}

#[test]
fn notification_no_response() {
    let server: MCPServer<&'static str> = MCPServer::new(named("test"));
    let msg = JSONRPCMessage::Notification {
        jsonrpc: "2.0".into(),
        method: "notifications/initialized".into(),
        params: None,
    };
    assert!(serve(&server, msg).is_none(), "no response to notification");
}

#[test]
fn a_request_is_answered_under_its_id() {
    let server: MCPServer<&'static str> = MCPServer::new(named("test"));
    for (id, method) in [(11, "initialize"), (12, "nonsense"), (13, "tools/call")] {
        let r = serve(&server, request(id, method, None)).expect("a response");
        assert_eq!(r.id.as_u64(), Some(id));
        assert_eq!(r.jsonrpc, "2.0");
        assert!(r.result.is_some() != r.error.is_some());
    }
}

#[test]
fn a_complete_call_hands_its_arguments_on() {
    let server = ServerBuilder::new(named("test"))
        .tool(tool("t", r#"{"type": "object", "required": ["foo"]}"#), "h")
        .build();
    let call = request(1, "tools/call", Some(r#"{"name": "t", "arguments": {"foo": 5}}"#));
    match server.dispatch(call) {
        Handling::Call { handler, arguments, .. } => {
            assert_eq!(*handler, "h");
            assert_eq!(arguments.get("foo").and_then(|v| v.as_u64()), Some(5));
        }
        _ => panic!("the handler must be called"),
    }
    assert!(validate_arguments(&json(r#"{"required": ["foo"]}"#), &json(r#"{"foo": 1}"#)).is_ok());
    assert!(matches!(
        validate_arguments(&json(r#"{"required": ["foo"]}"#), &json("{}")),
        Err(Error::InvalidInput(_))
    ));
}

#[test]
fn a_failed_handler_is_reported_as_a_result() {
    let r = finish_call(
        Json::Number(Number::PosInt(9)),
        Err(Error::Internal("broken".to_string())),
    );
    assert_eq!(r.id.as_u64(), Some(9));
    let result = result_of(&r);
    assert_eq!(result["isError"], true);
    assert_eq!(result["content"][0]["text"], "broken");
}

#[test]
fn the_serve_loop_answers_parse_errors_and_ends_at_eof() {
    let server: MCPServer<&'static str> = MCPServer::new(named("test"));
    assert!(matches!(serve_step(&server, Ok(None)), ServeStep::Stop));
    match serve_step(&server, Err(Error::JsonRpcParse("bad line".to_string()))) {
        ServeStep::Handle(Handling::Respond(r)) => {
            assert!(r.id.is_null());
            assert_eq!(r.error.expect("error").code, ERR_PARSE);
        }
        _ => panic!("a parse error is answered"),
    }
    assert!(matches!(
        serve_step(&server, Err(Error::Io("pipe closed".to_string()))),
        ServeStep::Fail(Error::Io(_))
    ));
}

#[test]
fn a_tool_registered_again_is_replaced() {
    let server = ServerBuilder::new(named("test"))
        .tool(tool("t", "{}"), "first")
        .tool(tool("t", "{}"), "second")
        .build();
    assert_eq!(server.registry().definitions().len(), 1);
    assert_eq!(server.registry().get_entry("t").map(|e| e.1), Some("second"));
    assert!(server.registry().get_entry("u").is_none());
}

fn all_handlers() -> ServerHandlers<&'static str> {
    ServerHandlers {
        memory: MemoryHandlers {
            lore_scope: "lore_scope",
            memory_search: "memory_search",
            memory_store: "memory_store",
            memory_feedback: "memory_feedback",
            memory_compile: "memory_compile",
            memory_context_check: "memory_context_check",
            persona_check: "persona_check",
            persona_inject: "persona_inject",
            fact_provenance: "fact_provenance",
            state_timeline: "state_timeline",
            decision_trace: "decision_trace",
            decision_search: "decision_search",
            relationship_update: "relationship_update",
            relationship_query: "relationship_query",
            persona_timeline: "persona_timeline",
            memory_decay: "memory_decay",
            character_search: "character_search",
            character_network: "character_network",
            character_ingest: "character_ingest",
            character_graph: "character_graph",
            memory_stats: "memory_stats",
        },
        knowledge: KnowledgeHandlers {
            inspect_entity: "inspect_entity",
            timeline: "timeline",
            relation_graph: "relation_graph",
            evidence: "evidence",
            correct_relation: "correct_relation",
            cognitive_context: "cognitive_context",
        },
        external: ExternalHandlers {
            knowledge_attach: "knowledge_attach",
            knowledge_ingest: "knowledge_ingest",
            agent_fact_compile: "agent_fact_compile",
        },
        generalize: "generalize_compile",
        transfer: TransferHandlers { memory_export: "memory_export", memory_import: "memory_import" },
        graph_search: "search_graph",
        trace_path: "trace_path",
        story: StoryHandlers { person_key_events: "person_key_events", story_bridge: "story_bridge" },
    }
}

#[test]
fn every_tool_is_registered_under_its_name() {
    let server = build_server(named("lorescope"), all_handlers());
    let definitions = server.registry().definitions();
    assert_eq!(definitions.len(), 37);
    for d in definitions {
        let entry = server.registry().get_entry(&d.name).expect("listed tools are found");
        assert_eq!(entry.1, d.name);
        assert!(!d.description.is_empty());
    }
}

// Lines.

#[test]
fn stdio_transport_constructs() {
    let _ = StdioTransport::new();
    let _ = StdioTransport::default();
}

#[test]
fn blank_line_is_skipped_not_eof() {
    for line in ["", "   ", "\t\n", " \n"] {
        assert!(
            matches!(classify(Some(line)), LineOutcome::Blank),
            "blank line {line:?} must be skipped, not treated as EOF"
        );
    }
}

#[test]
fn eof_stops_server() {
    assert!(matches!(classify(None), LineOutcome::Eof), "None must yield Eof");
}

#[test]
fn a_payload_line_is_trimmed() {
    match classify(Some("  {\"a\":1} \r\n")) {
        LineOutcome::Payload(p) => assert_eq!(p, "{\"a\":1}"),
        other => panic!("expected a payload, got {other:?}"),
    }
    assert_eq!(frame_line("{}"), "{}\n");
}

fn read_bounded_line<R: BufRead>(reader: &mut R) -> Result<Option<String>, Error> {
    let mut transport = StdioTransport::new();
    loop {
        let mut buf = Vec::new();
        reader
            .by_ref()
            .take(transport.read_limit() as u64)
            .read_until(b'\n', &mut buf)
            .expect("reading from memory");
        match transport.feed(&buf) {
            LineEvent::More => {}
            LineEvent::Eof => return Ok(None),
            LineEvent::Line(l) => return Ok(Some(l)),
            LineEvent::NotText => return Err(not_text_error()),
            LineEvent::TooLong => return Err(too_long_error()),
        }
    }
}

#[test]
fn read_bounded_line_caps_oversized_lines() {
    let mut normal = Cursor::new(b"{\"jsonrpc\":\"2.0\",\"id\":1,\"method\":\"ping\"}\n".to_vec());
    let got = read_bounded_line(&mut normal).expect("normal line reads");
    assert_eq!(
        got.as_deref().map(str::trim),
        Some("{\"jsonrpc\":\"2.0\",\"id\":1,\"method\":\"ping\"}"),
        "normal line preserved"
    );

    let huge = vec![b'x'; MAX_LINE_BYTES + 100];
    let mut oversized = Cursor::new(huge);
    let err = read_bounded_line(&mut oversized).expect_err("oversized line must error");
    assert!(err.message().contains("exceeds"), "error explains the cap");

    let mut empty = Cursor::new(Vec::new());
    assert_eq!(read_bounded_line(&mut empty).expect("empty reads"), None, "EOF yields None");
}

#[test]
fn the_line_after_an_oversized_one_is_read() {
    let mut bytes = vec![b'x'; MAX_LINE_BYTES + 100];
    bytes.extend_from_slice(b"\nnext\n");
    let mut input = Cursor::new(bytes);
    assert!(read_bounded_line(&mut input).is_err());
    assert_eq!(read_bounded_line(&mut input).expect("reads").as_deref(), Some("next\n"));
}

#[test]
fn an_oversized_line_of_long_characters_is_dropped_to_its_end() {
    let mut bytes = "字".repeat(400_000).into_bytes();
    bytes.extend_from_slice(b"\n{}\n");
    let mut input = Cursor::new(bytes);
    let err = read_bounded_line(&mut input).expect_err("oversized line must error");
    assert_eq!(err.message(), "line exceeds 1000000 bytes");
    assert_eq!(read_bounded_line(&mut input).expect("reads").as_deref(), Some("{}\n"));
}

#[test]
fn a_line_that_is_no_text_is_refused_and_passed_over() {
    let mut input = Cursor::new(b"\xff\xfe\nnext\n".to_vec());
    let err = read_bounded_line(&mut input).expect_err("not text");
    assert_eq!(err.message(), "stream did not contain valid UTF-8");
    assert_eq!(read_bounded_line(&mut input).expect("reads").as_deref(), Some("next\n"));
}

#[test]
fn a_line_of_exactly_the_cap_is_accepted() {
    for end in ["\n", "\r\n"] {
        let mut bytes = vec![b'x'; MAX_LINE_BYTES];
        bytes.extend_from_slice(end.as_bytes());
        bytes.extend_from_slice(b"next\n");
        let mut input = Cursor::new(bytes);
        let got = read_bounded_line(&mut input).expect("reads").expect("a line");
        assert_eq!(got.len(), MAX_LINE_BYTES + end.len());
        assert_eq!(read_bounded_line(&mut input).expect("reads").as_deref(), Some("next\n"));
    }
}

#[test]
fn a_line_one_byte_over_the_cap_is_refused() {
    for end in ["\n", "\r\n"] {
        let mut bytes = vec![b'x'; MAX_LINE_BYTES + 1];
        bytes.extend_from_slice(end.as_bytes());
        bytes.extend_from_slice(b"next\n");
        let mut input = Cursor::new(bytes);
        assert!(read_bounded_line(&mut input).is_err());
        assert_eq!(read_bounded_line(&mut input).expect("reads").as_deref(), Some("next\n"));
    }
}

#[test]
fn a_carriage_return_at_the_cap_ends_no_line() {
    for run in ["\r", "\r\r"] {
        let mut bytes = vec![b'x'; MAX_LINE_BYTES];
        bytes.extend_from_slice(run.as_bytes());
        bytes.extend_from_slice(b"more of the line\nnext\n");
        let mut input = Cursor::new(bytes);
        assert!(read_bounded_line(&mut input).is_err());
        assert_eq!(read_bounded_line(&mut input).expect("reads").as_deref(), Some("next\n"));
    }
}

// Events.

/// Feeds a stream, as lines, to a transport, and gives back the first payload.
fn first_payload(stream: &str) -> Option<String> {
    let mut transport = SseTransport::new(());
    for line in stream.split_inclusive('\n') {
        if let SseStep::Payload(p) = transport.feed(line) {
            return Some(p);
        }
    }
    match transport.feed("") {
        SseStep::Payload(p) => Some(p),
        _ => None,
    }
}

#[test]
fn request_round_trips_over_duplex() {
    let sent = r#"{"jsonrpc":"2.0","id":1,"method":"tools/list"}"#;
    let got = first_payload(&sse_frame(sent)).expect("recv");
    let back: serde_json::Value = serde_json::from_str(&got).expect("valid JSON");
    assert_eq!(back["jsonrpc"], "2.0", "jsonrpc preserved");
    assert_eq!(back["id"], 1, "id preserved");
    assert_eq!(back["method"], "tools/list", "method preserved");
    assert!(back.get("params").is_none(), "params preserved");
}

#[test]
fn response_round_trips_over_duplex() {
    let sent = r#"{"jsonrpc":"2.0","id":7,"result":{"ok":true}}"#;
    let got = first_payload(&sse_frame(sent)).expect("recv");
    let back: serde_json::Value = serde_json::from_str(&got).expect("valid JSON");
    assert_eq!(back["jsonrpc"], "2.0", "jsonrpc preserved");
    assert_eq!(back["id"], 7, "id preserved");
    assert_eq!(back["result"]["ok"], true, "result preserved");
    assert!(back.get("error").is_none(), "error must stay None");
}

#[test]
fn eof_returns_none() {
    let mut transport = SseTransport::new("stream");
    assert!(matches!(transport.feed(""), SseStep::Closed), "clean EOF must yield None");
    assert_eq!(transport.into_inner(), "stream");
}

#[test]
fn data_lines_of_one_event_are_joined() {
    assert_eq!(first_payload("event: message\ndata: a\ndata: b\n\n").as_deref(), Some("ab"));
    assert_eq!(first_payload(": comment\n\n"), None);
    assert_eq!(first_payload("data: cut off").as_deref(), Some("cut off"));
}

// HTTP.

#[test]
fn transport_round_trips_over_channels() {
    let mut transport = HttpTransport::new("requests", "responses");
    let got = transport.received(Some((None, request(1, "tools/list", None)))).expect("some");
    match got {
        JSONRPCMessage::Request(r) => assert_eq!(r.method, "tools/list", "method preserved"),
        other => panic!("expected Request, got {other:?}"),
    }
    let sessions: Sessions<&str> = Sessions::new();
    assert_eq!(*transport.reply_to(&sessions), "responses");
}

#[test]
fn transport_eof_on_closed_channel() {
    let mut transport = HttpTransport::new("requests", "responses");
    assert!(transport.received(None).is_none(), "closed request channel → clean EOF");
}

#[test]
fn a_reply_goes_to_the_session_that_asked() {
    let mut sessions: Sessions<&str> = Sessions::new();
    sessions.ensure("s1", "channel-1");
    sessions.ensure("s1", "channel-2");
    assert_eq!(sessions.channel("s1"), Some(&"channel-1"), "an open channel is kept");
    assert_eq!(sessions.channel("s2"), None);
    let mut transport = HttpTransport::new("requests", "everyone");
    transport.received(Some((Some("s1".to_string()), request(1, "ping", None))));
    assert_eq!(*transport.reply_to(&sessions), "channel-1");
    transport.received(Some((Some("s2".to_string()), request(2, "ping", None))));
    assert_eq!(*transport.reply_to(&sessions), "everyone");
}

#[test]
fn post_message_accepts_and_returns_202() {
    let messages = vec![request(1, "ping", None)];
    let exchange = PostExchange::begin(false, Ok(&messages)).expect("accepted");
    assert!(!exchange.is_done());
    assert!(matches!(exchange.step(WaitEvent::TimedOut), WaitStep::Accepted), "202 on accepted");
    assert!(matches!(exchange.step(WaitEvent::Lagged), WaitStep::Wait));
    assert!(matches!(exchange.step(WaitEvent::Closed), WaitStep::Accepted));
}

fn state(token: Option<&str>) -> AppState<&'static str, &'static str> {
    AppState {
        request_tx: "requests",
        response_tx: "everyone",
        sessions: Sessions::new(),
        token: token.map(|t| t.to_string()),
    }
}

#[test]
fn auth_enforced_when_token_set() {
    let s = state(Some("secret"));
    assert_eq!(s.check_auth(None).expect_err("missing token → 401").status, 401);
    assert_eq!(s.check_auth(Some("Bearer wrong")).expect_err("wrong token → 401").status, 401);
    assert!(s.check_auth(Some("Bearer secret")).is_ok(), "correct token passes");
    assert!(state(None).check_auth(None).is_ok(), "no token is asked for");
    assert!(check_auth(Some("secret"), Some("secret")).is_err(), "the scheme is required");
}

#[test]
fn bytes_are_compared_whole() {
    assert!(constant_time_eq(b"secret", b"secret"));
    assert!(!constant_time_eq(b"secret", b"secreT"));
    assert!(!constant_time_eq(b"secret", b"secret "));
    assert!(constant_time_eq(b"", b""));
}

#[test]
fn a_listener_gets_its_session_channel() {
    let mut s = state(None);
    assert_eq!(*s.listen_on(Some("a"), "fresh-a"), "fresh-a");
    assert_eq!(*s.listen_on(Some("a"), "other"), "fresh-a");
    assert_eq!(*s.listen_on(None, "unused"), "everyone");
}

#[test]
fn malformed_body_rejected_400() {
    let e = PostExchange::begin(false, Err("expected ident at line 1 column 2"))
        .expect_err("bad JSON → 400");
    assert_eq!(e.status, 400, "bad JSON → 400");
    assert_eq!(e.message, "invalid JSON-RPC message: expected ident at line 1 column 2");
    let e = PostExchange::begin(true, Err("no")).expect_err("bad batch → 400");
    assert_eq!(e.message, "invalid JSON-RPC batch: no");
    assert!(is_batch(b"[1]") && !is_batch(b" [1]") && !is_batch(b"{}") && !is_batch(b""));
    assert_eq!(unreadable_body("too large").status, 400);
    assert_eq!(shutting_down().status, 500);
}

#[test]
fn server_serves_and_broadcasts_response() {
    let server: MCPServer<&'static str> = MCPServer::new(named("lorescope-test"));
    let mut transport = HttpTransport::new("requests", "responses");
    let msg = transport
        .received(Some((
            None,
            request(
                1,
                "initialize",
                Some(
                    r#"{
                        "protocolVersion": "2024-11-05",
                        "capabilities": {},
                        "clientInfo": {"name": "test", "version": "0.0.1"}
                    }"#,
                ),
            ),
        )))
        .expect("the message");
    let r = serve(&server, msg).expect("a response");
    assert!(r.error.is_none(), "initialize succeeds");
    assert_eq!(result_of(&r)["serverInfo"]["name"], "lorescope-test", "server identifies itself");
    assert_eq!(*transport.reply_to(&Sessions::new()), "responses");
}

#[test]
fn post_message_returns_response_body_without_sse() {
    let server: MCPServer<&'static str> = MCPServer::new(named("lorescope-test"));
    let messages = vec![request(1, "initialize", None)];
    let exchange = PostExchange::begin(false, Ok(&messages)).expect("accepted");
    let other = JSONRPCResponse::success(Json::Number(Number::PosInt(2)), Json::Null);
    assert!(matches!(
        exchange.step(WaitEvent::Message(JSONRPCMessage::Response(other))),
        WaitStep::Wait
    ));
    let r = serve(&server, request(1, "initialize", None)).expect("a response");
    match exchange.step(WaitEvent::Message(JSONRPCMessage::Response(r))) {
        WaitStep::Reply(resp) => {
            assert_eq!(resp.id.as_u64(), Some(1), "response echoes the request id");
            assert_eq!(result_of(&resp)["serverInfo"]["name"], "lorescope-test");
        }
        _ => panic!("response must come back in the POST body, not be lost"),
    }
}

#[test]
fn a_post_of_notifications_waits_for_nothing() {
    let messages = vec![JSONRPCMessage::Notification {
        jsonrpc: "2.0".into(),
        method: "notifications/initialized".into(),
        params: None,
    }];
    assert!(PostExchange::begin(false, Ok(&messages)).expect("accepted").is_done());
}

// Paths in the graph.

fn edge(id: i64, source_id: i64, predicate: &str, target_id: i64) -> KnowledgeEdge {
    KnowledgeEdge { id, source_id, target_id, predicate: predicate.to_string() }
}

fn touching(node: i64) -> Vec<KnowledgeEdge> {
    vec![edge(1, 1, "关系甲", 2), edge(2, 2, "关系乙", 3)]
        .into_iter()
        .filter(|e| e.source_id == node || e.target_id == node)
        .collect()
}

fn object_named(name: &str) -> Option<i64> {
    match name {
        "甲" => Some(1),
        "乙" => Some(2),
        "丙" => Some(3),
        "丁" => Some(4),
        _ => None,
    }
}

fn name_of(id: i64) -> Option<String> {
    ["甲", "乙", "丙", "丁"].get((id - 1) as usize).map(|s| s.to_string())
}

fn trace(args: &str) -> JsonReply {
    let q = match trace_request(&json(args)) {
        Ok(q) => q,
        Err(reply) => return reply,
    };
    let mut search = match trace_start(&q, object_named(&q.source), object_named(&q.target)) {
        TraceStart::Reply(reply) => return reply,
        TraceStart::Search(s) => s,
    };
    loop {
        match search.next() {
            PathStep::Expand(node) => search.expand(&touching(node)),
            PathStep::Exhausted => return no_path_reply(&q, &search),
            PathStep::Found => {
                let (nodes, relations) = search.path();
                let names = nodes.iter().map(|id| node_name(*id, name_of(*id))).collect();
                return path_reply(&q, &search, &names, &relations);
            }
        }
    }
}

#[test]
fn finds_two_hop_path() {
    let reply = trace(r#"{"source": "甲", "target": "丙"}"#);
    assert!(!reply.is_error, "path should be found");
    let v = to_value(&reply.value);
    assert_eq!(v["found"], true, "found, got: {v}");
    assert_eq!(v["path"], to_value(&json(r#"["甲", "乙", "丙"]"#)), "ordered path");
    assert_eq!(v["relations"], to_value(&json(r#"["关系甲", "关系乙"]"#)), "predicates per hop");
    assert_eq!(v["length"], 2, "two hops");
}

#[test]
fn same_entity_trivial_path() {
    let v = to_value(&trace(r#"{"source": "甲", "target": "甲"}"#).value);
    assert_eq!(v["found"], true, "same entity is reachable");
    assert_eq!(v["length"], 0, "zero hops");
}

#[test]
fn isolated_node_reports_no_path() {
    let reply = trace(r#"{"source": "甲", "target": "丁"}"#);
    assert!(!reply.is_error, "no-path is a graceful result");
    let v = to_value(&reply.value);
    assert_eq!(v["found"], false, "not found, got: {v}");
    assert!(v["error"].as_str().unwrap_or("").contains("no path"), "clear message, got: {v}");
}

#[test]
fn unknown_entity_reports_graceful_error() {
    let reply = trace(r#"{"source": "甲", "target": "不存在"}"#);
    assert!(reply.is_error, "unknown entity → error result");
    let v = to_value(&reply.value);
    assert!(v.to_string().contains("entity not found"), "clear message, got: {v}");
}

#[test]
fn missing_args_rejected() {
    assert!(trace("{}").is_error, "missing args → error result");
}

#[test]
fn a_path_longer_than_the_cap_is_not_found() {
    let v = to_value(&trace(r#"{"source": "甲", "target": "丙", "max_depth": 1}"#).value);
    assert_eq!(v["found"], false);
    let v = to_value(&trace(r#"{"source": "丙", "target": "甲", "max_depth": 2}"#).value);
    assert_eq!(v["found"], true, "edges are followed both ways");
}

#[test]
fn both_directions_give_the_same_answer() {
    let there = to_value(&trace(r#"{"source": "甲", "target": "丙"}"#).value);
    let back = to_value(&trace(r#"{"source": "丙", "target": "甲"}"#).value);
    assert_eq!(there["found"], true);
    assert_eq!(there["found"], back["found"]);
    assert_eq!(there["length"], 2);
    assert_eq!(there["length"], back["length"]);
}

#[test]
fn a_search_asks_for_no_more_nodes_than_there_are() {
    let edges = |n: i64| -> Vec<KnowledgeEdge> {
        vec![edge(1, 1, "a", 2), edge(2, 2, "b", 3), edge(3, 3, "c", 1)]
            .into_iter()
            .filter(|e| e.source_id == n || e.target_id == n)
            .collect()
    };
    let mut search = PathSearch::start(1, 9, 20);
    let mut asked = 0;
    while let PathStep::Expand(n) = search.next() {
        asked += 1;
        assert!(asked <= 3, "a cycle must not be walked forever");
        search.expand(&edges(n));
    }
    assert_eq!(asked, 3);
    assert!(matches!(search.next(), PathStep::Exhausted));
}

#[test]
fn a_shortest_path_is_reported() {
    let mut search = PathSearch::start(1, 3, 5);
    let edges = |n: i64| -> Vec<KnowledgeEdge> {
        vec![edge(1, 1, "a", 2), edge(2, 2, "b", 3), edge(3, 1, "direct", 3)]
            .into_iter()
            .filter(|e| e.source_id == n || e.target_id == n)
            .collect()
    };
    loop {
        match search.next() {
            PathStep::Expand(n) => search.expand(&edges(n)),
            PathStep::Found => break,
            PathStep::Exhausted => panic!("there is a path"),
        }
    }
    let (nodes, relations) = search.path();
    assert_eq!(nodes, vec![1, 3]);
    assert_eq!(relations, vec!["direct"]);
}

// Tenants.

#[test]
fn a_named_tenant_admits_only_its_own() {
    let args = |t: Json| Json::Object(vec![("tenant_id".to_string(), t)]);
    let named = args(Json::Text("a".to_string()));
    assert!(let_in(&named, Some("a"), 7).is_ok());
    let refused = let_in(&named, Some("b"), 7).expect_err("foreign");
    assert_eq!(refused.message(), "no entity 7 in tenant `a`");
    assert!(let_in(&args(Json::Null), Some("b"), 7).is_ok());
    assert!(matches!(let_in(&args(Json::Bool(true)), Some("a"), 7), Err(Error::InvalidInput(_))));
}

#[test]
fn an_entity_of_another_tenant_is_not_there() {
    assert!(ensure_entity_tenant(Some("a"), 7, Some("a")).is_ok());
    assert!(ensure_entity_tenant(Some("a"), 7, None).is_ok());
    assert!(ensure_entity_tenant(None, 7, None).is_ok());
    let foreign = ensure_entity_tenant(Some("b"), 7, Some("a")).expect_err("foreign");
    let unknown = ensure_entity_tenant(None, 7, Some("a")).expect_err("unknown");
    assert!(matches!(foreign, Error::NotFound(_)) && matches!(unknown, Error::NotFound(_)));
    assert_eq!(foreign.message(), unknown.message(), "the two cannot be told apart");
}

#[test]
fn a_tenant_argument_is_a_text_or_absent() {
    assert_eq!(tenant_argument(&json("{}")).expect("absent"), None);
    assert_eq!(
        tenant_argument(&json(r#"{"tenant_id": "a"}"#)).expect("given").as_deref(),
        Some("a")
    );
    assert!(matches!(tenant_argument(&json(r#"{"tenant_id": 5}"#)), Err(Error::InvalidInput(_))));
}
