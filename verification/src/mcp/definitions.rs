//! The tools as the server announces them: what each one does, and what
//! arguments it takes.
use vstd::prelude::*;

use crate::json::{array, count, elements, member, members, Json, JsonView, Number};
use crate::mcp::schema::{
    about, add_member, added, defaulting, describe, list_of, listing, of_type, one_of,
    properties_of, record, record_of, require, requiring, restrict, typed, with_default,
    with_properties,
};
use crate::mcp::types::{DefinitionView, ToolDefinition};
use crate::text::words;

verus! {

/// The properties of a spoken message.
pub open spec fn spoken_message_properties() -> Seq<(Seq<char>, JsonView)> {
    seq![
        ("role"@, one_of(of_type("string"@), seq!["user"@, "assistant"@, "system"@])),
        ("content"@, of_type("string"@)),
        ("tool_call_id"@, of_type("string"@)),
        ("turn_id"@, of_type("string"@)),
    ]
}

/// The schema of a spoken message.
pub open spec fn spoken_message_shape() -> JsonView {
    record(spoken_message_properties(), seq!["role"@, "content"@])
}

/// The schema of a spoken message.
fn spoken_message_schema() -> (j: Json)
    ensures
        j@ == spoken_message_shape(),
{
    let list_1: Vec<&str> = vec!["user", "assistant", "system"];
    assert(words(list_1@) =~= seq!["user"@, "assistant"@, "system"@]);
    let properties: Vec<(String, Json)> = vec![
        member("role", restrict(typed("string"), &list_1)),
        member("content", typed("string")),
        member("tool_call_id", typed("string")),
        member("turn_id", typed("string")),
    ];
    assert(members(properties@) =~= spoken_message_properties());
    let required: Vec<&str> = vec!["role", "content"];
    assert(words(required@) =~= seq!["role"@, "content"@]);
    record_of(properties, &required)
}

/// The properties of the arguments of `lore_scope`.
pub open spec fn lore_scope_properties() -> Seq<(Seq<char>, JsonView)> {
    seq![
        ("conversation_id"@, of_type("string"@)),
        ("messages"@, listing(spoken_message_shape())),
        ("tenant_id"@, defaulting(of_type("string"@), "default"@)),
        ("user_id"@, of_type("string"@)),
    ]
}

/// The schema of the arguments of `lore_scope`.
pub open spec fn lore_scope_shape() -> JsonView {
    record(lore_scope_properties(), seq!["conversation_id"@, "messages"@])
}

/// The schema of the arguments of `lore_scope`.
fn lore_scope_schema() -> (j: Json)
    ensures
        j@ == lore_scope_shape(),
{
    let properties: Vec<(String, Json)> = vec![
        member("conversation_id", typed("string")),
        member("messages", list_of(spoken_message_schema())),
        member("tenant_id", with_default(typed("string"), "default")),
        member("user_id", typed("string")),
    ];
    assert(members(properties@) =~= lore_scope_properties());
    let required: Vec<&str> = vec!["conversation_id", "messages"];
    assert(words(required@) =~= seq!["conversation_id"@, "messages"@]);
    record_of(properties, &required)
}

/// What `lore_scope` does.
pub const LORE_SCOPE_ABOUT: &'static str = "Distill memories from a conversation's messages";

/// The tool `lore_scope`.
pub open spec fn lore_scope_tool() -> DefinitionView {
    DefinitionView { name: "lore_scope"@, description: LORE_SCOPE_ABOUT@, input_schema: lore_scope_shape() }
}

/// The tool `lore_scope`.
pub fn lore_scope_definition() -> (d: ToolDefinition)
    ensures
        d@ == lore_scope_tool(),
{
    ToolDefinition {
        name: "lore_scope".to_owned(),
        description: LORE_SCOPE_ABOUT.to_owned(),
        input_schema: lore_scope_schema(),
    }
}

/// The properties of the arguments of `memory_search`.
pub open spec fn memory_search_properties() -> Seq<(Seq<char>, JsonView)> {
    seq![
        ("query"@, of_type("string"@)),
        ("tenant_id"@, defaulting(of_type("string"@), "default"@)),
        ("limit"@, added(of_type("integer"@), "default"@, JsonView::Int(5))),
        ("memory_type"@, one_of(of_type("string"@), seq!["knowledge"@, "preference"@, "skill"@, "experience"@, "interaction"@, "profile"@])),
    ]
}

/// The schema of the arguments of `memory_search`.
pub open spec fn memory_search_shape() -> JsonView {
    record(memory_search_properties(), seq!["query"@])
}

/// The schema of the arguments of `memory_search`.
fn memory_search_schema() -> (j: Json)
    ensures
        j@ == memory_search_shape(),
{
    let list_1: Vec<&str> = vec!["knowledge", "preference", "skill", "experience", "interaction", "profile"];
    assert(words(list_1@) =~= seq!["knowledge"@, "preference"@, "skill"@, "experience"@, "interaction"@, "profile"@]);
    let properties: Vec<(String, Json)> = vec![
        member("query", typed("string")),
        member("tenant_id", with_default(typed("string"), "default")),
        member("limit", add_member(typed("integer"), "default", count(5))),
        member("memory_type", restrict(typed("string"), &list_1)),
    ];
    assert(members(properties@) =~= memory_search_properties());
    let required: Vec<&str> = vec!["query"];
    assert(words(required@) =~= seq!["query"@]);
    record_of(properties, &required)
}

/// What `memory_search` does.
pub const MEMORY_SEARCH_ABOUT: &'static str = "Search memories within a tenant (keyword/vector/hybrid)";

/// The tool `memory_search`.
pub open spec fn memory_search_tool() -> DefinitionView {
    DefinitionView { name: "memory_search"@, description: MEMORY_SEARCH_ABOUT@, input_schema: memory_search_shape() }
}

/// The tool `memory_search`.
pub fn memory_search_definition() -> (d: ToolDefinition)
    ensures
        d@ == memory_search_tool(),
{
    ToolDefinition {
        name: "memory_search".to_owned(),
        description: MEMORY_SEARCH_ABOUT.to_owned(),
        input_schema: memory_search_schema(),
    }
}

/// The properties of the arguments of `memory_store`.
pub open spec fn memory_store_properties() -> Seq<(Seq<char>, JsonView)> {
    seq![
        ("content"@, of_type("string"@)),
        ("tenant_id"@, defaulting(of_type("string"@), "default"@)),
        ("memory_type"@, defaulting(one_of(of_type("string"@), seq!["knowledge"@, "preference"@, "skill"@, "experience"@, "interaction"@, "profile"@]), "knowledge"@)),
        ("confidence"@, added(of_type("number"@), "default"@, JsonView::Other("0.5"@))),
    ]
}

/// The schema of the arguments of `memory_store`.
pub open spec fn memory_store_shape() -> JsonView {
    record(memory_store_properties(), seq!["content"@])
}

/// The schema of the arguments of `memory_store`.
fn memory_store_schema() -> (j: Json)
    ensures
        j@ == memory_store_shape(),
{
    let list_1: Vec<&str> = vec!["knowledge", "preference", "skill", "experience", "interaction", "profile"];
    assert(words(list_1@) =~= seq!["knowledge"@, "preference"@, "skill"@, "experience"@, "interaction"@, "profile"@]);
    let properties: Vec<(String, Json)> = vec![
        member("content", typed("string")),
        member("tenant_id", with_default(typed("string"), "default")),
        member("memory_type", with_default(restrict(typed("string"), &list_1), "knowledge")),
        member("confidence", add_member(typed("number"), "default", Json::Number(Number::Other("0.5".to_owned())))),
    ];
    assert(members(properties@) =~= memory_store_properties());
    let required: Vec<&str> = vec!["content"];
    assert(words(required@) =~= seq!["content"@]);
    record_of(properties, &required)
}

/// What `memory_store` does.
pub const MEMORY_STORE_ABOUT: &'static str = "Manually store a memory";

/// The tool `memory_store`.
pub open spec fn memory_store_tool() -> DefinitionView {
    DefinitionView { name: "memory_store"@, description: MEMORY_STORE_ABOUT@, input_schema: memory_store_shape() }
}

/// The tool `memory_store`.
pub fn memory_store_definition() -> (d: ToolDefinition)
    ensures
        d@ == memory_store_tool(),
{
    ToolDefinition {
        name: "memory_store".to_owned(),
        description: MEMORY_STORE_ABOUT.to_owned(),
        input_schema: memory_store_schema(),
    }
}

/// The properties of the arguments of `memory_feedback`.
pub open spec fn memory_feedback_properties() -> Seq<(Seq<char>, JsonView)> {
    seq![
        ("memory_id"@, of_type("string"@)),
        ("useful"@, added(of_type("boolean"@), "default"@, JsonView::Bool(true))),
    ]
}

/// The schema of the arguments of `memory_feedback`.
pub open spec fn memory_feedback_shape() -> JsonView {
    record(memory_feedback_properties(), seq!["memory_id"@])
}

/// The schema of the arguments of `memory_feedback`.
fn memory_feedback_schema() -> (j: Json)
    ensures
        j@ == memory_feedback_shape(),
{
    let properties: Vec<(String, Json)> = vec![
        member("memory_id", typed("string")),
        member("useful", add_member(typed("boolean"), "default", Json::Bool(true))),
    ];
    assert(members(properties@) =~= memory_feedback_properties());
    let required: Vec<&str> = vec!["memory_id"];
    assert(words(required@) =~= seq!["memory_id"@]);
    record_of(properties, &required)
}

/// What `memory_feedback` does.
pub const MEMORY_FEEDBACK_ABOUT: &'static str = "Record agent feedback on a memory (for Evolution)";

/// The tool `memory_feedback`.
pub open spec fn memory_feedback_tool() -> DefinitionView {
    DefinitionView { name: "memory_feedback"@, description: MEMORY_FEEDBACK_ABOUT@, input_schema: memory_feedback_shape() }
}

/// The tool `memory_feedback`.
pub fn memory_feedback_definition() -> (d: ToolDefinition)
    ensures
        d@ == memory_feedback_tool(),
{
    ToolDefinition {
        name: "memory_feedback".to_owned(),
        description: MEMORY_FEEDBACK_ABOUT.to_owned(),
        input_schema: memory_feedback_schema(),
    }
}

/// The properties of the arguments of `character_search`.
pub open spec fn character_search_properties() -> Seq<(Seq<char>, JsonView)> {
    seq![
        ("query"@, about(of_type("string"@), "Search query – matches name, clothing, personality, description"@)),
        ("tenant_id"@, defaulting(of_type("string"@), "novels"@)),
        ("novel"@, about(of_type("string"@), "Optional novel filter (e.g. 水浒传, 西游记, 三国演义, 红楼梦)"@)),
        ("limit"@, added(of_type("integer"@), "default"@, JsonView::Int(10))),
        ("include_events"@, about(added(of_type("boolean"@), "default"@, JsonView::Bool(false)), "Include events for each character"@)),
        ("include_relations"@, about(added(of_type("boolean"@), "default"@, JsonView::Bool(false)), "Include relations for each character"@)),
    ]
}

/// The schema of the arguments of `character_search`.
pub open spec fn character_search_shape() -> JsonView {
    record(character_search_properties(), seq!["query"@])
}

/// The schema of the arguments of `character_search`.
fn character_search_schema() -> (j: Json)
    ensures
        j@ == character_search_shape(),
{
    let properties: Vec<(String, Json)> = vec![
        member("query", describe(typed("string"), "Search query – matches name, clothing, personality, description")),
        member("tenant_id", with_default(typed("string"), "novels")),
        member("novel", describe(typed("string"), "Optional novel filter (e.g. 水浒传, 西游记, 三国演义, 红楼梦)")),
        member("limit", add_member(typed("integer"), "default", count(10))),
        member("include_events", describe(add_member(typed("boolean"), "default", Json::Bool(false)), "Include events for each character")),
        member("include_relations", describe(add_member(typed("boolean"), "default", Json::Bool(false)), "Include relations for each character")),
    ];
    assert(members(properties@) =~= character_search_properties());
    let required: Vec<&str> = vec!["query"];
    assert(words(required@) =~= seq!["query"@]);
    record_of(properties, &required)
}

/// What `character_search` does.
pub const CHARACTER_SEARCH_ABOUT: &'static str = "[LEGACY novel-domain tool] Search characters in the classical-novel graph. Prefer the general `search_graph` tool, which searches all entity types across the unified graph.";

/// The tool `character_search`.
pub open spec fn character_search_tool() -> DefinitionView {
    DefinitionView { name: "character_search"@, description: CHARACTER_SEARCH_ABOUT@, input_schema: character_search_shape() }
}

/// The tool `character_search`.
pub fn character_search_definition() -> (d: ToolDefinition)
    ensures
        d@ == character_search_tool(),
{
    ToolDefinition {
        name: "character_search".to_owned(),
        description: CHARACTER_SEARCH_ABOUT.to_owned(),
        input_schema: character_search_schema(),
    }
}

/// The properties of the arguments of `character_network`.
pub open spec fn character_network_properties() -> Seq<(Seq<char>, JsonView)> {
    seq![
        ("name"@, about(of_type("string"@), "Starting character name"@)),
        ("tenant_id"@, defaulting(of_type("string"@), "novels"@)),
        ("novel"@, about(of_type("string"@), "Optional novel filter"@)),
        ("depth"@, about(added(of_type("integer"@), "default"@, JsonView::Int(2)), "Traversal depth (1-5, default 2)"@)),
    ]
}

/// The schema of the arguments of `character_network`.
pub open spec fn character_network_shape() -> JsonView {
    record(character_network_properties(), seq!["name"@])
}

/// The schema of the arguments of `character_network`.
fn character_network_schema() -> (j: Json)
    ensures
        j@ == character_network_shape(),
{
    let properties: Vec<(String, Json)> = vec![
        member("name", describe(typed("string"), "Starting character name")),
        member("tenant_id", with_default(typed("string"), "novels")),
        member("novel", describe(typed("string"), "Optional novel filter")),
        member("depth", describe(add_member(typed("integer"), "default", count(2)), "Traversal depth (1-5, default 2)")),
    ];
    assert(members(properties@) =~= character_network_properties());
    let required: Vec<&str> = vec!["name"];
    assert(words(required@) =~= seq!["name"@]);
    record_of(properties, &required)
}

/// What `character_network` does.
pub const CHARACTER_NETWORK_ABOUT: &'static str = "[LEGACY novel-domain tool] Traverse the classical-novel character graph via BFS. Prefer the general `relation_graph` tool for the unified graph.";

/// The tool `character_network`.
pub open spec fn character_network_tool() -> DefinitionView {
    DefinitionView { name: "character_network"@, description: CHARACTER_NETWORK_ABOUT@, input_schema: character_network_shape() }
}

/// The tool `character_network`.
pub fn character_network_definition() -> (d: ToolDefinition)
    ensures
        d@ == character_network_tool(),
{
    ToolDefinition {
        name: "character_network".to_owned(),
        description: CHARACTER_NETWORK_ABOUT.to_owned(),
        input_schema: character_network_schema(),
    }
}

/// The properties of the arguments of `character_ingest`.
pub open spec fn character_ingest_properties() -> Seq<(Seq<char>, JsonView)> {
    seq![
        ("corpus_dir"@, about(defaulting(of_type("string"@), "corpus"@), "Path to directory containing novel .txt files (水浒传.txt, 三国演义.txt, 红楼梦.txt, 西游记.txt)"@)),
    ]
}

/// The schema of the arguments of `character_ingest`.
pub open spec fn character_ingest_shape() -> JsonView {
    with_properties(character_ingest_properties())
}

/// The schema of the arguments of `character_ingest`.
fn character_ingest_schema() -> (j: Json)
    ensures
        j@ == character_ingest_shape(),
{
    let properties: Vec<(String, Json)> = vec![
        member("corpus_dir", describe(with_default(typed("string"), "corpus"), "Path to directory containing novel .txt files (水浒传.txt, 三国演义.txt, 红楼梦.txt, 西游记.txt)")),
    ];
    assert(members(properties@) =~= character_ingest_properties());
    properties_of(properties)
}

/// What `character_ingest` does.
pub const CHARACTER_INGEST_ABOUT: &'static str = "[LEGACY novel-domain tool] Distill the classical-novel character graph from corpus text files. Prefer `generalize_compile`, which ingests arbitrary data (dialog or prose) into the unified graph.";

/// The tool `character_ingest`.
pub open spec fn character_ingest_tool() -> DefinitionView {
    DefinitionView { name: "character_ingest"@, description: CHARACTER_INGEST_ABOUT@, input_schema: character_ingest_shape() }
}

/// The tool `character_ingest`.
pub fn character_ingest_definition() -> (d: ToolDefinition)
    ensures
        d@ == character_ingest_tool(),
{
    ToolDefinition {
        name: "character_ingest".to_owned(),
        description: CHARACTER_INGEST_ABOUT.to_owned(),
        input_schema: character_ingest_schema(),
    }
}

/// The properties of the arguments of `character_graph`.
pub open spec fn character_graph_properties() -> Seq<(Seq<char>, JsonView)> {
    seq![
        ("tenant_id"@, defaulting(of_type("string"@), "novels"@)),
        ("novel"@, about(of_type("string"@), "Optional novel filter (e.g. 水浒传)"@)),
        ("max_nodes"@, about(added(of_type("integer"@), "default"@, JsonView::Int(200)), "Maximum nodes to return"@)),
    ]
}

/// The schema of the arguments of `character_graph`.
pub open spec fn character_graph_shape() -> JsonView {
    with_properties(character_graph_properties())
}

/// The schema of the arguments of `character_graph`.
fn character_graph_schema() -> (j: Json)
    ensures
        j@ == character_graph_shape(),
{
    let properties: Vec<(String, Json)> = vec![
        member("tenant_id", with_default(typed("string"), "novels")),
        member("novel", describe(typed("string"), "Optional novel filter (e.g. 水浒传)")),
        member("max_nodes", describe(add_member(typed("integer"), "default", count(200)), "Maximum nodes to return")),
    ];
    assert(members(properties@) =~= character_graph_properties());
    properties_of(properties)
}

/// What `character_graph` does.
pub const CHARACTER_GRAPH_ABOUT: &'static str = "[LEGACY novel-domain tool] Export the classical-novel character relationship graph as structured JSON for visualization. For the unified graph use `relation_graph` or `search_graph`.";

/// The tool `character_graph`.
pub open spec fn character_graph_tool() -> DefinitionView {
    DefinitionView { name: "character_graph"@, description: CHARACTER_GRAPH_ABOUT@, input_schema: character_graph_shape() }
}

/// The tool `character_graph`.
pub fn character_graph_definition() -> (d: ToolDefinition)
    ensures
        d@ == character_graph_tool(),
{
    ToolDefinition {
        name: "character_graph".to_owned(),
        description: CHARACTER_GRAPH_ABOUT.to_owned(),
        input_schema: character_graph_schema(),
    }
}

/// The properties of the arguments of `memory_stats`.
pub open spec fn memory_stats_properties() -> Seq<(Seq<char>, JsonView)> {
    seq![
        ("tenant_id"@, defaulting(of_type("string"@), "default"@)),
    ]
}

/// The schema of the arguments of `memory_stats`.
pub open spec fn memory_stats_shape() -> JsonView {
    with_properties(memory_stats_properties())
}

/// The schema of the arguments of `memory_stats`.
fn memory_stats_schema() -> (j: Json)
    ensures
        j@ == memory_stats_shape(),
{
    let properties: Vec<(String, Json)> = vec![
        member("tenant_id", with_default(typed("string"), "default")),
    ];
    assert(members(properties@) =~= memory_stats_properties());
    properties_of(properties)
}

/// What `memory_stats` does.
pub const MEMORY_STATS_ABOUT: &'static str = "Aggregate memory health for a tenant: distilled memories by type plus knowledge-graph counts (documents/entities/relations/evidence)";

/// The tool `memory_stats`.
pub open spec fn memory_stats_tool() -> DefinitionView {
    DefinitionView { name: "memory_stats"@, description: MEMORY_STATS_ABOUT@, input_schema: memory_stats_shape() }
}

/// The tool `memory_stats`.
pub fn memory_stats_definition() -> (d: ToolDefinition)
    ensures
        d@ == memory_stats_tool(),
{
    ToolDefinition {
        name: "memory_stats".to_owned(),
        description: MEMORY_STATS_ABOUT.to_owned(),
        input_schema: memory_stats_schema(),
    }
}

/// The properties of a message.
pub open spec fn message_properties() -> Seq<(Seq<char>, JsonView)> {
    seq![
        ("role"@, one_of(of_type("string"@), seq!["user"@, "assistant"@, "system"@, "tool"@])),
        ("content"@, of_type("string"@)),
        ("turn_id"@, of_type("string"@)),
        ("tool_call_id"@, of_type("string"@)),
    ]
}

/// The schema of a message.
pub open spec fn message_shape() -> JsonView {
    record(message_properties(), seq!["role"@, "content"@])
}

/// The schema of a message.
fn message_schema() -> (j: Json)
    ensures
        j@ == message_shape(),
{
    let list_1: Vec<&str> = vec!["user", "assistant", "system", "tool"];
    assert(words(list_1@) =~= seq!["user"@, "assistant"@, "system"@, "tool"@]);
    let properties: Vec<(String, Json)> = vec![
        member("role", restrict(typed("string"), &list_1)),
        member("content", typed("string")),
        member("turn_id", typed("string")),
        member("tool_call_id", typed("string")),
    ];
    assert(members(properties@) =~= message_properties());
    let required: Vec<&str> = vec!["role", "content"];
    assert(words(required@) =~= seq!["role"@, "content"@]);
    record_of(properties, &required)
}

/// The properties of a declaration.
pub open spec fn declaration_properties() -> Seq<(Seq<char>, JsonView)> {
    seq![
        ("decision_id"@, added(of_type("integer"@), "minimum"@, JsonView::Int(1))),
        ("outcome"@, one_of(of_type("string"@), seq!["fulfilled"@, "violated"@])),
    ]
}

/// The schema of a declaration.
pub open spec fn declaration_shape() -> JsonView {
    record(declaration_properties(), seq!["decision_id"@, "outcome"@])
}

/// The schema of a declaration.
fn declaration_schema() -> (j: Json)
    ensures
        j@ == declaration_shape(),
{
    let list_1: Vec<&str> = vec!["fulfilled", "violated"];
    assert(words(list_1@) =~= seq!["fulfilled"@, "violated"@]);
    let properties: Vec<(String, Json)> = vec![
        member("decision_id", add_member(typed("integer"), "minimum", count(1))),
        member("outcome", restrict(typed("string"), &list_1)),
    ];
    assert(members(properties@) =~= declaration_properties());
    let required: Vec<&str> = vec!["decision_id", "outcome"];
    assert(words(required@) =~= seq!["decision_id"@, "outcome"@]);
    record_of(properties, &required)
}

/// The properties of the arguments of `memory_compile`.
pub open spec fn memory_compile_properties() -> Seq<(Seq<char>, JsonView)> {
    seq![
        ("messages"@, listing(message_shape())),
        ("distill"@, about(added(of_type("boolean"@), "default"@, JsonView::Bool(false)), "Also run distillation pipeline"@)),
        ("conversation_id"@, about(of_type("string"@), "Required when distill=true"@)),
        ("tenant_id"@, defaulting(of_type("string"@), "default"@)),
        ("user_id"@, of_type("string"@)),
        ("agent_id"@, about(of_type("string"@), "Optional agent identity; enables compiling the agent's own promises into decisions"@)),
        ("decision_outcomes"@, about(listing(declaration_shape()), "Optional: declare what happened to earlier commitments, e.g. [{\"decision_id\":3,\"outcome\":\"fulfilled\"}]. Nothing is inferred from the conversation, and the FIRST outcome recorded for a decision wins: a later declaration is echoed back but never overwrites it. Unknown ids are reported as `missing` instead of failing the call."@)),
    ]
}

/// The schema of the arguments of `memory_compile`.
pub open spec fn memory_compile_shape() -> JsonView {
    record(memory_compile_properties(), seq!["messages"@])
}

/// The schema of the arguments of `memory_compile`.
fn memory_compile_schema() -> (j: Json)
    ensures
        j@ == memory_compile_shape(),
{
    let properties: Vec<(String, Json)> = vec![
        member("messages", list_of(message_schema())),
        member("distill", describe(add_member(typed("boolean"), "default", Json::Bool(false)), "Also run distillation pipeline")),
        member("conversation_id", describe(typed("string"), "Required when distill=true")),
        member("tenant_id", with_default(typed("string"), "default")),
        member("user_id", typed("string")),
        member("agent_id", describe(typed("string"), "Optional agent identity; enables compiling the agent's own promises into decisions")),
        member("decision_outcomes", describe(list_of(declaration_schema()), "Optional: declare what happened to earlier commitments, e.g. [{\"decision_id\":3,\"outcome\":\"fulfilled\"}]. Nothing is inferred from the conversation, and the FIRST outcome recorded for a decision wins: a later declaration is echoed back but never overwrites it. Unknown ids are reported as `missing` instead of failing the call.")),
    ];
    assert(members(properties@) =~= memory_compile_properties());
    let required: Vec<&str> = vec!["messages"];
    assert(words(required@) =~= seq!["messages"@]);
    record_of(properties, &required)
}

/// What `memory_compile` does.
pub const MEMORY_COMPILE_ABOUT: &'static str = "Compile conversation into structured knowledge + decisions + session state. Optionally distill memories and declare what happened to earlier commitments.";

/// The tool `memory_compile`.
pub open spec fn memory_compile_tool() -> DefinitionView {
    DefinitionView { name: "memory_compile"@, description: MEMORY_COMPILE_ABOUT@, input_schema: memory_compile_shape() }
}

/// The tool `memory_compile`.
pub fn memory_compile_definition() -> (d: ToolDefinition)
    ensures
        d@ == memory_compile_tool(),
{
    ToolDefinition {
        name: "memory_compile".to_owned(),
        description: MEMORY_COMPILE_ABOUT.to_owned(),
        input_schema: memory_compile_schema(),
    }
}

/// The properties of the arguments of `memory_context_check`.
pub open spec fn context_check_properties() -> Seq<(Seq<char>, JsonView)> {
    seq![
        ("messages"@, listing(message_shape())),
        ("context_usage_percent"@, about(added(added(of_type("number"@), "minimum"@, JsonView::Int(0)), "maximum"@, JsonView::Int(100)), "Current context-window usage percentage reported by the agent host"@)),
        ("threshold"@, about(of_type("number"@), "Distillation trigger threshold (default 40)"@)),
        ("conversation_id"@, about(of_type("string"@), "Required when distillation is triggered"@)),
        ("tenant_id"@, defaulting(of_type("string"@), "default"@)),
        ("user_id"@, of_type("string"@)),
    ]
}

/// The schema of the arguments of `memory_context_check`.
pub open spec fn context_check_shape() -> JsonView {
    record(context_check_properties(), seq!["messages"@, "context_usage_percent"@])
}

/// The schema of the arguments of `memory_context_check`.
fn context_check_schema() -> (j: Json)
    ensures
        j@ == context_check_shape(),
{
    let properties: Vec<(String, Json)> = vec![
        member("messages", list_of(message_schema())),
        member("context_usage_percent", describe(add_member(add_member(typed("number"), "minimum", count(0)), "maximum", count(100)), "Current context-window usage percentage reported by the agent host")),
        member("threshold", describe(typed("number"), "Distillation trigger threshold (default 40)")),
        member("conversation_id", describe(typed("string"), "Required when distillation is triggered")),
        member("tenant_id", with_default(typed("string"), "default")),
        member("user_id", typed("string")),
    ];
    assert(members(properties@) =~= context_check_properties());
    let required: Vec<&str> = vec!["messages", "context_usage_percent"];
    assert(words(required@) =~= seq!["messages"@, "context_usage_percent"@]);
    record_of(properties, &required)
}

/// What `memory_context_check` does.
pub const CONTEXT_CHECK_ABOUT: &'static str = "Proactive context-aware memory: when context usage exceeds the threshold, auto-compile the conversation into facts, distill long-term memories, and (re)build the user profile. Below threshold it is a read-only diagnostic.";

/// The tool `memory_context_check`.
pub open spec fn context_check_tool() -> DefinitionView {
    DefinitionView { name: "memory_context_check"@, description: CONTEXT_CHECK_ABOUT@, input_schema: context_check_shape() }
}

/// The tool `memory_context_check`.
pub fn context_check_definition() -> (d: ToolDefinition)
    ensures
        d@ == context_check_tool(),
{
    ToolDefinition {
        name: "memory_context_check".to_owned(),
        description: CONTEXT_CHECK_ABOUT.to_owned(),
        input_schema: context_check_schema(),
    }
}

/// The properties of the arguments of `memory_decay`.
pub open spec fn memory_decay_properties() -> Seq<(Seq<char>, JsonView)> {
    seq![
        ("tenant_id"@, about(defaulting(of_type("string"@), "default"@), "Tenant namespace for the facts scanned"@)),
        ("entity_id"@, about(of_type("integer"@), "Entity id to decay; omit to scan all entities in the tenant"@)),
        ("strategy"@, about(one_of(of_type("string"@), seq!["time_based"@, "importance_based"@, "access_frequency_based"@, "hybrid"@]), "Override the configured decay strategy"@)),
        ("force"@, about(added(of_type("boolean"@), "default"@, JsonView::Bool(false)), "Ignore high-value persona protection and decay protected facts too"@)),
    ]
}

/// The schema of the arguments of `memory_decay`.
pub open spec fn memory_decay_shape() -> JsonView {
    with_properties(memory_decay_properties())
}

/// The schema of the arguments of `memory_decay`.
fn memory_decay_schema() -> (j: Json)
    ensures
        j@ == memory_decay_shape(),
{
    let list_1: Vec<&str> = vec!["time_based", "importance_based", "access_frequency_based", "hybrid"];
    assert(words(list_1@) =~= seq!["time_based"@, "importance_based"@, "access_frequency_based"@, "hybrid"@]);
    let properties: Vec<(String, Json)> = vec![
        member("tenant_id", describe(with_default(typed("string"), "default"), "Tenant namespace for the facts scanned")),
        member("entity_id", describe(typed("integer"), "Entity id to decay; omit to scan all entities in the tenant")),
        member("strategy", describe(restrict(typed("string"), &list_1), "Override the configured decay strategy")),
        member("force", describe(add_member(typed("boolean"), "default", Json::Bool(false)), "Ignore high-value persona protection and decay protected facts too")),
    ];
    assert(members(properties@) =~= memory_decay_properties());
    properties_of(properties)
}

/// What `memory_decay` does.
pub const MEMORY_DECAY_ABOUT: &'static str = "Deterministic memory decay/forgetting: down-weight and archive stale facts (time/importance/access-frequency). Never deletes facts, so the persona evolution timeline stays reconstructable. High-value persona facts (agent_personality, Relationship) are protected unless force=true. No LLM.";

/// The tool `memory_decay`.
pub open spec fn memory_decay_tool() -> DefinitionView {
    DefinitionView { name: "memory_decay"@, description: MEMORY_DECAY_ABOUT@, input_schema: memory_decay_shape() }
}

/// The tool `memory_decay`.
pub fn memory_decay_definition() -> (d: ToolDefinition)
    ensures
        d@ == memory_decay_tool(),
{
    ToolDefinition {
        name: "memory_decay".to_owned(),
        description: MEMORY_DECAY_ABOUT.to_owned(),
        input_schema: memory_decay_schema(),
    }
}

/// The properties of the arguments of `decision_trace`.
pub open spec fn decision_trace_properties() -> Seq<(Seq<char>, JsonView)> {
    seq![
        ("decision_id"@, about(added(of_type("integer"@), "minimum"@, JsonView::Int(1)), "Decision id to trace (required)"@)),
    ]
}

/// The schema of the arguments of `decision_trace`.
pub open spec fn decision_trace_shape() -> JsonView {
    record(decision_trace_properties(), seq!["decision_id"@])
}

/// The schema of the arguments of `decision_trace`.
fn decision_trace_schema() -> (j: Json)
    ensures
        j@ == decision_trace_shape(),
{
    let properties: Vec<(String, Json)> = vec![
        member("decision_id", describe(add_member(typed("integer"), "minimum", count(1)), "Decision id to trace (required)")),
    ];
    assert(members(properties@) =~= decision_trace_properties());
    let required: Vec<&str> = vec!["decision_id"];
    assert(words(required@) =~= seq!["decision_id"@]);
    record_of(properties, &required)
}

/// What `decision_trace` does.
pub const DECISION_TRACE_ABOUT: &'static str = "Trace a decision back to the facts that supported it (supporting evidence, not causality) and their statuses. Read-only.";

/// The tool `decision_trace`.
pub open spec fn decision_trace_tool() -> DefinitionView {
    DefinitionView { name: "decision_trace"@, description: DECISION_TRACE_ABOUT@, input_schema: decision_trace_shape() }
}

/// The tool `decision_trace`.
pub fn decision_trace_definition() -> (d: ToolDefinition)
    ensures
        d@ == decision_trace_tool(),
{
    ToolDefinition {
        name: "decision_trace".to_owned(),
        description: DECISION_TRACE_ABOUT.to_owned(),
        input_schema: decision_trace_schema(),
    }
}

/// The properties of the arguments of `decision_search`.
pub open spec fn decision_search_properties() -> Seq<(Seq<char>, JsonView)> {
    seq![
        ("subject"@, about(of_type("integer"@), "Entity id whose decisions to search (required)"@)),
        ("keyword"@, about(of_type("string"@), "Keyword to match against verb/object; empty matches all"@)),
        ("limit"@, about(added(added(added(of_type("integer"@), "default"@, JsonView::Int(10)), "minimum"@, JsonView::Int(1)), "maximum"@, JsonView::Int(100)), "Maximum number of decisions to return"@)),
    ]
}

/// The schema of the arguments of `decision_search`.
pub open spec fn decision_search_shape() -> JsonView {
    record(decision_search_properties(), seq!["subject"@])
}

/// The schema of the arguments of `decision_search`.
fn decision_search_schema() -> (j: Json)
    ensures
        j@ == decision_search_shape(),
{
    let properties: Vec<(String, Json)> = vec![
        member("subject", describe(typed("integer"), "Entity id whose decisions to search (required)")),
        member("keyword", describe(typed("string"), "Keyword to match against verb/object; empty matches all")),
        member("limit", describe(add_member(add_member(add_member(typed("integer"), "default", count(10)), "minimum", count(1)), "maximum", count(100)), "Maximum number of decisions to return")),
    ];
    assert(members(properties@) =~= decision_search_properties());
    let required: Vec<&str> = vec!["subject"];
    assert(words(required@) =~= seq!["subject"@]);
    record_of(properties, &required)
}

/// What `decision_search` does.
pub const DECISION_SEARCH_ABOUT: &'static str = "Search a subject's decisions by keyword over verb/object (case-insensitive), newest first. Lightweight keyword search; no embedding dependency. Read-only.";

/// The tool `decision_search`.
pub open spec fn decision_search_tool() -> DefinitionView {
    DefinitionView { name: "decision_search"@, description: DECISION_SEARCH_ABOUT@, input_schema: decision_search_shape() }
}

/// The tool `decision_search`.
pub fn decision_search_definition() -> (d: ToolDefinition)
    ensures
        d@ == decision_search_tool(),
{
    ToolDefinition {
        name: "decision_search".to_owned(),
        description: DECISION_SEARCH_ABOUT.to_owned(),
        input_schema: decision_search_schema(),
    }
}

/// The properties of a entity link.
pub open spec fn entity_link_properties() -> Seq<(Seq<char>, JsonView)> {
    seq![
        ("external_name"@, of_type("string"@)),
        ("canonical_name"@, of_type("string"@)),
        ("source"@, of_type("string"@)),
    ]
}

/// The schema of a entity link.
pub open spec fn entity_link_shape() -> JsonView {
    record(entity_link_properties(), seq!["external_name"@, "canonical_name"@, "source"@])
}

/// The schema of a entity link.
fn entity_link_schema() -> (j: Json)
    ensures
        j@ == entity_link_shape(),
{
    let properties: Vec<(String, Json)> = vec![
        member("external_name", typed("string")),
        member("canonical_name", typed("string")),
        member("source", typed("string")),
    ];
    assert(members(properties@) =~= entity_link_properties());
    let required: Vec<&str> = vec!["external_name", "canonical_name", "source"];
    assert(words(required@) =~= seq!["external_name"@, "canonical_name"@, "source"@]);
    record_of(properties, &required)
}

/// The properties of the arguments of `knowledge_attach`.
pub open spec fn knowledge_attach_properties() -> Seq<(Seq<char>, JsonView)> {
    seq![
        ("source_type"@, about(one_of(of_type("string"@), seq!["document"@, "db"@]), "document = PDF/JSON/TXT/MD file; db = JSON-backed DB file"@)),
        ("path"@, about(of_type("string"@), "File path (required for source_type=document)"@)),
        ("connection"@, about(of_type("string"@), "JSON DB file path (required for source_type=db). File must be an array of {id, text, score?} or {\"documents\": [...]}"@)),
        ("source_name"@, about(of_type("string"@), "Optional friendly name; defaults to the file stem"@)),
        ("entity_links"@, about(listing(entity_link_shape()), "Optional cross-source entity links [{external_name, canonical_name, source}]"@)),
    ]
}

/// The schema of the arguments of `knowledge_attach`.
pub open spec fn knowledge_attach_shape() -> JsonView {
    record(knowledge_attach_properties(), seq!["source_type"@])
}

/// The schema of the arguments of `knowledge_attach`.
fn knowledge_attach_schema() -> (j: Json)
    ensures
        j@ == knowledge_attach_shape(),
{
    let list_1: Vec<&str> = vec!["document", "db"];
    assert(words(list_1@) =~= seq!["document"@, "db"@]);
    let properties: Vec<(String, Json)> = vec![
        member("source_type", describe(restrict(typed("string"), &list_1), "document = PDF/JSON/TXT/MD file; db = JSON-backed DB file")),
        member("path", describe(typed("string"), "File path (required for source_type=document)")),
        member("connection", describe(typed("string"), "JSON DB file path (required for source_type=db). File must be an array of {id, text, score?} or {\"documents\": [...]}")),
        member("source_name", describe(typed("string"), "Optional friendly name; defaults to the file stem")),
        member("entity_links", describe(list_of(entity_link_schema()), "Optional cross-source entity links [{external_name, canonical_name, source}]")),
    ];
    assert(members(properties@) =~= knowledge_attach_properties());
    let required: Vec<&str> = vec!["source_type"];
    assert(words(required@) =~= seq!["source_type"@]);
    record_of(properties, &required)
}

/// What `knowledge_attach` does.
pub const KNOWLEDGE_ATTACH_ABOUT: &'static str = "Attach an external knowledge source as a searchable adapter. Documents (PDF/JSON/TXT/MD) are materialization-only; JSON-backed DBs are index-mode (query-forwarded into hybrid search). Rebuilds the entity linker so inspect_entity resolves cross-source names.";

/// The tool `knowledge_attach`.
pub open spec fn knowledge_attach_tool() -> DefinitionView {
    DefinitionView { name: "knowledge_attach"@, description: KNOWLEDGE_ATTACH_ABOUT@, input_schema: knowledge_attach_shape() }
}

/// The tool `knowledge_attach`.
pub fn knowledge_attach_definition() -> (d: ToolDefinition)
    ensures
        d@ == knowledge_attach_tool(),
{
    ToolDefinition {
        name: "knowledge_attach".to_owned(),
        description: KNOWLEDGE_ATTACH_ABOUT.to_owned(),
        input_schema: knowledge_attach_schema(),
    }
}

/// The properties of the arguments of `knowledge_ingest`.
pub open spec fn knowledge_ingest_properties() -> Seq<(Seq<char>, JsonView)> {
    seq![
        ("source_name"@, about(of_type("string"@), "Attached source name, or 'all' for every source"@)),
        ("mode"@, about(defaulting(one_of(of_type("string"@), seq!["index"@, "materialize"@]), "materialize"@), "index = report status only; materialize = persist docs into the graph"@)),
    ]
}

/// The schema of the arguments of `knowledge_ingest`.
pub open spec fn knowledge_ingest_shape() -> JsonView {
    record(knowledge_ingest_properties(), seq!["source_name"@])
}

/// The schema of the arguments of `knowledge_ingest`.
fn knowledge_ingest_schema() -> (j: Json)
    ensures
        j@ == knowledge_ingest_shape(),
{
    let list_1: Vec<&str> = vec!["index", "materialize"];
    assert(words(list_1@) =~= seq!["index"@, "materialize"@]);
    let properties: Vec<(String, Json)> = vec![
        member("source_name", describe(typed("string"), "Attached source name, or 'all' for every source")),
        member("mode", describe(with_default(restrict(typed("string"), &list_1), "materialize"), "index = report status only; materialize = persist docs into the graph")),
    ];
    assert(members(properties@) =~= knowledge_ingest_properties());
    let required: Vec<&str> = vec!["source_name"];
    assert(words(required@) =~= seq!["source_name"@]);
    record_of(properties, &required)
}

/// What `knowledge_ingest` does.
pub const KNOWLEDGE_INGEST_ABOUT: &'static str = "Materialize an attached external source into the knowledge graph as documents + chapters + evidence. Use source_name='all' to materialize every attached source.";

/// The tool `knowledge_ingest`.
pub open spec fn knowledge_ingest_tool() -> DefinitionView {
    DefinitionView { name: "knowledge_ingest"@, description: KNOWLEDGE_INGEST_ABOUT@, input_schema: knowledge_ingest_shape() }
}

/// The tool `knowledge_ingest`.
pub fn knowledge_ingest_definition() -> (d: ToolDefinition)
    ensures
        d@ == knowledge_ingest_tool(),
{
    ToolDefinition {
        name: "knowledge_ingest".to_owned(),
        description: KNOWLEDGE_INGEST_ABOUT.to_owned(),
        input_schema: knowledge_ingest_schema(),
    }
}

/// The properties of the arguments of `agent_fact_compile`.
pub open spec fn agent_fact_compile_properties() -> Seq<(Seq<char>, JsonView)> {
    seq![
        ("messages"@, listing(spoken_message_shape())),
        ("tenant_id"@, defaulting(of_type("string"@), "default"@)),
        ("user_id"@, of_type("string"@)),
        ("agent_id"@, of_type("string"@)),
        ("include_agent_facts"@, about(added(of_type("boolean"@), "default"@, JsonView::Bool(false)), "Enable the agent + derived fact channels (opt-in)"@)),
    ]
}

/// The schema of the arguments of `agent_fact_compile`.
pub open spec fn agent_fact_compile_shape() -> JsonView {
    record(agent_fact_compile_properties(), seq!["messages"@])
}

/// The schema of the arguments of `agent_fact_compile`.
fn agent_fact_compile_schema() -> (j: Json)
    ensures
        j@ == agent_fact_compile_shape(),
{
    let properties: Vec<(String, Json)> = vec![
        member("messages", list_of(spoken_message_schema())),
        member("tenant_id", with_default(typed("string"), "default")),
        member("user_id", typed("string")),
        member("agent_id", typed("string")),
        member("include_agent_facts", describe(add_member(typed("boolean"), "default", Json::Bool(false)), "Enable the agent + derived fact channels (opt-in)")),
    ];
    assert(members(properties@) =~= agent_fact_compile_properties());
    let required: Vec<&str> = vec!["messages"];
    assert(words(required@) =~= seq!["messages"@]);
    record_of(properties, &required)
}

/// What `agent_fact_compile` does.
pub const AGENT_FACT_COMPILE_ABOUT: &'static str = "Compile an AI conversation into three-state facts (user/agent/derived). User facts are always persisted; agent + derived facts require include_agent_facts=true (agent channel is opt-in so agent never speaks for the user).";

/// The tool `agent_fact_compile`.
pub open spec fn agent_fact_compile_tool() -> DefinitionView {
    DefinitionView { name: "agent_fact_compile"@, description: AGENT_FACT_COMPILE_ABOUT@, input_schema: agent_fact_compile_shape() }
}

/// The tool `agent_fact_compile`.
pub fn agent_fact_compile_definition() -> (d: ToolDefinition)
    ensures
        d@ == agent_fact_compile_tool(),
{
    ToolDefinition {
        name: "agent_fact_compile".to_owned(),
        description: AGENT_FACT_COMPILE_ABOUT.to_owned(),
        input_schema: agent_fact_compile_schema(),
    }
}

/// The properties of a dialog message.
pub open spec fn dialog_message_properties() -> Seq<(Seq<char>, JsonView)> {
    seq![
        ("role"@, one_of(of_type("string"@), seq!["user"@, "assistant"@, "system"@])),
        ("content"@, of_type("string"@)),
    ]
}

/// The schema of a dialog message.
pub open spec fn dialog_message_shape() -> JsonView {
    record(dialog_message_properties(), seq!["role"@, "content"@])
}

/// The schema of a dialog message.
fn dialog_message_schema() -> (j: Json)
    ensures
        j@ == dialog_message_shape(),
{
    let list_1: Vec<&str> = vec!["user", "assistant", "system"];
    assert(words(list_1@) =~= seq!["user"@, "assistant"@, "system"@]);
    let properties: Vec<(String, Json)> = vec![
        member("role", restrict(typed("string"), &list_1)),
        member("content", typed("string")),
    ];
    assert(members(properties@) =~= dialog_message_properties());
    let required: Vec<&str> = vec!["role", "content"];
    assert(words(required@) =~= seq!["role"@, "content"@]);
    record_of(properties, &required)
}

/// The properties of the arguments of `generalize_compile`.
pub open spec fn generalize_compile_properties() -> Seq<(Seq<char>, JsonView)> {
    seq![
        ("doc_type"@, about(defaulting(one_of(of_type("string"@), seq!["dialog"@, "text"@]), "text"@), "dialog = conversation messages; text = arbitrary prose"@)),
        ("messages"@, about(listing(dialog_message_shape()), "Conversation messages (required when doc_type=dialog)"@)),
        ("text"@, about(of_type("string"@), "Raw prose / notes (required when doc_type=text)"@)),
        ("title"@, about(of_type("string"@), "Optional document title; defaults to a generated id"@)),
        ("source"@, about(of_type("string"@), "Optional provenance origin tag"@)),
        ("profile"@, about(defaulting(of_type("string"@), "conversation_cognition"@), "Optional domain profile pack name from config/domain_profiles/"@)),
        ("tenant_id"@, defaulting(of_type("string"@), "default"@)),
    ]
}

/// The schema of the arguments of `generalize_compile`.
pub open spec fn generalize_compile_shape() -> JsonView {
    added(with_properties(generalize_compile_properties()), "oneOf"@, JsonView::Array(seq![requiring(seq!["messages"@]), requiring(seq!["text"@])]))
}

/// The schema of the arguments of `generalize_compile`.
fn generalize_compile_schema() -> (j: Json)
    ensures
        j@ == generalize_compile_shape(),
{
    let list_1: Vec<&str> = vec!["dialog", "text"];
    assert(words(list_1@) =~= seq!["dialog"@, "text"@]);
    let properties: Vec<(String, Json)> = vec![
        member("doc_type", describe(with_default(restrict(typed("string"), &list_1), "text"), "dialog = conversation messages; text = arbitrary prose")),
        member("messages", describe(list_of(dialog_message_schema()), "Conversation messages (required when doc_type=dialog)")),
        member("text", describe(typed("string"), "Raw prose / notes (required when doc_type=text)")),
        member("title", describe(typed("string"), "Optional document title; defaults to a generated id")),
        member("source", describe(typed("string"), "Optional provenance origin tag")),
        member("profile", describe(with_default(typed("string"), "conversation_cognition"), "Optional domain profile pack name from config/domain_profiles/")),
        member("tenant_id", with_default(typed("string"), "default")),
    ];
    assert(members(properties@) =~= generalize_compile_properties());
    let mut choices: Vec<Json> = Vec::new();
    let need_0: Vec<&str> = vec!["messages"];
    assert(words(need_0@) =~= seq!["messages"@]);
    choices.push(require(&need_0));
    let need_1: Vec<&str> = vec!["text"];
    assert(words(need_1@) =~= seq!["text"@]);
    choices.push(require(&need_1));
    assert(elements(choices@) =~= seq![requiring(seq!["messages"@]), requiring(seq!["text"@])]);
    add_member(properties_of(properties), "oneOf", array(choices))
}

/// What `generalize_compile` does.
pub const GENERALIZE_COMPILE_ABOUT: &'static str = "Compile ANY external data source (pasted conversation or raw prose) into the unified knowledge graph as documents, entities, edges and evidence. Use doc_type=dialog with a `messages` array for conversations, or doc_type=text with a `text` string for arbitrary prose. The compiled knowledge is later retrievable to sustain the AI persona.";

/// The tool `generalize_compile`.
pub open spec fn generalize_compile_tool() -> DefinitionView {
    DefinitionView { name: "generalize_compile"@, description: GENERALIZE_COMPILE_ABOUT@, input_schema: generalize_compile_shape() }
}

/// The tool `generalize_compile`.
pub fn generalize_compile_definition() -> (d: ToolDefinition)
    ensures
        d@ == generalize_compile_tool(),
{
    ToolDefinition {
        name: "generalize_compile".to_owned(),
        description: GENERALIZE_COMPILE_ABOUT.to_owned(),
        input_schema: generalize_compile_schema(),
    }
}

/// The properties of the arguments of `search_graph`.
pub open spec fn search_graph_properties() -> Seq<(Seq<char>, JsonView)> {
    seq![
        ("query"@, about(of_type("string"@), "Substring to match against entity names"@)),
        ("object_type"@, about(one_of(of_type("string"@), seq!["person"@, "event"@, "place"@, "organization"@, "concept"@]), "Filter by entity type"@)),
        ("attribute"@, about(of_type("string"@), "Filter to entities whose properties contain this value"@)),
        ("doc_title"@, about(of_type("string"@), "Scope the search to one document by title"@)),
        ("limit"@, about(added(of_type("integer"@), "default"@, JsonView::Int(20)), "Max results (capped at 200)"@)),
    ]
}

/// The schema of the arguments of `search_graph`.
pub open spec fn search_graph_shape() -> JsonView {
    with_properties(search_graph_properties())
}

/// The schema of the arguments of `search_graph`.
fn search_graph_schema() -> (j: Json)
    ensures
        j@ == search_graph_shape(),
{
    let list_1: Vec<&str> = vec!["person", "event", "place", "organization", "concept"];
    assert(words(list_1@) =~= seq!["person"@, "event"@, "place"@, "organization"@, "concept"@]);
    let properties: Vec<(String, Json)> = vec![
        member("query", describe(typed("string"), "Substring to match against entity names")),
        member("object_type", describe(restrict(typed("string"), &list_1), "Filter by entity type")),
        member("attribute", describe(typed("string"), "Filter to entities whose properties contain this value")),
        member("doc_title", describe(typed("string"), "Scope the search to one document by title")),
        member("limit", describe(add_member(typed("integer"), "default", count(20)), "Max results (capped at 200)")),
    ];
    assert(members(properties@) =~= search_graph_properties());
    properties_of(properties)
}

/// What `search_graph` does.
pub const SEARCH_GRAPH_ABOUT: &'static str = "Structured knowledge-graph search: find entities by name substring (`query`), object type (`object_type`), or attribute value (`attribute`), optionally scoped to one document (`doc_title`). Returns each match with its document, confidence, relation count, and matched attributes — one call instead of many entity lookups.";

/// The tool `search_graph`.
pub open spec fn search_graph_tool() -> DefinitionView {
    DefinitionView { name: "search_graph"@, description: SEARCH_GRAPH_ABOUT@, input_schema: search_graph_shape() }
}

/// The tool `search_graph`.
pub fn search_graph_definition() -> (d: ToolDefinition)
    ensures
        d@ == search_graph_tool(),
{
    ToolDefinition {
        name: "search_graph".to_owned(),
        description: SEARCH_GRAPH_ABOUT.to_owned(),
        input_schema: search_graph_schema(),
    }
}

/// The properties of the arguments of `person_key_events`.
pub open spec fn key_events_properties() -> Seq<(Seq<char>, JsonView)> {
    seq![
        ("name"@, about(of_type("string"@), "Entity/person name (required)"@)),
        ("doc_title"@, about(of_type("string"@), "Optional document title filter, e.g. '水浒传'"@)),
        ("threshold"@, about(added(added(of_type("number"@), "minimum"@, JsonView::Other("0.0"@)), "maximum"@, JsonView::Other("1.0"@)), "Importance threshold for key events (default 0.7)"@)),
    ]
}

/// The schema of the arguments of `person_key_events`.
pub open spec fn key_events_shape() -> JsonView {
    record(key_events_properties(), seq!["name"@])
}

/// The schema of the arguments of `person_key_events`.
fn key_events_schema() -> (j: Json)
    ensures
        j@ == key_events_shape(),
{
    let properties: Vec<(String, Json)> = vec![
        member("name", describe(typed("string"), "Entity/person name (required)")),
        member("doc_title", describe(typed("string"), "Optional document title filter, e.g. '水浒传'")),
        member("threshold", describe(add_member(add_member(typed("number"), "minimum", Json::Number(Number::Other("0.0".to_owned()))), "maximum", Json::Number(Number::Other("1.0".to_owned()))), "Importance threshold for key events (default 0.7)")),
    ];
    assert(members(properties@) =~= key_events_properties());
    let required: Vec<&str> = vec!["name"];
    assert(words(required@) =~= seq!["name"@]);
    record_of(properties, &required)
}

/// What `person_key_events` does.
pub const KEY_EVENTS_ABOUT: &'static str = "Distill a person's full trajectory into key events: each carries a transparent importance score (evidence richness + participant centrality + turning-point flag) and original-text evidence anchors. The tool supplies evidence only — use it to inform your own personality/turning analysis.";

/// The tool `person_key_events`.
pub open spec fn key_events_tool() -> DefinitionView {
    DefinitionView { name: "person_key_events"@, description: KEY_EVENTS_ABOUT@, input_schema: key_events_shape() }
}

/// The tool `person_key_events`.
pub fn key_events_definition() -> (d: ToolDefinition)
    ensures
        d@ == key_events_tool(),
{
    ToolDefinition {
        name: "person_key_events".to_owned(),
        description: KEY_EVENTS_ABOUT.to_owned(),
        input_schema: key_events_schema(),
    }
}

/// The properties of the arguments of `inspect_entity`.
pub open spec fn inspect_entity_properties() -> Seq<(Seq<char>, JsonView)> {
    seq![
        ("name"@, about(of_type("string"@), "Entity name or external surface (e.g. 赵云, John Smith)"@)),
        ("doc"@, about(of_type("string"@), "Optional document title filter"@)),
        ("source"@, about(of_type("string"@), "Optional external source hint to disambiguate identical surface names across sources"@)),
    ]
}

/// The schema of the arguments of `inspect_entity`.
pub open spec fn inspect_entity_shape() -> JsonView {
    record(inspect_entity_properties(), seq!["name"@])
}

/// The schema of the arguments of `inspect_entity`.
fn inspect_entity_schema() -> (j: Json)
    ensures
        j@ == inspect_entity_shape(),
{
    let properties: Vec<(String, Json)> = vec![
        member("name", describe(typed("string"), "Entity name or external surface (e.g. 赵云, John Smith)")),
        member("doc", describe(typed("string"), "Optional document title filter")),
        member("source", describe(typed("string"), "Optional external source hint to disambiguate identical surface names across sources")),
    ];
    assert(members(properties@) =~= inspect_entity_properties());
    let required: Vec<&str> = vec!["name"];
    assert(words(required@) =~= seq!["name"@]);
    record_of(properties, &required)
}

/// What `inspect_entity` does.
pub const INSPECT_ENTITY_ABOUT: &'static str = "Return the full picture for a named entity: object, events, relations, evidence, mentions, and cross-source aliases. External surface names (e.g. 'John Smith') are resolved to the unified graph node via the entity linker when a source is attached.";

/// The tool `inspect_entity`.
pub open spec fn inspect_entity_tool() -> DefinitionView {
    DefinitionView { name: "inspect_entity"@, description: INSPECT_ENTITY_ABOUT@, input_schema: inspect_entity_shape() }
}

/// The tool `inspect_entity`.
pub fn inspect_entity_definition() -> (d: ToolDefinition)
    ensures
        d@ == inspect_entity_tool(),
{
    ToolDefinition {
        name: "inspect_entity".to_owned(),
        description: INSPECT_ENTITY_ABOUT.to_owned(),
        input_schema: inspect_entity_schema(),
    }
}

/// The properties of the arguments of `timeline`.
pub open spec fn timeline_properties() -> Seq<(Seq<char>, JsonView)> {
    seq![
        ("entity"@, about(of_type("string"@), "Entity name (e.g. 赵云)"@)),
        ("doc"@, about(of_type("string"@), "Optional document title filter"@)),
    ]
}

/// The schema of the arguments of `timeline`.
pub open spec fn timeline_shape() -> JsonView {
    record(timeline_properties(), seq!["entity"@])
}

/// The schema of the arguments of `timeline`.
fn timeline_schema() -> (j: Json)
    ensures
        j@ == timeline_shape(),
{
    let properties: Vec<(String, Json)> = vec![
        member("entity", describe(typed("string"), "Entity name (e.g. 赵云)")),
        member("doc", describe(typed("string"), "Optional document title filter")),
    ];
    assert(members(properties@) =~= timeline_properties());
    let required: Vec<&str> = vec!["entity"];
    assert(words(required@) =~= seq!["entity"@]);
    record_of(properties, &required)
}

/// What `timeline` does.
pub const TIMELINE_ABOUT: &'static str = "Get a chronological timeline of events for an entity";

/// The tool `timeline`.
pub open spec fn timeline_tool() -> DefinitionView {
    DefinitionView { name: "timeline"@, description: TIMELINE_ABOUT@, input_schema: timeline_shape() }
}

/// The tool `timeline`.
pub fn timeline_definition() -> (d: ToolDefinition)
    ensures
        d@ == timeline_tool(),
{
    ToolDefinition {
        name: "timeline".to_owned(),
        description: TIMELINE_ABOUT.to_owned(),
        input_schema: timeline_schema(),
    }
}

/// The properties of the arguments of `relation_graph`.
pub open spec fn relation_graph_properties() -> Seq<(Seq<char>, JsonView)> {
    seq![
        ("entity"@, about(of_type("string"@), "Starting entity name"@)),
        ("doc"@, about(of_type("string"@), "Optional document title filter"@)),
        ("depth"@, about(added(of_type("integer"@), "default"@, JsonView::Int(2)), "Traversal depth (1-5)"@)),
    ]
}

/// The schema of the arguments of `relation_graph`.
pub open spec fn relation_graph_shape() -> JsonView {
    record(relation_graph_properties(), seq!["entity"@])
}

/// The schema of the arguments of `relation_graph`.
fn relation_graph_schema() -> (j: Json)
    ensures
        j@ == relation_graph_shape(),
{
    let properties: Vec<(String, Json)> = vec![
        member("entity", describe(typed("string"), "Starting entity name")),
        member("doc", describe(typed("string"), "Optional document title filter")),
        member("depth", describe(add_member(typed("integer"), "default", count(2)), "Traversal depth (1-5)")),
    ];
    assert(members(properties@) =~= relation_graph_properties());
    let required: Vec<&str> = vec!["entity"];
    assert(words(required@) =~= seq!["entity"@]);
    record_of(properties, &required)
}

/// What `relation_graph` does.
pub const RELATION_GRAPH_ABOUT: &'static str = "Traverse the relation graph outward from an entity (BFS)";

/// The tool `relation_graph`.
pub open spec fn relation_graph_tool() -> DefinitionView {
    DefinitionView { name: "relation_graph"@, description: RELATION_GRAPH_ABOUT@, input_schema: relation_graph_shape() }
}

/// The tool `relation_graph`.
pub fn relation_graph_definition() -> (d: ToolDefinition)
    ensures
        d@ == relation_graph_tool(),
{
    ToolDefinition {
        name: "relation_graph".to_owned(),
        description: RELATION_GRAPH_ABOUT.to_owned(),
        input_schema: relation_graph_schema(),
    }
}

/// The properties of the arguments of `evidence`.
pub open spec fn evidence_properties() -> Seq<(Seq<char>, JsonView)> {
    seq![
        ("query"@, about(of_type("string"@), "Search query"@)),
        ("doc"@, about(of_type("string"@), "Optional document title filter"@)),
        ("limit"@, about(added(of_type("integer"@), "default"@, JsonView::Int(20)), "Max results"@)),
    ]
}

/// The schema of the arguments of `evidence`.
pub open spec fn evidence_shape() -> JsonView {
    record(evidence_properties(), seq!["query"@])
}

/// The schema of the arguments of `evidence`.
fn evidence_schema() -> (j: Json)
    ensures
        j@ == evidence_shape(),
{
    let properties: Vec<(String, Json)> = vec![
        member("query", describe(typed("string"), "Search query")),
        member("doc", describe(typed("string"), "Optional document title filter")),
        member("limit", describe(add_member(typed("integer"), "default", count(20)), "Max results")),
    ];
    assert(members(properties@) =~= evidence_properties());
    let required: Vec<&str> = vec!["query"];
    assert(words(required@) =~= seq!["query"@]);
    record_of(properties, &required)
}

/// What `evidence` does.
pub const EVIDENCE_ABOUT: &'static str = "Search evidence snippets by keyword across all compiled documents";

/// The tool `evidence`.
pub open spec fn evidence_tool() -> DefinitionView {
    DefinitionView { name: "evidence"@, description: EVIDENCE_ABOUT@, input_schema: evidence_shape() }
}

/// The tool `evidence`.
pub fn evidence_definition() -> (d: ToolDefinition)
    ensures
        d@ == evidence_tool(),
{
    ToolDefinition {
        name: "evidence".to_owned(),
        description: EVIDENCE_ABOUT.to_owned(),
        input_schema: evidence_schema(),
    }
}

/// The properties of the arguments of `correct_relation`.
pub open spec fn correct_relation_properties() -> Seq<(Seq<char>, JsonView)> {
    seq![
        ("source"@, about(of_type("string"@), "Source entity name"@)),
        ("predicate"@, about(of_type("string"@), "Relation predicate to match"@)),
        ("old_target"@, about(of_type("string"@), "Current (incorrect) target name"@)),
        ("new_target"@, about(of_type("string"@), "Correct target name"@)),
        ("doc"@, about(of_type("string"@), "Optional document title filter"@)),
    ]
}

/// The schema of the arguments of `correct_relation`.
pub open spec fn correct_relation_shape() -> JsonView {
    record(correct_relation_properties(), seq!["source"@, "predicate"@, "old_target"@, "new_target"@])
}

/// The schema of the arguments of `correct_relation`.
fn correct_relation_schema() -> (j: Json)
    ensures
        j@ == correct_relation_shape(),
{
    let properties: Vec<(String, Json)> = vec![
        member("source", describe(typed("string"), "Source entity name")),
        member("predicate", describe(typed("string"), "Relation predicate to match")),
        member("old_target", describe(typed("string"), "Current (incorrect) target name")),
        member("new_target", describe(typed("string"), "Correct target name")),
        member("doc", describe(typed("string"), "Optional document title filter")),
    ];
    assert(members(properties@) =~= correct_relation_properties());
    let required: Vec<&str> = vec!["source", "predicate", "old_target", "new_target"];
    assert(words(required@) =~= seq!["source"@, "predicate"@, "old_target"@, "new_target"@]);
    record_of(properties, &required)
}

/// What `correct_relation` does.
pub const CORRECT_RELATION_ABOUT: &'static str = "Correct a misattributed relation in the knowledge graph. Finds edges matching (source_name, predicate, old_target) and APPLIES the correction in place, re-targeting each matching edge to new_target and reporting how many were changed.";

/// The tool `correct_relation`.
pub open spec fn correct_relation_tool() -> DefinitionView {
    DefinitionView { name: "correct_relation"@, description: CORRECT_RELATION_ABOUT@, input_schema: correct_relation_shape() }
}

/// The tool `correct_relation`.
pub fn correct_relation_definition() -> (d: ToolDefinition)
    ensures
        d@ == correct_relation_tool(),
{
    ToolDefinition {
        name: "correct_relation".to_owned(),
        description: CORRECT_RELATION_ABOUT.to_owned(),
        input_schema: correct_relation_schema(),
    }
}

/// The properties of the arguments of `cognitive_context`.
pub open spec fn cognitive_context_properties() -> Seq<(Seq<char>, JsonView)> {
    seq![
        ("name"@, about(of_type("string"@), "Entity name (e.g. User, 赵云, Pierre)"@)),
        ("tenant_id"@, about(defaulting(of_type("string"@), "default"@), "Tenant scope for cognition entities"@)),
        ("user_id"@, about(of_type("string"@), "External user id when querying the User entity"@)),
    ]
}

/// The schema of the arguments of `cognitive_context`.
pub open spec fn cognitive_context_shape() -> JsonView {
    record(cognitive_context_properties(), seq!["name"@])
}

/// The schema of the arguments of `cognitive_context`.
fn cognitive_context_schema() -> (j: Json)
    ensures
        j@ == cognitive_context_shape(),
{
    let properties: Vec<(String, Json)> = vec![
        member("name", describe(typed("string"), "Entity name (e.g. User, 赵云, Pierre)")),
        member("tenant_id", describe(with_default(typed("string"), "default"), "Tenant scope for cognition entities")),
        member("user_id", describe(typed("string"), "External user id when querying the User entity")),
    ];
    assert(members(properties@) =~= cognitive_context_properties());
    let required: Vec<&str> = vec!["name"];
    assert(words(required@) =~= seq!["name"@]);
    record_of(properties, &required)
}

/// What `cognitive_context` does.
pub const COGNITIVE_CONTEXT_ABOUT: &'static str = "Return a structured cognitive snapshot for an entity: identity, preferences, goals, events, relationships, and timeline. Replaces the older inspect_entity for new cognition pipeline data.";

/// The tool `cognitive_context`.
pub open spec fn cognitive_context_tool() -> DefinitionView {
    DefinitionView { name: "cognitive_context"@, description: COGNITIVE_CONTEXT_ABOUT@, input_schema: cognitive_context_shape() }
}

/// The tool `cognitive_context`.
pub fn cognitive_context_definition() -> (d: ToolDefinition)
    ensures
        d@ == cognitive_context_tool(),
{
    ToolDefinition {
        name: "cognitive_context".to_owned(),
        description: COGNITIVE_CONTEXT_ABOUT.to_owned(),
        input_schema: cognitive_context_schema(),
    }
}

/// The properties of the arguments of `memory_export`.
pub open spec fn memory_export_properties() -> Seq<(Seq<char>, JsonView)> {
    seq![
        ("path"@, about(of_type("string"@), "Optional file path to write the snapshot to"@)),
    ]
}

/// The schema of the arguments of `memory_export`.
pub open spec fn memory_export_shape() -> JsonView {
    with_properties(memory_export_properties())
}

/// The schema of the arguments of `memory_export`.
fn memory_export_schema() -> (j: Json)
    ensures
        j@ == memory_export_shape(),
{
    let properties: Vec<(String, Json)> = vec![
        member("path", describe(typed("string"), "Optional file path to write the snapshot to")),
    ];
    assert(members(properties@) =~= memory_export_properties());
    properties_of(properties)
}

/// What `memory_export` does.
pub const MEMORY_EXPORT_ABOUT: &'static str = "Serialize the entire knowledge graph (documents, entities, edges, evidence, links) into a portable JSON snapshot. Pass `path` to write it to a file, or omit `path` to receive the JSON inline. The snapshot can later be restored with `memory_import` — move a persona's memory between machines or back it up.";

/// The tool `memory_export`.
pub open spec fn memory_export_tool() -> DefinitionView {
    DefinitionView { name: "memory_export"@, description: MEMORY_EXPORT_ABOUT@, input_schema: memory_export_shape() }
}

/// The tool `memory_export`.
pub fn memory_export_definition() -> (d: ToolDefinition)
    ensures
        d@ == memory_export_tool(),
{
    ToolDefinition {
        name: "memory_export".to_owned(),
        description: MEMORY_EXPORT_ABOUT.to_owned(),
        input_schema: memory_export_schema(),
    }
}

/// The properties of the arguments of `memory_import`.
pub open spec fn memory_import_properties() -> Seq<(Seq<char>, JsonView)> {
    seq![
        ("content"@, about(of_type("string"@), "The exported JSON bundle (inline)"@)),
        ("path"@, about(of_type("string"@), "Path to a file containing the exported JSON bundle"@)),
    ]
}

/// The schema of the arguments of `memory_import`.
pub open spec fn memory_import_shape() -> JsonView {
    added(with_properties(memory_import_properties()), "oneOf"@, JsonView::Array(seq![requiring(seq!["content"@]), requiring(seq!["path"@])]))
}

/// The schema of the arguments of `memory_import`.
fn memory_import_schema() -> (j: Json)
    ensures
        j@ == memory_import_shape(),
{
    let properties: Vec<(String, Json)> = vec![
        member("content", describe(typed("string"), "The exported JSON bundle (inline)")),
        member("path", describe(typed("string"), "Path to a file containing the exported JSON bundle")),
    ];
    assert(members(properties@) =~= memory_import_properties());
    let mut choices: Vec<Json> = Vec::new();
    let need_0: Vec<&str> = vec!["content"];
    assert(words(need_0@) =~= seq!["content"@]);
    choices.push(require(&need_0));
    let need_1: Vec<&str> = vec!["path"];
    assert(words(need_1@) =~= seq!["path"@]);
    choices.push(require(&need_1));
    assert(elements(choices@) =~= seq![requiring(seq!["content"@]), requiring(seq!["path"@])]);
    add_member(properties_of(properties), "oneOf", array(choices))
}

/// What `memory_import` does.
pub const MEMORY_IMPORT_ABOUT: &'static str = "Replay a memory snapshot produced by `memory_export` into the store, deduplicating by identity (document title, entity name, evidence content) so a re-import is a no-op. Provide the bundle as `content` (JSON string) or as a file via `path`.";

/// The tool `memory_import`.
pub open spec fn memory_import_tool() -> DefinitionView {
    DefinitionView { name: "memory_import"@, description: MEMORY_IMPORT_ABOUT@, input_schema: memory_import_shape() }
}

/// The tool `memory_import`.
pub fn memory_import_definition() -> (d: ToolDefinition)
    ensures
        d@ == memory_import_tool(),
{
    ToolDefinition {
        name: "memory_import".to_owned(),
        description: MEMORY_IMPORT_ABOUT.to_owned(),
        input_schema: memory_import_schema(),
    }
}

/// The properties of the arguments of `persona_check`.
pub open spec fn persona_check_properties() -> Seq<(Seq<char>, JsonView)> {
    seq![
        ("agent_id"@, about(of_type("string"@), "Agent/entity identifier whose stored persona facts are compared against the draft"@)),
        ("draft"@, about(of_type("string"@), "The agent's draft reply text to check for persona consistency"@)),
        ("tenant_id"@, about(defaulting(of_type("string"@), "default"@), "Tenant namespace for the agent entity"@)),
    ]
}

/// The schema of the arguments of `persona_check`.
pub open spec fn persona_check_shape() -> JsonView {
    record(persona_check_properties(), seq!["agent_id"@, "draft"@])
}

/// The schema of the arguments of `persona_check`.
fn persona_check_schema() -> (j: Json)
    ensures
        j@ == persona_check_shape(),
{
    let properties: Vec<(String, Json)> = vec![
        member("agent_id", describe(typed("string"), "Agent/entity identifier whose stored persona facts are compared against the draft")),
        member("draft", describe(typed("string"), "The agent's draft reply text to check for persona consistency")),
        member("tenant_id", describe(with_default(typed("string"), "default"), "Tenant namespace for the agent entity")),
    ];
    assert(members(properties@) =~= persona_check_properties());
    let required: Vec<&str> = vec!["agent_id", "draft"];
    assert(words(required@) =~= seq!["agent_id"@, "draft"@]);
    record_of(properties, &required)
}

/// What `persona_check` does.
pub const PERSONA_CHECK_ABOUT: &'static str = "Guard against persona inconsistency (人设不崩): check an agent's draft reply against the accumulated persona facts and report contradictions (conflicts) and unanchored statements (drift). No LLM — embedding semantic match with keyword fallback. Read-only.";

/// The tool `persona_check`.
pub open spec fn persona_check_tool() -> DefinitionView {
    DefinitionView { name: "persona_check"@, description: PERSONA_CHECK_ABOUT@, input_schema: persona_check_shape() }
}

/// The tool `persona_check`.
pub fn persona_check_definition() -> (d: ToolDefinition)
    ensures
        d@ == persona_check_tool(),
{
    ToolDefinition {
        name: "persona_check".to_owned(),
        description: PERSONA_CHECK_ABOUT.to_owned(),
        input_schema: persona_check_schema(),
    }
}

/// The properties of the arguments of `persona_inject`.
pub open spec fn persona_inject_properties() -> Seq<(Seq<char>, JsonView)> {
    seq![
        ("agent_id"@, about(of_type("string"@), "Agent/entity identifier whose persona card is injected"@)),
        ("tenant_id"@, about(defaulting(of_type("string"@), "default"@), "Tenant namespace for the agent entity"@)),
        ("format"@, about(defaulting(one_of(of_type("string"@), seq!["text"@, "json"@]), "json"@), "Output format: 'text' for a system-prompt block, 'json' for a structured object"@)),
    ]
}

/// The schema of the arguments of `persona_inject`.
pub open spec fn persona_inject_shape() -> JsonView {
    record(persona_inject_properties(), seq!["agent_id"@])
}

/// The schema of the arguments of `persona_inject`.
fn persona_inject_schema() -> (j: Json)
    ensures
        j@ == persona_inject_shape(),
{
    let list_1: Vec<&str> = vec!["text", "json"];
    assert(words(list_1@) =~= seq!["text"@, "json"@]);
    let properties: Vec<(String, Json)> = vec![
        member("agent_id", describe(typed("string"), "Agent/entity identifier whose persona card is injected")),
        member("tenant_id", describe(with_default(typed("string"), "default"), "Tenant namespace for the agent entity")),
        member("format", describe(with_default(restrict(typed("string"), &list_1), "json"), "Output format: 'text' for a system-prompt block, 'json' for a structured object")),
    ];
    assert(members(properties@) =~= persona_inject_properties());
    let required: Vec<&str> = vec!["agent_id"];
    assert(words(required@) =~= seq!["agent_id"@]);
    record_of(properties, &required)
}

/// What `persona_inject` does.
pub const PERSONA_INJECT_ABOUT: &'static str = "Inject a structured, deterministic persona card (人设) for an agent into the system prompt. Aggregates the stored agent_personality facts into identity/persona/relationship, optionally merged with a hand-authored persona card JSON. No LLM, read-only.";

/// The tool `persona_inject`.
pub open spec fn persona_inject_tool() -> DefinitionView {
    DefinitionView { name: "persona_inject"@, description: PERSONA_INJECT_ABOUT@, input_schema: persona_inject_shape() }
}

/// The tool `persona_inject`.
pub fn persona_inject_definition() -> (d: ToolDefinition)
    ensures
        d@ == persona_inject_tool(),
{
    ToolDefinition {
        name: "persona_inject".to_owned(),
        description: PERSONA_INJECT_ABOUT.to_owned(),
        input_schema: persona_inject_schema(),
    }
}

/// The properties of the arguments of `portrait_extract`.
pub open spec fn portrait_extract_properties() -> Seq<(Seq<char>, JsonView)> {
    seq![
        ("text"@, about(of_type("string"@), "Plain text of the resume/person document (required)"@)),
        ("source_name"@, about(of_type("string"@), "Optional source label for provenance (default 'resume')"@)),
    ]
}

/// The schema of the arguments of `portrait_extract`.
pub open spec fn portrait_extract_shape() -> JsonView {
    record(portrait_extract_properties(), seq!["text"@])
}

/// The schema of the arguments of `portrait_extract`.
fn portrait_extract_schema() -> (j: Json)
    ensures
        j@ == portrait_extract_shape(),
{
    let properties: Vec<(String, Json)> = vec![
        member("text", describe(typed("string"), "Plain text of the resume/person document (required)")),
        member("source_name", describe(typed("string"), "Optional source label for provenance (default 'resume')")),
    ];
    assert(members(properties@) =~= portrait_extract_properties());
    let required: Vec<&str> = vec!["text"];
    assert(words(required@) =~= seq!["text"@]);
    record_of(properties, &required)
}

/// What `portrait_extract` does.
pub const PORTRAIT_EXTRACT_ABOUT: &'static str = "Extract a structured person portrait (name/position/contacts/links/skills/projects) from resume or person-document plain text using deterministic rules. Feed the output of knowledge_ingest or pdf extraction here.";

/// The tool `portrait_extract`.
pub open spec fn portrait_extract_tool() -> DefinitionView {
    DefinitionView { name: "portrait_extract"@, description: PORTRAIT_EXTRACT_ABOUT@, input_schema: portrait_extract_shape() }
}

/// The tool `portrait_extract`.
pub fn portrait_extract_definition() -> (d: ToolDefinition)
    ensures
        d@ == portrait_extract_tool(),
{
    ToolDefinition {
        name: "portrait_extract".to_owned(),
        description: PORTRAIT_EXTRACT_ABOUT.to_owned(),
        input_schema: portrait_extract_schema(),
    }
}

/// The properties of the arguments of `fact_provenance`.
pub open spec fn fact_provenance_properties() -> Seq<(Seq<char>, JsonView)> {
    seq![
        ("fact_id"@, about(added(of_type("integer"@), "minimum"@, JsonView::Int(1)), "Fact id to audit (required)"@)),
        ("tenant_id"@, about(of_type("string"@), "Optional: the tenant the fact's entity must belong to. Implied by fact_id; supply it to have a cross-tenant fact rejected instead of served."@)),
    ]
}

/// The schema of the arguments of `fact_provenance`.
pub open spec fn fact_provenance_shape() -> JsonView {
    record(fact_provenance_properties(), seq!["fact_id"@])
}

/// The schema of the arguments of `fact_provenance`.
fn fact_provenance_schema() -> (j: Json)
    ensures
        j@ == fact_provenance_shape(),
{
    let properties: Vec<(String, Json)> = vec![
        member("fact_id", describe(add_member(typed("integer"), "minimum", count(1)), "Fact id to audit (required)")),
        member("tenant_id", describe(typed("string"), "Optional: the tenant the fact's entity must belong to. Implied by fact_id; supply it to have a cross-tenant fact rejected instead of served.")),
    ];
    assert(members(properties@) =~= fact_provenance_properties());
    let required: Vec<&str> = vec!["fact_id"];
    assert(words(required@) =~= seq!["fact_id"@]);
    record_of(properties, &required)
}

/// What `fact_provenance` does.
pub const FACT_PROVENANCE_ABOUT: &'static str = "Audit why a cognitive fact is believed: returns the fact's confidence, epistemic status (active/superseded/contradicted), the original-text evidence anchor behind it, and the derivation chain of source facts it was inferred from. Read-only; never writes.";

/// The tool `fact_provenance`.
pub open spec fn fact_provenance_tool() -> DefinitionView {
    DefinitionView { name: "fact_provenance"@, description: FACT_PROVENANCE_ABOUT@, input_schema: fact_provenance_shape() }
}

/// The tool `fact_provenance`.
pub fn fact_provenance_definition() -> (d: ToolDefinition)
    ensures
        d@ == fact_provenance_tool(),
{
    ToolDefinition {
        name: "fact_provenance".to_owned(),
        description: FACT_PROVENANCE_ABOUT.to_owned(),
        input_schema: fact_provenance_schema(),
    }
}

/// The properties of a plain message.
pub open spec fn plain_message_properties() -> Seq<(Seq<char>, JsonView)> {
    seq![
        ("role"@, about(of_type("string"@), "user or assistant"@)),
        ("content"@, of_type("string"@)),
    ]
}

/// The schema of a plain message.
pub open spec fn plain_message_shape() -> JsonView {
    record(plain_message_properties(), seq!["role"@, "content"@])
}

/// The schema of a plain message.
fn plain_message_schema() -> (j: Json)
    ensures
        j@ == plain_message_shape(),
{
    let properties: Vec<(String, Json)> = vec![
        member("role", describe(typed("string"), "user or assistant")),
        member("content", typed("string")),
    ];
    assert(members(properties@) =~= plain_message_properties());
    let required: Vec<&str> = vec!["role", "content"];
    assert(words(required@) =~= seq!["role"@, "content"@]);
    record_of(properties, &required)
}

/// The properties of the arguments of `relationship_update`.
pub open spec fn relationship_update_properties() -> Seq<(Seq<char>, JsonView)> {
    seq![
        ("tenant_id"@, about(defaulting(of_type("string"@), "default"@), "Tenant namespace"@)),
        ("agent_id"@, about(of_type("string"@), "The agent/entity identifier"@)),
        ("user_id"@, about(of_type("string"@), "The user identifier"@)),
        ("messages"@, about(listing(plain_message_shape()), "Conversation messages to apply"@)),
    ]
}

/// The schema of the arguments of `relationship_update`.
pub open spec fn relationship_update_shape() -> JsonView {
    record(relationship_update_properties(), seq!["agent_id"@, "user_id"@, "messages"@])
}

/// The schema of the arguments of `relationship_update`.
fn relationship_update_schema() -> (j: Json)
    ensures
        j@ == relationship_update_shape(),
{
    let properties: Vec<(String, Json)> = vec![
        member("tenant_id", describe(with_default(typed("string"), "default"), "Tenant namespace")),
        member("agent_id", describe(typed("string"), "The agent/entity identifier")),
        member("user_id", describe(typed("string"), "The user identifier")),
        member("messages", describe(list_of(plain_message_schema()), "Conversation messages to apply")),
    ];
    assert(members(properties@) =~= relationship_update_properties());
    let required: Vec<&str> = vec!["agent_id", "user_id", "messages"];
    assert(words(required@) =~= seq!["agent_id"@, "user_id"@, "messages"@]);
    record_of(properties, &required)
}

/// What `relationship_update` does.
pub const RELATIONSHIP_UPDATE_ABOUT: &'static str = "Incrementally update the agent↔user relationship state from a batch of messages using deterministic rules (no LLM): each user positive-emotion message raises intimacy by 0.02, each negative-emotion message lowers it by 0.02 (clamped to [0,1]); stage is derived from intimacy thresholds; emotion trend from the intimacy delta; recent topics are recurring keywords. Persists to relationship_state.";

/// The tool `relationship_update`.
pub open spec fn relationship_update_tool() -> DefinitionView {
    DefinitionView { name: "relationship_update"@, description: RELATIONSHIP_UPDATE_ABOUT@, input_schema: relationship_update_shape() }
}

/// The tool `relationship_update`.
pub fn relationship_update_definition() -> (d: ToolDefinition)
    ensures
        d@ == relationship_update_tool(),
{
    ToolDefinition {
        name: "relationship_update".to_owned(),
        description: RELATIONSHIP_UPDATE_ABOUT.to_owned(),
        input_schema: relationship_update_schema(),
    }
}

/// The properties of the arguments of `relationship_query`.
pub open spec fn relationship_query_properties() -> Seq<(Seq<char>, JsonView)> {
    seq![
        ("tenant_id"@, about(defaulting(of_type("string"@), "default"@), "Tenant namespace"@)),
        ("agent_id"@, about(of_type("string"@), "The agent/entity identifier"@)),
        ("user_id"@, about(of_type("string"@), "The user identifier"@)),
    ]
}

/// The schema of the arguments of `relationship_query`.
pub open spec fn relationship_query_shape() -> JsonView {
    record(relationship_query_properties(), seq!["agent_id"@, "user_id"@])
}

/// The schema of the arguments of `relationship_query`.
fn relationship_query_schema() -> (j: Json)
    ensures
        j@ == relationship_query_shape(),
{
    let properties: Vec<(String, Json)> = vec![
        member("tenant_id", describe(with_default(typed("string"), "default"), "Tenant namespace")),
        member("agent_id", describe(typed("string"), "The agent/entity identifier")),
        member("user_id", describe(typed("string"), "The user identifier")),
    ];
    assert(members(properties@) =~= relationship_query_properties());
    let required: Vec<&str> = vec!["agent_id", "user_id"];
    assert(words(required@) =~= seq!["agent_id"@, "user_id"@]);
    record_of(properties, &required)
}

/// What `relationship_query` does.
pub const RELATIONSHIP_QUERY_ABOUT: &'static str = "Read the current agent↔user relationship snapshot (intimacy, stage, emotion trend, recent topics) for a tenant/agent/user triple. Read-only.";

/// The tool `relationship_query`.
pub open spec fn relationship_query_tool() -> DefinitionView {
    DefinitionView { name: "relationship_query"@, description: RELATIONSHIP_QUERY_ABOUT@, input_schema: relationship_query_shape() }
}

/// The tool `relationship_query`.
pub fn relationship_query_definition() -> (d: ToolDefinition)
    ensures
        d@ == relationship_query_tool(),
{
    ToolDefinition {
        name: "relationship_query".to_owned(),
        description: RELATIONSHIP_QUERY_ABOUT.to_owned(),
        input_schema: relationship_query_schema(),
    }
}

/// The properties of the arguments of `persona_timeline`.
pub open spec fn persona_timeline_properties() -> Seq<(Seq<char>, JsonView)> {
    seq![
        ("entity_id"@, about(of_type("integer"@), "The entity id whose facts to reconstruct"@)),
    ]
}

/// The schema of the arguments of `persona_timeline`.
pub open spec fn persona_timeline_shape() -> JsonView {
    record(persona_timeline_properties(), seq!["entity_id"@])
}

/// The schema of the arguments of `persona_timeline`.
fn persona_timeline_schema() -> (j: Json)
    ensures
        j@ == persona_timeline_shape(),
{
    let properties: Vec<(String, Json)> = vec![
        member("entity_id", describe(typed("integer"), "The entity id whose facts to reconstruct")),
    ];
    assert(members(properties@) =~= persona_timeline_properties());
    let required: Vec<&str> = vec!["entity_id"];
    assert(words(required@) =~= seq!["entity_id"@]);
    record_of(properties, &required)
}

/// What `persona_timeline` does.
pub const PERSONA_TIMELINE_ABOUT: &'static str = "Rebuild an entity's full persona evolution timeline (起点 → 关键转变点 → 现状) from its accumulated facts. ADD-only: no fact is deleted or overwritten; stance flips are kept as turning points. Read-only.";

/// The tool `persona_timeline`.
pub open spec fn persona_timeline_tool() -> DefinitionView {
    DefinitionView { name: "persona_timeline"@, description: PERSONA_TIMELINE_ABOUT@, input_schema: persona_timeline_shape() }
}

/// The tool `persona_timeline`.
pub fn persona_timeline_definition() -> (d: ToolDefinition)
    ensures
        d@ == persona_timeline_tool(),
{
    ToolDefinition {
        name: "persona_timeline".to_owned(),
        description: PERSONA_TIMELINE_ABOUT.to_owned(),
        input_schema: persona_timeline_schema(),
    }
}

/// The properties of the arguments of `state_timeline`.
pub open spec fn state_timeline_properties() -> Seq<(Seq<char>, JsonView)> {
    seq![
        ("entity_id"@, about(of_type("integer"@), "The entity id whose state history to reconstruct (required)"@)),
        ("dimension"@, about(one_of(of_type("string"@), seq!["goal"@, "preference"@, "emotion"@, "relationship"@, "identity"@]), "Optional: restrict to one cognitive dimension (goal/preference/emotion/relationship/identity)"@)),
    ]
}

/// The schema of the arguments of `state_timeline`.
pub open spec fn state_timeline_shape() -> JsonView {
    record(state_timeline_properties(), seq!["entity_id"@])
}

/// The schema of the arguments of `state_timeline`.
fn state_timeline_schema() -> (j: Json)
    ensures
        j@ == state_timeline_shape(),
{
    let list_1: Vec<&str> = vec!["goal", "preference", "emotion", "relationship", "identity"];
    assert(words(list_1@) =~= seq!["goal"@, "preference"@, "emotion"@, "relationship"@, "identity"@]);
    let properties: Vec<(String, Json)> = vec![
        member("entity_id", describe(typed("integer"), "The entity id whose state history to reconstruct (required)")),
        member("dimension", describe(restrict(typed("string"), &list_1), "Optional: restrict to one cognitive dimension (goal/preference/emotion/relationship/identity)")),
    ];
    assert(members(properties@) =~= state_timeline_properties());
    let required: Vec<&str> = vec!["entity_id"];
    assert(words(required@) =~= seq!["entity_id"@]);
    record_of(properties, &required)
}

/// What `state_timeline` does.
pub const STATE_TIMELINE_ABOUT: &'static str = "Return how an entity's cognitive state emerged: per-dimension state intervals (when each state was valid, with evidence anchors) and deterministic transitions between them (gradual_change / stance_flip / behavioral_confirmation). ADD-only, read-only, deterministic; a change without a definite signal is reported as intervals only.";

/// The tool `state_timeline`.
pub open spec fn state_timeline_tool() -> DefinitionView {
    DefinitionView { name: "state_timeline"@, description: STATE_TIMELINE_ABOUT@, input_schema: state_timeline_shape() }
}

/// The tool `state_timeline`.
pub fn state_timeline_definition() -> (d: ToolDefinition)
    ensures
        d@ == state_timeline_tool(),
{
    ToolDefinition {
        name: "state_timeline".to_owned(),
        description: STATE_TIMELINE_ABOUT.to_owned(),
        input_schema: state_timeline_schema(),
    }
}

/// The properties of the arguments of `story_bridge`.
pub open spec fn story_bridge_properties() -> Seq<(Seq<char>, JsonView)> {
    seq![
        ("name"@, about(of_type("string"@), "Character name, e.g. '流苏' (required)"@)),
        ("tenant_id"@, about(of_type("string"@), "Tenant namespace for the fact-store entity (default 'default')"@)),
    ]
}

/// The schema of the arguments of `story_bridge`.
pub open spec fn story_bridge_shape() -> JsonView {
    record(story_bridge_properties(), seq!["name"@])
}

/// The schema of the arguments of `story_bridge`.
fn story_bridge_schema() -> (j: Json)
    ensures
        j@ == story_bridge_shape(),
{
    let properties: Vec<(String, Json)> = vec![
        member("name", describe(typed("string"), "Character name, e.g. '流苏' (required)")),
        member("tenant_id", describe(typed("string"), "Tenant namespace for the fact-store entity (default 'default')")),
    ];
    assert(members(properties@) =~= story_bridge_properties());
    let required: Vec<&str> = vec!["name"];
    assert(words(required@) =~= seq!["name"@]);
    record_of(properties, &required)
}

/// What `story_bridge` does.
pub const STORY_BRIDGE_ABOUT: &'static str = "Bridge a novel character's story events (from the knowledge graph) into fact-store persona facts so persona_timeline can output their evolution (起点→转折→现状). Returns the fact-store entity_id for the character.";

/// The tool `story_bridge`.
pub open spec fn story_bridge_tool() -> DefinitionView {
    DefinitionView { name: "story_bridge"@, description: STORY_BRIDGE_ABOUT@, input_schema: story_bridge_shape() }
}

/// The tool `story_bridge`.
pub fn story_bridge_definition() -> (d: ToolDefinition)
    ensures
        d@ == story_bridge_tool(),
{
    ToolDefinition {
        name: "story_bridge".to_owned(),
        description: STORY_BRIDGE_ABOUT.to_owned(),
        input_schema: story_bridge_schema(),
    }
}

/// The properties of the arguments of `trace_path`.
pub open spec fn trace_path_properties() -> Seq<(Seq<char>, JsonView)> {
    seq![
        ("source"@, about(of_type("string"@), "Starting entity name"@)),
        ("target"@, about(of_type("string"@), "Destination entity name"@)),
        ("max_depth"@, about(added(of_type("integer"@), "default"@, JsonView::Int(5)), "Max BFS depth (capped at 20)"@)),
    ]
}

/// The schema of the arguments of `trace_path`.
pub open spec fn trace_path_shape() -> JsonView {
    record(trace_path_properties(), seq!["source"@, "target"@])
}

/// The schema of the arguments of `trace_path`.
fn trace_path_schema() -> (j: Json)
    ensures
        j@ == trace_path_shape(),
{
    let properties: Vec<(String, Json)> = vec![
        member("source", describe(typed("string"), "Starting entity name")),
        member("target", describe(typed("string"), "Destination entity name")),
        member("max_depth", describe(add_member(typed("integer"), "default", count(5)), "Max BFS depth (capped at 20)")),
    ];
    assert(members(properties@) =~= trace_path_properties());
    let required: Vec<&str> = vec!["source", "target"];
    assert(words(required@) =~= seq!["source"@, "target"@]);
    record_of(properties, &required)
}

/// What `trace_path` does.
pub const TRACE_PATH_ABOUT: &'static str = "Find the shortest relationship path between two named entities (breadth-first over knowledge-graph edges). Returns the ordered entity names, the relation predicate on each hop, and the path length. Set `max_depth` to bound the search; a route beyond it returns a graceful 'no path' result.";

/// The tool `trace_path`.
pub open spec fn trace_path_tool() -> DefinitionView {
    DefinitionView { name: "trace_path"@, description: TRACE_PATH_ABOUT@, input_schema: trace_path_shape() }
}

/// The tool `trace_path`.
pub fn trace_path_definition() -> (d: ToolDefinition)
    ensures
        d@ == trace_path_tool(),
{
    ToolDefinition {
        name: "trace_path".to_owned(),
        description: TRACE_PATH_ABOUT.to_owned(),
        input_schema: trace_path_schema(),
    }
}

} // verus!
