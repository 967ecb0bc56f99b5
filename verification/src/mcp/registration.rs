//! Which tools a server has.
use vstd::prelude::*;

use crate::mcp::definitions::{
    agent_fact_compile_definition, agent_fact_compile_tool, character_graph_definition, character_graph_tool, character_ingest_definition, character_ingest_tool, character_network_definition, character_network_tool, character_search_definition, character_search_tool, cognitive_context_definition, cognitive_context_tool, context_check_definition, context_check_tool, correct_relation_definition, correct_relation_tool, decision_search_definition, decision_search_tool, decision_trace_definition, decision_trace_tool, evidence_definition, evidence_tool, fact_provenance_definition, fact_provenance_tool, generalize_compile_definition, generalize_compile_tool, inspect_entity_definition, inspect_entity_tool, key_events_definition, key_events_tool, knowledge_attach_definition, knowledge_attach_tool, knowledge_ingest_definition, knowledge_ingest_tool, lore_scope_definition, lore_scope_tool, memory_compile_definition, memory_compile_tool, memory_decay_definition, memory_decay_tool, memory_export_definition, memory_export_tool, memory_feedback_definition, memory_feedback_tool, memory_import_definition, memory_import_tool, memory_search_definition, memory_search_tool, memory_stats_definition, memory_stats_tool, memory_store_definition, memory_store_tool, persona_check_definition, persona_check_tool, persona_inject_definition, persona_inject_tool, persona_timeline_definition, persona_timeline_tool, relation_graph_definition, relation_graph_tool, relationship_query_definition, relationship_query_tool, relationship_update_definition, relationship_update_tool, search_graph_definition, search_graph_tool, state_timeline_definition, state_timeline_tool, story_bridge_definition, story_bridge_tool, timeline_definition, timeline_tool, trace_path_definition, trace_path_tool,
};
use crate::mcp::server::{MCPServer, ServerBuilder};
use crate::mcp::types::{DefinitionView, Implementation, ToolDefinition};

verus! {

/// The tool of this name in a list of tools; the last one counts.
pub open spec fn found_in<H>(v: Seq<(DefinitionView, H)>, name: Seq<char>) -> Option<
    (DefinitionView, H),
>
    decreases v.len(),
{
    if v.len() == 0 {
        None
    } else if v.last().0.name == name {
        Some(v.last())
    } else {
        found_in(v.drop_last(), name)
    }
}

/// The values of a list of tools.
pub open spec fn entry_views<H>(v: Seq<(ToolDefinition, H)>) -> Seq<(DefinitionView, H)> {
    Seq::new(v.len(), |i: int| (v[i].0@, v[i].1))
}

/// The builder `b` has the tools of the list, and besides them those that
/// `before` had.
pub open spec fn adds<H>(
    b: ServerBuilder<H>,
    before: ServerBuilder<H>,
    v: Seq<(DefinitionView, H)>,
) -> bool {
    &&& b.implementation == before.implementation
    &&& b.registry.wf()
    &&& forall|name: Seq<char>| #[trigger]
        b.registry.find(name) == (match found_in(v, name) {
            Some(entry) => Some(entry),
            None => before.registry.find(name),
        })
}

/// Register the tools of a list, in order.
pub fn register_list<H>(builder: ServerBuilder<H>, list: Vec<(ToolDefinition, H)>) -> (b:
    ServerBuilder<H>)
    requires
        builder.registry.wf(),
    ensures
        adds(b, builder, entry_views(list@)),
{
    let ghost all = entry_views(list@);
    let ghost total = list@.len();
    let mut rest: Vec<(ToolDefinition, H)> = list;
    let mut b: ServerBuilder<H> = builder;
    let ghost mut done: int = 0;
    assert(all.subrange(0, 0) =~= Seq::empty());
    assert(entry_views(rest@) =~= all.subrange(0, total as int));
    while rest.len() > 0
        invariant
            0 <= done <= total == all.len(),
            entry_views(rest@) == all.subrange(done, total as int),
            adds(b, builder, all.subrange(0, done)),
        decreases rest.len(),
    {
        let ghost before = b;
        let ghost waiting = entry_views(rest@);
        assert(waiting.len() == total - done);
        let entry: (ToolDefinition, H) = rest.remove(0);
        assert(entry_views(rest@) =~= waiting.subrange(1, waiting.len() as int));
        assert((entry.0@, entry.1) == waiting[0]);
        assert(waiting[0] == all[done]);
        b = b.tool(entry.0, entry.1);
        proof {
            let now = all.subrange(0, done + 1);
            assert(now.drop_last() == all.subrange(0, done));
            assert(now.last() == all[done]);
            assert(entry_views(rest@) =~= all.subrange(done + 1, total as int));
            assert forall|name: Seq<char>| #[trigger]
                b.registry.find(name) == (match found_in(now, name) {
                    Some(e) => Some(e),
                    None => builder.registry.find(name),
                }) by {
                assert(before.registry.find(name) == (match found_in(now.drop_last(), name) {
                    Some(e) => Some(e),
                    None => builder.registry.find(name),
                }));
            }
            done = done + 1;
        }
    }
    assert(all.subrange(0, total as int) == all);
    b
}

/// The handlers of the tools over the knowledge graph.
pub struct KnowledgeHandlers<H> {
    pub inspect_entity: H,
    pub timeline: H,
    pub relation_graph: H,
    pub evidence: H,
    pub correct_relation: H,
    pub cognitive_context: H,
}

/// The tools over the knowledge graph.
#[verifier::opaque]
pub open spec fn knowledge_tools_catalog<H>(handlers: KnowledgeHandlers<H>) -> Seq<(DefinitionView, H)> {
    seq![
        (inspect_entity_tool(), handlers.inspect_entity),
        (timeline_tool(), handlers.timeline),
        (relation_graph_tool(), handlers.relation_graph),
        (evidence_tool(), handlers.evidence),
        (correct_relation_tool(), handlers.correct_relation),
        (cognitive_context_tool(), handlers.cognitive_context),
    ]
}

/// The tools over the knowledge graph.
pub fn register_knowledge_tools<H>(builder: ServerBuilder<H>, handlers: KnowledgeHandlers<H>) -> (b: ServerBuilder<H>)
    requires
        builder.registry.wf(),
    ensures
        adds(b, builder, knowledge_tools_catalog(handlers)),
{
    reveal(knowledge_tools_catalog);
    let ghost want = knowledge_tools_catalog(handlers);
    let list: Vec<(ToolDefinition, H)> = vec![
        (inspect_entity_definition(), handlers.inspect_entity),
        (timeline_definition(), handlers.timeline),
        (relation_graph_definition(), handlers.relation_graph),
        (evidence_definition(), handlers.evidence),
        (correct_relation_definition(), handlers.correct_relation),
        (cognitive_context_definition(), handlers.cognitive_context),
    ];
    assert(entry_views(list@) =~= want);
    register_list(builder, list)
}

/// The handlers of the tools for external sources of knowledge.
pub struct ExternalHandlers<H> {
    pub knowledge_attach: H,
    pub knowledge_ingest: H,
    pub agent_fact_compile: H,
}

/// The tools for external sources of knowledge.
#[verifier::opaque]
pub open spec fn external_knowledge_tools_catalog<H>(handlers: ExternalHandlers<H>) -> Seq<(DefinitionView, H)> {
    seq![
        (knowledge_attach_tool(), handlers.knowledge_attach),
        (knowledge_ingest_tool(), handlers.knowledge_ingest),
        (agent_fact_compile_tool(), handlers.agent_fact_compile),
    ]
}

/// The tools for external sources of knowledge.
pub fn register_external_knowledge_tools<H>(builder: ServerBuilder<H>, handlers: ExternalHandlers<H>) -> (b: ServerBuilder<H>)
    requires
        builder.registry.wf(),
    ensures
        adds(b, builder, external_knowledge_tools_catalog(handlers)),
{
    reveal(external_knowledge_tools_catalog);
    let ghost want = external_knowledge_tools_catalog(handlers);
    let list: Vec<(ToolDefinition, H)> = vec![
        (knowledge_attach_definition(), handlers.knowledge_attach),
        (knowledge_ingest_definition(), handlers.knowledge_ingest),
        (agent_fact_compile_definition(), handlers.agent_fact_compile),
    ];
    assert(entry_views(list@) =~= want);
    register_list(builder, list)
}

/// The tool that compiles conversations and prose.
#[verifier::opaque]
pub open spec fn generalize_tool_catalog<H>(handler: H) -> Seq<(DefinitionView, H)> {
    seq![
        (generalize_compile_tool(), handler),
    ]
}

/// The tool that compiles conversations and prose.
pub fn register_generalize_tool<H>(builder: ServerBuilder<H>, handler: H) -> (b: ServerBuilder<H>)
    requires
        builder.registry.wf(),
    ensures
        adds(b, builder, generalize_tool_catalog(handler)),
{
    reveal(generalize_tool_catalog);
    let ghost want = generalize_tool_catalog(handler);
    let list: Vec<(ToolDefinition, H)> = vec![
        (generalize_compile_definition(), handler),
    ];
    assert(entry_views(list@) =~= want);
    register_list(builder, list)
}

/// The handlers of the tools that export and import the knowledge graph.
pub struct TransferHandlers<H> {
    pub memory_export: H,
    pub memory_import: H,
}

/// The tools that export and import the knowledge graph.
#[verifier::opaque]
pub open spec fn memory_transfer_tools_catalog<H>(handlers: TransferHandlers<H>) -> Seq<(DefinitionView, H)> {
    seq![
        (memory_export_tool(), handlers.memory_export),
        (memory_import_tool(), handlers.memory_import),
    ]
}

/// The tools that export and import the knowledge graph.
pub fn register_memory_transfer_tools<H>(builder: ServerBuilder<H>, handlers: TransferHandlers<H>) -> (b: ServerBuilder<H>)
    requires
        builder.registry.wf(),
    ensures
        adds(b, builder, memory_transfer_tools_catalog(handlers)),
{
    reveal(memory_transfer_tools_catalog);
    let ghost want = memory_transfer_tools_catalog(handlers);
    let list: Vec<(ToolDefinition, H)> = vec![
        (memory_export_definition(), handlers.memory_export),
        (memory_import_definition(), handlers.memory_import),
    ];
    assert(entry_views(list@) =~= want);
    register_list(builder, list)
}

/// The tool that searches the knowledge graph.
#[verifier::opaque]
pub open spec fn graph_search_tool_catalog<H>(handler: H) -> Seq<(DefinitionView, H)> {
    seq![
        (search_graph_tool(), handler),
    ]
}

/// The tool that searches the knowledge graph.
pub fn register_graph_search_tool<H>(builder: ServerBuilder<H>, handler: H) -> (b: ServerBuilder<H>)
    requires
        builder.registry.wf(),
    ensures
        adds(b, builder, graph_search_tool_catalog(handler)),
{
    reveal(graph_search_tool_catalog);
    let ghost want = graph_search_tool_catalog(handler);
    let list: Vec<(ToolDefinition, H)> = vec![
        (search_graph_definition(), handler),
    ];
    assert(entry_views(list@) =~= want);
    register_list(builder, list)
}

/// The tool that traces a path between two entities.
#[verifier::opaque]
pub open spec fn trace_path_tool_catalog<H>(handler: H) -> Seq<(DefinitionView, H)> {
    seq![
        (trace_path_tool(), handler),
    ]
}

/// The tool that traces a path between two entities.
pub fn register_trace_path_tool<H>(builder: ServerBuilder<H>, handler: H) -> (b: ServerBuilder<H>)
    requires
        builder.registry.wf(),
    ensures
        adds(b, builder, trace_path_tool_catalog(handler)),
{
    reveal(trace_path_tool_catalog);
    let ghost want = trace_path_tool_catalog(handler);
    let list: Vec<(ToolDefinition, H)> = vec![
        (trace_path_definition(), handler),
    ];
    assert(entry_views(list@) =~= want);
    register_list(builder, list)
}

/// The handlers of the tools over memories, facts, personas and characters.
pub struct MemoryHandlers<H> {
    pub lore_scope: H,
    pub memory_search: H,
    pub memory_store: H,
    pub memory_feedback: H,
    pub memory_compile: H,
    pub memory_context_check: H,
    pub persona_check: H,
    pub persona_inject: H,
    pub fact_provenance: H,
    pub state_timeline: H,
    pub decision_trace: H,
    pub decision_search: H,
    pub relationship_update: H,
    pub relationship_query: H,
    pub persona_timeline: H,
    pub memory_decay: H,
    pub character_search: H,
    pub character_network: H,
    pub character_ingest: H,
    pub character_graph: H,
    pub memory_stats: H,
}

/// The tools over memories, facts, personas and characters.
#[verifier::opaque]
pub open spec fn memory_tools_catalog<H>(handlers: MemoryHandlers<H>) -> Seq<(DefinitionView, H)> {
    seq![
        (lore_scope_tool(), handlers.lore_scope),
        (memory_search_tool(), handlers.memory_search),
        (memory_store_tool(), handlers.memory_store),
        (memory_feedback_tool(), handlers.memory_feedback),
        (memory_compile_tool(), handlers.memory_compile),
        (context_check_tool(), handlers.memory_context_check),
        (persona_check_tool(), handlers.persona_check),
        (persona_inject_tool(), handlers.persona_inject),
        (fact_provenance_tool(), handlers.fact_provenance),
        (state_timeline_tool(), handlers.state_timeline),
        (decision_trace_tool(), handlers.decision_trace),
        (decision_search_tool(), handlers.decision_search),
        (relationship_update_tool(), handlers.relationship_update),
        (relationship_query_tool(), handlers.relationship_query),
        (persona_timeline_tool(), handlers.persona_timeline),
        (memory_decay_tool(), handlers.memory_decay),
        (character_search_tool(), handlers.character_search),
        (character_network_tool(), handlers.character_network),
        (character_ingest_tool(), handlers.character_ingest),
        (character_graph_tool(), handlers.character_graph),
        (memory_stats_tool(), handlers.memory_stats),
    ]
}

/// The tools over memories, facts, personas and characters.
pub fn register_memory_tools<H>(builder: ServerBuilder<H>, handlers: MemoryHandlers<H>) -> (b: ServerBuilder<H>)
    requires
        builder.registry.wf(),
    ensures
        adds(b, builder, memory_tools_catalog(handlers)),
{
    reveal(memory_tools_catalog);
    let ghost want = memory_tools_catalog(handlers);
    let list: Vec<(ToolDefinition, H)> = vec![
        (lore_scope_definition(), handlers.lore_scope),
        (memory_search_definition(), handlers.memory_search),
        (memory_store_definition(), handlers.memory_store),
        (memory_feedback_definition(), handlers.memory_feedback),
        (memory_compile_definition(), handlers.memory_compile),
        (context_check_definition(), handlers.memory_context_check),
        (persona_check_definition(), handlers.persona_check),
        (persona_inject_definition(), handlers.persona_inject),
        (fact_provenance_definition(), handlers.fact_provenance),
        (state_timeline_definition(), handlers.state_timeline),
        (decision_trace_definition(), handlers.decision_trace),
        (decision_search_definition(), handlers.decision_search),
        (relationship_update_definition(), handlers.relationship_update),
        (relationship_query_definition(), handlers.relationship_query),
        (persona_timeline_definition(), handlers.persona_timeline),
        (memory_decay_definition(), handlers.memory_decay),
        (character_search_definition(), handlers.character_search),
        (character_network_definition(), handlers.character_network),
        (character_ingest_definition(), handlers.character_ingest),
        (character_graph_definition(), handlers.character_graph),
        (memory_stats_definition(), handlers.memory_stats),
    ];
    assert(entry_views(list@) =~= want);
    register_list(builder, list)
}

/// The handlers of the tools over the story of a person.
pub struct StoryHandlers<H> {
    pub person_key_events: H,
    pub story_bridge: H,
}

/// The tools over the story of a person.
#[verifier::opaque]
pub open spec fn story_tools_catalog<H>(handlers: StoryHandlers<H>) -> Seq<(DefinitionView, H)> {
    seq![
        (key_events_tool(), handlers.person_key_events),
        (story_bridge_tool(), handlers.story_bridge),
    ]
}

/// The tools over the story of a person.
pub fn register_story_tools<H>(builder: ServerBuilder<H>, handlers: StoryHandlers<H>) -> (b: ServerBuilder<H>)
    requires
        builder.registry.wf(),
    ensures
        adds(b, builder, story_tools_catalog(handlers)),
{
    reveal(story_tools_catalog);
    let ghost want = story_tools_catalog(handlers);
    let list: Vec<(ToolDefinition, H)> = vec![
        (key_events_definition(), handlers.person_key_events),
        (story_bridge_definition(), handlers.story_bridge),
    ];
    assert(entry_views(list@) =~= want);
    register_list(builder, list)
}

/// The handlers of all tools.
pub struct ServerHandlers<H> {
    pub memory: MemoryHandlers<H>,
    pub knowledge: KnowledgeHandlers<H>,
    pub external: ExternalHandlers<H>,
    pub generalize: H,
    pub transfer: TransferHandlers<H>,
    pub graph_search: H,
    pub trace_path: H,
    pub story: StoryHandlers<H>,
}

/// All tools of the server, in the order in which they are registered.
pub open spec fn server_catalog<H>(h: ServerHandlers<H>) -> Seq<(DefinitionView, H)> {
    memory_tools_catalog(h.memory) + knowledge_tools_catalog(h.knowledge)
        + external_knowledge_tools_catalog(h.external) + generalize_tool_catalog(h.generalize)
        + memory_transfer_tools_catalog(h.transfer) + graph_search_tool_catalog(h.graph_search)
        + trace_path_tool_catalog(h.trace_path) + story_tools_catalog(h.story)
}

/// In two lists, the second counts first.
proof fn lemma_found_in_both<H>(
    a: Seq<(DefinitionView, H)>,
    b: Seq<(DefinitionView, H)>,
    name: Seq<char>,
)
    ensures
        found_in(a + b, name) == (match found_in(b, name) {
            Some(e) => Some(e),
            None => found_in(a, name),
        }),
    decreases b.len(),
{
    if b.len() == 0 {
        assert(a + b =~= a);
    } else {
        assert((a + b).drop_last() =~= a + b.drop_last());
        lemma_found_in_both(a, b.drop_last(), name);
    }
}

/// Adding one list after another adds both.
proof fn lemma_adds_both<H>(
    start: ServerBuilder<H>,
    middle: ServerBuilder<H>,
    end: ServerBuilder<H>,
    a: Seq<(DefinitionView, H)>,
    b: Seq<(DefinitionView, H)>,
)
    requires
        adds(middle, start, a),
        adds(end, middle, b),
    ensures
        adds(end, start, a + b),
{
    assert forall|name: Seq<char>| #[trigger]
        end.registry.find(name) == (match found_in(a + b, name) {
            Some(e) => Some(e),
            None => start.registry.find(name),
        }) by {
        lemma_found_in_both(a, b, name);
        assert(middle.registry.find(name) == (match found_in(a, name) {
            Some(e) => Some(e),
            None => start.registry.find(name),
        }));
    }
}

/// The server with all its tools.
pub fn build_server<H>(implementation: Implementation, handlers: ServerHandlers<H>) -> (s:
    MCPServer<H>)
    ensures
        s.implementation == implementation,
        s.registry.wf(),
        forall|name: Seq<char>| #[trigger]
            s.registry.find(name) == found_in(server_catalog(handlers), name),
{
    let ghost h = handlers;
    let start: ServerBuilder<H> = ServerBuilder::new(implementation);
    let ghost b0 = start;
    let b1: ServerBuilder<H> = register_memory_tools(start, handlers.memory);
    let ghost g1 = b1;
    let b2: ServerBuilder<H> = register_knowledge_tools(b1, handlers.knowledge);
    let ghost g2 = b2;
    let b3: ServerBuilder<H> = register_external_knowledge_tools(b2, handlers.external);
    let ghost g3 = b3;
    let b4: ServerBuilder<H> = register_generalize_tool(b3, handlers.generalize);
    let ghost g4 = b4;
    let b5: ServerBuilder<H> = register_memory_transfer_tools(b4, handlers.transfer);
    let ghost g5 = b5;
    let b6: ServerBuilder<H> = register_graph_search_tool(b5, handlers.graph_search);
    let ghost g6 = b6;
    let b7: ServerBuilder<H> = register_trace_path_tool(b6, handlers.trace_path);
    let ghost g7 = b7;
    let b8: ServerBuilder<H> = register_story_tools(b7, handlers.story);
    proof {
        let c1 = memory_tools_catalog(h.memory);
        let c2 = c1 + knowledge_tools_catalog(h.knowledge);
        let c3 = c2 + external_knowledge_tools_catalog(h.external);
        let c4 = c3 + generalize_tool_catalog(h.generalize);
        let c5 = c4 + memory_transfer_tools_catalog(h.transfer);
        let c6 = c5 + graph_search_tool_catalog(h.graph_search);
        let c7 = c6 + trace_path_tool_catalog(h.trace_path);
        lemma_adds_both(b0, g1, g2, c1, knowledge_tools_catalog(h.knowledge));
        lemma_adds_both(b0, g2, g3, c2, external_knowledge_tools_catalog(h.external));
        lemma_adds_both(b0, g3, g4, c3, generalize_tool_catalog(h.generalize));
        lemma_adds_both(b0, g4, g5, c4, memory_transfer_tools_catalog(h.transfer));
        lemma_adds_both(b0, g5, g6, c5, graph_search_tool_catalog(h.graph_search));
        lemma_adds_both(b0, g6, g7, c6, trace_path_tool_catalog(h.trace_path));
        lemma_adds_both(b0, g7, b8, c7, story_tools_catalog(h.story));
        assert forall|name: Seq<char>| #[trigger]
            b8.registry.find(name) == found_in(server_catalog(h), name) by {
            assert(b0.registry.find(name) is None);
        }
    }
    b8.build()
}

/// Of several tools under one name the one that is registered last counts; a
/// tool is found under its own name only.
pub proof fn law_last_tool_counts<H>(
    v: Seq<(DefinitionView, H)>,
    entry: (DefinitionView, H),
    name: Seq<char>,
)
    ensures
        found_in(Seq::<(DefinitionView, H)>::empty(), name) is None,
        found_in(v.push(entry), entry.0.name) == Some(entry),
        name != entry.0.name ==> found_in(v.push(entry), name) == found_in(v, name),
{
    assert(v.push(entry).drop_last() =~= v);
}

} // verus!
