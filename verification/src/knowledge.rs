//! Knowledge-graph records as the tools read them.
use vstd::prelude::*;

verus! {

/// A directed, labelled edge between two knowledge objects.
#[derive(Debug)]
pub struct KnowledgeEdge {
    pub id: i64,
    pub source_id: i64,
    pub target_id: i64,
    pub predicate: String,
}

/// The value of an edge.
pub struct EdgeView {
    pub id: i64,
    pub source_id: i64,
    pub target_id: i64,
    pub predicate: Seq<char>,
}

impl View for KnowledgeEdge {
    type V = EdgeView;

    open spec fn view(&self) -> EdgeView {
        EdgeView {
            id: self.id,
            source_id: self.source_id,
            target_id: self.target_id,
            predicate: self.predicate@,
        }
    }
}

/// A passage that supports what is known.
#[derive(Debug)]
pub struct Evidence {
    pub id: i64,
    pub doc_id: i64,
    pub chapter_id: i64,
    pub content: String,
    pub start_offset: Option<i64>,
    pub end_offset: Option<i64>,
    pub created_at: i64,
}

/// The values of a list of edges.
pub open spec fn edge_views(edges: Seq<KnowledgeEdge>) -> Seq<EdgeView> {
    Seq::new(edges.len(), |i: int| edges[i]@)
}

} // verus!
