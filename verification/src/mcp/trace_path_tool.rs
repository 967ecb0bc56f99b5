//! Shortest relationship path between two entities.
//!
//! The search is breadth-first over the edges of the knowledge graph. The
//! graph lives behind a store, so the search is a state machine: it asks for
//! the edges that touch one node, is told them, and goes on from there.
use vstd::prelude::*;

use crate::json::{count, member, object, strings, text, text_array, Json, JsonView};
use crate::mcp::args::{arg_text, text_arg};
use crate::knowledge::{edge_views, EdgeView, KnowledgeEdge};
use crate::mcp::types::JsonReply;
use crate::text::{cat, cat3, decimal, decimal_text, signed_decimal, signed_text, texts};

verus! {

/// Depth cap of the search when the caller gives none.
pub const DEFAULT_MAX_DEPTH: u64 = 5;

/// The deepest search a caller can ask for.
pub const MAX_DEPTH: u64 = 20;

/// For each node the edges that touch it, in the order in which the store
/// lists them.
pub type Graph = spec_fn(i64) -> Seq<EdgeView>;

/// The end of `edge` that is not `node`; edges are walked in both directions.
pub open spec fn neighbor(edge: EdgeView, node: i64) -> i64 {
    if edge.source_id == node {
        edge.target_id
    } else {
        edge.source_id
    }
}

/// A discovered node: the index of the node it was discovered from, the
/// predicate of the discovering edge, and the distance from the source. The
/// source itself is its own parent.
pub struct VisitView {
    pub node: i64,
    pub parent: int,
    pub predicate: Seq<char>,
    pub depth: int,
}

/// A search in progress: the discovered nodes in order of discovery, the
/// index of the node whose turn it is, and the number of edges looked at.
pub struct SearchView {
    pub target: i64,
    pub max_depth: int,
    pub visits: Seq<VisitView>,
    pub head: int,
    pub explored: int,
}

/// `node` has been discovered.
pub open spec fn seen(visits: Seq<VisitView>, node: i64) -> bool {
    exists|i: int| 0 <= i < visits.len() && (#[trigger] visits[i]).node == node
}

/// The discovered nodes after `edges` of the node at index `at` were looked
/// at: every neighbour not seen before is added, in edge order.
pub open spec fn discovered(visits: Seq<VisitView>, at: int, edges: Seq<EdgeView>) -> Seq<VisitView>
    decreases edges.len(),
{
    if edges.len() == 0 {
        visits
    } else {
        let before = discovered(visits, at, edges.drop_last());
        let node = neighbor(edges.last(), visits[at].node);
        if seen(before, node) {
            before
        } else {
            before.push(
                VisitView {
                    node,
                    parent: at,
                    predicate: edges.last().predicate,
                    depth: visits[at].depth + 1,
                },
            )
        }
    }
}

/// `a + b`, held at the largest count.
pub open spec fn capped_sum(a: int, b: int) -> int {
    if a + b > u64::MAX {
        u64::MAX as int
    } else {
        a + b
    }
}

impl SearchView {
    /// The search before its first step.
    pub open spec fn start(source: i64, target: i64, max_depth: int) -> SearchView {
        SearchView {
            target,
            max_depth,
            visits: seq![VisitView { node: source, parent: 0, predicate: Seq::empty(), depth: 0 }],
            head: 0,
            explored: 0,
        }
    }

    /// The node whose turn it is lies at the depth cap, so it is passed over
    /// without looking at its edges.
    pub open spec fn passes_over(self) -> bool {
        self.head < self.visits.len() && self.visits[self.head].node != self.target
            && self.visits[self.head].depth >= self.max_depth
    }

    /// The search once every node that is passed over has been.
    pub open spec fn settled(self) -> SearchView
        decreases self.visits.len() - self.head,
    {
        if self.passes_over() {
            SearchView { head: self.head + 1, ..self }.settled()
        } else {
            self
        }
    }

    /// The search is over: nothing is left to look at.
    pub open spec fn exhausted(self) -> bool {
        self.head >= self.visits.len()
    }

    /// The search is over: it is the target's turn.
    pub open spec fn found(self) -> bool {
        self.head < self.visits.len() && self.visits[self.head].node == self.target
    }

    /// The search waits for the edges of the node whose turn it is.
    pub open spec fn expanding(self) -> bool {
        self.head < self.visits.len() && !self.found() && !self.passes_over()
    }

    /// The search after it was told the edges of that node.
    pub open spec fn expanded(self, edges: Seq<EdgeView>) -> SearchView {
        SearchView {
            visits: discovered(self.visits, self.head, edges),
            head: self.head + 1,
            explored: capped_sum(self.explored, edges.len() as int),
            ..self
        }
    }

    /// Every parent comes before its child, one step nearer to the source.
    pub open spec fn tree(self) -> bool {
        &&& self.visits.len() > 0
        &&& self.visits[0].depth == 0
        &&& 0 <= self.head <= self.visits.len()
        &&& forall|i: int|
            0 < i < self.visits.len() ==> {
                let v = #[trigger] self.visits[i];
                0 <= v.parent < i && v.depth == self.visits[v.parent].depth + 1
            }
    }

    /// The search agrees with graph `g`: it is a breadth-first search from
    /// the first node that has looked at `g`'s edges for every node before
    /// the head that lies above the depth cap.
    pub open spec fn agrees_with(self, g: Graph) -> bool {
        &&& self.tree()
        &&& forall|i: int| 0 < i < self.visits.len() ==> #[trigger] hop_in(g, self.visits, i)
        &&& forall|i: int, j: int|
            0 <= i <= j < self.visits.len() ==> (#[trigger] self.visits[i]).depth <= (
            #[trigger] self.visits[j]).depth
        &&& forall|i: int|
            0 <= i < self.visits.len() ==> (#[trigger] self.visits[i]).depth <= self.max_depth
        &&& forall|j: int|
            self.head <= j < self.visits.len() ==> (#[trigger] self.visits[j]).depth
                <= self.visits[self.head].depth + 1
        &&& forall|i: int|
            0 <= i < self.head ==> (#[trigger] self.visits[i]).node != self.target
        &&& forall|i: int|
            0 <= i < self.head && (#[trigger] self.visits[i]).depth < self.max_depth ==> reaches_all(
                g,
                self.visits,
                i,
            )
    }
}

/// The node at index `i` was discovered over an edge of `g`.
pub open spec fn hop_in(g: Graph, visits: Seq<VisitView>, i: int) -> bool {
    joins(g, visits[visits[i].parent].node, visits[i].predicate, visits[i].node)
}

/// An edge of `g` with this predicate leads from `from` to `to`.
pub open spec fn joins(g: Graph, from: i64, predicate: Seq<char>, to: i64) -> bool {
    exists|k: int|
        0 <= k < g(from).len() && neighbor(#[trigger] g(from)[k], from) == to
            && g(from)[k].predicate == predicate
}

/// Every neighbour in `g` of the node at index `i` has been discovered, at
/// most one step further away.
pub open spec fn reaches_all(g: Graph, visits: Seq<VisitView>, i: int) -> bool {
    forall|k: int|
        0 <= k < g(visits[i].node).len() ==> reached_by(
            visits,
            neighbor(#[trigger] g(visits[i].node)[k], visits[i].node),
            visits[i].depth + 1,
        )
}

/// `node` has been discovered at a distance of at most `depth`.
pub open spec fn reached_by(visits: Seq<VisitView>, node: i64, depth: int) -> bool {
    exists|j: int|
        0 <= j < visits.len() && (#[trigger] visits[j]).node == node && visits[j].depth <= depth
}

/// `nodes` is a walk in `g` whose hops carry the predicates `relations`.
pub open spec fn is_walk(g: Graph, nodes: Seq<i64>, relations: Seq<Seq<char>>) -> bool {
    &&& nodes.len() == relations.len() + 1
    &&& forall|k: int|
        0 <= k < relations.len() ==> joins(g, nodes[k], #[trigger] relations[k], nodes[k + 1])
}

/// The nodes on the way from the source to the node at index `i`.
pub open spec fn path_nodes(visits: Seq<VisitView>, i: int) -> Seq<i64>
    decreases i,
{
    if i <= 0 || !(0 <= visits[i].parent < i) {
        seq![visits[0].node]
    } else {
        path_nodes(visits, visits[i].parent).push(visits[i].node)
    }
}

/// The predicates on the way from the source to the node at index `i`.
pub open spec fn path_relations(visits: Seq<VisitView>, i: int) -> Seq<Seq<char>>
    decreases i,
{
    if i <= 0 || !(0 <= visits[i].parent < i) {
        Seq::empty()
    } else {
        path_relations(visits, visits[i].parent).push(visits[i].predicate)
    }
}

/// A search agrees with every graph before its first step.
pub proof fn law_start_agrees(source: i64, target: i64, max_depth: int, g: Graph)
    requires
        0 <= max_depth,
    ensures
        SearchView::start(source, target, max_depth).agrees_with(g),
{
}

/// Passing over nodes keeps the search in agreement with the graph.
pub proof fn law_settling_agrees(s: SearchView, g: Graph)
    requires
        s.agrees_with(g),
    ensures
        s.settled().agrees_with(g),
    decreases s.visits.len() - s.head,
{
    if s.passes_over() {
        let next = SearchView { head: s.head + 1, ..s };
        assert forall|j: int| next.head <= j < next.visits.len() implies (
        #[trigger] next.visits[j]).depth <= next.visits[next.head].depth + 1 by {
            assert(next.visits[j].depth <= s.visits[s.head].depth + 1);
            assert(s.visits[s.head].depth <= s.visits[next.head].depth);
        }
        assert forall|i: int| 0 <= i < next.head implies (#[trigger] next.visits[i]).node
            != next.target by {
            if i < s.head {
                assert(s.visits[i].node != s.target);
            }
        }
        assert(next.agrees_with(g));
        law_settling_agrees(next, g);
    }
}

/// What looking at a node's edges adds: only neighbours, at the next depth,
/// and all of them.
proof fn lemma_discovered(visits: Seq<VisitView>, at: int, edges: Seq<EdgeView>)
    requires
        0 <= at < visits.len(),
    ensures
        visits.len() <= discovered(visits, at, edges).len(),
        forall|i: int|
            0 <= i < visits.len() ==> #[trigger] discovered(visits, at, edges)[i] == visits[i],
        forall|i: int|
            visits.len() <= i < discovered(visits, at, edges).len() ==> {
                let v = #[trigger] discovered(visits, at, edges)[i];
                v.parent == at && v.depth == visits[at].depth + 1 && exists|k: int|
                    0 <= k < edges.len() && neighbor(#[trigger] edges[k], visits[at].node) == v.node
                        && edges[k].predicate == v.predicate
            },
        forall|k: int|
            0 <= k < edges.len() ==> seen(
                discovered(visits, at, edges),
                neighbor(#[trigger] edges[k], visits[at].node),
            ),
    decreases edges.len(),
{
    if edges.len() > 0 {
        let front = edges.drop_last();
        lemma_discovered(visits, at, front);
        let before = discovered(visits, at, front);
        let after = discovered(visits, at, edges);
        assert forall|i: int| visits.len() <= i < after.len() implies {
            let v = #[trigger] after[i];
            v.parent == at && v.depth == visits[at].depth + 1 && exists|k: int|
                0 <= k < edges.len() && neighbor(#[trigger] edges[k], visits[at].node) == v.node
                    && edges[k].predicate == v.predicate
        } by {
            if i < before.len() {
                let v = before[i];
                let k = choose|k: int|
                    0 <= k < front.len() && neighbor(#[trigger] front[k], visits[at].node) == v.node
                        && front[k].predicate == v.predicate;
                assert(edges[k] == front[k]);
            } else {
                assert(edges[edges.len() - 1] == edges.last());
            }
        }
        assert forall|k: int| 0 <= k < edges.len() implies seen(
            after,
            neighbor(#[trigger] edges[k], visits[at].node),
        ) by {
            if k < front.len() {
                assert(edges[k] == front[k]);
                let node = neighbor(front[k], visits[at].node);
                let j = choose|j: int| 0 <= j < before.len() && (#[trigger] before[j]).node == node;
                assert(after[j].node == node);
            } else {
                let node = neighbor(edges.last(), visits[at].node);
                if !seen(before, node) {
                    assert(after[before.len() as int].node == node);
                }
            }
        }
    }
}

/// Being told a node's edges keeps the search in agreement with the graph.
pub proof fn law_expansion_agrees(s: SearchView, g: Graph)
    requires
        s.agrees_with(g),
        s.expanding(),
    ensures
        s.expanded(g(s.visits[s.head].node)).agrees_with(g),
{
    let here = s.visits[s.head];
    let edges = g(here.node);
    let t = s.expanded(edges);
    lemma_discovered(s.visits, s.head, edges);
    assert forall|i: int| 0 < i < t.visits.len() implies {
        let v = #[trigger] t.visits[i];
        0 <= v.parent < i && v.depth == t.visits[v.parent].depth + 1
    } by {
        if i < s.visits.len() {
            assert(t.visits[i] == s.visits[i]);
            assert(t.visits[s.visits[i].parent] == s.visits[s.visits[i].parent]);
        } else {
            assert(t.visits[s.head] == s.visits[s.head]);
        }
    }
    assert forall|i: int| 0 < i < t.visits.len() implies #[trigger] hop_in(g, t.visits, i) by {
        if i < s.visits.len() {
            assert(hop_in(g, s.visits, i));
            assert(t.visits[i] == s.visits[i]);
            assert(t.visits[s.visits[i].parent] == s.visits[s.visits[i].parent]);
        } else {
            assert(t.visits[s.head] == s.visits[s.head]);
            let v = t.visits[i];
            let k = choose|k: int|
                0 <= k < edges.len() && neighbor(#[trigger] edges[k], here.node) == v.node
                    && edges[k].predicate == v.predicate;
            assert(g(here.node)[k] == edges[k]);
        }
    }
    assert forall|i: int| 0 <= i < t.visits.len() implies (#[trigger] t.visits[i]).depth
        <= here.depth + 1 by {
        if i < s.visits.len() {
            assert(t.visits[i] == s.visits[i]);
            if i <= s.head {
                assert(s.visits[i].depth <= s.visits[s.head].depth);
            }
        }
    }
    assert forall|i: int, j: int| 0 <= i <= j < t.visits.len() implies (
    #[trigger] t.visits[i]).depth <= (#[trigger] t.visits[j]).depth by {
        if j < s.visits.len() {
            assert(t.visits[i] == s.visits[i]);
            assert(t.visits[j] == s.visits[j]);
        }
    }
    assert forall|j: int| t.head <= j < t.visits.len() implies (#[trigger] t.visits[j]).depth
        <= t.visits[t.head].depth + 1 by {
        assert(t.visits[s.head] == s.visits[s.head]);
        assert(t.visits[s.head].depth <= t.visits[t.head].depth);
    }
    assert forall|i: int| 0 <= i < t.head implies (#[trigger] t.visits[i]).node != t.target by {
        assert(t.visits[i] == s.visits[i]);
    }
    assert forall|i: int|
        0 <= i < t.head && (#[trigger] t.visits[i]).depth < t.max_depth implies reaches_all(
        g,
        t.visits,
        i,
    ) by {
        assert(t.visits[i] == s.visits[i]);
        let node = t.visits[i].node;
        assert forall|k: int| 0 <= k < g(node).len() implies reached_by(
            t.visits,
            neighbor(#[trigger] g(node)[k], node),
            t.visits[i].depth + 1,
        ) by {
            let other = neighbor(g(node)[k], node);
            if i < s.head {
                assert(reaches_all(g, s.visits, i));
                assert(reached_by(s.visits, other, s.visits[i].depth + 1));
                let j = choose|j: int|
                    0 <= j < s.visits.len() && (#[trigger] s.visits[j]).node == other
                        && s.visits[j].depth <= s.visits[i].depth + 1;
                assert(t.visits[j] == s.visits[j]);
            } else {
                assert(edges[k] == g(node)[k]);
                assert(seen(t.visits, other));
                let j = choose|j: int|
                    0 <= j < t.visits.len() && (#[trigger] t.visits[j]).node == other;
                assert(t.visits[j].depth <= here.depth + 1);
            }
        }
    }
}

/// Every walk from the source that stays above the depth cap and within the
/// nodes already taken up ends at a node discovered no further away than the
/// walk is long.
proof fn lemma_walk_discovered(
    s: SearchView,
    g: Graph,
    nodes: Seq<i64>,
    relations: Seq<Seq<char>>,
    limit: int,
)
    requires
        s.agrees_with(g),
        is_walk(g, nodes, relations),
        nodes[0] == s.visits[0].node,
        relations.len() <= limit <= s.max_depth,
        s.exhausted() || limit <= s.visits[s.head].depth,
    ensures
        reached_by(s.visits, nodes[relations.len() as int], relations.len() as int),
    decreases relations.len(),
{
    let n = relations.len() as int;
    if n == 0 {
        assert(s.visits[0].node == nodes[0]);
    } else {
        let nodes0 = nodes.drop_last();
        let relations0 = relations.drop_last();
        assert forall|k: int| 0 <= k < relations0.len() implies joins(
            g,
            nodes0[k],
            #[trigger] relations0[k],
            nodes0[k + 1],
        ) by {
            assert(relations0[k] == relations[k]);
        }
        lemma_walk_discovered(s, g, nodes0, relations0, limit);
        let from = nodes[n - 1];
        assert(nodes0[n - 1] == from);
        let i = choose|i: int|
            0 <= i < s.visits.len() && (#[trigger] s.visits[i]).node == from && s.visits[i].depth
                <= n - 1;
        if !s.exhausted() && i >= s.head {
            assert(s.visits[s.head].depth <= s.visits[i].depth);
        }
        assert(reaches_all(g, s.visits, i));
        assert(relations[n - 1] == relations.last());
        assert(joins(g, nodes[n - 1], relations[n - 1], nodes[n]));
        let k = choose|k: int|
            0 <= k < g(from).len() && neighbor(#[trigger] g(from)[k], from) == nodes[n]
                && g(from)[k].predicate == relations[n - 1];
        assert(reached_by(s.visits, neighbor(g(from)[k], from), s.visits[i].depth + 1));
    }
}

/// A search that ran out of nodes proves that no walk within the depth cap
/// leads from the source to the target.
pub proof fn law_exhausted_means_unreachable(
    s: SearchView,
    g: Graph,
    nodes: Seq<i64>,
    relations: Seq<Seq<char>>,
)
    requires
        s.agrees_with(g),
        s.exhausted(),
        is_walk(g, nodes, relations),
        nodes[0] == s.visits[0].node,
        nodes.last() == s.target,
    ensures
        relations.len() > s.max_depth,
{
    if relations.len() <= s.max_depth {
        lemma_walk_discovered(s, g, nodes, relations, s.max_depth);
    }
}

/// The path of a search that found its target is a walk in the graph from the
/// source to the target, within the depth cap.
pub proof fn law_found_path_is_a_walk(s: SearchView, g: Graph)
    requires
        s.agrees_with(g),
        s.found(),
    ensures
        is_walk(g, path_nodes(s.visits, s.head), path_relations(s.visits, s.head)),
        path_nodes(s.visits, s.head)[0] == s.visits[0].node,
        path_nodes(s.visits, s.head).last() == s.target,
        path_relations(s.visits, s.head).len() <= s.max_depth,
{
    lemma_path(s, g, s.head);
}

/// No walk between the source and the target is shorter than the path of a
/// search that found its target.
pub proof fn law_found_path_is_shortest(
    s: SearchView,
    g: Graph,
    nodes: Seq<i64>,
    relations: Seq<Seq<char>>,
)
    requires
        s.agrees_with(g),
        s.found(),
        is_walk(g, nodes, relations),
        nodes[0] == s.visits[0].node,
        nodes.last() == s.target,
    ensures
        path_relations(s.visits, s.head).len() <= relations.len(),
{
    lemma_path(s, g, s.head);
    let d = s.visits[s.head].depth;
    if relations.len() < d {
        lemma_walk_discovered(s, g, nodes, relations, d);
        let j = choose|j: int|
            0 <= j < s.visits.len() && (#[trigger] s.visits[j]).node == s.target
                && s.visits[j].depth <= relations.len();
        if j >= s.head {
            assert(s.visits[s.head].depth <= s.visits[j].depth);
        }
    }
}

/// The edges of `g` are listed at both their ends, and only there.
pub open spec fn lists_both_ends(g: Graph) -> bool {
    forall|a: i64, k: int|
        0 <= k < g(a).len() ==> {
            let e = #[trigger] g(a)[k];
            &&& e.source_id == a || e.target_id == a
            &&& g(neighbor(e, a)).contains(e)
        }
}

/// A walk backwards.
proof fn lemma_walk_back(g: Graph, nodes: Seq<i64>, relations: Seq<Seq<char>>)
    requires
        lists_both_ends(g),
        is_walk(g, nodes, relations),
    ensures
        is_walk(g, nodes.reverse(), relations.reverse()),
{
    let n = relations.len() as int;
    let back = nodes.reverse();
    let rels = relations.reverse();
    assert forall|k: int| 0 <= k < rels.len() implies joins(
        g,
        back[k],
        #[trigger] rels[k],
        back[k + 1],
    ) by {
        let from = nodes[n - 1 - k];
        let to = nodes[n - 1 - k + 1];
        assert(rels[k] == relations[n - 1 - k]);
        assert(joins(g, from, relations[n - 1 - k], to));
        let i = choose|i: int|
            0 <= i < g(from).len() && neighbor(#[trigger] g(from)[i], from) == to
                && g(from)[i].predicate == relations[n - 1 - k];
        let e = g(from)[i];
        assert(g(to).contains(e));
        let listed = g(to);
        let j = choose|j: int| 0 <= j < listed.len() && listed[j] == e;
        assert(neighbor(g(to)[j], to) == from);
        assert(back[k] == to && back[k + 1] == from);
    }
}

/// What one direction finds, the other finds too, and over no more hops.
proof fn lemma_other_direction(s: SearchView, t: SearchView, g: Graph)
    requires
        lists_both_ends(g),
        s.agrees_with(g),
        t.agrees_with(g),
        s.visits[0].node == t.target,
        t.visits[0].node == s.target,
        s.max_depth == t.max_depth,
        s.found(),
        t.found() || t.exhausted(),
    ensures
        t.found(),
        path_relations(t.visits, t.head).len() <= path_relations(s.visits, s.head).len(),
{
    law_found_path_is_a_walk(s, g);
    let nodes = path_nodes(s.visits, s.head);
    let relations = path_relations(s.visits, s.head);
    lemma_walk_back(g, nodes, relations);
    assert(nodes.reverse()[0] == nodes.last());
    assert(nodes.reverse().last() == nodes[0]);
    if t.exhausted() {
        law_exhausted_means_unreachable(t, g, nodes.reverse(), relations.reverse());
    } else {
        law_found_path_is_shortest(t, g, nodes.reverse(), relations.reverse());
    }
}

/// The search after so many rounds over `g`; in each of them it takes up the next
/// node and is told that node's edges, until it is over.
pub open spec fn after_rounds(s: SearchView, g: Graph, n: nat) -> SearchView
    decreases n,
{
    if n == 0 {
        s.settled()
    } else {
        let before = after_rounds(s, g, (n - 1) as nat);
        if before.expanding() {
            before.expanded(g(before.visits[before.head].node)).settled()
        } else {
            before
        }
    }
}

/// Settling changes nothing but whose turn it is.
proof fn lemma_settled_keeps(s: SearchView)
    ensures
        s.settled().visits == s.visits,
        s.settled().target == s.target,
        s.settled().max_depth == s.max_depth,
    decreases s.visits.len() - s.head,
{
    if s.passes_over() {
        lemma_settled_keeps(SearchView { head: s.head + 1, ..s });
    }
}

/// However far a search over an unchanged graph has come, it agrees with the
/// graph and still is the search that was begun.
pub proof fn law_run_agrees(source: i64, target: i64, max_depth: int, g: Graph, n: nat)
    requires
        0 <= max_depth,
    ensures
        ({
            let s = after_rounds(SearchView::start(source, target, max_depth), g, n);
            &&& s.agrees_with(g)
            &&& s.visits[0].node == source
            &&& s.target == target
            &&& s.max_depth == max_depth
        }),
    decreases n,
{
    let start = SearchView::start(source, target, max_depth);
    if n == 0 {
        law_start_agrees(source, target, max_depth, g);
        law_settling_agrees(start, g);
        lemma_settled_keeps(start);
    } else {
        law_run_agrees(source, target, max_depth, g, (n - 1) as nat);
        let before = after_rounds(start, g, (n - 1) as nat);
        if before.expanding() {
            let edges = g(before.visits[before.head].node);
            let next = before.expanded(edges);
            law_expansion_agrees(before, g);
            lemma_discovered(before.visits, before.head, edges);
            assert(next.visits[0] == before.visits[0]);
            law_settling_agrees(next, g);
            lemma_settled_keeps(next);
        }
    }
}

/// No node has been discovered twice.
pub open spec fn discovered_once(visits: Seq<VisitView>) -> bool {
    forall|i: int, j: int|
        0 <= i < j < visits.len() ==> (#[trigger] visits[i]).node != (#[trigger] visits[j]).node
}

/// The ids hold with every node all its neighbours in `g`.
pub open spec fn closed_under(g: Graph, ids: Set<i64>) -> bool {
    forall|a: i64, k: int|
        ids.contains(a) && 0 <= k < g(a).len() ==> ids.contains(neighbor(#[trigger] g(a)[k], a))
}

/// Looking at the edges of a node discovers no node twice, and only neighbours.
proof fn lemma_discovered_once(
    visits: Seq<VisitView>,
    at: int,
    edges: Seq<EdgeView>,
    ids: Set<i64>,
)
    requires
        0 <= at < visits.len(),
        discovered_once(visits),
        forall|i: int| 0 <= i < visits.len() ==> ids.contains((#[trigger] visits[i]).node),
        forall|k: int|
            0 <= k < edges.len() ==> ids.contains(
                neighbor(#[trigger] edges[k], visits[at].node),
            ),
    ensures
        discovered_once(discovered(visits, at, edges)),
        forall|i: int|
            0 <= i < discovered(visits, at, edges).len() ==> ids.contains(
                (#[trigger] discovered(visits, at, edges)[i]).node,
            ),
    decreases edges.len(),
{
    if edges.len() > 0 {
        let front = edges.drop_last();
        assert forall|k: int| 0 <= k < front.len() implies ids.contains(
            neighbor(#[trigger] front[k], visits[at].node),
        ) by {
            assert(front[k] == edges[k]);
        }
        lemma_discovered_once(visits, at, front, ids);
        assert(edges[edges.len() - 1] == edges.last());
    }
}

/// Nodes that all lie in a finite set and of which none occurs twice are no more
/// than the set has.
proof fn lemma_visits_fit(visits: Seq<VisitView>, ids: Set<i64>)
    requires
        ids.finite(),
        discovered_once(visits),
        forall|i: int| 0 <= i < visits.len() ==> ids.contains((#[trigger] visits[i]).node),
    ensures
        visits.len() <= ids.len(),
    decreases visits.len(),
{
    if visits.len() > 0 {
        let front = visits.drop_last();
        let rest = ids.remove(visits.last().node);
        assert(visits[visits.len() - 1] == visits.last());
        assert forall|i: int| 0 <= i < front.len() implies rest.contains(
            (#[trigger] front[i]).node,
        ) by {
            assert(front[i] == visits[i]);
            assert(visits[i].node != visits[visits.len() - 1].node);
        }
        assert(discovered_once(front)) by {
            assert forall|i: int, j: int| 0 <= i < j < front.len() implies (
            #[trigger] front[i]).node != (#[trigger] front[j]).node by {
                assert(front[i] == visits[i] && front[j] == visits[j]);
            }
        }
        lemma_visits_fit(front, rest);
    }
}

/// After so many rounds, either as many nodes have been taken up or the search
/// is over, and what was discovered lies among the ids.
proof fn lemma_rounds(
    source: i64,
    target: i64,
    max_depth: int,
    g: Graph,
    ids: Set<i64>,
    n: nat,
)
    requires
        0 <= max_depth,
        ids.contains(source),
        closed_under(g, ids),
    ensures
        ({
            let s = after_rounds(SearchView::start(source, target, max_depth), g, n);
            &&& discovered_once(s.visits)
            &&& forall|i: int|
                0 <= i < s.visits.len() ==> ids.contains((#[trigger] s.visits[i]).node)
            &&& s.expanding() ==> s.head >= n
        }),
    decreases n,
{
    let start = SearchView::start(source, target, max_depth);
    if n == 0 {
        lemma_settled_keeps(start);
        lemma_settled_head(start);
    } else {
        lemma_rounds(source, target, max_depth, g, ids, (n - 1) as nat);
        let before = after_rounds(start, g, (n - 1) as nat);
        law_run_agrees(source, target, max_depth, g, (n - 1) as nat);
        if before.expanding() {
            let node = before.visits[before.head].node;
            let next = before.expanded(g(node));
            assert(ids.contains(node));
            lemma_discovered_once(before.visits, before.head, g(node), ids);
            lemma_settled_keeps(next);
            lemma_settled_head(next);
        }
    }
}

/// Settling goes forward.
proof fn lemma_settled_head(s: SearchView)
    ensures
        s.settled().head >= s.head,
    decreases s.visits.len() - s.head,
{
    if s.passes_over() {
        lemma_settled_head(SearchView { head: s.head + 1, ..s });
    }
}

/// A search comes to an end: where all that can be reached lies among finitely
/// many ids, no more nodes are asked for than there are ids. The search is then
/// over, and has either found its target or run out of nodes.
pub proof fn law_search_comes_to_an_end(
    source: i64,
    target: i64,
    max_depth: int,
    g: Graph,
    ids: Set<i64>,
)
    requires
        0 <= max_depth,
        ids.finite(),
        ids.contains(source),
        closed_under(g, ids),
    ensures
        ({
            let s = after_rounds(SearchView::start(source, target, max_depth), g, ids.len());
            s.found() || s.exhausted()
        }),
{
    let s = after_rounds(SearchView::start(source, target, max_depth), g, ids.len());
    lemma_rounds(source, target, max_depth, g, ids, ids.len());
    lemma_visits_fit(s.visits, ids);
    lemma_rounds_settle(SearchView::start(source, target, max_depth), g, ids.len());
}

/// Tracing from one entity to another and tracing back over an unchanged graph
/// give the same answer: either neither search finds a path within the depth
/// cap, or both do and their paths are equally long.
pub proof fn law_directions_agree(a: i64, b: i64, max_depth: int, g: Graph, n: nat, m: nat)
    requires
        0 <= max_depth,
        lists_both_ends(g),
        !after_rounds(SearchView::start(a, b, max_depth), g, n).expanding(),
        !after_rounds(SearchView::start(b, a, max_depth), g, m).expanding(),
    ensures
        ({
            let there = after_rounds(SearchView::start(a, b, max_depth), g, n);
            let back = after_rounds(SearchView::start(b, a, max_depth), g, m);
            &&& there.found() || there.exhausted()
            &&& there.found() == back.found()
            &&& there.found() ==> path_relations(there.visits, there.head).len()
                == path_relations(back.visits, back.head).len()
        }),
{
    let there = after_rounds(SearchView::start(a, b, max_depth), g, n);
    let back = after_rounds(SearchView::start(b, a, max_depth), g, m);
    law_run_agrees(a, b, max_depth, g, n);
    law_run_agrees(b, a, max_depth, g, m);
    lemma_rounds_settle(SearchView::start(a, b, max_depth), g, n);
    lemma_rounds_settle(SearchView::start(b, a, max_depth), g, m);
    if there.found() {
        lemma_other_direction(there, back, g);
    }
    if back.found() {
        lemma_other_direction(back, there, g);
    }
}

/// Settling ends where nothing is passed over.
proof fn lemma_settled(s: SearchView)
    ensures
        !s.settled().passes_over(),
    decreases s.visits.len() - s.head,
{
    if s.passes_over() {
        lemma_settled(SearchView { head: s.head + 1, ..s });
    }
}

/// Between rounds nothing is passed over.
proof fn lemma_rounds_settle(s: SearchView, g: Graph, n: nat)
    ensures
        !after_rounds(s, g, n).passes_over(),
    decreases n,
{
    if n == 0 {
        lemma_settled(s);
    } else {
        lemma_rounds_settle(s, g, (n - 1) as nat);
        let before = after_rounds(s, g, (n - 1) as nat);
        if before.expanding() {
            lemma_settled(before.expanded(g(before.visits[before.head].node)));
        }
    }
}

/// The path to the node at index `i` is a walk from the source, as long as
/// the node is deep.
proof fn lemma_path(s: SearchView, g: Graph, i: int)
    requires
        s.agrees_with(g),
        0 <= i < s.visits.len(),
    ensures
        is_walk(g, path_nodes(s.visits, i), path_relations(s.visits, i)),
        path_nodes(s.visits, i)[0] == s.visits[0].node,
        path_nodes(s.visits, i).last() == s.visits[i].node,
        path_relations(s.visits, i).len() == s.visits[i].depth,
    decreases i,
{
    if i > 0 {
        let v = s.visits[i];
        lemma_path(s, g, v.parent);
        assert(hop_in(g, s.visits, i));
        let nodes = path_nodes(s.visits, i);
        let relations = path_relations(s.visits, i);
        let nodes0 = path_nodes(s.visits, v.parent);
        let relations0 = path_relations(s.visits, v.parent);
        assert forall|k: int| 0 <= k < relations.len() implies joins(
            g,
            nodes[k],
            #[trigger] relations[k],
            nodes[k + 1],
        ) by {
            if k < relations0.len() {
                assert(relations[k] == relations0[k]);
                assert(nodes[k + 1] == nodes0[k + 1]);
            } else {
                assert(nodes[k] == nodes0.last());
            }
        }
    }
}

/// A discovered node of a running search.
#[derive(Debug)]
pub struct Visit {
    pub node: i64,
    pub parent: usize,
    pub predicate: String,
    pub depth: u64,
}

impl View for Visit {
    type V = VisitView;

    open spec fn view(&self) -> VisitView {
        VisitView {
            node: self.node,
            parent: self.parent as int,
            predicate: self.predicate@,
            depth: self.depth as int,
        }
    }
}

/// The values of a list of discovered nodes.
pub open spec fn visit_views(visits: Seq<Visit>) -> Seq<VisitView> {
    Seq::new(visits.len(), |i: int| visits[i]@)
}

/// A running breadth-first search.
#[derive(Debug)]
pub struct PathSearch {
    pub target: i64,
    pub max_depth: u64,
    pub visits: Vec<Visit>,
    pub head: usize,
    pub explored: u64,
}

impl View for PathSearch {
    type V = SearchView;

    open spec fn view(&self) -> SearchView {
        SearchView {
            target: self.target,
            max_depth: self.max_depth as int,
            visits: visit_views(self.visits@),
            head: self.head as int,
            explored: self.explored as int,
        }
    }
}

/// What a search needs next.
#[derive(Debug)]
pub enum PathStep {
    /// The edges that touch this node.
    Expand(i64),
    /// Nothing: the target was reached.
    Found,
    /// Nothing: there is no path within the depth cap.
    Exhausted,
}

impl PathSearch {
    /// A search from `source` to `target` that looks no deeper than
    /// `max_depth`.
    pub fn start(source: i64, target: i64, max_depth: u64) -> (s: PathSearch)
        ensures
            s@ == SearchView::start(source, target, max_depth as int),
            s@.tree(),
    {
        let mut visits: Vec<Visit> = Vec::new();
        visits.push(Visit { node: source, parent: 0, predicate: String::new(), depth: 0 });
        let s = PathSearch { target, max_depth, visits, head: 0, explored: 0 };
        assert(s@.visits =~= SearchView::start(source, target, max_depth as int).visits);
        s
    }

    /// Take up the next node: pass over those at the depth cap, and say what
    /// is needed to go on.
    pub fn next(&mut self) -> (step: PathStep)
        requires
            old(self)@.tree(),
        ensures
            final(self)@ == old(self)@.settled(),
            final(self)@.tree(),
            match step {
                PathStep::Expand(node) => final(self)@.expanding() && node
                    == final(self)@.visits[final(self)@.head].node,
                PathStep::Found => final(self)@.found(),
                PathStep::Exhausted => final(self)@.exhausted(),
            },
    {
        while self.head < self.visits.len() && self.visits[self.head].node != self.target
            && self.visits[self.head].depth >= self.max_depth
            invariant
                self@.tree(),
                self@.settled() == old(self)@.settled(),
            decreases self.visits.len() - self.head,
        {
            assert(self@.visits[self.head as int] == self.visits@[self.head as int]@);
            let ghost before = self@;
            self.head = self.head + 1;
            assert(self@ == SearchView { head: before.head + 1, ..before });
        }
        assert(self@.head < self@.visits.len() ==> self@.visits[self.head as int]
            == self.visits@[self.head as int]@);
        if self.head >= self.visits.len() {
            PathStep::Exhausted
        } else if self.visits[self.head].node == self.target {
            PathStep::Found
        } else {
            PathStep::Expand(self.visits[self.head].node)
        }
    }

    /// Whether `node` has been discovered.
    fn has_seen(&self, node: i64) -> (r: bool)
        ensures
            r == seen(self@.visits, node),
    {
        let mut i: usize = 0;
        while i < self.visits.len()
            invariant
                i <= self.visits@.len(),
                forall|j: int| 0 <= j < i ==> (#[trigger] self@.visits[j]).node != node,
            decreases self.visits.len() - i,
        {
            assert(self@.visits[i as int] == self.visits@[i as int]@);
            if self.visits[i].node == node {
                return true;
            }
            i = i + 1;
        }
        false
    }

    /// Go on with the edges that touch the node asked for.
    pub fn expand(&mut self, edges: &Vec<KnowledgeEdge>)
        requires
            old(self)@.tree(),
            old(self)@.expanding(),
        ensures
            final(self)@ == old(self)@.expanded(edge_views(edges@)),
            final(self)@.tree(),
    {
        let ghost start = self@;
        let ghost all = edge_views(edges@);
        let at: usize = self.head;
        let node: i64 = self.visits[at].node;
        assert(start.visits[at as int] == self.visits@[at as int]@);
        let depth: u64 = self.visits[at].depth + 1;
        let mut i: usize = 0;
        while i < edges.len()
            invariant
                i <= edges@.len(),
                all == edge_views(edges@),
                start.tree(),
                start.expanding(),
                at == start.head,
                node == start.visits[at as int].node,
                depth == start.visits[at as int].depth + 1,
                self@.visits == discovered(start.visits, at as int, all.subrange(0, i as int)),
                self@.head == start.head,
                self@.target == start.target,
                self@.max_depth == start.max_depth,
                self@.explored == start.explored,
            decreases edges.len() - i,
        {
            let edge: &KnowledgeEdge = &edges[i];
            let other: i64 = if edge.source_id == node {
                edge.target_id
            } else {
                edge.source_id
            };
            let known: bool = self.has_seen(other);
            let ghost now = all.subrange(0, i + 1);
            assert(now.drop_last() == all.subrange(0, i as int));
            assert(now.last() == edge@);
            if !known {
                let ghost before = self@.visits;
                self.visits.push(
                    Visit { node: other, parent: at, predicate: edge.predicate.clone(), depth },
                );
                assert(self@.visits =~= before.push(
                    VisitView {
                        node: other,
                        parent: at as int,
                        predicate: edge@.predicate,
                        depth: depth as int,
                    },
                ));
            }
            i = i + 1;
        }
        assert(all.subrange(0, all.len() as int) == all);
        proof {
            lemma_discovered(start.visits, start.head, all);
        }
        assert(at < self.visits.len());
        self.head = at + 1;
        let looked: u64 = edges.len() as u64;
        self.explored = if looked > u64::MAX - self.explored {
            u64::MAX
        } else {
            self.explored + looked
        };
        proof {
            assert(self@.visits =~= start.expanded(all).visits);
            let t = self@;
            assert forall|i: int| 0 < i < t.visits.len() implies {
                let v = #[trigger] t.visits[i];
                0 <= v.parent < i && v.depth == t.visits[v.parent].depth + 1
            } by {
                if i < start.visits.len() {
                    assert(t.visits[i] == start.visits[i]);
                    assert(t.visits[start.visits[i].parent] == start.visits[start.visits[i].parent]);
                } else {
                    assert(t.visits[start.head] == start.visits[start.head]);
                }
            }
        }
    }

    /// The path to the target: the nodes on it, and the predicate of each hop.
    pub fn path(&self) -> (r: (Vec<i64>, Vec<String>))
        requires
            self@.tree(),
            self@.found(),
        ensures
            r.0@ == path_nodes(self@.visits, self@.head),
            texts(r.1@) == path_relations(self@.visits, self@.head),
    {
        self.path_to(self.head)
    }

    /// The path to the node at index `i`.
    fn path_to(&self, i: usize) -> (r: (Vec<i64>, Vec<String>))
        requires
            self@.tree(),
            i < self.visits@.len(),
        ensures
            r.0@ == path_nodes(self@.visits, i as int),
            texts(r.1@) == path_relations(self@.visits, i as int),
        decreases i,
    {
        assert(self@.visits[i as int] == self.visits@[i as int]@);
        if i == 0 {
            let mut nodes: Vec<i64> = Vec::new();
            nodes.push(self.visits[0].node);
            let relations: Vec<String> = Vec::new();
            assert(texts(relations@) =~= Seq::empty());
            (nodes, relations)
        } else {
            let (mut nodes, mut relations) = self.path_to(self.visits[i].parent);
            let ghost before = relations@;
            nodes.push(self.visits[i].node);
            relations.push(self.visits[i].predicate.clone());
            assert(texts(relations@) =~= texts(before).push(self@.visits[i as int].predicate));
            (nodes, relations)
        }
    }
}

/// The path tool, over a handle to the knowledge store.
pub struct TracePathTool<S> {
    pub store: S,
}

impl<S> TracePathTool<S> {
    /// A tool that asks `store`.
    pub fn new(store: S) -> (t: TracePathTool<S>)
        ensures
            t.store == store,
    {
        TracePathTool { store }
    }
}

/// A request to trace a path between two named entities.
#[derive(Debug)]
pub struct TraceRequest {
    pub source: String,
    pub target: String,
    pub max_depth: u64,
}

/// The depth asked for, brought into the allowed range.
pub open spec fn requested_depth(args: JsonView) -> int {
    let asked = match args.get("max_depth"@) {
        Some(v) => match v.natural() {
            Some(n) => n,
            None => DEFAULT_MAX_DEPTH as int,
        },
        None => DEFAULT_MAX_DEPTH as int,
    };
    if asked < 1 {
        1
    } else if asked > MAX_DEPTH {
        MAX_DEPTH as int
    } else {
        asked
    }
}

/// `{"found": false, "error": message}`.
pub open spec fn trace_failure(message: Seq<char>) -> JsonView {
    JsonView::Object(
        seq![("found"@, JsonView::Bool(false)), ("error"@, JsonView::Text(message))],
    )
}

/// A failed trace, with the given message.
fn trace_failure_reply(message: &str) -> (r: JsonReply)
    ensures
        r.is_error,
        r.value@ == trace_failure(message@),
{
    let value: Json = object(
        vec![member("found", Json::Bool(false)), member("error", text(message))],
    );
    assert(value@->Object_0 =~= trace_failure(message@)->Object_0);
    JsonReply::failed(value)
}

/// Read a request. Both names are required.
pub fn trace_request(args: &Json) -> (r: Result<TraceRequest, JsonReply>)
    ensures
        match r {
            Ok(q) => {
                &&& q.source@ == arg_text(args@, "source"@)
                &&& q.target@ == arg_text(args@, "target"@)
                &&& q.source@.len() > 0
                &&& q.target@.len() > 0
                &&& q.max_depth == requested_depth(args@)
            },
            Err(reply) => {
                &&& arg_text(args@, "source"@).len() == 0 || arg_text(args@, "target"@).len() == 0
                &&& reply.is_error
                &&& reply.value@ == trace_failure("`source` and `target` are required"@)
            },
        },
{
    let source: String = text_arg(args, "source");
    let target: String = text_arg(args, "target");
    let asked: u64 = match args.get("max_depth") {
        Some(v) => match v.as_u64() {
            Some(n) => n,
            None => DEFAULT_MAX_DEPTH,
        },
        None => DEFAULT_MAX_DEPTH,
    };
    let max_depth: u64 = if asked < 1 {
        1
    } else if asked > MAX_DEPTH {
        MAX_DEPTH
    } else {
        asked
    };
    if source.as_str().is_empty() || target.as_str().is_empty() {
        return Err(trace_failure_reply("`source` and `target` are required"));
    }
    Ok(TraceRequest { source, target, max_depth })
}

/// How a trace goes on once both names were looked up.
#[derive(Debug)]
pub enum TraceStart {
    Reply(JsonReply),
    Search(PathSearch),
}

/// The answer for an entity that is its own target: a path without hops.
pub open spec fn trivial_path(source: Seq<char>, target: Seq<char>) -> JsonView {
    JsonView::Object(
        seq![
            ("found"@, JsonView::Bool(true)),
            ("source"@, JsonView::Text(source)),
            ("target"@, JsonView::Text(target)),
            ("path"@, text_array(seq![source])),
            ("relations"@, text_array(Seq::empty())),
            ("length"@, JsonView::Int(0)),
        ],
    )
}

/// Go on with the ids that the names stand for. A name that stands for
/// nothing fails the trace, the source's first.
pub fn trace_start(q: &TraceRequest, source: Option<i64>, target: Option<i64>) -> (r: TraceStart)
    ensures
        match r {
            TraceStart::Reply(reply) => if source is None || target is None {
                let missing = if source is None {
                    q.source@
                } else {
                    q.target@
                };
                &&& reply.is_error
                &&& reply.value@ == trace_failure("entity not found: `"@ + missing + "`"@)
            } else {
                &&& source == target
                &&& !reply.is_error
                &&& reply.value@ == trivial_path(q.source@, q.target@)
            },
            TraceStart::Search(s) => {
                &&& source is Some && target is Some && source != target
                &&& s@ == SearchView::start(source->0, target->0, q.max_depth as int)
                &&& s@.tree()
            },
        },
{
    match (source, target) {
        (Some(from), Some(to)) => {
            if from == to {
                let mut path: Vec<String> = Vec::new();
                path.push(q.source.clone());
                let relations: Vec<String> = Vec::new();
                assert(texts(path@) =~= seq![q.source@]);
                assert(texts(relations@) =~= Seq::empty());
                let value: Json = object(
                    vec![
                        member("found", Json::Bool(true)),
                        member("source", text(q.source.as_str())),
                        member("target", text(q.target.as_str())),
                        member("path", strings(&path)),
                        member("relations", strings(&relations)),
                        member("length", count(0)),
                    ],
                );
                assert(value@->Object_0 =~= trivial_path(q.source@, q.target@)->Object_0);
                TraceStart::Reply(JsonReply::ok(value))
            } else {
                TraceStart::Search(PathSearch::start(from, to, q.max_depth))
            }
        },
        _ => {
            let missing: &String = if source.is_none() {
                &q.source
            } else {
                &q.target
            };
            let message: String = cat3("entity not found: `", missing.as_str(), "`");
            TraceStart::Reply(trace_failure_reply(message.as_str()))
        },
    }
}

/// The answer when no path lies within the depth cap.
pub open spec fn no_path(q: TraceRequest, explored: int) -> JsonView {
    JsonView::Object(
        seq![
            ("found"@, JsonView::Bool(false)),
            ("source"@, JsonView::Text(q.source@)),
            ("target"@, JsonView::Text(q.target@)),
            (
                "error"@,
                JsonView::Text("no path within depth "@ + decimal(q.max_depth as nat)),
            ),
            ("explored"@, JsonView::Int(explored)),
        ],
    )
}

/// Answer a search that ran out: no failure, but nothing found either.
pub fn no_path_reply(q: &TraceRequest, search: &PathSearch) -> (r: JsonReply)
    ensures
        !r.is_error,
        r.value@ == no_path(*q, search@.explored),
{
    let depth: String = decimal_text(q.max_depth);
    let message: String = cat("no path within depth ", depth.as_str());
    let value: Json = object(
        vec![
            member("found", Json::Bool(false)),
            member("source", text(q.source.as_str())),
            member("target", text(q.target.as_str())),
            member("error", text(message.as_str())),
            member("explored", count(search.explored)),
        ],
    );
    assert(value@->Object_0 =~= no_path(*q, search@.explored)->Object_0);
    JsonReply::ok(value)
}

/// The name shown for a node: its own, or a placeholder that tells its id.
pub open spec fn shown_name(id: i64, name: Option<Seq<char>>) -> Seq<char> {
    match name {
        Some(n) => n,
        None => "<missing:"@ + signed_decimal(id as int) + ">"@,
    }
}

/// The name shown for a node that the store knows under `name`.
pub fn node_name(id: i64, name: Option<String>) -> (s: String)
    ensures
        s@ == shown_name(
            id,
            match name {
                Some(n) => Some(n@),
                None => None,
            },
        ),
{
    match name {
        Some(n) => n,
        None => {
            let digits: String = signed_text(id);
            cat3("<missing:", digits.as_str(), ">")
        },
    }
}

/// The answer for a path: its nodes by name and the predicate of each hop.
pub open spec fn path_answer(
    q: TraceRequest,
    names: Seq<Seq<char>>,
    relations: Seq<Seq<char>>,
    explored: int,
) -> JsonView {
    JsonView::Object(
        seq![
            ("found"@, JsonView::Bool(true)),
            ("source"@, JsonView::Text(q.source@)),
            ("target"@, JsonView::Text(q.target@)),
            ("path"@, text_array(names)),
            ("relations"@, text_array(relations)),
            ("length"@, JsonView::Int(relations.len() as int)),
            ("explored"@, JsonView::Int(explored)),
        ],
    )
}

/// Answer with a path.
pub fn path_reply(
    q: &TraceRequest,
    search: &PathSearch,
    names: &Vec<String>,
    relations: &Vec<String>,
) -> (r: JsonReply)
    ensures
        !r.is_error,
        r.value@ == path_answer(*q, texts(names@), texts(relations@), search@.explored),
{
    let value: Json = object(
        vec![
            member("found", Json::Bool(true)),
            member("source", text(q.source.as_str())),
            member("target", text(q.target.as_str())),
            member("path", strings(names)),
            member("relations", strings(relations)),
            member("length", count(relations.len() as u64)),
            member("explored", count(search.explored)),
        ],
    );
    assert(value@->Object_0 =~= path_answer(
        *q,
        texts(names@),
        texts(relations@),
        search@.explored,
    )->Object_0);
    JsonReply::ok(value)
}

/// Edges are walked in both directions: from either end of an edge it leads to
/// the other.
pub proof fn law_edges_lead_both_ways(e: EdgeView)
    ensures
        neighbor(e, e.source_id) == e.target_id,
        neighbor(e, e.target_id) == e.source_id,
{
}

/// The search looks five steps far unless asked otherwise, and one to twenty at
/// any rate; it counts every edge that it is told.
pub proof fn law_depth_is_bounded(args: JsonView, s: SearchView, edges: Seq<EdgeView>)
    ensures
        1 <= requested_depth(args) <= 20,
        args.get("max_depth"@) is None ==> requested_depth(args) == 5,
        args.get("max_depth"@) matches Some(JsonView::Int(n)) ==> 1 <= n <= 20 ==> requested_depth(
            args,
        ) == n,
        s.explored + edges.len() <= u64::MAX ==> s.expanded(edges).explored == s.explored
            + edges.len(),
        s.expanded(edges).head == s.head + 1,
{
}

/// A path is told from its source to its target, with its nodes, the relation of
/// each hop, and how many hops there are.
pub proof fn law_path_is_told(
    q: TraceRequest,
    names: Seq<Seq<char>>,
    relations: Seq<Seq<char>>,
    explored: int,
)
    ensures
        ({
            let j = path_answer(q, names, relations, explored);
            &&& j.get("found"@) == Some(JsonView::Bool(true))
            &&& j.get("source"@) == Some(JsonView::Text(q.source@))
            &&& j.get("target"@) == Some(JsonView::Text(q.target@))
            &&& j.get("path"@) == Some(text_array(names))
            &&& j.get("relations"@) == Some(text_array(relations))
            &&& j.get("length"@) == Some(JsonView::Int(relations.len() as int))
            &&& j.get("explored"@) == Some(JsonView::Int(explored))
        }),
{
    reveal_strlit("found");
    reveal_strlit("source");
    reveal_strlit("target");
    reveal_strlit("path");
    reveal_strlit("relations");
    reveal_strlit("length");
    reveal_strlit("explored");
    assert("length"@[0] == 'l');
    assert("source"@[0] == 's');
    assert("target"@[0] == 't');
    let m = path_answer(q, names, relations, explored)->Object_0;
    assert(m[0].0 == "found"@);
    assert(m[1].0 == "source"@);
    assert(m[2].0 == "target"@);
    assert(m[3].0 == "path"@);
    assert(m[4].0 == "relations"@);
    assert(m[5].0 == "length"@);
    assert(m[6].0 == "explored"@);
    crate::json::law_first_member_counts(m, "found"@, 0);
    crate::json::law_first_member_counts(m, "source"@, 1);
    crate::json::law_first_member_counts(m, "target"@, 2);
    crate::json::law_first_member_counts(m, "path"@, 3);
    crate::json::law_first_member_counts(m, "relations"@, 4);
    crate::json::law_first_member_counts(m, "length"@, 5);
    crate::json::law_first_member_counts(m, "explored"@, 6);
}

/// Where no path is found the depth that was searched is told.
pub proof fn law_missing_path_is_told(q: TraceRequest, explored: int)
    ensures
        ({
            let j = no_path(q, explored);
            &&& j.get("found"@) == Some(JsonView::Bool(false))
            &&& j.get("source"@) == Some(JsonView::Text(q.source@))
            &&& j.get("target"@) == Some(JsonView::Text(q.target@))
            &&& j.get("error"@) == Some(JsonView::Text("no path within depth "@ + decimal(q.max_depth as nat)))
            &&& j.get("explored"@) == Some(JsonView::Int(explored))
        }),
{
    reveal_strlit("found");
    reveal_strlit("source");
    reveal_strlit("target");
    reveal_strlit("error");
    reveal_strlit("explored");
    assert("error"@[0] == 'e');
    assert("found"@[0] == 'f');
    assert("source"@[0] == 's');
    assert("target"@[0] == 't');
    let m = no_path(q, explored)->Object_0;
    assert(m[0].0 == "found"@);
    assert(m[1].0 == "source"@);
    assert(m[2].0 == "target"@);
    assert(m[3].0 == "error"@);
    assert(m[4].0 == "explored"@);
    crate::json::law_first_member_counts(m, "found"@, 0);
    crate::json::law_first_member_counts(m, "source"@, 1);
    crate::json::law_first_member_counts(m, "target"@, 2);
    crate::json::law_first_member_counts(m, "error"@, 3);
    crate::json::law_first_member_counts(m, "explored"@, 4);
}

/// From an entity to itself leads a path of one node and no hops.
pub proof fn law_path_to_itself_has_no_hops(source: Seq<char>, target: Seq<char>)
    ensures
        ({
            let j = trivial_path(source, target);
            &&& j.get("found"@) == Some(JsonView::Bool(true))
            &&& j.get("source"@) == Some(JsonView::Text(source))
            &&& j.get("target"@) == Some(JsonView::Text(target))
            &&& j.get("path"@) == Some(text_array(seq![source]))
            &&& j.get("relations"@) == Some(text_array(Seq::empty()))
            &&& j.get("length"@) == Some(JsonView::Int(0))
        }),
{
    reveal_strlit("found");
    reveal_strlit("source");
    reveal_strlit("target");
    reveal_strlit("path");
    reveal_strlit("relations");
    reveal_strlit("length");
    assert("length"@[0] == 'l');
    assert("source"@[0] == 's');
    assert("target"@[0] == 't');
    let m = trivial_path(source, target)->Object_0;
    assert(m[0].0 == "found"@);
    assert(m[1].0 == "source"@);
    assert(m[2].0 == "target"@);
    assert(m[3].0 == "path"@);
    assert(m[4].0 == "relations"@);
    assert(m[5].0 == "length"@);
    crate::json::law_first_member_counts(m, "found"@, 0);
    crate::json::law_first_member_counts(m, "source"@, 1);
    crate::json::law_first_member_counts(m, "target"@, 2);
    crate::json::law_first_member_counts(m, "path"@, 3);
    crate::json::law_first_member_counts(m, "relations"@, 4);
    crate::json::law_first_member_counts(m, "length"@, 5);
}

/// A failure is told as a path that was not found.
pub proof fn law_failed_trace_is_told(message: Seq<char>)
    ensures
        ({
            let j = trace_failure(message);
            &&& j.get("found"@) == Some(JsonView::Bool(false))
            &&& j.get("error"@) == Some(JsonView::Text(message))
        }),
{
    reveal_strlit("found");
    reveal_strlit("error");
    assert("error"@[0] == 'e');
    assert("found"@[0] == 'f');
    let m = trace_failure(message)->Object_0;
    assert(m[0].0 == "found"@);
    assert(m[1].0 == "error"@);
    crate::json::law_first_member_counts(m, "found"@, 0);
    crate::json::law_first_member_counts(m, "error"@, 1);
}

/// A node is shown by its name; nodes that have none are still told apart.
pub proof fn law_nodes_are_told_apart(a: i64, b: i64, name: Seq<char>)
    ensures
        shown_name(a, Some(name)) == name,
        shown_name(a, None) == shown_name(b, None) ==> a == b,
{
    reveal_strlit("<missing:");
    reveal_strlit(">");
    let n = "<missing:"@.len() as int;
    let x = shown_name(a, None);
    let y = shown_name(b, None);
    assert(x.subrange(n, x.len() - 1) =~= crate::text::signed_decimal(a as int));
    assert(y.subrange(n, y.len() - 1) =~= crate::text::signed_decimal(b as int));
    crate::text::law_different_numbers_are_written_differently(a as int, b as int);
}

} // verus!
