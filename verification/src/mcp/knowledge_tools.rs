//! Tools over the knowledge graph: looking up an entity, its timeline, its
//! relations and the evidence, and correcting a relation.
use vstd::prelude::*;

use crate::error::Error;
use crate::json::{array, count, integer, member, object, text, Json, JsonView};
use crate::knowledge::{edge_views, EdgeView, KnowledgeEdge};
use crate::mcp::args::{
    count_arg, count_or, given_text, held, hold, opt_str, req_str, str_or, text_or,
};
use crate::mcp::external_knowledge_tools::EntityLink;
use crate::mcp::schema::{add_member, added};
use crate::mcp::types::{opt_text, Refusal};
use crate::text::{ascii_lowered, cat, cat3, same_text, to_ascii_lower};

verus! {

/// The words in which a missing argument is refused.
pub open spec fn missing(key: Seq<char>) -> Seq<char> {
    "missing required argument `"@ + key + "`"@
}

/// The words in which an unknown entity is reported.
pub open spec fn unknown_entity(name: Seq<char>) -> Seq<char> {
    "entity `"@ + name + "` not found"@
}

/// A request to look up an entity.
#[derive(Debug)]
pub struct InspectRequest {
    pub name: String,
    pub doc: Option<String>,
    /// The external source that the name comes from, when it is known.
    pub source: Option<String>,
}

/// Read a request to look up an entity.
pub fn inspect_request(args: &Json) -> (r: Result<InspectRequest, Error>)
    ensures
        match r {
            Ok(q) => {
                &&& given_text(args@, "name"@) == Some(q.name@)
                &&& opt_text(q.doc) == given_text(args@, "doc"@)
                &&& opt_text(q.source) == given_text(args@, "source"@)
            },
            Err(e) => given_text(args@, "name"@) is None && e is InvalidInput && e.text()
                == missing("name"@),
        },
{
    match req_str(args, "name") {
        Ok(name) => Ok(
            InspectRequest { name, doc: opt_str(args, "doc"), source: opt_str(args, "source") },
        ),
        Err(e) => Err(e),
    }
}

/// What the linker knows of a name: the name the entity goes by here, and the
/// links that lead to it.
#[derive(Debug)]
pub struct LinkerHit {
    pub canonical: String,
    pub links: Vec<EntityLink>,
}

/// A name of the entity in an external source.
#[derive(Debug)]
pub struct ExternalAlias {
    pub source: String,
    pub external_name: String,
}

/// Resolve the requested name by what the linker knows of it. A name that the
/// linker does not know stands for itself and has no aliases.
pub fn resolve_with_linker(requested: &str, found: Option<LinkerHit>) -> (r: (
    String,
    Vec<ExternalAlias>,
))
    ensures
        match found {
            Some(hit) => {
                &&& r.0@ == hit.canonical@
                &&& r.1@.len() == hit.links@.len()
                &&& forall|i: int|
                    0 <= i < r.1@.len() ==> (#[trigger] r.1@[i]).source@ == hit.links@[i].source@
                        && r.1@[i].external_name@ == hit.links@[i].external_name@
            },
            None => r.0@ == requested@ && r.1@.len() == 0,
        },
{
    match found {
        Some(hit) => {
            let mut aliases: Vec<ExternalAlias> = Vec::new();
            let mut i: usize = 0;
            while i < hit.links.len()
                invariant
                    i <= hit.links@.len(),
                    aliases@.len() == i,
                    forall|k: int|
                        0 <= k < i ==> (#[trigger] aliases@[k]).source@ == hit.links@[k].source@
                            && aliases@[k].external_name@ == hit.links@[k].external_name@,
                decreases hit.links.len() - i,
            {
                aliases.push(
                    ExternalAlias {
                        source: hit.links[i].source.as_str().to_owned(),
                        external_name: hit.links[i].external_name.as_str().to_owned(),
                    },
                );
                i = i + 1;
            }
            (hit.canonical, aliases)
        },
        None => (requested.to_owned(), Vec::new()),
    }
}

/// What to do after looking for an entity under a name.
#[derive(Debug)]
pub enum Lookup {
    /// Answer with what was found.
    Answer,
    /// Look again under the requested name.
    Retry,
    /// Report that there is no such entity.
    Fail(String),
}

/// Decide what to do after looking for the entity under its resolved name
/// (`retried` is false) or again under the requested one.
pub fn after_lookup(requested: &str, canonical: &str, found: bool, retried: bool) -> (r: Lookup)
    ensures
        found ==> r is Answer,
        !found && !retried && canonical@ != requested@ ==> r is Retry,
        !found && (retried || canonical@ == requested@) ==> (r matches Lookup::Fail(s) && s@
            == unknown_entity(requested@)),
{
    if found {
        Lookup::Answer
    } else if !retried && !same_text(canonical, requested) {
        Lookup::Retry
    } else {
        Lookup::Fail(cat3("entity `", requested, "` not found"))
    }
}

/// An alias on the wire.
pub open spec fn alias_wire(alias: ExternalAlias) -> JsonView {
    JsonView::Object(
        seq![
            ("source"@, JsonView::Text(alias.source@)),
            ("external_name"@, JsonView::Text(alias.external_name@)),
        ],
    )
}

/// The aliases on the wire.
pub open spec fn aliases_wire(aliases: Seq<ExternalAlias>) -> JsonView {
    JsonView::Array(Seq::new(aliases.len(), |i: int| alias_wire(aliases[i])))
}

/// Answer with what is known of an entity, and the names it has elsewhere.
pub fn inspect_reply(picture: Json, aliases: &Vec<ExternalAlias>) -> (j: Json)
    ensures
        j@ == added(picture@, "external_aliases"@, aliases_wire(aliases@)),
{
    let mut out: Vec<Json> = Vec::new();
    let mut i: usize = 0;
    while i < aliases.len()
        invariant
            i <= aliases@.len(),
            out@.len() == i,
            forall|k: int| 0 <= k < i ==> (#[trigger] out@[k])@ == alias_wire(aliases@[k]),
        decreases aliases.len() - i,
    {
        let a: &ExternalAlias = &aliases[i];
        let j: Json = object(
            vec![
                member("source", text(a.source.as_str())),
                member("external_name", text(a.external_name.as_str())),
            ],
        );
        assert(j@->Object_0 =~= alias_wire(*a)->Object_0);
        out.push(j);
        i = i + 1;
    }
    let list: Json = array(out);
    assert(list@->Array_0 =~= aliases_wire(aliases@)->Array_0);
    add_member(picture, "external_aliases", list)
}

/// A request for the timeline or the relations of an entity.
#[derive(Debug)]
pub struct EntityRequest {
    pub entity: String,
    pub doc: Option<String>,
    /// How many steps of relations to follow.
    pub depth: u64,
}

/// How many steps of relations to follow: 2 unless asked otherwise, and from
/// 1 to 5.
pub open spec fn depth_asked(args: JsonView) -> int {
    held(count_or(args, "depth"@, 2), 1, 5)
}

/// Read a request for the timeline or the relations of an entity.
pub fn entity_request(args: &Json) -> (r: Result<EntityRequest, Error>)
    ensures
        match r {
            Ok(q) => {
                &&& given_text(args@, "entity"@) == Some(q.entity@)
                &&& opt_text(q.doc) == given_text(args@, "doc"@)
                &&& q.depth == depth_asked(args@)
            },
            Err(e) => given_text(args@, "entity"@) is None && e is InvalidInput && e.text()
                == missing("entity"@),
        },
{
    match req_str(args, "entity") {
        Ok(entity) => {
            let depth: u64 = hold(count_arg(args, "depth", 2), 1, 5);
            Ok(EntityRequest { entity, doc: opt_str(args, "doc"), depth })
        },
        Err(e) => Err(e),
    }
}

/// Report that there is no such entity.
pub fn entity_not_found(name: &str) -> (r: Refusal)
    ensures
        r.says(unknown_entity(name@)),
{
    Refusal::Graceful(cat3("entity `", name, "` not found"))
}

/// A request for evidence.
#[derive(Debug)]
pub struct EvidenceRequest {
    pub query: String,
    pub doc: Option<String>,
    pub limit: u64,
}

/// How many passages to return: 20 unless asked otherwise, and at most 200.
pub open spec fn evidence_limit(args: JsonView) -> int {
    held(count_or(args, "limit"@, 20), 0, 200)
}

/// Read a request for evidence.
pub fn evidence_request(args: &Json) -> (r: Result<EvidenceRequest, Error>)
    ensures
        match r {
            Ok(q) => {
                &&& given_text(args@, "query"@) == Some(q.query@)
                &&& opt_text(q.doc) == given_text(args@, "doc"@)
                &&& q.limit == evidence_limit(args@)
            },
            Err(e) => given_text(args@, "query"@) is None && e is InvalidInput && e.text()
                == missing("query"@),
        },
{
    match req_str(args, "query") {
        Ok(query) => {
            let limit: u64 = hold(count_arg(args, "limit", 20), 0, 200);
            Ok(EvidenceRequest { query, doc: opt_str(args, "doc"), limit })
        },
        Err(e) => Err(e),
    }
}

/// A request to correct a relation.
#[derive(Debug)]
pub struct CorrectionRequest {
    pub source: String,
    pub predicate: String,
    pub old_target: String,
    pub new_target: String,
    /// The document that the correction is limited to.
    pub doc: Option<String>,
}

/// The first of the four names that is missing.
pub open spec fn correction_fault(args: JsonView) -> Option<Seq<char>> {
    if given_text(args, "source"@) is None {
        Some(missing("source"@))
    } else if given_text(args, "predicate"@) is None {
        Some(missing("predicate"@))
    } else if given_text(args, "old_target"@) is None {
        Some(missing("old_target"@))
    } else if given_text(args, "new_target"@) is None {
        Some(missing("new_target"@))
    } else {
        None
    }
}

/// Read a request to correct a relation.
pub fn correction_request(args: &Json) -> (r: Result<CorrectionRequest, Error>)
    ensures
        match r {
            Ok(q) => {
                &&& correction_fault(args@) is None
                &&& given_text(args@, "source"@) == Some(q.source@)
                &&& given_text(args@, "predicate"@) == Some(q.predicate@)
                &&& given_text(args@, "old_target"@) == Some(q.old_target@)
                &&& given_text(args@, "new_target"@) == Some(q.new_target@)
                &&& opt_text(q.doc) == given_text(args@, "doc"@)
            },
            Err(e) => e is InvalidInput && correction_fault(args@) == Some(e.text()),
        },
{
    let source: String = match req_str(args, "source") {
        Ok(s) => s,
        Err(e) => {
            return Err(e);
        },
    };
    let predicate: String = match req_str(args, "predicate") {
        Ok(s) => s,
        Err(e) => {
            return Err(e);
        },
    };
    let old_target: String = match req_str(args, "old_target") {
        Ok(s) => s,
        Err(e) => {
            return Err(e);
        },
    };
    match req_str(args, "new_target") {
        Ok(new_target) => Ok(
            CorrectionRequest { source, predicate, old_target, new_target, doc: opt_str(args, "doc") },
        ),
        Err(e) => Err(e),
    }
}

/// The ids of the edges that lead from `source` to `target` by `predicate`.
pub open spec fn matching_edges(
    edges: Seq<EdgeView>,
    predicate: Seq<char>,
    source: i64,
    target: i64,
) -> Seq<i64>
    decreases edges.len(),
{
    if edges.len() == 0 {
        Seq::empty()
    } else {
        let before = matching_edges(edges.drop_last(), predicate, source, target);
        let e = edges.last();
        if e.predicate == predicate && e.source_id == source && e.target_id == target {
            before.push(e.id)
        } else {
            before
        }
    }
}

/// The ids of the edges that lead from `source` to `target` by `predicate`.
pub fn match_edges(
    edges: &Vec<KnowledgeEdge>,
    predicate: &str,
    source: i64,
    target: i64,
) -> (ids: Vec<i64>)
    ensures
        ids@ == matching_edges(edge_views(edges@), predicate@, source, target),
{
    let ghost all = edge_views(edges@);
    let mut ids: Vec<i64> = Vec::new();
    let mut i: usize = 0;
    assert(all.subrange(0, 0) =~= Seq::empty());
    assert(ids@ =~= Seq::empty());
    while i < edges.len()
        invariant
            i <= edges@.len(),
            all == edge_views(edges@),
            ids@ == matching_edges(all.subrange(0, i as int), predicate@, source, target),
        decreases edges.len() - i,
    {
        let ghost now = all.subrange(0, i + 1);
        assert(now.drop_last() == all.subrange(0, i as int));
        assert(now.last() == edges@[i as int]@);
        let e: &KnowledgeEdge = &edges[i];
        if same_text(e.predicate.as_str(), predicate) && e.source_id == source && e.target_id
            == target {
            ids.push(e.id);
        }
        i = i + 1;
    }
    assert(all.subrange(0, all.len() as int) == all);
    ids
}

/// The edge under this id leads from `source` to `target` by `predicate`.
pub open spec fn edge_matches(
    edges: Seq<EdgeView>,
    predicate: Seq<char>,
    source: i64,
    target: i64,
    id: i64,
) -> bool {
    exists|k: int|
        0 <= k < edges.len() && (#[trigger] edges[k]).id == id && edges[k].predicate == predicate
            && edges[k].source_id == source && edges[k].target_id == target
}

/// Only edges that lead from the source to the old target by the predicate
/// are corrected: an edge that merely leads to the source, or elsewhere, or
/// by another predicate stays as it is.
pub proof fn law_only_matching_edges_change(
    edges: Seq<EdgeView>,
    predicate: Seq<char>,
    source: i64,
    target: i64,
)
    ensures
        forall|id: i64| #[trigger]
            matching_edges(edges, predicate, source, target).contains(id) <==> edge_matches(
                edges,
                predicate,
                source,
                target,
                id,
            ),
    decreases edges.len(),
{
    let found = matching_edges(edges, predicate, source, target);
    if edges.len() > 0 {
        let rest = edges.drop_last();
        let before = matching_edges(rest, predicate, source, target);
        law_only_matching_edges_change(rest, predicate, source, target);
        assert forall|id: i64| #[trigger] found.contains(id) <==> edge_matches(
            edges,
            predicate,
            source,
            target,
            id,
        ) by {
            let e = edges.last();
            let hit = e.predicate == predicate && e.source_id == source && e.target_id == target;
            if found.contains(id) {
                let k = choose|k: int| 0 <= k < found.len() && found[k] == id;
                if hit && k == before.len() {
                    assert(edges[edges.len() - 1].id == id);
                } else {
                    assert(before[k] == id);
                    assert(before.contains(id));
                    let m = choose|m: int|
                        0 <= m < rest.len() && (#[trigger] rest[m]).id == id && rest[m].predicate
                            == predicate && rest[m].source_id == source && rest[m].target_id
                            == target;
                    assert(edges[m] == rest[m]);
                }
            }
            if edge_matches(edges, predicate, source, target, id) {
                let m = choose|m: int|
                    0 <= m < edges.len() && (#[trigger] edges[m]).id == id && edges[m].predicate
                        == predicate && edges[m].source_id == source && edges[m].target_id
                        == target;
                if m == edges.len() - 1 {
                    assert(found[before.len() as int] == id);
                } else {
                    assert(rest[m] == edges[m]);
                    assert(edge_matches(rest, predicate, source, target, id));
                    assert(before.contains(id));
                    let k = choose|k: int| 0 <= k < before.len() && before[k] == id;
                    assert(found[k] == id);
                }
            }
        }
    } else {
        assert(found =~= Seq::empty());
    }
}

/// Where a correction is.
#[derive(Debug, Clone, Copy)]
pub enum CorrectionStage {
    /// The document is to be looked up.
    Document,
    /// The source is to be looked up.
    Source,
    /// The old target is to be looked up.
    OldTarget { source: i64 },
    /// The new target is to be looked up.
    NewTarget { source: i64, old: i64 },
    /// The edges of the source are to be listed.
    Edges { source: i64, old: i64, new: i64 },
    /// The matching edges are to be retargeted.
    Retarget { old: i64, new: i64 },
}

/// What to do next.
pub enum CorrectionAction<'a> {
    FindDocument { title: &'a str },
    FindObject { name: &'a str, doc_id: Option<i64> },
    ListEdges { object: i64 },
    Retarget { edge: i64, target: i64 },
    /// The correction is done.
    Finished,
}

/// The value of an action.
pub enum CorrectionActionView {
    FindDocument { title: Seq<char> },
    FindObject { name: Seq<char>, doc_id: Option<i64> },
    ListEdges { object: i64 },
    Retarget { edge: i64, target: i64 },
    Finished,
}

impl<'a> View for CorrectionAction<'a> {
    type V = CorrectionActionView;

    open spec fn view(&self) -> CorrectionActionView {
        match *self {
            CorrectionAction::FindDocument { title } => CorrectionActionView::FindDocument {
                title: title@,
            },
            CorrectionAction::FindObject { name, doc_id } => CorrectionActionView::FindObject {
                name: name@,
                doc_id,
            },
            CorrectionAction::ListEdges { object } => CorrectionActionView::ListEdges { object },
            CorrectionAction::Retarget { edge, target } => CorrectionActionView::Retarget {
                edge,
                target,
            },
            CorrectionAction::Finished => CorrectionActionView::Finished,
        }
    }
}

/// What came of an action.
#[derive(Debug)]
pub enum CorrectionEvent {
    /// A document or an object was looked up.
    Found(Option<i64>),
    /// The edges were listed.
    Edges(Vec<KnowledgeEdge>),
    /// This many edges were retargeted.
    Retargeted(u64),
}

/// A correction under way.
#[derive(Debug)]
pub struct Correction {
    pub request: CorrectionRequest,
    /// The document that the correction is limited to, once it is known.
    pub scope: Option<i64>,
    pub stage: CorrectionStage,
    /// The edges to retarget.
    pub matched: Vec<i64>,
    /// How many of them are done.
    pub done: usize,
    /// How many edges the store says were changed.
    pub changed: u64,
}

/// The words in which a failed lookup is reported.
pub open spec fn lookup_failure(q: CorrectionRequest, stage: CorrectionStage) -> Seq<char> {
    match stage {
        CorrectionStage::Document => match q.doc {
            Some(title) => "document `"@ + title@ + "` not found"@,
            None => ""@,
        },
        CorrectionStage::Source => "source `"@ + q.source@ + "` not found"@,
        CorrectionStage::OldTarget { .. } => "old_target `"@ + q.old_target@ + "` not found"@,
        CorrectionStage::NewTarget { .. } => "new_target `"@ + q.new_target@ + "` not found"@,
        _ => ""@,
    }
}

/// The words in which it is reported that no edge matches.
pub open spec fn no_such_edge(q: CorrectionRequest) -> Seq<char> {
    "no `"@ + q.predicate@ + "` edge from `"@ + q.source@ + "` to `"@ + q.old_target@
        + "` found"@
}

impl Correction {
    /// The correction is consistent.
    pub open spec fn wf(self) -> bool {
        &&& self.done <= self.matched@.len()
        &&& self.stage is Document ==> self.request.doc is Some
        &&& !(self.stage is Retarget) ==> self.changed == 0
    }

    /// Every matching edge has been dealt with.
    pub open spec fn finished(self) -> bool {
        self.stage is Retarget && self.done == self.matched@.len()
    }

    /// What to do next.
    pub open spec fn next_action(self) -> CorrectionActionView {
        match self.stage {
            CorrectionStage::Document => CorrectionActionView::FindDocument {
                title: match self.request.doc {
                    Some(t) => t@,
                    None => ""@,
                },
            },
            CorrectionStage::Source => CorrectionActionView::FindObject {
                name: self.request.source@,
                doc_id: self.scope,
            },
            CorrectionStage::OldTarget { .. } => CorrectionActionView::FindObject {
                name: self.request.old_target@,
                doc_id: self.scope,
            },
            CorrectionStage::NewTarget { .. } => CorrectionActionView::FindObject {
                name: self.request.new_target@,
                doc_id: self.scope,
            },
            CorrectionStage::Edges { source, .. } => CorrectionActionView::ListEdges {
                object: source,
            },
            CorrectionStage::Retarget { old, new } => if self.done < self.matched@.len() {
                CorrectionActionView::Retarget {
                    edge: self.matched@[self.done as int],
                    target: new,
                }
            } else {
                CorrectionActionView::Finished
            },
        }
    }

    /// The event is one that the next action can have.
    pub open spec fn expects(self, event: CorrectionEvent) -> bool {
        match event {
            CorrectionEvent::Found(_) => self.stage is Document || self.stage is Source
                || self.stage is OldTarget || self.stage is NewTarget,
            CorrectionEvent::Edges(_) => self.stage is Edges,
            CorrectionEvent::Retargeted(n) => self.stage is Retarget && !self.finished()
                && self.changed + n <= u64::MAX,
        }
    }

    /// A correction that has done nothing yet. A document that is named is
    /// looked up first: the correction is then limited to it.
    pub fn start(request: CorrectionRequest) -> (c: Correction)
        ensures
            c.request == request,
            c.wf(),
            c.scope is None,
            c.stage == (if request.doc is Some {
                CorrectionStage::Document
            } else {
                CorrectionStage::Source
            }),
            c.matched@.len() == 0,
            c.changed == 0,
    {
        let stage: CorrectionStage = if request.doc.is_some() {
            CorrectionStage::Document
        } else {
            CorrectionStage::Source
        };
        Correction { request, scope: None, stage, matched: Vec::new(), done: 0, changed: 0 }
    }

    /// What to do next.
    pub fn action(&self) -> (a: CorrectionAction<'_>)
        requires
            self.wf(),
        ensures
            a@ == self.next_action(),
    {
        match self.stage {
            CorrectionStage::Document => match &self.request.doc {
                Some(t) => CorrectionAction::FindDocument { title: t.as_str() },
                None => CorrectionAction::FindDocument { title: "" },
            },
            CorrectionStage::Source => CorrectionAction::FindObject {
                name: self.request.source.as_str(),
                doc_id: self.scope,
            },
            CorrectionStage::OldTarget { source: _ } => CorrectionAction::FindObject {
                name: self.request.old_target.as_str(),
                doc_id: self.scope,
            },
            CorrectionStage::NewTarget { source: _, old: _ } => CorrectionAction::FindObject {
                name: self.request.new_target.as_str(),
                doc_id: self.scope,
            },
            CorrectionStage::Edges { source, old: _, new: _ } => CorrectionAction::ListEdges {
                object: source,
            },
            CorrectionStage::Retarget { old: _, new } => if self.done < self.matched.len() {
                CorrectionAction::Retarget { edge: self.matched[self.done], target: new }
            } else {
                CorrectionAction::Finished
            },
        }
    }

    /// Whether the event is one that the next action can have.
    pub fn is_expected(&self, event: &CorrectionEvent) -> (r: bool)
        requires
            self.wf(),
        ensures
            r == self.expects(*event),
    {
        match event {
            CorrectionEvent::Found(_) => match self.stage {
                CorrectionStage::Document => true,
                CorrectionStage::Source => true,
                CorrectionStage::OldTarget { .. } => true,
                CorrectionStage::NewTarget { .. } => true,
                _ => false,
            },
            CorrectionEvent::Edges(_) => matches!(self.stage, CorrectionStage::Edges { .. }),
            CorrectionEvent::Retargeted(n) => matches!(
                self.stage,
                CorrectionStage::Retarget { .. },
            ) && self.done < self.matched.len() && *n <= u64::MAX - self.changed,
        }
    }

    /// Go on after an event, or end with a failure in these words. Nothing is
    /// changed before every name is known, and nothing at all when one is not.
    pub fn step(&mut self, event: CorrectionEvent) -> (r: Result<(), String>)
        requires
            old(self).wf(),
            old(self).expects(event),
        ensures
            final(self).wf(),
            final(self).request == old(self).request,
            r is Err ==> *final(self) == *old(self),
            match event {
                CorrectionEvent::Found(None) => r matches Err(s) && s@ == lookup_failure(
                    old(self).request,
                    old(self).stage,
                ),
                CorrectionEvent::Found(Some(id)) => {
                    &&& r is Ok
                    &&& final(self).matched == old(self).matched
                    &&& final(self).done == old(self).done
                    &&& final(self).scope == (if old(self).stage is Document {
                        Some(id)
                    } else {
                        old(self).scope
                    })
                    &&& final(self).stage == (match old(self).stage {
                        CorrectionStage::Document => CorrectionStage::Source,
                        CorrectionStage::Source => CorrectionStage::OldTarget { source: id },
                        CorrectionStage::OldTarget { source } => CorrectionStage::NewTarget {
                            source,
                            old: id,
                        },
                        CorrectionStage::NewTarget { source, old } => CorrectionStage::Edges {
                            source,
                            old,
                            new: id,
                        },
                        other => other,
                    })
                },
                CorrectionEvent::Edges(edges) => {
                    let source = old(self).stage->Edges_source;
                    let old_id = old(self).stage->Edges_old;
                    let ids = matching_edges(
                        edge_views(edges@),
                        old(self).request.predicate@,
                        source,
                        old_id,
                    );
                    if ids.len() == 0 {
                        r matches Err(s) && s@ == no_such_edge(old(self).request)
                    } else {
                        &&& r is Ok
                        &&& final(self).scope == old(self).scope
                        &&& final(self).matched@ == ids
                        &&& final(self).done == 0
                        &&& final(self).changed == 0
                        &&& final(self).stage == CorrectionStage::Retarget {
                            old: old_id,
                            new: old(self).stage->Edges_new,
                        }
                    }
                },
                CorrectionEvent::Retargeted(n) => {
                    &&& r is Ok
                    &&& final(self).scope == old(self).scope
                    &&& final(self).matched == old(self).matched
                    &&& final(self).stage == old(self).stage
                    &&& final(self).done == old(self).done + 1
                    &&& final(self).changed == old(self).changed + n
                },
            },
    {
        match event {
            CorrectionEvent::Found(found) => {
                let id: i64 = match found {
                    Some(id) => id,
                    None => {
                        return Err(self.not_found());
                    },
                };
                match self.stage {
                    CorrectionStage::Document => {
                        self.scope = Some(id);
                        self.stage = CorrectionStage::Source;
                    },
                    CorrectionStage::Source => {
                        self.stage = CorrectionStage::OldTarget { source: id };
                    },
                    CorrectionStage::OldTarget { source } => {
                        self.stage = CorrectionStage::NewTarget { source, old: id };
                    },
                    CorrectionStage::NewTarget { source, old } => {
                        self.stage = CorrectionStage::Edges { source, old, new: id };
                    },
                    _ => {},
                }
                Ok(())
            },
            CorrectionEvent::Edges(edges) => {
                if let CorrectionStage::Edges { source, old, new } = self.stage {
                    let ids: Vec<i64> = match_edges(
                        &edges,
                        self.request.predicate.as_str(),
                        source,
                        old,
                    );
                    if ids.len() == 0 {
                        let q: &CorrectionRequest = &self.request;
                        let head: String = cat3("no `", q.predicate.as_str(), "` edge from `");
                        let mid: String = cat3(head.as_str(), q.source.as_str(), "` to `");
                        return Err(cat3(mid.as_str(), q.old_target.as_str(), "` found"));
                    }
                    self.matched = ids;
                    self.done = 0;
                    self.stage = CorrectionStage::Retarget { old, new };
                }
                Ok(())
            },
            CorrectionEvent::Retargeted(n) => {
                let total: usize = self.matched.len();
                assert(self.done < total);
                self.done = self.done + 1;
                self.changed = self.changed + n;
                Ok(())
            },
        }
    }

    /// The words in which a failed lookup is reported.
    fn not_found(&self) -> (s: String)
        requires
            self.wf(),
        ensures
            s@ == lookup_failure(self.request, self.stage),
    {
        let q: &CorrectionRequest = &self.request;
        match self.stage {
            CorrectionStage::Document => match &q.doc {
                Some(t) => cat3("document `", t.as_str(), "` not found"),
                None => "".to_owned(),
            },
            CorrectionStage::Source => cat3("source `", q.source.as_str(), "` not found"),
            CorrectionStage::OldTarget { .. } => cat3(
                "old_target `",
                q.old_target.as_str(),
                "` not found",
            ),
            CorrectionStage::NewTarget { .. } => cat3(
                "new_target `",
                q.new_target.as_str(),
                "` not found",
            ),
            _ => "".to_owned(),
        }
    }
}

/// The text as a JSON value, `null` when there is none.
pub open spec fn text_or_null(t: Option<Seq<char>>) -> JsonView {
    match t {
        Some(s) => JsonView::Text(s),
        None => JsonView::Null,
    }
}

/// The text as a JSON value, `null` when there is none.
pub fn nullable_text(t: &Option<String>) -> (j: Json)
    ensures
        j@ == text_or_null(opt_text(*t)),
{
    match t {
        Some(s) => text(s.as_str()),
        None => Json::Null,
    }
}

/// The report on a correction.
pub open spec fn corrected(q: CorrectionRequest, changed: u64, from_id: i64, to_id: i64) -> JsonView {
    JsonView::Object(
        seq![
            ("source"@, JsonView::Text(q.source@)),
            ("predicate"@, JsonView::Text(q.predicate@)),
            ("changed"@, JsonView::Int(changed as int)),
            ("from_target"@, JsonView::Text(q.old_target@)),
            ("from_id"@, JsonView::Int(from_id as int)),
            ("to_target"@, JsonView::Text(q.new_target@)),
            ("to_id"@, JsonView::Int(to_id as int)),
            ("doc"@, text_or_null(opt_text(q.doc))),
        ],
    )
}

/// Report on a correction that changed so many edges.
pub fn corrected_reply(q: &CorrectionRequest, changed: u64, from_id: i64, to_id: i64) -> (j: Json)
    ensures
        j@ == corrected(*q, changed, from_id, to_id),
{
    let j: Json = object(
        vec![
            member("source", text(q.source.as_str())),
            member("predicate", text(q.predicate.as_str())),
            member("changed", count(changed)),
            member("from_target", text(q.old_target.as_str())),
            member("from_id", integer(from_id)),
            member("to_target", text(q.new_target.as_str())),
            member("to_id", integer(to_id)),
            member("doc", nullable_text(&q.doc)),
        ],
    );
    assert(j@->Object_0 =~= corrected(*q, changed, from_id, to_id)->Object_0);
    j
}

/// A request for the cognitive picture of an entity.
#[derive(Debug)]
pub struct CognitiveRequest {
    pub name: String,
    pub tenant_id: String,
    pub user_id: String,
}

/// Read a request for the cognitive picture of an entity.
pub fn cognitive_request(args: &Json) -> (r: Result<CognitiveRequest, Error>)
    ensures
        match r {
            Ok(q) => {
                &&& given_text(args@, "name"@) == Some(q.name@)
                &&& q.tenant_id@ == text_or(args@, "tenant_id"@, "default"@)
                &&& q.user_id@ == text_or(args@, "user_id"@, ""@)
            },
            Err(e) => given_text(args@, "name"@) is None && e is InvalidInput && e.text()
                == missing("name"@),
        },
{
    match req_str(args, "name") {
        Ok(name) => Ok(
            CognitiveRequest {
                name,
                tenant_id: str_or(args, "tenant_id", "default"),
                user_id: str_or(args, "user_id", ""),
            },
        ),
        Err(e) => Err(e),
    }
}

/// Whether the user is meant: the name is `user`, without regard to the case
/// of ASCII letters.
pub fn means_user(name: &str) -> (r: bool)
    ensures
        r == (ascii_lowered(name@) == "user"@),
{
    let low: String = to_ascii_lower(name);
    same_text(low.as_str(), "user")
}

/// The name that the user goes by.
pub open spec fn shown_user(user_id: Seq<char>) -> Seq<char> {
    if user_id.len() == 0 {
        "User"@
    } else {
        "User:"@ + user_id
    }
}

/// The name that the user goes by.
pub fn user_name(user_id: &str) -> (s: String)
    ensures
        s@ == shown_user(user_id@),
{
    if user_id.is_empty() {
        "User".to_owned()
    } else {
        cat("User:", user_id)
    }
}

/// The error for an entity that is not in the graph.
pub fn unknown_entity_error(name: &str) -> (e: Error)
    ensures
        e is NotFound,
        e.text() == unknown_entity(name@),
{
    Error::NotFound(cat3("entity `", name, "` not found"))
}

/// A correction asks for what it needs, in order: the document that it is
/// limited to, if one is named, then the source, the old target and the new one,
/// all of them inside that document, then the edges of the source; and it leads
/// each edge that matched to the new target.
pub proof fn law_correction_leads_to_the_new_target(c: Correction)
    requires
        c.wf(),
    ensures
        match c.stage {
            CorrectionStage::Document => c.next_action() == CorrectionActionView::FindDocument {
                title: c.request.doc->0@,
            },
            CorrectionStage::Source => c.next_action() == CorrectionActionView::FindObject {
                name: c.request.source@,
                doc_id: c.scope,
            },
            CorrectionStage::OldTarget { source } => c.next_action()
                == CorrectionActionView::FindObject {
                name: c.request.old_target@,
                doc_id: c.scope,
            },
            CorrectionStage::NewTarget { source, old } => c.next_action()
                == CorrectionActionView::FindObject {
                name: c.request.new_target@,
                doc_id: c.scope,
            },
            CorrectionStage::Edges { source, old, new } => c.next_action()
                == CorrectionActionView::ListEdges { object: source },
            CorrectionStage::Retarget { old, new } => {
                &&& c.done < c.matched@.len() ==> c.next_action()
                    == CorrectionActionView::Retarget {
                    edge: c.matched@[c.done as int],
                    target: new,
                }
                &&& c.done == c.matched@.len() ==> c.next_action() is Finished && c.finished()
            },
        },
{
}

/// Relations are followed two steps far unless asked otherwise, and one to five
/// at any rate; twenty passages are returned unless asked otherwise, and at most
/// two hundred.
pub proof fn law_steps_and_passages_are_bounded(args: JsonView)
    ensures
        1 <= depth_asked(args) <= 5,
        args.get("depth"@) is None ==> depth_asked(args) == 2,
        args.get("depth"@) matches Some(JsonView::Int(n)) ==> 1 <= n <= 5 ==> depth_asked(args) == n,
        0 <= evidence_limit(args) <= 200,
        args.get("limit"@) is None ==> evidence_limit(args) == 20,
        args.get("limit"@) matches Some(JsonView::Int(n)) ==> 0 <= n <= 200 ==> evidence_limit(args)
            == n,
{
}

/// A correction is told with what was corrected, from which target to which.
pub proof fn law_correction_is_told(q: CorrectionRequest, changed: u64, from_id: i64, to_id: i64)
    ensures
        ({
            let j = corrected(q, changed, from_id, to_id);
            &&& j.get("source"@) == Some(JsonView::Text(q.source@))
            &&& j.get("predicate"@) == Some(JsonView::Text(q.predicate@))
            &&& j.get("changed"@) == Some(JsonView::Int(changed as int))
            &&& j.get("from_target"@) == Some(JsonView::Text(q.old_target@))
            &&& j.get("from_id"@) == Some(JsonView::Int(from_id as int))
            &&& j.get("to_target"@) == Some(JsonView::Text(q.new_target@))
            &&& j.get("to_id"@) == Some(JsonView::Int(to_id as int))
            &&& j.get("doc"@) == Some(text_or_null(opt_text(q.doc)))
        }),
{
    reveal_strlit("source");
    reveal_strlit("predicate");
    reveal_strlit("changed");
    reveal_strlit("from_target");
    reveal_strlit("from_id");
    reveal_strlit("to_target");
    reveal_strlit("to_id");
    reveal_strlit("doc");
    assert("changed"@[0] == 'c');
    assert("from_id"@[0] == 'f');
    assert("predicate"@[0] == 'p');
    assert("to_target"@[0] == 't');
    let m = corrected(q, changed, from_id, to_id)->Object_0;
    assert(m[0].0 == "source"@);
    assert(m[1].0 == "predicate"@);
    assert(m[2].0 == "changed"@);
    assert(m[3].0 == "from_target"@);
    assert(m[4].0 == "from_id"@);
    assert(m[5].0 == "to_target"@);
    assert(m[6].0 == "to_id"@);
    assert(m[7].0 == "doc"@);
    crate::json::law_first_member_counts(m, "source"@, 0);
    crate::json::law_first_member_counts(m, "predicate"@, 1);
    crate::json::law_first_member_counts(m, "changed"@, 2);
    crate::json::law_first_member_counts(m, "from_target"@, 3);
    crate::json::law_first_member_counts(m, "from_id"@, 4);
    crate::json::law_first_member_counts(m, "to_target"@, 5);
    crate::json::law_first_member_counts(m, "to_id"@, 6);
    crate::json::law_first_member_counts(m, "doc"@, 7);
}

/// An alias is told with the source that it comes from.
pub proof fn law_alias_is_told(alias: ExternalAlias)
    ensures
        ({
            let j = alias_wire(alias);
            &&& j.get("source"@) == Some(JsonView::Text(alias.source@))
            &&& j.get("external_name"@) == Some(JsonView::Text(alias.external_name@))
        }),
{
    reveal_strlit("source");
    reveal_strlit("external_name");
    let m = alias_wire(alias)->Object_0;
    assert(m[0].0 == "source"@);
    assert(m[1].0 == "external_name"@);
    crate::json::law_first_member_counts(m, "source"@, 0);
    crate::json::law_first_member_counts(m, "external_name"@, 1);
}

/// A correction needs all four names, and the first one that is missing is
/// reported.
pub proof fn law_corrections_need_all_names(args: JsonView)
    ensures
        correction_fault(args) is None <==> given_text(args, "source"@) is Some && given_text(
            args,
            "predicate"@,
        ) is Some && given_text(args, "old_target"@) is Some && given_text(args, "new_target"@) is Some,
        given_text(args, "source"@) is None ==> correction_fault(args) == Some(missing("source"@)),
        given_text(args, "source"@) is Some && given_text(args, "predicate"@) is None
            ==> correction_fault(args) == Some(missing("predicate"@)),
        given_text(args, "source"@) is Some && given_text(args, "predicate"@) is Some
            && given_text(args, "old_target"@) is None ==> correction_fault(args) == Some(
            missing("old_target"@),
        ),
        given_text(args, "source"@) is Some && given_text(args, "predicate"@) is Some
            && given_text(args, "old_target"@) is Some && given_text(args, "new_target"@) is None
            ==> correction_fault(args) == Some(missing("new_target"@)),
{
}

/// Different users go by different names, and every name ends in the user's id.
pub proof fn law_users_go_by_different_names(a: Seq<char>, b: Seq<char>)
    ensures
        shown_user(a) == shown_user(b) ==> a == b,
        a.len() > 0 ==> shown_user(a).subrange(
            shown_user(a).len() - a.len(),
            shown_user(a).len() as int,
        ) == a,
{
    reveal_strlit("User");
    reveal_strlit("User:");
    let n = "User:"@.len() as int;
    if a.len() > 0 {
        assert(shown_user(a).subrange(n, shown_user(a).len() as int) =~= a);
    }
    if b.len() > 0 {
        assert(shown_user(b).subrange(n, shown_user(b).len() as int) =~= b);
    }
    if shown_user(a) == shown_user(b) && a.len() == 0 {
        assert(a =~= b);
    }
}

/// What was not found is named in the report, between the same words whatever it
/// is.
pub proof fn law_missing_part_is_named(q: CorrectionRequest, source: i64, old: i64)
    ensures
        q.doc is Some ==> lookup_failure(q, CorrectionStage::Document) == "document `"@ + q.doc->0@
            + "` not found"@,
        lookup_failure(q, CorrectionStage::Source) == "source `"@ + q.source@ + "` not found"@,
        lookup_failure(q, CorrectionStage::OldTarget { source }) == "old_target `"@ + q.old_target@
            + "` not found"@,
        lookup_failure(q, CorrectionStage::NewTarget { source, old }) == "new_target `"@
            + q.new_target@ + "` not found"@,
{
}

} // verus!
