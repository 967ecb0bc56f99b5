//! Why a fact is believed: its evidence, and the facts it was inferred from.
use vstd::prelude::*;

use crate::cognition::{Fact, FactView};
use crate::error::Error;
use crate::json::{array, elements, integer, member, object, text, Json, JsonView};
use crate::mcp::args::given_int;
use crate::mcp::decision_tool::{content_to_json, content_wire, id_fault, positive_id};
use crate::mcp::knowledge_tools::{nullable_text, text_or_null};
use crate::mcp::relationship_tool::{id_or_null, nullable_id, opt_fact};
use crate::mcp::types::opt_text;
use crate::text::{cat, signed_decimal, signed_text};

verus! {

/// At most this many hops are followed from a fact to its sources.
pub const MAX_DERIVATION_DEPTH: usize = 8;

/// At most this many source facts are shown.
pub const MAX_DERIVATION_NODES: usize = 32;

/// The tool, over a handle to the fact store.
pub struct FactProvenanceTool<S> {
    pub store: S,
}

impl<S> FactProvenanceTool<S> {
    /// A tool over this store.
    pub fn new(store: S) -> (t: FactProvenanceTool<S>)
        ensures
            t.store == store,
    {
        FactProvenanceTool { store }
    }
}

/// A source fact in short.
pub open spec fn summary_wire(f: FactView) -> JsonView {
    JsonView::Object(
        seq![
            ("fact_id"@, id_or_null(f.id)),
            ("fact_type"@, JsonView::Text(f.fact_type.name())),
            ("time"@, JsonView::Int(f.time as int)),
            ("content"@, content_wire(f)),
            ("status"@, JsonView::Text(f.status)),
        ],
    )
}

/// A source fact in short.
pub fn fact_summary(f: &Fact) -> (j: Json)
    ensures
        j@ == summary_wire(f@),
{
    let j: Json = object(
        vec![
            member("fact_id", nullable_id(f.id)),
            member("fact_type", text(f.fact_type.label())),
            member("time", integer(f.time)),
            member("content", content_to_json(f)),
            member("status", text(f.status.as_str())),
        ],
    );
    assert(j@->Object_0 =~= summary_wire(f@)->Object_0);
    j
}

/// A source that is not stored.
pub open spec fn dangling_wire(id: i64) -> JsonView {
    JsonView::Object(
        seq![
            ("fact_id"@, JsonView::Int(id as int)),
            ("missing"@, JsonView::Bool(true)),
            ("status"@, JsonView::Text("active"@)),
        ],
    )
}

/// A source that is not stored.
pub fn dangling_source(id: i64) -> (j: Json)
    ensures
        j@ == dangling_wire(id),
{
    let j: Json = object(
        vec![
            member("fact_id", integer(id)),
            member("missing", Json::Bool(true)),
            member("status", text("active")),
        ],
    );
    assert(j@->Object_0 =~= dangling_wire(id)->Object_0);
    j
}

/// The walk over the facts that a fact was inferred from, one fact at a time.
#[derive(Debug)]
pub struct DerivationWalk {
    /// The facts still to be visited, the next one last, each with the number
    /// of hops to it.
    pub queue: Vec<(i64, usize)>,
    /// The facts that have been asked for.
    pub seen: Vec<i64>,
    /// What has been found so far.
    pub expanded: Vec<Json>,
    /// How many stored facts have been visited.
    pub visited: usize,
    /// How many hops it is to the fact last asked for.
    pub hops: usize,
}

/// The value of a walk.
pub struct WalkView {
    pub queue: Seq<(i64, usize)>,
    pub seen: Seq<i64>,
    pub expanded: Seq<JsonView>,
    pub visited: int,
    pub hops: usize,
}

impl View for DerivationWalk {
    type V = WalkView;

    open spec fn view(&self) -> WalkView {
        WalkView {
            queue: self.queue@,
            seen: self.seen@,
            expanded: elements(self.expanded@),
            visited: self.visited as int,
            hops: self.hops,
        }
    }
}

/// The ids, each with this number of hops to it.
pub open spec fn at_distance(ids: Seq<i64>, hops: usize) -> Seq<(i64, usize)> {
    Seq::new(ids.len(), |i: int| (ids[i], hops))
}

/// The ids of `parents` that have not been asked for, in order.
pub open spec fn unseen(parents: Seq<i64>, seen: Seq<i64>) -> Seq<i64>
    decreases parents.len(),
{
    if parents.len() == 0 {
        Seq::empty()
    } else {
        let before = unseen(parents.drop_last(), seen);
        if seen.contains(parents.last()) {
            before
        } else {
            before.push(parents.last())
        }
    }
}

impl WalkView {
    /// A walk from a fact with these sources.
    pub open spec fn start(sources: Seq<i64>) -> WalkView {
        WalkView {
            queue: at_distance(sources, 1),
            seen: Seq::empty(),
            expanded: Seq::empty(),
            visited: 0,
            hops: 0,
        }
    }

    /// No fact is asked for twice, no more facts are visited than are shown,
    /// and none lies too many hops away.
    pub open spec fn wf(self) -> bool {
        &&& self.seen.no_duplicates()
        &&& 0 <= self.visited <= MAX_DERIVATION_NODES
        &&& self.visited <= self.expanded.len()
        &&& self.hops <= MAX_DERIVATION_DEPTH
        &&& forall|i: int|
            0 <= i < self.queue.len() ==> (#[trigger] self.queue[i]).1 <= MAX_DERIVATION_DEPTH
    }

    /// The walk after choosing the next fact, and that fact; none when the
    /// walk is over.
    pub open spec fn chosen(self) -> (WalkView, Option<i64>)
        decreases self.queue.len(),
    {
        if self.queue.len() == 0 {
            (self, None)
        } else {
            let (id, hops) = self.queue.last();
            let rest = WalkView { queue: self.queue.drop_last(), ..self };
            if self.visited >= MAX_DERIVATION_NODES {
                (rest, None)
            } else if self.seen.contains(id) {
                rest.chosen()
            } else {
                (WalkView { seen: self.seen.push(id), hops, ..rest }, Some(id))
            }
        }
    }

    /// The walk after a fact was looked up. The sources of a stored fact are
    /// followed as long as they are not too many hops away.
    pub open spec fn absorbed(self, id: i64, fact: Option<FactView>) -> WalkView {
        match fact {
            None => WalkView { expanded: self.expanded.push(dangling_wire(id)), ..self },
            Some(f) => WalkView {
                expanded: self.expanded.push(summary_wire(f)),
                visited: self.visited + 1,
                queue: if self.hops < MAX_DERIVATION_DEPTH {
                    self.queue + at_distance(
                        unseen(f.derived_from, self.seen),
                        (self.hops + 1) as usize,
                    )
                } else {
                    self.queue
                },
                ..self
            },
        }
    }
}

/// Whether the id is in the list.
fn holds_id(v: &Vec<i64>, id: i64) -> (r: bool)
    ensures
        r == v@.contains(id),
{
    let mut i: usize = 0;
    while i < v.len()
        invariant
            i <= v@.len(),
            forall|k: int| 0 <= k < i ==> #[trigger] v@[k] != id,
        decreases v.len() - i,
    {
        if v[i] == id {
            return true;
        }
        i = i + 1;
    }
    false
}

impl DerivationWalk {
    /// A walk from this fact.
    pub fn start(fact: &Fact) -> (w: DerivationWalk)
        ensures
            w@ == WalkView::start(fact@.derived_from),
            w@.wf(),
    {
        let ghost sources = fact@.derived_from;
        let mut queue: Vec<(i64, usize)> = Vec::new();
        let mut i: usize = 0;
        while i < fact.derived_from.len()
            invariant
                i <= fact.derived_from@.len(),
                sources == fact.derived_from@,
                queue@ == at_distance(sources.subrange(0, i as int), 1),
            decreases fact.derived_from.len() - i,
        {
            queue.push((fact.derived_from[i], 1));
            i = i + 1;
            assert(queue@ =~= at_distance(sources.subrange(0, i as int), 1));
        }
        assert(sources.subrange(0, sources.len() as int) == sources);
        let w = DerivationWalk {
            queue,
            seen: Vec::new(),
            expanded: Vec::new(),
            visited: 0,
            hops: 0,
        };
        assert(w@.seen =~= Seq::empty());
        assert(w@.expanded =~= Seq::empty());
        w
    }

    /// Choose the next fact to look up; none when the walk is over.
    pub fn next(&mut self) -> (r: Option<i64>)
        requires
            old(self)@.wf(),
        ensures
            (final(self)@, r) == old(self)@.chosen(),
            final(self)@.wf(),
            r is Some ==> final(self)@.visited < MAX_DERIVATION_NODES,
    {
        let ghost whole = self@;
        loop
            invariant
                self@.wf(),
                whole == old(self)@,
                self@.chosen() == whole.chosen(),
            decreases self.queue.len(),
        {
            match self.queue.pop() {
                None => {
                    return None;
                },
                Some((id, hops)) => {
                    if self.visited >= MAX_DERIVATION_NODES {
                        return None;
                    }
                    if !holds_id(&self.seen, id) {
                        let ghost before = self.seen@;
                        self.seen.push(id);
                        self.hops = hops;
                        assert(self.seen@.no_duplicates()) by {
                            assert(self.seen@ == before.push(id));
                            assert forall|i: int, j: int|
                                0 <= i < self.seen@.len() && 0 <= j < self.seen@.len() && i
                                    != j implies self.seen@[i] != self.seen@[j] by {
                                if i == before.len() {
                                    assert(before[j] != id) by {
                                        assert(!before.contains(id));
                                    }
                                }
                                if j == before.len() {
                                    assert(before[i] != id) by {
                                        assert(!before.contains(id));
                                    }
                                }
                            }
                        }
                        return Some(id);
                    }
                },
            }
        }
    }

    /// Take what the store holds of the fact `id`, if it holds it.
    pub fn absorb(&mut self, id: i64, fact: &Option<Fact>)
        requires
            old(self)@.wf(),
            old(self)@.visited < MAX_DERIVATION_NODES,
        ensures
            final(self)@ == old(self)@.absorbed(id, opt_fact(*fact)),
            final(self)@.wf(),
    {
        let ghost before = self@;
        match fact {
            None => {
                self.expanded.push(dangling_source(id));
                assert(self@.expanded =~= before.expanded.push(dangling_wire(id)));
            },
            Some(f) => {
                self.visited = self.visited + 1;
                self.expanded.push(fact_summary(f));
                assert(self@.expanded =~= before.expanded.push(summary_wire(f@)));
                if self.hops < MAX_DERIVATION_DEPTH {
                    let ghost all = f@.derived_from;
                    let ghost start = self.queue@;
                    let hops: usize = self.hops + 1;
                    let mut i: usize = 0;
                    assert(self.queue@ =~= start + at_distance(
                        unseen(all.subrange(0, 0), self.seen@),
                        hops,
                    ));
                    while i < f.derived_from.len()
                        invariant
                            i <= f.derived_from@.len(),
                            all == f.derived_from@,
                            self.queue@ == start + at_distance(
                                unseen(all.subrange(0, i as int), self.seen@),
                                hops,
                            ),
                            self.seen@ == before.seen,
                            self@.expanded == before.expanded.push(summary_wire(f@)),
                            self.visited == before.visited + 1,
                            self.hops == before.hops,
                        decreases f.derived_from.len() - i,
                    {
                        let ghost now = all.subrange(0, i + 1);
                        assert(now.drop_last() == all.subrange(0, i as int));
                        let parent: i64 = f.derived_from[i];
                        assert(now.last() == parent);
                        if !holds_id(&self.seen, parent) {
                            self.queue.push((parent, hops));
                            assert(self.queue@ =~= start + at_distance(
                                unseen(now, self.seen@),
                                hops,
                            ));
                        }
                        i = i + 1;
                    }
                    assert(all.subrange(0, all.len() as int) == all);
                }
            },
        }
    }
}

/// Every lookup brings the walk nearer to its end: either a stored fact was
/// visited, of which there are at most 32, or fewer facts are waiting. So a
/// walk ends whatever the store answers, even when facts are each other's
/// sources.
pub proof fn law_walk_comes_to_an_end(w: WalkView, fact: Option<FactView>)
    requires
        w.wf(),
        w.chosen().1 is Some,
    ensures
        ({
            let id = w.chosen().1->0;
            let next = w.chosen().0.absorbed(id, fact);
            &&& next.visited > w.visited || (next.visited == w.visited && next.queue.len()
                < w.queue.len())
            &&& next.visited <= MAX_DERIVATION_NODES
        }),
{
    lemma_chosen(w);
}

/// Choosing takes facts away from those that wait, and changes nothing else
/// but which have been asked for.
proof fn lemma_chosen(w: WalkView)
    ensures
        ({
            let (next, id) = w.chosen();
            &&& next.visited == w.visited
            &&& next.expanded == w.expanded
            &&& id matches Some(x) ==> {
                &&& next.queue.len() < w.queue.len()
                &&& w.visited < MAX_DERIVATION_NODES
                &&& !w.seen.contains(x)
                &&& next.seen == w.seen.push(x)
                &&& w.queue.contains((x, next.hops))
            }
            &&& forall|e: (i64, usize)| #[trigger] next.queue.contains(e) ==> w.queue.contains(e)
        }),
    decreases w.queue.len(),
{
    if w.queue.len() > 0 {
        let front = w.queue.drop_last();
        assert forall|e: (i64, usize)| #[trigger] front.contains(e) implies w.queue.contains(
            e,
        ) by {
            let k = choose|k: int| 0 <= k < front.len() && front[k] == e;
            assert(w.queue[k] == e);
        }
        assert(w.queue[w.queue.len() - 1] == w.queue.last());
        if w.visited < MAX_DERIVATION_NODES && w.seen.contains(w.queue.last().0) {
            lemma_chosen(WalkView { queue: front, ..w });
        }
    }
}

/// No fact is asked for twice in a walk.
pub proof fn law_no_fact_is_asked_for_twice(w: WalkView)
    requires
        w.chosen().1 is Some,
    ensures
        !w.seen.contains(w.chosen().1->0),
        w.chosen().0.seen == w.seen.push(w.chosen().1->0),
{
    lemma_chosen(w);
}

/// The fact `id` is reached from the sources in this number of hops, by what the
/// store says that its facts were inferred from.
pub open spec fn is_hops_away(
    sources: Seq<i64>,
    store: Map<i64, FactView>,
    id: i64,
    hops: nat,
) -> bool
    decreases hops,
{
    if hops == 0 {
        false
    } else if hops == 1 {
        sources.contains(id)
    } else {
        exists|p: i64| #[trigger]
            store.dom().contains(p) && store[p].derived_from.contains(id) && is_hops_away(
                sources,
                store,
                p,
                (hops - 1) as nat,
            )
    }
}

/// Every fact that waits is as many hops away as it is said to be.
pub open spec fn counts_hops(w: WalkView, sources: Seq<i64>, store: Map<i64, FactView>) -> bool {
    forall|e: (i64, usize)| #[trigger]
        w.queue.contains(e) ==> is_hops_away(sources, store, e.0, e.1 as nat)
}

/// What the store answers about a fact.
pub open spec fn stored(store: Map<i64, FactView>, id: i64) -> Option<FactView> {
    if store.dom().contains(id) {
        Some(store[id])
    } else {
        None
    }
}

/// A walk counts its hops from the start.
pub proof fn law_walk_starts_one_hop_away(sources: Seq<i64>, store: Map<i64, FactView>)
    ensures
        counts_hops(WalkView::start(sources), sources, store),
        WalkView::start(sources).wf(),
{
    let w = WalkView::start(sources);
    assert forall|e: (i64, usize)| #[trigger] w.queue.contains(e) implies is_hops_away(
        sources,
        store,
        e.0,
        e.1 as nat,
    ) by {
        let k = choose|k: int| 0 <= k < w.queue.len() && w.queue[k] == e;
        assert(sources[k] == e.0);
    }
}

/// No fact is asked for that lies more than the allowed number of hops away,
/// and the walk goes on counting them.
pub proof fn law_hops_are_bounded(w: WalkView, sources: Seq<i64>, store: Map<i64, FactView>)
    requires
        w.wf(),
        counts_hops(w, sources, store),
        w.chosen().1 is Some,
    ensures
        ({
            let (chosen, id) = w.chosen();
            let next = chosen.absorbed(id->0, stored(store, id->0));
            &&& is_hops_away(sources, store, id->0, chosen.hops as nat)
            &&& chosen.hops <= MAX_DERIVATION_DEPTH
            &&& counts_hops(next, sources, store)
        }),
{
    lemma_chosen(w);
    let (chosen, found) = w.chosen();
    let id = found->0;
    let next = chosen.absorbed(id, stored(store, id));
    let k = choose|k: int| 0 <= k < w.queue.len() && w.queue[k] == (id, chosen.hops);
    assert(w.queue[k].1 <= MAX_DERIVATION_DEPTH);
    assert(is_hops_away(sources, store, (id, chosen.hops).0, chosen.hops as nat));
    assert(chosen.hops > 0);
    assert forall|e: (i64, usize)| #[trigger] next.queue.contains(e) implies is_hops_away(
        sources,
        store,
        e.0,
        e.1 as nat,
    ) by {
        let i = choose|i: int| 0 <= i < next.queue.len() && next.queue[i] == e;
        if i < chosen.queue.len() {
            assert(chosen.queue[i] == e);
            assert(chosen.queue.contains(e));
            assert(w.queue.contains(e));
        } else {
            let parents = store[id].derived_from;
            let fresh = unseen(parents, chosen.seen);
            assert(fresh[i - chosen.queue.len()] == e.0);
            lemma_unseen(parents, chosen.seen);
            assert(parents.contains(e.0));
            assert(e.1 == chosen.hops + 1);
            lemma_one_hop_more(sources, store, id, e.0, chosen.hops as nat);
        }
    }
}

/// The source of a fact is one hop further away than the fact.
proof fn lemma_one_hop_more(
    sources: Seq<i64>,
    store: Map<i64, FactView>,
    id: i64,
    source: i64,
    hops: nat,
)
    requires
        is_hops_away(sources, store, id, hops),
        store.dom().contains(id),
        store[id].derived_from.contains(source),
    ensures
        is_hops_away(sources, store, source, hops + 1),
{
    assert(hops > 0);
    assert((hops + 1 - 1) as nat == hops);
}

/// What has not been asked for is among the parents.
proof fn lemma_unseen(parents: Seq<i64>, seen: Seq<i64>)
    ensures
        forall|i: int|
            0 <= i < unseen(parents, seen).len() ==> parents.contains(
                #[trigger] unseen(parents, seen)[i],
            ),
    decreases parents.len(),
{
    if parents.len() > 0 {
        let front = parents.drop_last();
        lemma_unseen(front, seen);
        let all = unseen(parents, seen);
        assert forall|i: int| 0 <= i < all.len() implies parents.contains(#[trigger] all[i]) by {
            if i < unseen(front, seen).len() {
                assert(front.contains(unseen(front, seen)[i]));
                let k = choose|k: int| 0 <= k < front.len() && front[k] == all[i];
                assert(parents[k] == all[i]);
            } else {
                assert(parents[parents.len() - 1] == all[i]);
            }
        }
    }
}

/// Read which fact is asked about.
pub fn provenance_request(args: &Json) -> (r: Result<i64, Error>)
    ensures
        match r {
            Ok(id) => id_fault(args@, "fact_id"@) is None && given_int(args@, "fact_id"@) == Some(
                id as int,
            ),
            Err(e) => e is InvalidInput && id_fault(args@, "fact_id"@) == Some(e.text()),
        },
{
    positive_id(args, "fact_id")
}

/// The error for a fact that is not stored.
pub fn unknown_fact(fact_id: i64) -> (e: Error)
    ensures
        e is NotFound,
        e.text() == "no fact with id "@ + signed_decimal(fact_id as int),
{
    let digits: String = signed_text(fact_id);
    Error::NotFound(cat("no fact with id ", digits.as_str()))
}

/// The passage that a fact rests on, and where it stands in its source.
#[derive(Debug)]
pub struct EvidenceAnchor {
    pub content: Option<String>,
    pub start_offset: Option<i64>,
    pub end_offset: Option<i64>,
}

/// The answer about a fact.
pub open spec fn provenance_answer(
    f: FactView,
    content: Option<Seq<char>>,
    start: Option<i64>,
    end: Option<i64>,
    sources: Seq<JsonView>,
) -> JsonView {
    JsonView::Object(
        seq![
            ("fact_id"@, id_or_null(f.id)),
            ("fact_type"@, JsonView::Text(f.fact_type.name())),
            ("time"@, JsonView::Int(f.time as int)),
            ("payload"@, f.payload),
            ("confidence"@, f.confidence.number()),
            ("status"@, JsonView::Text(f.status)),
            ("evidence"@, text_or_null(content)),
            ("evidence_start"@, id_or_null(start)),
            ("evidence_end"@, id_or_null(end)),
            ("derived_from"@, JsonView::Array(sources)),
        ],
    )
}

/// Answer about a fact, with the passage it rests on, if any, and the walk
/// over its sources.
pub fn provenance_reply(f: &Fact, anchor: Option<EvidenceAnchor>, walk: DerivationWalk) -> (j: Json)
    ensures
        j@ == provenance_answer(
            f@,
            match anchor {
                Some(a) => opt_text(a.content),
                None => None,
            },
            match anchor {
                Some(a) => a.start_offset,
                None => None,
            },
            match anchor {
                Some(a) => a.end_offset,
                None => None,
            },
            walk@.expanded,
        ),
{
    let ghost given = anchor;
    let a: EvidenceAnchor = match anchor {
        Some(a) => a,
        None => EvidenceAnchor { content: None, start_offset: None, end_offset: None },
    };
    let ghost want = provenance_answer(
        f@,
        opt_text(a.content),
        a.start_offset,
        a.end_offset,
        walk@.expanded,
    );
    let j: Json = object(
        vec![
            member("fact_id", nullable_id(f.id)),
            member("fact_type", text(f.fact_type.label())),
            member("time", integer(f.time)),
            member("payload", f.payload.copy()),
            member("confidence", f.confidence.number()),
            member("status", text(f.status.as_str())),
            member("evidence", nullable_text(&a.content)),
            member("evidence_start", nullable_id(a.start_offset)),
            member("evidence_end", nullable_id(a.end_offset)),
            member("derived_from", array(walk.expanded)),
        ],
    );
    assert(j@->Object_0 =~= want->Object_0);
    j
}

/// What looking up a fact does to the walk: a stored fact is shown and counted,
/// and each of its sources that was not asked for yet waits, one hop further
/// away, unless the fact lies eight hops away; a fact that is not stored is shown
/// as missing and leads nowhere. What was shown and what waits stays.
pub proof fn law_sources_are_followed(w: WalkView, id: i64, f: FactView)
    ensures
        ({
            let next = w.absorbed(id, Some(f));
            &&& next.expanded == w.expanded.push(summary_wire(f))
            &&& next.visited == w.visited + 1
            &&& next.seen == w.seen
            &&& next.hops == w.hops
            &&& w.hops >= 8 ==> next.queue == w.queue
            &&& w.hops < 8 ==> w.queue.len() <= next.queue.len() && next.queue.subrange(
                0,
                w.queue.len() as int,
            ) == w.queue
            &&& forall|s: i64|
                w.hops < 8 && #[trigger] f.derived_from.contains(s) && !w.seen.contains(s)
                    ==> next.queue.contains((s, (w.hops + 1) as usize))
            &&& forall|k: int|
                w.queue.len() <= k < next.queue.len() ==> {
                    &&& (#[trigger] next.queue[k]).1 == w.hops + 1
                    &&& f.derived_from.contains(next.queue[k].0)
                    &&& !w.seen.contains(next.queue[k].0)
                }
        }),
        w.absorbed(id, None) == (WalkView {
            expanded: w.expanded.push(dangling_wire(id)),
            ..w
        }),
{
    let next = w.absorbed(id, Some(f));
    let fresh = unseen(f.derived_from, w.seen);
    lemma_unseen_is_all(f.derived_from, w.seen);
    if w.hops < 8 {
        let more = at_distance(fresh, (w.hops + 1) as usize);
        assert(next.queue == w.queue + more);
        assert(next.queue.subrange(0, w.queue.len() as int) =~= w.queue);
        assert forall|s: i64| #[trigger]
            f.derived_from.contains(s) && !w.seen.contains(s) implies next.queue.contains(
            (s, (w.hops + 1) as usize),
        ) by {
            assert(fresh.contains(s));
            let k = choose|k: int| 0 <= k < fresh.len() && fresh[k] == s;
            assert(more[k] == (s, (w.hops + 1) as usize));
            assert(next.queue[w.queue.len() + k] == more[k]);
        }
        assert forall|k: int| w.queue.len() <= k < next.queue.len() implies {
            &&& (#[trigger] next.queue[k]).1 == w.hops + 1
            &&& f.derived_from.contains(next.queue[k].0)
            &&& !w.seen.contains(next.queue[k].0)
        } by {
            assert(next.queue[k] == more[k - w.queue.len()]);
            assert(fresh.contains(fresh[k - w.queue.len()]));
        }
    }
}

/// What has not been asked for is all of that.
proof fn lemma_unseen_is_all(parents: Seq<i64>, seen: Seq<i64>)
    ensures
        forall|s: i64| #[trigger]
            unseen(parents, seen).contains(s) <==> parents.contains(s) && !seen.contains(s),
    decreases parents.len(),
{
    if parents.len() > 0 {
        let front = parents.drop_last();
        let before = unseen(front, seen);
        let all = unseen(parents, seen);
        lemma_unseen_is_all(front, seen);
        assert forall|s: i64| #[trigger] all.contains(s) <==> parents.contains(s) && !seen.contains(
            s,
        ) by {
            if all.contains(s) {
                let k = choose|k: int| 0 <= k < all.len() && all[k] == s;
                if k < before.len() {
                    assert(before[k] == s);
                    assert(before.contains(s));
                    let j = choose|j: int| 0 <= j < front.len() && front[j] == s;
                    assert(parents[j] == s);
                } else {
                    assert(parents[parents.len() - 1] == s);
                }
            }
            if parents.contains(s) && !seen.contains(s) {
                let j = choose|j: int| 0 <= j < parents.len() && parents[j] == s;
                if j < front.len() {
                    assert(front[j] == s);
                    assert(before.contains(s));
                    let k = choose|k: int| 0 <= k < before.len() && before[k] == s;
                    assert(all[k] == s);
                } else {
                    assert(all[before.len() as int] == s);
                }
            }
        }
    }
}

/// The walk stops only when it has to: when it asks for nothing more, it has
/// visited thirty-two facts, or everything that waited was asked for already. What
/// it asks for waited, and nothing that was not asked for before is passed over
/// on the way there.
pub proof fn law_walk_leaves_nothing_out(w: WalkView)
    ensures
        w.chosen().1 is None ==> w.visited >= 32 || forall|i: int|
            0 <= i < w.queue.len() ==> w.seen.contains((#[trigger] w.queue[i]).0),
        w.visited >= 32 ==> w.chosen().1 is None,
        w.chosen().1 matches Some(id) ==> exists|i: int|
            {
                &&& 0 <= i < w.queue.len()
                &&& #[trigger] w.queue[i] == (id, w.chosen().0.hops)
                &&& w.chosen().0.queue == w.queue.subrange(0, i)
                &&& forall|k: int|
                    i < k < w.queue.len() ==> w.seen.contains((#[trigger] w.queue[k]).0)
            },
    decreases w.queue.len(),
{
    if w.queue.len() > 0 && w.visited < MAX_DERIVATION_NODES {
        let rest = WalkView { queue: w.queue.drop_last(), ..w };
        let n = rest.queue.len() as int;
        assert(w.queue[n] == w.queue.last());
        if w.seen.contains(w.queue.last().0) {
            law_walk_leaves_nothing_out(rest);
            assert forall|i: int| 0 <= i < n implies #[trigger] w.queue[i] == rest.queue[i] by {}
            if rest.chosen().1 is Some {
                let id = rest.chosen().1->0;
                let i = choose|i: int|
                    {
                        &&& 0 <= i < rest.queue.len()
                        &&& #[trigger] rest.queue[i] == (id, rest.chosen().0.hops)
                        &&& rest.chosen().0.queue == rest.queue.subrange(0, i)
                        &&& forall|k: int|
                            i < k < rest.queue.len() ==> rest.seen.contains(
                                (#[trigger] rest.queue[k]).0,
                            )
                    };
                assert(w.queue[i] == rest.queue[i]);
                assert(rest.queue.subrange(0, i) =~= w.queue.subrange(0, i));
                assert forall|k: int| i < k < w.queue.len() implies w.seen.contains(
                    (#[trigger] w.queue[k]).0,
                ) by {
                    if k < n {
                        assert(rest.queue[k] == w.queue[k]);
                    }
                }
            } else {
                assert forall|i: int| 0 <= i < w.queue.len() implies w.seen.contains(
                    (#[trigger] w.queue[i]).0,
                ) by {
                    if i < n {
                        assert(rest.queue[i] == w.queue[i]);
                    }
                }
            }
        } else {
            assert(w.queue.drop_last() =~= w.queue.subrange(0, n));
        }
    }
}

/// A source that is stored is told in short; one that is not, as missing.
pub proof fn law_source_is_told(f: FactView)
    ensures
        ({
            let j = summary_wire(f);
            &&& j.get("fact_id"@) == Some(id_or_null(f.id))
            &&& j.get("fact_type"@) == Some(JsonView::Text(f.fact_type.name()))
            &&& j.get("time"@) == Some(JsonView::Int(f.time as int))
            &&& j.get("content"@) == Some(content_wire(f))
            &&& j.get("status"@) == Some(JsonView::Text(f.status))
        }),
{
    reveal_strlit("fact_id");
    reveal_strlit("fact_type");
    reveal_strlit("time");
    reveal_strlit("content");
    reveal_strlit("status");
    assert("content"@[0] == 'c');
    assert("fact_id"@[0] == 'f');
    let m = summary_wire(f)->Object_0;
    assert(m[0].0 == "fact_id"@);
    assert(m[1].0 == "fact_type"@);
    assert(m[2].0 == "time"@);
    assert(m[3].0 == "content"@);
    assert(m[4].0 == "status"@);
    crate::json::law_first_member_counts(m, "fact_id"@, 0);
    crate::json::law_first_member_counts(m, "fact_type"@, 1);
    crate::json::law_first_member_counts(m, "time"@, 2);
    crate::json::law_first_member_counts(m, "content"@, 3);
    crate::json::law_first_member_counts(m, "status"@, 4);
}

/// A source that is not stored is told under its id, as missing.
pub proof fn law_missing_source_is_told(id: i64)
    ensures
        ({
            let j = dangling_wire(id);
            &&& j.get("fact_id"@) == Some(JsonView::Int(id as int))
            &&& j.get("missing"@) == Some(JsonView::Bool(true))
            &&& j.get("status"@) == Some(JsonView::Text("active"@))
        }),
{
    reveal_strlit("fact_id");
    reveal_strlit("missing");
    reveal_strlit("status");
    assert("fact_id"@[0] == 'f');
    assert("missing"@[0] == 'm');
    let m = dangling_wire(id)->Object_0;
    assert(m[0].0 == "fact_id"@);
    assert(m[1].0 == "missing"@);
    assert(m[2].0 == "status"@);
    crate::json::law_first_member_counts(m, "fact_id"@, 0);
    crate::json::law_first_member_counts(m, "missing"@, 1);
    crate::json::law_first_member_counts(m, "status"@, 2);
}

/// Of a fact it is told what it says, how sure it is, which passage shows it and
/// what it was derived from.
pub proof fn law_provenance_is_told(
    f: FactView,
    content: Option<Seq<char>>,
    start: Option<i64>,
    end: Option<i64>,
    sources: Seq<JsonView>,
)
    ensures
        ({
            let j = provenance_answer(f, content, start, end, sources);
            &&& j.get("fact_id"@) == Some(id_or_null(f.id))
            &&& j.get("fact_type"@) == Some(JsonView::Text(f.fact_type.name()))
            &&& j.get("time"@) == Some(JsonView::Int(f.time as int))
            &&& j.get("payload"@) == Some(f.payload)
            &&& j.get("confidence"@) == Some(f.confidence.number())
            &&& j.get("status"@) == Some(JsonView::Text(f.status))
            &&& j.get("evidence"@) == Some(text_or_null(content))
            &&& j.get("evidence_start"@) == Some(id_or_null(start))
            &&& j.get("evidence_end"@) == Some(id_or_null(end))
            &&& j.get("derived_from"@) == Some(JsonView::Array(sources))
        }),
{
    reveal_strlit("fact_id");
    reveal_strlit("fact_type");
    reveal_strlit("time");
    reveal_strlit("payload");
    reveal_strlit("confidence");
    reveal_strlit("status");
    reveal_strlit("evidence");
    reveal_strlit("evidence_start");
    reveal_strlit("evidence_end");
    reveal_strlit("derived_from");
    assert("derived_from"@[0] == 'd');
    assert("evidence_end"@[0] == 'e');
    assert("fact_id"@[0] == 'f');
    assert("payload"@[0] == 'p');
    let m = provenance_answer(f, content, start, end, sources)->Object_0;
    assert(m[0].0 == "fact_id"@);
    assert(m[1].0 == "fact_type"@);
    assert(m[2].0 == "time"@);
    assert(m[3].0 == "payload"@);
    assert(m[4].0 == "confidence"@);
    assert(m[5].0 == "status"@);
    assert(m[6].0 == "evidence"@);
    assert(m[7].0 == "evidence_start"@);
    assert(m[8].0 == "evidence_end"@);
    assert(m[9].0 == "derived_from"@);
    crate::json::law_first_member_counts(m, "fact_id"@, 0);
    crate::json::law_first_member_counts(m, "fact_type"@, 1);
    crate::json::law_first_member_counts(m, "time"@, 2);
    crate::json::law_first_member_counts(m, "payload"@, 3);
    crate::json::law_first_member_counts(m, "confidence"@, 4);
    crate::json::law_first_member_counts(m, "status"@, 5);
    crate::json::law_first_member_counts(m, "evidence"@, 6);
    crate::json::law_first_member_counts(m, "evidence_start"@, 7);
    crate::json::law_first_member_counts(m, "evidence_end"@, 8);
    crate::json::law_first_member_counts(m, "derived_from"@, 9);
}

} // verus!
