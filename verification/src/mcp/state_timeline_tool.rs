//! How an entity's state came to be: for each dimension the states it was in,
//! and the definite changes between them.
use vstd::prelude::*;

use crate::error::Error;
use crate::json::{array, count, elements, integer, member, object, text, Json, JsonView};
use crate::mcp::args::{given_int, opt_int};
use crate::mcp::http_server::opt_str_view;
use crate::mcp::knowledge_tools::missing;
use crate::mcp::relationship_tool::{id_or_null, ids_to_json, ids_wire, nullable_id};
use crate::mcp::tenant_scope::{
    ensure_entity_tenant, scope_refusal, tenant_argument, tenant_asked, TenantArgument,
};
use crate::mcp::types::opt_text;
use crate::text::{cat3, same_text, words};

verus! {

/// The tool, over a handle to the fact store.
pub struct StateTimelineTool<S> {
    pub store: S,
}

impl<S> StateTimelineTool<S> {
    /// A tool over this store.
    pub fn new(store: S) -> (t: StateTimelineTool<S>)
        ensures
            t.store == store,
    {
        StateTimelineTool { store }
    }
}

/// The dimensions of an entity's state.
pub open spec fn dimensions() -> Seq<Seq<char>> {
    seq!["goal"@, "preference"@, "emotion"@, "relationship"@, "identity"@]
}

/// The dimensions of an entity's state.
pub fn state_timeline_dimensions() -> (v: Vec<&'static str>)
    ensures
        words(v@) == dimensions(),
{
    let v: Vec<&'static str> = vec!["goal", "preference", "emotion", "relationship", "identity"];
    assert(words(v@) =~= dimensions());
    v
}

/// Whether the name is that of a dimension.
fn is_dimension(name: &str) -> (r: bool)
    ensures
        r == dimensions().contains(name@),
{
    let v: Vec<&'static str> = state_timeline_dimensions();
    let ghost all = dimensions();
    let mut i: usize = 0;
    while i < v.len()
        invariant
            i <= v@.len(),
            all == words(v@),
            all == dimensions(),
            forall|k: int| 0 <= k < i ==> #[trigger] all[k] != name@,
        decreases v.len() - i,
    {
        assert(all[i as int] == v@[i as int]@);
        if same_text(v[i], name) {
            return true;
        }
        i = i + 1;
    }
    false
}

/// A request for an entity's states.
#[derive(Debug)]
pub struct StateRequest {
    pub entity_id: i64,
    /// The one dimension that is asked for; all of them when none is named.
    pub dimension: Option<String>,
    /// The tenant that the entity must belong to, when one is named.
    pub tenant_id: Option<String>,
}

/// What is wrong with the dimension of a request, if anything.
pub open spec fn dimension_fault(args: JsonView) -> Option<Seq<char>> {
    match args.get("dimension"@) {
        None => None,
        Some(JsonView::Null) => None,
        Some(JsonView::Text(name)) => if dimensions().contains(name) {
            None
        } else {
            Some(
                "unknown dimension `"@ + name
                    + "`, expected one of [\"goal\", \"preference\", \"emotion\", \"relationship\", \"identity\"]"@,
            )
        },
        Some(_) => Some("`dimension` must be a string"@),
    }
}

/// What is wrong with a request, if anything.
pub open spec fn state_fault(args: JsonView) -> Option<Seq<char>> {
    if given_int(args, "entity_id"@) is None {
        Some(missing("entity_id"@))
    } else if dimension_fault(args) is Some {
        dimension_fault(args)
    } else if tenant_asked(args) is Invalid {
        Some("`tenant_id` must be a non-empty string"@)
    } else {
        None
    }
}

/// The dimension that is asked for.
pub open spec fn dimension_asked(args: JsonView) -> Option<Seq<char>> {
    match args.get("dimension"@) {
        Some(JsonView::Text(name)) => Some(name),
        _ => None,
    }
}

/// Read a request for an entity's states.
pub fn state_request(args: &Json) -> (r: Result<StateRequest, Error>)
    ensures
        match r {
            Ok(q) => {
                &&& state_fault(args@) is None
                &&& given_int(args@, "entity_id"@) == Some(q.entity_id as int)
                &&& opt_text(q.dimension) == dimension_asked(args@)
                &&& match q.tenant_id {
                    Some(t) => tenant_asked(args@) == TenantArgument::Scoped(t@),
                    None => tenant_asked(args@) is Unscoped,
                }
            },
            Err(e) => e is InvalidInput && state_fault(args@) == Some(e.text()),
        },
{
    let entity_id: i64 = match opt_int(args, "entity_id") {
        Some(n) => n,
        None => {
            return Err(
                Error::InvalidInput(cat3("missing required argument `", "entity_id", "`")),
            );
        },
    };
    let dimension: Option<String> = match read_dimension(args) {
        Ok(d) => d,
        Err(e) => {
            return Err(e);
        },
    };
    match tenant_argument(args) {
        Ok(tenant_id) => Ok(StateRequest { entity_id, dimension, tenant_id }),
        Err(e) => Err(e),
    }
}

/// Read the dimension that is asked for.
fn read_dimension(args: &Json) -> (r: Result<Option<String>, Error>)
    ensures
        match r {
            Ok(d) => dimension_fault(args@) is None && opt_text(d) == dimension_asked(args@),
            Err(e) => e is InvalidInput && dimension_fault(args@) == Some(e.text()),
        },
{
    let value: &Json = match args.get("dimension") {
        None => {
            return Ok(None);
        },
        Some(v) => v,
    };
    if value.is_null() {
        return Ok(None);
    }
    match value.as_str() {
        None => Err(Error::InvalidInput("`dimension` must be a string".to_owned())),
        Some(name) => if is_dimension(name) {
            Ok(Some(name.to_owned()))
        } else {
            Err(
                Error::InvalidInput(
                    cat3(
                        "unknown dimension `",
                        name,
                        "`, expected one of [\"goal\", \"preference\", \"emotion\", \"relationship\", \"identity\"]",
                    ),
                ),
            )
        },
    }
}

/// Refuse a request for an entity that the tenant it names does not own. `owner`
/// is the tenant that owns the entity, or none when there is no such entity.
pub fn check_scope(q: &StateRequest, owner: Option<&str>) -> (r: Result<(), Error>)
    ensures
        match r {
            Ok(_) => scope_refusal(
                opt_str_view(owner),
                q.entity_id as int,
                opt_text(q.tenant_id),
            ) is None,
            Err(e) => e is NotFound && scope_refusal(
                opt_str_view(owner),
                q.entity_id as int,
                opt_text(q.tenant_id),
            ) == Some(e.text()),
        },
{
    match &q.tenant_id {
        Some(t) => ensure_entity_tenant(owner, q.entity_id, Some(t.as_str())),
        None => ensure_entity_tenant(owner, q.entity_id, None),
    }
}

/// A state, and the time for which it held.
#[derive(Debug)]
pub struct StateInterval {
    pub from: i64,
    /// When it ended; the state that holds has no end.
    pub to: Option<i64>,
    pub value: Json,
    pub fact_ids: Vec<i64>,
    pub evidence_ids: Vec<i64>,
}

/// A definite change from one state to another.
#[derive(Debug)]
pub struct StateTransition {
    pub from_index: u64,
    pub to_index: u64,
    pub at: i64,
    pub transition_type: String,
    pub evidence_ids: Vec<i64>,
}

/// The states of one dimension, in order of time.
#[derive(Debug)]
pub struct StateEvolution {
    pub key: String,
    pub intervals: Vec<StateInterval>,
    pub transitions: Vec<StateTransition>,
}

/// A state on the wire.
pub open spec fn interval_wire(s: StateInterval) -> JsonView {
    JsonView::Object(
        seq![
            ("from"@, JsonView::Int(s.from as int)),
            ("to"@, id_or_null(s.to)),
            ("value"@, s.value@),
            ("fact_ids"@, ids_wire(s.fact_ids@)),
            ("evidence_ids"@, ids_wire(s.evidence_ids@)),
        ],
    )
}

/// A state on the wire.
pub fn interval_json(s: &StateInterval) -> (j: Json)
    ensures
        j@ == interval_wire(*s),
{
    let j: Json = object(
        vec![
            member("from", integer(s.from)),
            member("to", nullable_id(s.to)),
            member("value", s.value.copy()),
            member("fact_ids", ids_to_json(&s.fact_ids)),
            member("evidence_ids", ids_to_json(&s.evidence_ids)),
        ],
    );
    assert(j@->Object_0 =~= interval_wire(*s)->Object_0);
    j
}

/// A change on the wire.
pub open spec fn transition_wire(t: StateTransition) -> JsonView {
    JsonView::Object(
        seq![
            ("from_index"@, JsonView::Int(t.from_index as int)),
            ("to_index"@, JsonView::Int(t.to_index as int)),
            ("at"@, JsonView::Int(t.at as int)),
            ("transition_type"@, JsonView::Text(t.transition_type@)),
            ("evidence_ids"@, ids_wire(t.evidence_ids@)),
        ],
    )
}

/// A change on the wire.
pub fn transition_json(t: &StateTransition) -> (j: Json)
    ensures
        j@ == transition_wire(*t),
{
    let j: Json = object(
        vec![
            member("from_index", count(t.from_index)),
            member("to_index", count(t.to_index)),
            member("at", integer(t.at)),
            member("transition_type", text(t.transition_type.as_str())),
            member("evidence_ids", ids_to_json(&t.evidence_ids)),
        ],
    );
    assert(j@->Object_0 =~= transition_wire(*t)->Object_0);
    j
}

/// The states of one dimension on the wire.
pub open spec fn evolution_wire(e: StateEvolution) -> JsonView {
    JsonView::Object(
        seq![
            ("dimension"@, JsonView::Text(e.key@)),
            (
                "intervals"@,
                JsonView::Array(
                    Seq::new(e.intervals@.len(), |i: int| interval_wire(e.intervals@[i])),
                ),
            ),
            (
                "transitions"@,
                JsonView::Array(
                    Seq::new(e.transitions@.len(), |i: int| transition_wire(e.transitions@[i])),
                ),
            ),
        ],
    )
}

/// The states of one dimension on the wire.
pub fn evolution_json(e: &StateEvolution) -> (j: Json)
    ensures
        j@ == evolution_wire(*e),
{
    let ghost want = evolution_wire(*e);
    let mut states: Vec<Json> = Vec::new();
    let mut i: usize = 0;
    while i < e.intervals.len()
        invariant
            i <= e.intervals@.len(),
            states@.len() == i,
            forall|k: int| 0 <= k < i ==> (#[trigger] states@[k])@ == interval_wire(e.intervals@[k]),
        decreases e.intervals.len() - i,
    {
        states.push(interval_json(&e.intervals[i]));
        i = i + 1;
    }
    let intervals: Json = array(states);
    assert(intervals@->Array_0 =~= want->Object_0[1].1->Array_0);
    let mut changes: Vec<Json> = Vec::new();
    let mut k: usize = 0;
    while k < e.transitions.len()
        invariant
            k <= e.transitions@.len(),
            changes@.len() == k,
            forall|m: int|
                0 <= m < k ==> (#[trigger] changes@[m])@ == transition_wire(e.transitions@[m]),
        decreases e.transitions.len() - k,
    {
        changes.push(transition_json(&e.transitions[k]));
        k = k + 1;
    }
    let transitions: Json = array(changes);
    assert(transitions@->Array_0 =~= want->Object_0[2].1->Array_0);
    let j: Json = object(
        vec![
            member("dimension", text(e.key.as_str())),
            member("intervals", intervals),
            member("transitions", transitions),
        ],
    );
    assert(j@->Object_0 =~= want->Object_0);
    j
}

/// The evolutions of the dimension that is asked for, or all of them, on the
/// wire.
pub open spec fn shown_evolutions(v: Seq<StateEvolution>, dimension: Option<Seq<char>>) -> Seq<
    JsonView,
>
    decreases v.len(),
{
    if v.len() == 0 {
        Seq::empty()
    } else {
        let before = shown_evolutions(v.drop_last(), dimension);
        if dimension is None || dimension == Some(v.last().key@) {
            before.push(evolution_wire(v.last()))
        } else {
            before
        }
    }
}

/// The answer with an entity's states.
pub open spec fn state_answer(entity_id: int, shown: Seq<JsonView>) -> JsonView {
    JsonView::Object(
        seq![
            ("entity_id"@, JsonView::Int(entity_id)),
            ("dimensions"@, JsonView::Array(shown)),
        ],
    )
}

/// Answer with an entity's states.
pub fn state_reply(q: &StateRequest, evolutions: &Vec<StateEvolution>) -> (j: Json)
    ensures
        j@ == state_answer(
            q.entity_id as int,
            shown_evolutions(evolutions@, opt_text(q.dimension)),
        ),
{
    let ghost asked = opt_text(q.dimension);
    let mut out: Vec<Json> = Vec::new();
    let mut i: usize = 0;
    assert(evolutions@.subrange(0, 0) =~= Seq::empty());
    assert(elements(out@) =~= Seq::empty());
    while i < evolutions.len()
        invariant
            i <= evolutions@.len(),
            asked == opt_text(q.dimension),
            elements(out@) == shown_evolutions(evolutions@.subrange(0, i as int), asked),
        decreases evolutions.len() - i,
    {
        let ghost now = evolutions@.subrange(0, i + 1);
        let ghost before = elements(out@);
        assert(now.drop_last() == evolutions@.subrange(0, i as int));
        assert(now.last() == evolutions@[i as int]);
        let wanted: bool = match &q.dimension {
            None => true,
            Some(name) => same_text(name.as_str(), evolutions[i].key.as_str()),
        };
        if wanted {
            out.push(evolution_json(&evolutions[i]));
            assert(elements(out@) =~= before.push(evolution_wire(evolutions@[i as int])));
        }
        i = i + 1;
    }
    assert(evolutions@.subrange(0, evolutions@.len() as int) == evolutions@);
    let ghost want = state_answer(
        q.entity_id as int,
        shown_evolutions(evolutions@, asked),
    );
    let j: Json = object(
        vec![member("entity_id", integer(q.entity_id)), member("dimensions", array(out))],
    );
    assert(j@->Object_0 =~= want->Object_0);
    j
}

/// The states of a dimension are shown exactly when it is the one that is asked
/// for, or none is named; in the order in which they come.
pub proof fn law_asked_dimension_is_shown(
    v: Seq<StateEvolution>,
    e: StateEvolution,
    name: Seq<char>,
)
    ensures
        shown_evolutions(v.push(e), None) == shown_evolutions(v, None).push(evolution_wire(e)),
        e.key@ == name ==> shown_evolutions(v.push(e), Some(name)) == shown_evolutions(
            v,
            Some(name),
        ).push(evolution_wire(e)),
        e.key@ != name ==> shown_evolutions(v.push(e), Some(name)) == shown_evolutions(
            v,
            Some(name),
        ),
        shown_evolutions(Seq::empty(), None).len() == 0,
        shown_evolutions(Seq::empty(), Some(name)).len() == 0,
{
    assert(v.push(e).drop_last() =~= v);
}

/// A request passes exactly when it names an entity by number, a dimension of
/// the five or none, and a tenant that is not blank or none.
pub proof fn law_state_requests_pass(args: JsonView)
    ensures
        state_fault(args) is None <==> {
            &&& given_int(args, "entity_id"@) is Some
            &&& match args.get("dimension"@) {
                None => true,
                Some(JsonView::Null) => true,
                Some(JsonView::Text(d)) => d == "goal"@ || d == "preference"@ || d == "emotion"@
                    || d == "relationship"@ || d == "identity"@,
                Some(_) => false,
            }
            &&& !(tenant_asked(args) is Invalid)
        },
{
    if args.get("dimension"@) is Some && args.get("dimension"@)->0 is Text {
        let d = args.get("dimension"@)->0->Text_0;
        let all = dimensions();
        assert(all[0] == "goal"@ && all[1] == "preference"@ && all[2] == "emotion"@ && all[3]
            == "relationship"@ && all[4] == "identity"@);
        if all.contains(d) {
            let i = choose|i: int| 0 <= i < all.len() && all[i] == d;
            assert(i == 0 || i == 1 || i == 2 || i == 3 || i == 4);
        }
    }
}

/// The answer names the entity and shows its dimensions in order.
pub proof fn law_states_are_answered(entity_id: int, shown: Seq<JsonView>)
    ensures
        ({
            let j = state_answer(entity_id, shown);
            &&& j.get("entity_id"@) == Some(JsonView::Int(entity_id))
            &&& j.get("dimensions"@) == Some(JsonView::Array(shown))
        }),
{
    reveal_strlit("entity_id");
    reveal_strlit("dimensions");
    let m = state_answer(entity_id, shown)->Object_0;
    assert(m[0].0 == "entity_id"@);
    assert(m[1].0 == "dimensions"@);
    crate::json::law_first_member_counts(m, "entity_id"@, 0);
    crate::json::law_first_member_counts(m, "dimensions"@, 1);
}

/// A state is told with its time, its value and what shows it.
pub proof fn law_state_is_told(s: StateInterval)
    ensures
        ({
            let j = interval_wire(s);
            &&& j.get("from"@) == Some(JsonView::Int(s.from as int))
            &&& j.get("to"@) == Some(id_or_null(s.to))
            &&& j.get("value"@) == Some(s.value@)
            &&& j.get("fact_ids"@) == Some(ids_wire(s.fact_ids@))
            &&& j.get("evidence_ids"@) == Some(ids_wire(s.evidence_ids@))
        }),
{
    reveal_strlit("from");
    reveal_strlit("to");
    reveal_strlit("value");
    reveal_strlit("fact_ids");
    reveal_strlit("evidence_ids");
    let m = interval_wire(s)->Object_0;
    assert(m[0].0 == "from"@);
    assert(m[1].0 == "to"@);
    assert(m[2].0 == "value"@);
    assert(m[3].0 == "fact_ids"@);
    assert(m[4].0 == "evidence_ids"@);
    crate::json::law_first_member_counts(m, "from"@, 0);
    crate::json::law_first_member_counts(m, "to"@, 1);
    crate::json::law_first_member_counts(m, "value"@, 2);
    crate::json::law_first_member_counts(m, "fact_ids"@, 3);
    crate::json::law_first_member_counts(m, "evidence_ids"@, 4);
}

/// A change is told from the state before it to the state behind it.
pub proof fn law_change_is_told(t: StateTransition)
    ensures
        ({
            let j = transition_wire(t);
            &&& j.get("from_index"@) == Some(JsonView::Int(t.from_index as int))
            &&& j.get("to_index"@) == Some(JsonView::Int(t.to_index as int))
            &&& j.get("at"@) == Some(JsonView::Int(t.at as int))
            &&& j.get("transition_type"@) == Some(JsonView::Text(t.transition_type@))
            &&& j.get("evidence_ids"@) == Some(ids_wire(t.evidence_ids@))
        }),
{
    reveal_strlit("from_index");
    reveal_strlit("to_index");
    reveal_strlit("at");
    reveal_strlit("transition_type");
    reveal_strlit("evidence_ids");
    let m = transition_wire(t)->Object_0;
    assert(m[0].0 == "from_index"@);
    assert(m[1].0 == "to_index"@);
    assert(m[2].0 == "at"@);
    assert(m[3].0 == "transition_type"@);
    assert(m[4].0 == "evidence_ids"@);
    crate::json::law_first_member_counts(m, "from_index"@, 0);
    crate::json::law_first_member_counts(m, "to_index"@, 1);
    crate::json::law_first_member_counts(m, "at"@, 2);
    crate::json::law_first_member_counts(m, "transition_type"@, 3);
    crate::json::law_first_member_counts(m, "evidence_ids"@, 4);
}

} // verus!
