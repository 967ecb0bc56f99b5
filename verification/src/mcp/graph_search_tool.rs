//! Searching the knowledge graph for entities.
use vstd::prelude::*;

use crate::cognition::Score;
use crate::json::{array, count, member, object, strings, text, text_array, Json, JsonView};
use crate::mcp::args::{count_arg, count_or, given_text, held, hold, opt_str};
use crate::mcp::types::opt_text;
use crate::text::{contains, has_part, texts};

verus! {

/// How many results are returned unless asked otherwise.
pub const DEFAULT_LIMIT: u64 = 20;

/// At most this many results are returned.
pub const MAX_LIMIT: u64 = 200;

/// The tool, over a handle to the knowledge store.
pub struct GraphSearchTool<S> {
    pub store: S,
}

impl<S> GraphSearchTool<S> {
    /// A tool over this store.
    pub fn new(store: S) -> (t: GraphSearchTool<S>)
        ensures
            t.store == store,
    {
        GraphSearchTool { store }
    }
}

/// A request to search.
#[derive(Debug)]
pub struct GraphSearchRequest {
    pub name_contains: Option<String>,
    pub object_type: Option<String>,
    pub attribute: Option<String>,
    /// The title of the document to search in.
    pub doc_title: Option<String>,
    pub limit: u64,
}

/// Read a request to search.
pub fn graph_search_request(args: &Json) -> (q: GraphSearchRequest)
    ensures
        opt_text(q.name_contains) == given_text(args@, "query"@),
        opt_text(q.object_type) == given_text(args@, "object_type"@),
        opt_text(q.attribute) == given_text(args@, "attribute"@),
        opt_text(q.doc_title) == given_text(args@, "doc_title"@),
        q.limit == held(count_or(args@, "limit"@, DEFAULT_LIMIT as int), 0, MAX_LIMIT as int),
{
    GraphSearchRequest {
        name_contains: opt_str(args, "query"),
        object_type: opt_str(args, "object_type"),
        attribute: opt_str(args, "attribute"),
        doc_title: opt_str(args, "doc_title"),
        limit: hold(count_arg(args, "limit", DEFAULT_LIMIT), 0, MAX_LIMIT),
    }
}

/// Where a search looks.
#[derive(Debug, Clone, Copy, PartialEq, Eq)]
pub enum Scope {
    /// In every document.
    Everywhere,
    /// In this document only.
    Document(i64),
    /// Nowhere: the document that was named does not exist.
    Nothing,
}

/// Decide where a search looks: in the document that was named, if one was.
/// `found` is the document of that title, if there is one.
pub fn search_scope(title: Option<&str>, found: Option<i64>) -> (s: Scope)
    ensures
        s == (match title {
            None => Scope::Everywhere,
            Some(_) => match found {
                Some(id) => Scope::Document(id),
                None => Scope::Nothing,
            },
        }),
{
    match title {
        None => Scope::Everywhere,
        Some(_) => match found {
            Some(id) => Scope::Document(id),
            None => Scope::Nothing,
        },
    }
}

/// What `str::to_lowercase` makes of a text.
pub uninterp spec fn lowercased(s: Seq<char>) -> Seq<char>;

/// `str::to_lowercase`: the lowercase of a text by the rules of Unicode. The
/// result depends on the text alone; what it is for a given text is not
/// stated.
#[verifier::external_body]
fn lowercase(s: &str) -> (r: String)
    ensures
        r@ == lowercased(s@),
{
    s.to_lowercase()
}

/// A property of an entity: its key, and its value in JSON notation.
#[derive(Debug)]
pub struct Property {
    pub key: String,
    pub value: String,
}

/// The property answers the filter, without regard to case: its key or its
/// value has the text in it. `key`, `value` and `needle` are lowercase.
pub open spec fn property_answers(key: Seq<char>, value: Seq<char>, needle: Seq<char>) -> bool {
    has_part(key, needle) || has_part(value, needle)
}

/// The keys of the first `n` properties that answer the filter.
pub open spec fn answering_keys(properties: Seq<Property>, needle: Seq<char>, n: nat) -> Seq<
    Seq<char>,
>
    decreases n,
{
    if n == 0 {
        Seq::empty()
    } else {
        let before = answering_keys(properties, needle, (n - 1) as nat);
        let p = properties[n - 1];
        if property_answers(lowercased(p.key@), lowercased(p.value@), lowercased(needle)) {
            before.push(p.key@)
        } else {
            before
        }
    }
}

/// Whether a lowercase property answers a lowercase filter.
pub fn lowered_property_answers(key: &str, value: &str, needle: &str) -> (r: bool)
    ensures
        r == property_answers(key@, value@, needle@),
{
    contains(key, needle) || contains(value, needle)
}

/// The keys of the properties that answer the filter; none without a filter.
pub fn matched_attributes(properties: &Vec<Property>, attribute: Option<&str>) -> (v: Vec<String>)
    ensures
        texts(v@) == (match attribute {
            Some(needle) => answering_keys(properties@, needle@, properties@.len()),
            None => Seq::empty(),
        }),
{
    let mut v: Vec<String> = Vec::new();
    assert(texts(v@) =~= Seq::empty());
    let needle: &str = match attribute {
        Some(n) => n,
        None => {
            return v;
        },
    };
    let low: String = lowercase(needle);
    let mut i: usize = 0;
    while i < properties.len()
        invariant
            i <= properties@.len(),
            low@ == lowercased(needle@),
            texts(v@) == answering_keys(properties@, needle@, i as nat),
        decreases properties.len() - i,
    {
        let ghost before = texts(v@);
        let key: String = lowercase(properties[i].key.as_str());
        let value: String = lowercase(properties[i].value.as_str());
        if lowered_property_answers(key.as_str(), value.as_str(), low.as_str()) {
            v.push(properties[i].key.as_str().to_owned());
            assert(texts(v@) =~= before.push(properties@[i as int].key@));
        }
        i = i + 1;
    }
    v
}

/// The title of the document `id`: the last one listed under it, empty when
/// there is none.
pub open spec fn title_of(documents: Seq<(i64, String)>, id: i64) -> Seq<char>
    decreases documents.len(),
{
    if documents.len() == 0 {
        ""@
    } else if documents.last().0 == id {
        documents.last().1@
    } else {
        title_of(documents.drop_last(), id)
    }
}

/// The title of the document `id`.
pub fn doc_title(documents: &Vec<(i64, String)>, id: i64) -> (s: String)
    ensures
        s@ == title_of(documents@, id),
{
    let mut i: usize = documents.len();
    assert(documents@.subrange(0, documents@.len() as int) == documents@);
    while i > 0
        invariant
            i <= documents@.len(),
            title_of(documents@, id) == title_of(documents@.subrange(0, i as int), id),
        decreases i,
    {
        let ghost now = documents@.subrange(0, i as int);
        assert(now.last() == documents@[i - 1]);
        assert(now.drop_last() == documents@.subrange(0, i - 1));
        if documents[i - 1].0 == id {
            return documents[i - 1].1.as_str().to_owned();
        }
        i = i - 1;
    }
    "".to_owned()
}

/// An entity that was found.
#[derive(Debug)]
pub struct GraphHit {
    pub name: String,
    pub object_type: String,
    pub doc_title: String,
    pub confidence: Score,
    pub edge_count: u64,
    pub matched_attributes: Vec<String>,
}

/// An entity that was found, on the wire.
pub open spec fn hit_wire(h: GraphHit) -> JsonView {
    JsonView::Object(
        seq![
            ("name"@, JsonView::Text(h.name@)),
            ("object_type"@, JsonView::Text(h.object_type@)),
            ("doc_title"@, JsonView::Text(h.doc_title@)),
            ("confidence"@, h.confidence@.number()),
            ("edge_count"@, JsonView::Int(h.edge_count as int)),
            ("matched_attributes"@, text_array(texts(h.matched_attributes@))),
        ],
    )
}

/// An entity that was found, on the wire.
pub fn hit_to_json(h: &GraphHit) -> (j: Json)
    ensures
        j@ == hit_wire(*h),
{
    let j: Json = object(
        vec![
            member("name", text(h.name.as_str())),
            member("object_type", text(h.object_type.as_str())),
            member("doc_title", text(h.doc_title.as_str())),
            member("confidence", h.confidence.number()),
            member("edge_count", count(h.edge_count)),
            member("matched_attributes", strings(&h.matched_attributes)),
        ],
    );
    assert(j@->Object_0 =~= hit_wire(*h)->Object_0);
    j
}

/// The answer to a search.
pub open spec fn graph_answer(hits: Seq<GraphHit>) -> JsonView {
    JsonView::Object(
        seq![
            ("total"@, JsonView::Int(hits.len() as int)),
            ("results"@, JsonView::Array(Seq::new(hits.len(), |i: int| hit_wire(hits[i])))),
        ],
    )
}

/// Answer a search.
pub fn graph_reply(hits: &Vec<GraphHit>) -> (j: Json)
    ensures
        j@ == graph_answer(hits@),
{
    let ghost want = graph_answer(hits@);
    let mut out: Vec<Json> = Vec::new();
    let mut i: usize = 0;
    while i < hits.len()
        invariant
            i <= hits@.len(),
            out@.len() == i,
            forall|k: int| 0 <= k < i ==> (#[trigger] out@[k])@ == hit_wire(hits@[k]),
        decreases hits.len() - i,
    {
        out.push(hit_to_json(&hits[i]));
        i = i + 1;
    }
    let results: Json = array(out);
    assert(results@->Array_0 =~= want->Object_0[1].1->Array_0);
    let j: Json = object(
        vec![member("total", count(hits.len() as u64)), member("results", results)],
    );
    assert(j@->Object_0 =~= want->Object_0);
    j
}

/// The keys that are reported are those of the properties that answer, in their
/// order: one more property adds its key exactly when the filter stands in its
/// key or in its value, in small letters.
pub proof fn law_answering_properties_are_reported(
    properties: Seq<Property>,
    p: Property,
    needle: Seq<char>,
)
    ensures
        ({
            let n = properties.len();
            let before = answering_keys(properties, needle, n);
            let after = answering_keys(properties.push(p), needle, n + 1);
            if has_part(lowercased(p.key@), lowercased(needle)) || has_part(
                lowercased(p.value@),
                lowercased(needle),
            ) {
                after == before.push(p.key@)
            } else {
                after == before
            }
        }),
        answering_keys(Seq::empty(), needle, 0).len() == 0,
{
    lemma_answering_prefix(properties, p, needle, properties.len());
}

/// The first properties decide about the first keys.
proof fn lemma_answering_prefix(properties: Seq<Property>, p: Property, needle: Seq<char>, n: nat)
    requires
        n <= properties.len(),
    ensures
        answering_keys(properties.push(p), needle, n) == answering_keys(properties, needle, n),
    decreases n,
{
    if n > 0 {
        lemma_answering_prefix(properties, p, needle, (n - 1) as nat);
        assert(properties.push(p)[n - 1] == properties[n - 1]);
    }
}

/// A document goes by the title that was listed last under its id, and by none
/// where none was.
pub proof fn law_last_title_counts(documents: Seq<(i64, String)>, d: (i64, String), id: i64)
    ensures
        title_of(documents.push(d), d.0) == d.1@,
        id != d.0 ==> title_of(documents.push(d), id) == title_of(documents, id),
        title_of(Seq::empty(), id).len() == 0,
{
    reveal_strlit("");
    assert(documents.push(d).drop_last() =~= documents);
}

/// An entity that was found is told as it is.
pub proof fn law_hit_is_told(h: GraphHit)
    ensures
        ({
            let j = hit_wire(h);
            &&& j.get("name"@) == Some(JsonView::Text(h.name@))
            &&& j.get("object_type"@) == Some(JsonView::Text(h.object_type@))
            &&& j.get("doc_title"@) == Some(JsonView::Text(h.doc_title@))
            &&& j.get("confidence"@) == Some(h.confidence@.number())
            &&& j.get("edge_count"@) == Some(JsonView::Int(h.edge_count as int))
            &&& j.get("matched_attributes"@) == Some(text_array(texts(h.matched_attributes@)))
        }),
{
    reveal_strlit("name");
    reveal_strlit("object_type");
    reveal_strlit("doc_title");
    reveal_strlit("confidence");
    reveal_strlit("edge_count");
    reveal_strlit("matched_attributes");
    assert("confidence"@[0] == 'c');
    assert("edge_count"@[0] == 'e');
    let m = hit_wire(h)->Object_0;
    assert(m[0].0 == "name"@);
    assert(m[1].0 == "object_type"@);
    assert(m[2].0 == "doc_title"@);
    assert(m[3].0 == "confidence"@);
    assert(m[4].0 == "edge_count"@);
    assert(m[5].0 == "matched_attributes"@);
    crate::json::law_first_member_counts(m, "name"@, 0);
    crate::json::law_first_member_counts(m, "object_type"@, 1);
    crate::json::law_first_member_counts(m, "doc_title"@, 2);
    crate::json::law_first_member_counts(m, "confidence"@, 3);
    crate::json::law_first_member_counts(m, "edge_count"@, 4);
    crate::json::law_first_member_counts(m, "matched_attributes"@, 5);
}

/// All hits are shown in order, and counted.
pub proof fn law_hits_are_counted(hits: Seq<GraphHit>)
    ensures
        ({
            let j = graph_answer(hits);
            &&& j.get("total"@) == Some(JsonView::Int(hits.len() as int))
            &&& j.get("results"@) == Some(JsonView::Array(
                Seq::new(hits.len(), |i: int| hit_wire(hits[i])),
            ))
        }),
{
    reveal_strlit("total");
    reveal_strlit("results");
    let m = graph_answer(hits)->Object_0;
    assert(m[0].0 == "total"@);
    assert(m[1].0 == "results"@);
    crate::json::law_first_member_counts(m, "total"@, 0);
    crate::json::law_first_member_counts(m, "results"@, 1);
}

} // verus!
