//! Building the JSON Schemas of tool arguments.
use vstd::prelude::*;

use crate::json::{member, members, object, strings, text, text_array, Json, JsonView};
use crate::text::{texts, words};

verus! {

/// An object with one member more.
pub open spec fn added(schema: JsonView, key: Seq<char>, value: JsonView) -> JsonView {
    match schema {
        JsonView::Object(m) => JsonView::Object(m.push((key, value))),
        other => other,
    }
}

/// Add a member to an object.
pub fn add_member(schema: Json, key: &str, value: Json) -> (j: Json)
    ensures
        j@ == added(schema@, key@, value@),
{
    match schema {
        Json::Object(v) => {
            let mut m: Vec<(String, Json)> = v;
            proof {
                crate::json::object_view(v);
            }
            let ghost before = members(m@);
            m.push(member(key, value));
            assert(members(m@) =~= before.push((key@, value@)));
            object(m)
        },
        other => other,
    }
}

/// The schema of values of a type.
pub open spec fn of_type(kind: Seq<char>) -> JsonView {
    JsonView::Object(seq![("type"@, JsonView::Text(kind))])
}

/// The schema of values of a type.
pub fn typed(kind: &str) -> (j: Json)
    ensures
        j@ == of_type(kind@),
{
    let j: Json = object(vec![member("type", text(kind))]);
    assert(j@->Object_0 =~= of_type(kind@)->Object_0);
    j
}

/// The schema with a description.
pub open spec fn about(schema: JsonView, description: Seq<char>) -> JsonView {
    added(schema, "description"@, JsonView::Text(description))
}

/// Describe a schema.
pub fn describe(schema: Json, description: &str) -> (j: Json)
    ensures
        j@ == about(schema@, description@),
{
    add_member(schema, "description", text(description))
}

/// The schema with a textual default.
pub open spec fn defaulting(schema: JsonView, value: Seq<char>) -> JsonView {
    added(schema, "default"@, JsonView::Text(value))
}

/// Give a schema a textual default.
pub fn with_default(schema: Json, value: &str) -> (j: Json)
    ensures
        j@ == defaulting(schema@, value@),
{
    add_member(schema, "default", text(value))
}

/// The texts, as owned strings.
pub fn owned(v: &Vec<&str>) -> (r: Vec<String>)
    ensures
        texts(r@) == words(v@),
{
    let mut r: Vec<String> = Vec::new();
    let mut i: usize = 0;
    while i < v.len()
        invariant
            i <= v@.len(),
            r@.len() == i,
            forall|k: int| 0 <= k < i ==> (#[trigger] r@[k])@ == v@[k]@,
        decreases v.len() - i,
    {
        r.push(v[i].to_owned());
        i = i + 1;
    }
    assert(texts(r@) =~= words(v@));
    r
}

/// An array of words.
pub fn word_array(v: &Vec<&str>) -> (j: Json)
    ensures
        j@ == text_array(words(v@)),
{
    let o: Vec<String> = owned(v);
    strings(&o)
}

/// The schema restricted to a list of words.
pub open spec fn one_of(schema: JsonView, list: Seq<Seq<char>>) -> JsonView {
    added(schema, "enum"@, text_array(list))
}

/// Restrict a schema to a list of words.
pub fn restrict(schema: Json, list: &Vec<&str>) -> (j: Json)
    ensures
        j@ == one_of(schema@, words(list@)),
{
    add_member(schema, "enum", word_array(list))
}

/// The schema of arrays whose elements follow `items`.
pub open spec fn listing(items: JsonView) -> JsonView {
    added(of_type("array"@), "items"@, items)
}

/// The schema of arrays whose elements follow `items`.
pub fn list_of(items: Json) -> (j: Json)
    ensures
        j@ == listing(items@),
{
    add_member(typed("array"), "items", items)
}

/// The schema of objects with these properties.
pub open spec fn with_properties(properties: Seq<(Seq<char>, JsonView)>) -> JsonView {
    added(of_type("object"@), "properties"@, JsonView::Object(properties))
}

/// The schema of objects with these properties.
pub fn properties_of(properties: Vec<(String, Json)>) -> (j: Json)
    ensures
        j@ == with_properties(members(properties@)),
{
    add_member(typed("object"), "properties", object(properties))
}

/// The schema of objects with these properties, some of them required.
pub open spec fn record(
    properties: Seq<(Seq<char>, JsonView)>,
    required: Seq<Seq<char>>,
) -> JsonView {
    added(with_properties(properties), "required"@, text_array(required))
}

/// The schema of objects with these properties, some of them required.
pub fn record_of(properties: Vec<(String, Json)>, required: &Vec<&str>) -> (j: Json)
    ensures
        j@ == record(members(properties@), words(required@)),
{
    add_member(properties_of(properties), "required", word_array(required))
}

/// The schema of objects that have these properties.
pub open spec fn requiring(required: Seq<Seq<char>>) -> JsonView {
    JsonView::Object(seq![("required"@, text_array(required))])
}

/// The schema of objects that have these properties.
pub fn require(required: &Vec<&str>) -> (j: Json)
    ensures
        j@ == requiring(words(required@)),
{
    let j: Json = object(vec![member("required", word_array(required))]);
    assert(j@->Object_0 =~= requiring(words(required@))->Object_0);
    j
}

/// A member that is added to a schema is found under its name unless the schema
/// had one of that name; all that the schema had stays.
pub proof fn law_added_member_is_found(
    m: Seq<(Seq<char>, JsonView)>,
    key: Seq<char>,
    value: JsonView,
    other: Seq<char>,
)
    ensures
        JsonView::Object(m).get(key) is None ==> added(JsonView::Object(m), key, value).get(key)
            == Some(value),
        JsonView::Object(m).get(other) is Some || other != key ==> added(
            JsonView::Object(m),
            key,
            value,
        ).get(other) == JsonView::Object(m).get(other),
    decreases m.len(),
{
    let more = m.push((key, value));
    reveal_with_fuel(crate::json::lookup, 2);
    if m.len() > 0 {
        let rest = m.subrange(1, m.len() as int);
        law_added_member_is_found(rest, key, value, other);
        assert(more.subrange(1, more.len() as int) =~= rest.push((key, value)));
    } else {
        assert(more.subrange(1, more.len() as int) =~= Seq::empty());
    }
}

/// The schema of an object tells its properties and which of them are required;
/// that of a list tells what its elements are.
pub proof fn law_schema_tells_properties_and_required(
    properties: Seq<(Seq<char>, JsonView)>,
    required: Seq<Seq<char>>,
    items: JsonView,
    kind: Seq<char>,
)
    ensures
        of_type(kind).get("type"@) == Some(JsonView::Text(kind)),
        record(properties, required).get("type"@) == Some(JsonView::Text("object"@)),
        record(properties, required).get("properties"@) == Some(JsonView::Object(properties)),
        record(properties, required).get("required"@) == Some(text_array(required)),
        with_properties(properties).get("required"@) is None,
        requiring(required).get("required"@) == Some(text_array(required)),
        listing(items).get("type"@) == Some(JsonView::Text("array"@)),
        listing(items).get("items"@) == Some(items),
{
    reveal_strlit("type");
    reveal_strlit("properties");
    reveal_strlit("required");
    reveal_strlit("items");
    assert("required"@ != "properties"@) by {
        assert("required"@.len() != "properties"@.len());
    }
    assert("required"@ != "type"@ && "properties"@ != "type"@ && "items"@ != "type"@) by {
        assert("type"@.len() == 4);
    }
    reveal_with_fuel(crate::json::lookup, 2);
    let object = of_type("object"@)->Object_0;
    assert(object[0].0 == "type"@);
    crate::json::law_first_member_counts(object, "properties"@, 1);
    crate::json::law_first_member_counts(object, "required"@, 1);
    law_added_member_is_found(object, "properties"@, JsonView::Object(properties), "type"@);
    law_added_member_is_found(object, "properties"@, JsonView::Object(properties), "required"@);
    let held = with_properties(properties)->Object_0;
    law_added_member_is_found(held, "required"@, text_array(required), "type"@);
    law_added_member_is_found(held, "required"@, text_array(required), "properties"@);
    let array = of_type("array"@)->Object_0;
    assert(array[0].0 == "type"@);
    crate::json::law_first_member_counts(array, "items"@, 1);
    law_added_member_is_found(array, "items"@, items, "type"@);
}

/// What describes or restricts a schema leaves its type as it is.
pub proof fn law_descriptions_keep_the_type(
    m: Seq<(Seq<char>, JsonView)>,
    description: Seq<char>,
    list: Seq<Seq<char>>,
)
    requires
        JsonView::Object(m).get("description"@) is None,
        JsonView::Object(m).get("enum"@) is None,
        JsonView::Object(m).get("default"@) is None,
    ensures
        ({
            let schema = JsonView::Object(m);
            &&& about(schema, description).get("description"@) == Some(JsonView::Text(description))
            &&& about(schema, description).get("type"@) == schema.get("type"@)
            &&& one_of(schema, list).get("enum"@) == Some(text_array(list))
            &&& one_of(schema, list).get("type"@) == schema.get("type"@)
            &&& defaulting(schema, description).get("default"@) == Some(JsonView::Text(description))
            &&& defaulting(schema, description).get("type"@) == schema.get("type"@)
        }),
{
    reveal_strlit("type");
    reveal_strlit("description");
    reveal_strlit("enum");
    reveal_strlit("default");
    assert("type"@[0] == 't');
    assert("enum"@[0] == 'e');
    law_added_member_is_found(m, "description"@, JsonView::Text(description), "type"@);
    law_added_member_is_found(m, "enum"@, text_array(list), "type"@);
    law_added_member_is_found(m, "default"@, JsonView::Text(description), "type"@);
}

} // verus!
