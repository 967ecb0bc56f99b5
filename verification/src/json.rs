//! JSON documents as values: what tool arguments, payloads and results are
//! made of, with a mathematical view and the accessors the tools read by.
use vstd::prelude::*;

use crate::text::{same_text, texts};

verus! {

/// A JSON number: a non-negative or a negative integer, or anything else by
/// its decimal notation.
#[derive(Debug)]
pub enum Number {
    PosInt(u64),
    NegInt(i64),
    Other(String),
}

/// A JSON document. Objects list their members in order; where a key occurs
/// more than once, the first occurrence counts.
#[derive(Debug)]
pub enum Json {
    Null,
    Bool(bool),
    Number(Number),
    Text(String),
    Array(Vec<Json>),
    Object(Vec<(String, Json)>),
}

/// The value of a JSON document.
pub enum JsonView {
    Null,
    Bool(bool),
    Int(int),
    Other(Seq<char>),
    Text(Seq<char>),
    Array(Seq<JsonView>),
    Object(Seq<(Seq<char>, JsonView)>),
}

impl View for Number {
    type V = JsonView;

    open spec fn view(&self) -> JsonView {
        match *self {
            Number::PosInt(n) => JsonView::Int(n as int),
            Number::NegInt(n) => JsonView::Int(n as int),
            Number::Other(t) => JsonView::Other(t@),
        }
    }
}

impl View for Json {
    type V = JsonView;

    open spec fn view(&self) -> JsonView
        decreases self,
    {
        match *self {
            Json::Null => JsonView::Null,
            Json::Bool(b) => JsonView::Bool(b),
            Json::Number(n) => n@,
            Json::Text(s) => JsonView::Text(s@),
            Json::Array(v) => JsonView::Array(
                Seq::new(
                    v@.len(),
                    |i: int|
                        if 0 <= i < v@.len() {
                            v@[i].view()
                        } else {
                            JsonView::Null
                        },
                ),
            ),
            Json::Object(v) => JsonView::Object(
                Seq::new(
                    v@.len(),
                    |i: int|
                        (
                            v@[i].0@,
                            if 0 <= i < v@.len() {
                                v@[i].1.view()
                            } else {
                                JsonView::Null
                            },
                        ),
                ),
            ),
        }
    }
}

/// The views of the elements of an array.
pub open spec fn elements(v: Seq<Json>) -> Seq<JsonView> {
    Seq::new(v.len(), |i: int| v[i]@)
}

/// The views of the members of an object.
pub open spec fn members(v: Seq<(String, Json)>) -> Seq<(Seq<char>, JsonView)> {
    Seq::new(v.len(), |i: int| (v[i].0@, v[i].1@))
}

/// An array is viewed element by element.
pub proof fn array_view(v: Vec<Json>)
    ensures
        Json::Array(v)@ == JsonView::Array(elements(v@)),
{
    assert(Json::Array(v)@->Array_0 =~= elements(v@));
}

/// An object is viewed member by member.
pub proof fn object_view(v: Vec<(String, Json)>)
    ensures
        Json::Object(v)@ == JsonView::Object(members(v@)),
{
    assert(Json::Object(v)@->Object_0 =~= members(v@));
}

impl JsonView {
    /// The member of an object under `key`.
    pub open spec fn get(self, key: Seq<char>) -> Option<JsonView> {
        match self {
            JsonView::Object(m) => lookup(m, key),
            _ => None,
        }
    }

    /// The text of a string.
    pub open spec fn text(self) -> Option<Seq<char>> {
        match self {
            JsonView::Text(s) => Some(s),
            _ => None,
        }
    }
}

impl JsonView {
    /// The value of a non-negative integer in the range of `u64`.
    pub open spec fn natural(self) -> Option<int> {
        match self {
            JsonView::Int(n) => if 0 <= n <= u64::MAX {
                Some(n)
            } else {
                None
            },
            _ => None,
        }
    }

    /// The value of an integer in the range of `i64`.
    pub open spec fn integer(self) -> Option<int> {
        match self {
            JsonView::Int(n) => if i64::MIN <= n <= i64::MAX {
                Some(n)
            } else {
                None
            },
            _ => None,
        }
    }

    /// The truth value of a boolean.
    pub open spec fn truth(self) -> Option<bool> {
        match self {
            JsonView::Bool(b) => Some(b),
            _ => None,
        }
    }
}

/// The value of the first member whose key is `key`.
pub open spec fn lookup(m: Seq<(Seq<char>, JsonView)>, key: Seq<char>) -> Option<JsonView>
    decreases m.len(),
{
    if m.len() == 0 {
        None
    } else if m[0].0 == key {
        Some(m[0].1)
    } else {
        lookup(m.subrange(1, m.len() as int), key)
    }
}

impl Number {
    /// Whether two numbers are the same.
    pub fn same(&self, other: &Number) -> (r: bool)
        ensures
            r == (self@ == other@),
    {
        match (self, other) {
            (Number::PosInt(a), Number::PosInt(b)) => *a == *b,
            (Number::NegInt(a), Number::NegInt(b)) => *a == *b,
            (Number::PosInt(a), Number::NegInt(b)) => *a as i128 == *b as i128,
            (Number::NegInt(a), Number::PosInt(b)) => *a as i128 == *b as i128,
            (Number::Other(a), Number::Other(b)) => same_text(a.as_str(), b.as_str()),
            _ => false,
        }
    }
}

impl Json {
    /// The text of a string.
    pub fn as_str(&self) -> (r: Option<&str>)
        ensures
            match r {
                Some(s) => self@.text() == Some(s@),
                None => self@.text() is None,
            },
    {
        match self {
            Json::Text(s) => Some(s.as_str()),
            _ => None,
        }
    }

    /// The value of a non-negative integer number.
    pub fn as_u64(&self) -> (r: Option<u64>)
        ensures
            match r {
                Some(n) => self@.natural() == Some(n as int),
                None => self@.natural() is None,
            },
    {
        match self {
            Json::Number(Number::PosInt(n)) => Some(*n),
            Json::Number(Number::NegInt(n)) => if *n >= 0 {
                Some(*n as u64)
            } else {
                None
            },
            _ => None,
        }
    }

    /// The value of an integer number in the range of `i64`.
    pub fn as_i64(&self) -> (r: Option<i64>)
        ensures
            match r {
                Some(n) => self@.integer() == Some(n as int),
                None => self@.integer() is None,
            },
    {
        match self {
            Json::Number(Number::PosInt(n)) => if *n <= 0x7fff_ffff_ffff_ffff {
                Some(*n as i64)
            } else {
                None
            },
            Json::Number(Number::NegInt(n)) => Some(*n),
            _ => None,
        }
    }

    /// The truth value of a boolean.
    pub fn as_bool(&self) -> (r: Option<bool>)
        ensures
            r == self@.truth(),
    {
        match self {
            Json::Bool(b) => Some(*b),
            _ => None,
        }
    }

    /// The elements of an array.
    pub fn as_array(&self) -> (r: Option<&Vec<Json>>)
        ensures
            match r {
                Some(v) => self@ == JsonView::Array(elements(v@)),
                None => !(self@ is Array),
            },
    {
        match self {
            Json::Array(v) => {
                proof {
                    array_view(*v);
                }
                Some(v)
            },
            _ => None,
        }
    }

    /// The members of an object.
    pub fn as_object(&self) -> (r: Option<&Vec<(String, Json)>>)
        ensures
            match r {
                Some(v) => self@ == JsonView::Object(members(v@)),
                None => !(self@ is Object),
            },
    {
        match self {
            Json::Object(v) => {
                proof {
                    object_view(*v);
                }
                Some(v)
            },
            _ => None,
        }
    }

    /// Whether this is `null`.
    pub fn is_null(&self) -> (r: bool)
        ensures
            r == (self@ is Null),
    {
        matches!(self, Json::Null)
    }

    /// Whether two documents have the same value.
    pub fn same(&self, other: &Json) -> (r: bool)
        ensures
            r == (self@ == other@),
        decreases self,
    {
        match (self, other) {
            (Json::Null, Json::Null) => true,
            (Json::Bool(a), Json::Bool(b)) => *a == *b,
            (Json::Number(a), Json::Number(b)) => a.same(b),
            (Json::Text(a), Json::Text(b)) => same_text(a.as_str(), b.as_str()),
            (Json::Array(a), Json::Array(b)) => {
                proof {
                    array_view(*a);
                    array_view(*b);
                }
                let ghost x = elements(a@);
                let ghost y = elements(b@);
                if a.len() != b.len() {
                    assert(x.len() != y.len());
                    return false;
                }
                let mut i: usize = 0;
                while i < a.len()
                    invariant
                        i <= a@.len() == b@.len(),
                        *self == Json::Array(*a),
                        self@ == JsonView::Array(x),
                        other@ == JsonView::Array(y),
                        x == elements(a@),
                        y == elements(b@),
                        forall|k: int| 0 <= k < i ==> #[trigger] x[k] == y[k],
                    decreases a.len() - i,
                {
                    assert(decreases_to!(*self => self->Array_0));
                    assert(decreases_to!(a => a@));
                    assert(decreases_to!(a@ => a@[i as int]));
                    if !a[i].same(&b[i]) {
                        assert(x[i as int] != y[i as int]);
                        return false;
                    }
                    i = i + 1;
                }
                assert(x =~= y);
                true
            },
            (Json::Object(a), Json::Object(b)) => {
                proof {
                    object_view(*a);
                    object_view(*b);
                }
                let ghost x = members(a@);
                let ghost y = members(b@);
                if a.len() != b.len() {
                    assert(x.len() != y.len());
                    return false;
                }
                let mut i: usize = 0;
                while i < a.len()
                    invariant
                        i <= a@.len() == b@.len(),
                        *self == Json::Object(*a),
                        self@ == JsonView::Object(x),
                        other@ == JsonView::Object(y),
                        x == members(a@),
                        y == members(b@),
                        forall|k: int| 0 <= k < i ==> #[trigger] x[k] == y[k],
                    decreases a.len() - i,
                {
                    assert(decreases_to!(*self => self->Object_0));
                    assert(decreases_to!(a => a@));
                    assert(decreases_to!(a@ => a@[i as int]));
                    assert(decreases_to!(a@[i as int] => a@[i as int].1));
                    if !same_text(a[i].0.as_str(), b[i].0.as_str()) || !a[i].1.same(&b[i].1) {
                        assert(x[i as int] != y[i as int]);
                        return false;
                    }
                    i = i + 1;
                }
                assert(x =~= y);
                true
            },
            _ => false,
        }
    }

    /// A copy with the same value.
    pub fn copy(&self) -> (r: Json)
        ensures
            r@ == self@,
        decreases self,
    {
        match self {
            Json::Null => Json::Null,
            Json::Bool(b) => Json::Bool(*b),
            Json::Number(Number::PosInt(n)) => Json::Number(Number::PosInt(*n)),
            Json::Number(Number::NegInt(n)) => Json::Number(Number::NegInt(*n)),
            Json::Number(Number::Other(t)) => Json::Number(Number::Other(t.clone())),
            Json::Text(s) => Json::Text(s.clone()),
            Json::Array(v) => {
                let mut out: Vec<Json> = Vec::new();
                let mut i: usize = 0;
                while i < v.len()
                    invariant
                        i <= v@.len(),
                        *self == Json::Array(*v),
                        out@.len() == i,
                        forall|k: int| 0 <= k < i ==> (#[trigger] out@[k])@ == v@[k]@,
                    decreases v.len() - i,
                {
                    assert(decreases_to!(*self => self->Array_0));
                    assert(decreases_to!(v => v@));
                    assert(decreases_to!(v@ => v@[i as int]));
                    out.push(v[i].copy());
                    i = i + 1;
                }
                proof {
                    array_view(*v);
                    array_view(out);
                    assert(elements(out@) =~= elements(v@));
                }
                Json::Array(out)
            },
            Json::Object(v) => {
                let mut out: Vec<(String, Json)> = Vec::new();
                let mut i: usize = 0;
                while i < v.len()
                    invariant
                        i <= v@.len(),
                        *self == Json::Object(*v),
                        out@.len() == i,
                        forall|k: int|
                            0 <= k < i ==> (#[trigger] out@[k]).0@ == v@[k].0@ && out@[k].1@
                                == v@[k].1@,
                    decreases v.len() - i,
                {
                    assert(decreases_to!(*self => self->Object_0));
                    assert(decreases_to!(v => v@));
                    assert(decreases_to!(v@ => v@[i as int]));
                    assert(decreases_to!(v@[i as int] => v@[i as int].1));
                    out.push((v[i].0.clone(), v[i].1.copy()));
                    i = i + 1;
                }
                proof {
                    object_view(*v);
                    object_view(out);
                    assert(members(out@) =~= members(v@));
                }
                Json::Object(out)
            },
        }
    }

    /// The member under `key`, of an object that has one.
    pub fn get(&self, key: &str) -> (r: Option<&Json>)
        ensures
            match r {
                Some(j) => self@.get(key@) == Some(j@),
                None => self@.get(key@) is None,
            },
    {
        match self {
            Json::Object(v) => {
                let ghost m = members(v@);
                proof {
                    object_view(*v);
                }
                let mut i: usize = 0;
                assert(m.subrange(0, m.len() as int) == m);
                while i < v.len()
                    invariant
                        i <= v@.len() == m.len(),
                        m == members(v@),
                        self@ == JsonView::Object(m),
                        lookup(m, key@) == lookup(m.subrange(i as int, m.len() as int), key@),
                    decreases v.len() - i,
                {
                    let ghost rest = m.subrange(i as int, m.len() as int);
                    assert(rest[0] == m[i as int]);
                    if same_text(v[i].0.as_str(), key) {
                        return Some(&v[i].1);
                    }
                    assert(rest.subrange(1, rest.len() as int) == m.subrange(i + 1, m.len() as int));
                    i = i + 1;
                }
                None
            },
            _ => None,
        }
    }
}

/// A string as a JSON value.
pub fn text(s: &str) -> (j: Json)
    ensures
        j@ == JsonView::Text(s@),
{
    Json::Text(s.to_owned())
}

/// A non-negative integer as a JSON value.
pub fn count(n: u64) -> (j: Json)
    ensures
        j@ == JsonView::Int(n as int),
{
    Json::Number(Number::PosInt(n))
}

/// An integer as a JSON value.
pub fn integer(n: i64) -> (j: Json)
    ensures
        j@ == JsonView::Int(n as int),
{
    if n < 0 {
        Json::Number(Number::NegInt(n))
    } else {
        Json::Number(Number::PosInt(n as u64))
    }
}

/// A member of an object.
pub fn member(key: &str, value: Json) -> (m: (String, Json))
    ensures
        m.0@ == key@,
        m.1 == value,
{
    (key.to_owned(), value)
}

/// An object of the given members.
pub fn object(v: Vec<(String, Json)>) -> (j: Json)
    ensures
        j@ == JsonView::Object(members(v@)),
{
    proof {
        object_view(v);
    }
    Json::Object(v)
}

/// An array of the given elements.
pub fn array(v: Vec<Json>) -> (j: Json)
    ensures
        j@ == JsonView::Array(elements(v@)),
{
    proof {
        array_view(v);
    }
    Json::Array(v)
}

/// The array of strings with the given texts.
pub open spec fn text_array(v: Seq<Seq<char>>) -> JsonView {
    JsonView::Array(Seq::new(v.len(), |i: int| JsonView::Text(v[i])))
}

/// An array of strings.
pub fn strings(v: &Vec<String>) -> (j: Json)
    ensures
        j@ == text_array(texts(v@)),
{
    let mut out: Vec<Json> = Vec::new();
    let mut i: usize = 0;
    while i < v.len()
        invariant
            i <= v@.len(),
            out@.len() == i,
            forall|k: int| 0 <= k < i ==> (#[trigger] out@[k])@ == JsonView::Text(v@[k]@),
        decreases v.len() - i,
    {
        out.push(text(v[i].as_str()));
        i = i + 1;
    }
    let j: Json = array(out);
    assert(j@->Array_0 =~= text_array(texts(v@))->Array_0);
    j
}

/// The first member of a name counts: it is found, and nothing behind it under
/// the same name; a name that no member has is not found.
pub proof fn law_first_member_counts(m: Seq<(Seq<char>, JsonView)>, key: Seq<char>, i: int)
    requires
        0 <= i <= m.len(),
        forall|k: int| 0 <= k < i ==> (#[trigger] m[k]).0 != key,
    ensures
        i < m.len() && m[i].0 == key ==> JsonView::Object(m).get(key) == Some(m[i].1),
        i == m.len() ==> JsonView::Object(m).get(key) is None,
    decreases i,
{
    if i > 0 {
        let rest = m.subrange(1, m.len() as int);
        assert forall|k: int| 0 <= k < i - 1 implies (#[trigger] rest[k]).0 != key by {
            assert(rest[k] == m[k + 1]);
        }
        law_first_member_counts(rest, key, i - 1);
    }
}

} // verus!
