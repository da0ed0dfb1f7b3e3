//! The values a program computes, objects that keep their insertion order,
//! and their JSON form.

use vstd::prelude::*;
use crate::runtime::{
    ExecutionError, HtmlDocument, HtmlNode, HttpMethod, HttpRequest, HttpRequestV, Response, ResponseV,
    SerializationError, TypeError, ValueKind, header_pairs,
};
use crate::source::Span;
use crate::text::{decimal, push_decimal, str_eq, string_push_str};
use crate::input::{field_get, first_field_from};
use serde_json::Value as SerdeJson;

verus! {

#[verifier::external_type_specification]
#[verifier::external_body]
pub struct ExNumber(serde_json::Number);

/// `serde_json::Number::clone` (derived): a number equal to the original.
pub assume_specification[<serde_json::Number as Clone>::clone](n: &serde_json::Number) -> (r: serde_json::Number)
    ensures
        r == *n,
;

// ---------------------------------------------------------------------------
// Values and their view
// ---------------------------------------------------------------------------

/// A runtime value.
#[derive(Debug, PartialEq)]
pub enum Value {
    Null,
    Boolean(bool),
    Number(serde_json::Number),
    String(String),
    Array(Vec<Value>),
    Object(Object),
    HtmlDocument(HtmlDocument),
    HtmlNode(HtmlNode),
    Response(Response),
}

/// Named values in insertion order; a name occurs once.
#[derive(Debug, PartialEq)]
pub struct Object {
    entries: Vec<(String, Value)>,
}

pub enum ValueV {
    Null,
    Boolean(bool),
    Number(serde_json::Number),
    Str(Seq<char>),
    Array(Seq<ValueV>),
    Object(Seq<(Seq<char>, ValueV)>),
    HtmlDocument(Seq<char>),
    HtmlNode((Seq<char>, Seq<char>)),
    Response(ResponseV),
}

pub closed spec fn value_view(v: Value) -> ValueV
    decreases v,
{
    match v {
        Value::Null => ValueV::Null,
        Value::Boolean(b) => ValueV::Boolean(b),
        Value::Number(n) => ValueV::Number(n),
        Value::String(s) => ValueV::Str(s@),
        Value::Array(vs) => ValueV::Array(values_view(vs@)),
        Value::Object(o) => ValueV::Object(entries_view(o.entries@)),
        Value::HtmlDocument(d) => ValueV::HtmlDocument(d@),
        Value::HtmlNode(n) => ValueV::HtmlNode(n@),
        Value::Response(r) => ValueV::Response(r@),
    }
}

pub closed spec fn values_view(s: Seq<Value>) -> Seq<ValueV>
    decreases s,
{
    if s.len() == 0 {
        seq![]
    } else {
        proof {
            assert(decreases_to!(s => s.drop_last()));
        }
        values_view(s.drop_last()).push(value_view(s.last()))
    }
}

pub closed spec fn entries_view(s: Seq<(String, Value)>) -> Seq<(Seq<char>, ValueV)>
    decreases s,
{
    if s.len() == 0 {
        seq![]
    } else {
        proof {
            assert(decreases_to!(s => s.drop_last()));
        }
        entries_view(s.drop_last()).push((s.last().0@, value_view(s.last().1)))
    }
}

impl View for Value {
    type V = ValueV;

    closed spec fn view(&self) -> ValueV {
        value_view(*self)
    }
}

impl View for Object {
    type V = Seq<(Seq<char>, ValueV)>;

    closed spec fn view(&self) -> Seq<(Seq<char>, ValueV)> {
        entries_view(self.entries@)
    }
}

/// A document value is viewed as its source.
pub(crate) proof fn lemma_document_view(d: HtmlDocument)
    ensures
        Value::HtmlDocument(d)@ == ValueV::HtmlDocument(d@),
{
}

proof fn lemma_values_len(s: Seq<Value>)
    ensures
        values_view(s).len() == s.len(),
    decreases s.len(),
{
    if s.len() > 0 {
        lemma_values_len(s.drop_last());
    }
}

proof fn lemma_values_index(s: Seq<Value>, i: int)
    requires
        0 <= i < s.len(),
    ensures
        values_view(s)[i] == value_view(s[i]),
        values_view(s).len() == s.len(),
    decreases s.len(),
{
    lemma_values_len(s);
    if i < s.len() - 1 {
        lemma_values_index(s.drop_last(), i);
    }
}

/// What a value is viewed as: its kind and contents, each item and each
/// field by its own view.
pub proof fn lemma_value_view(v: Value)
    ensures
        v@ == match v {
            Value::Null => ValueV::Null,
            Value::Boolean(b) => ValueV::Boolean(b),
            Value::Number(n) => ValueV::Number(n),
            Value::String(s) => ValueV::Str(s@),
            Value::Array(items) => ValueV::Array(Seq::new(items@.len(), |i: int| items@[i]@)),
            Value::Object(o) => ValueV::Object(o@),
            Value::HtmlDocument(d) => ValueV::HtmlDocument(d@),
            Value::HtmlNode(n) => ValueV::HtmlNode(n@),
            Value::Response(r) => ValueV::Response(r@),
        },
{
    match v {
        Value::Array(items) => lemma_values_view(items@),
        _ => {},
    }
}

/// Values are viewed item by item.
pub proof fn lemma_values_view(s: Seq<Value>)
    ensures
        values_view(s) == Seq::new(s.len(), |i: int| s[i]@),
{
    lemma_values_len(s);
    assert forall|i: int| 0 <= i < s.len() implies values_view(s)[i] == s[i]@ by {
        lemma_values_index(s, i);
    }
    assert(values_view(s) =~= Seq::new(s.len(), |i: int| s[i]@));
}

/// Entries are viewed one by one, each as its name and its value's view.
pub proof fn lemma_entries_view(s: Seq<(String, Value)>)
    ensures
        entries_view(s) == Seq::new(s.len(), |i: int| (s[i].0@, s[i].1@)),
{
    lemma_entries_len(s);
    assert forall|i: int| 0 <= i < s.len() implies entries_view(s)[i] == (s[i].0@, s[i].1@) by {
        lemma_entries_index(s, i);
    }
    assert(entries_view(s) =~= Seq::new(s.len(), |i: int| (s[i].0@, s[i].1@)));
}

/// An entry's view is its name's and its value's.
pub(crate) proof fn lemma_entries_at(s: Seq<(String, Value)>, i: int)
    requires
        0 <= i < s.len(),
    ensures
        entries_view(s)[i] == (s[i].0@, s[i].1@),
        entries_view(s).len() == s.len(),
{
    lemma_entries_index(s, i);
}

pub(crate) proof fn lemma_entries_len(s: Seq<(String, Value)>)
    ensures
        entries_view(s).len() == s.len(),
    decreases s.len(),
{
    if s.len() > 0 {
        lemma_entries_len(s.drop_last());
    }
}

pub(crate) proof fn lemma_entries_index(s: Seq<(String, Value)>, i: int)
    requires
        0 <= i < s.len(),
    ensures
        entries_view(s)[i] == (s[i].0@, value_view(s[i].1)),
        entries_view(s).len() == s.len(),
    decreases s.len(),
{
    lemma_entries_len(s);
    if i < s.len() - 1 {
        lemma_entries_index(s.drop_last(), i);
    }
}

proof fn lemma_entries_push(s: Seq<(String, Value)>, x: (String, Value))
    ensures
        entries_view(s.push(x)) == entries_view(s).push((x.0@, value_view(x.1))),
{
    assert(s.push(x).drop_last() =~= s);
}

proof fn lemma_entries_ext(s: Seq<(String, Value)>, t: Seq<(String, Value)>)
    requires
        s.len() == t.len(),
        forall|i: int| 0 <= i < s.len() ==> (#[trigger] s[i]).0@ == t[i].0@ && value_view(s[i].1) == value_view(t[i].1),
    ensures
        entries_view(s) == entries_view(t),
{
    lemma_entries_len(s);
    lemma_entries_len(t);
    assert forall|i: int| 0 <= i < s.len() implies entries_view(s)[i] == entries_view(t)[i] by {
        lemma_entries_index(s, i);
        lemma_entries_index(t, i);
    }
    assert(entries_view(s) =~= entries_view(t));
}

/// The kind of a value.
pub open spec fn kind_of(v: ValueV) -> ValueKind {
    match v {
        ValueV::Null => ValueKind::Null,
        ValueV::Boolean(_) => ValueKind::Boolean,
        ValueV::Number(_) => ValueKind::Number,
        ValueV::Str(_) => ValueKind::String,
        ValueV::Array(_) => ValueKind::Array,
        ValueV::Object(_) => ValueKind::Object,
        ValueV::HtmlDocument(_) => ValueKind::HtmlDocument,
        ValueV::HtmlNode(_) => ValueKind::HtmlNode,
        ValueV::Response(_) => ValueKind::Response,
    }
}

// ---------------------------------------------------------------------------
// Objects
// ---------------------------------------------------------------------------

/// The position of the first entry named `name`.
pub open spec fn entry_index(m: Seq<(Seq<char>, ValueV)>, name: Seq<char>) -> Option<int> {
    if exists|i: int| 0 <= i < m.len() && m[i].0 == name {
        Some(choose|i: int| 0 <= i < m.len() && m[i].0 == name && forall|j: int| 0 <= j < i ==> m[j].0 != name)
    } else {
        None
    }
}

/// The value named `name`.
pub open spec fn entry_get(m: Seq<(Seq<char>, ValueV)>, name: Seq<char>) -> Option<ValueV> {
    match entry_index(m, name) {
        Some(i) => Some(m[i].1),
        None => None,
    }
}

/// `m` with `name` set to `v`: in place when named already, else last.
pub open spec fn entry_insert(m: Seq<(Seq<char>, ValueV)>, name: Seq<char>, v: ValueV) -> Seq<(Seq<char>, ValueV)> {
    match entry_index(m, name) {
        Some(i) => m.update(i, (name, v)),
        None => m.push((name, v)),
    }
}

proof fn lemma_entry_index(m: Seq<(Seq<char>, ValueV)>, name: Seq<char>, r: int)
    requires
        0 <= r <= m.len(),
        forall|j: int| 0 <= j < r ==> (#[trigger] m[j]).0 != name,
        r < m.len() ==> m[r].0 == name,
    ensures
        entry_index(m, name) == (if r < m.len() { Some(r) } else { None::<int> }),
{
    if r < m.len() {
        let k = choose|i: int| 0 <= i < m.len() && m[i].0 == name && forall|j: int| 0 <= j < i ==> m[j].0 != name;
        assert(0 <= r < m.len() && m[r].0 == name && forall|j: int| 0 <= j < r ==> m[j].0 != name);
        if k < r {
            assert(m[k].0 != name);
        }
        if k > r {
            assert(m[r].0 != name);
        }
    }
}

impl Object {
    pub fn new() -> (r: Self)
        ensures
            r@ == Seq::<(Seq<char>, ValueV)>::empty(),
    {
        let r = Object { entries: Vec::new() };
        proof {
            lemma_entries_len(r.entries@);
            assert(r@ =~= Seq::<(Seq<char>, ValueV)>::empty());
        }
        r
    }

    /// Where the entry named `name` is, or the length.
    fn position(&self, name: &str) -> (r: usize)
        ensures
            r <= self@.len(),
            entry_index(self@, name@) == (if r < self@.len() { Some(r as int) } else { None::<int> }),
    {
        proof {
            lemma_entries_len(self.entries@);
        }
        let mut i: usize = 0;
        while i < self.entries.len()
            invariant
                i <= self.entries@.len(),
                self@.len() == self.entries@.len(),
                forall|j: int| 0 <= j < i ==> (#[trigger] self@[j]).0 != name@,
            decreases self.entries@.len() - i,
        {
            proof {
                lemma_entries_index(self.entries@, i as int);
            }
            if crate::text::str_eq(self.entries[i].0.as_str(), name) {
                proof {
                    lemma_entry_index(self@, name@, i as int);
                }
                return i;
            }
            i = i + 1;
        }
        proof {
            lemma_entry_index(self@, name@, i as int);
        }
        i
    }

    /// Sets `name` to `value`, in place when it is named already (then the
    /// old value is returned), else as the last entry.
    pub fn insert(&mut self, name: &str, value: Value) -> (r: Option<Value>)
        ensures
            final(self)@ == entry_insert(old(self)@, name@, value@),
            match entry_get(old(self)@, name@) {
                Some(v) => r matches Some(x) && x@ == v,
                None => r is None,
            },
    {
        let ghost before = self.entries@;
        let ghost vv = value@;
        let i = self.position(name);
        proof {
            lemma_entries_len(before);
        }
        if i < self.entries.len() {
            proof {
                lemma_entries_index(before, i as int);
            }
            let (_, old_value) = self.entries.remove(i);
            self.entries.insert(i, (name.to_owned(), value));
            proof {
                let after = self.entries@;
                assert(after.len() == before.len());
                assert forall|j: int| 0 <= j < after.len() implies (#[trigger] after[j]).0@ == before.update(i as int, after[i as int])[j].0@
                    && value_view(after[j].1) == value_view(before.update(i as int, after[i as int])[j].1) by {
                    if j != i {
                        assert(after[j] == before[j]);
                    }
                }
                lemma_entries_ext(after, before.update(i as int, after[i as int]));
                assert(entries_view(before.update(i as int, after[i as int])) =~= entries_view(before).update(i as int, (name@, vv))) by {
                    let u = before.update(i as int, after[i as int]);
                    lemma_entries_len(u);
                    assert forall|j: int| 0 <= j < u.len() implies entries_view(u)[j] == entries_view(before).update(i as int, (name@, vv))[j] by {
                        lemma_entries_index(u, j);
                        lemma_entries_index(before, j);
                    }
                }
            }
            Some(old_value)
        } else {
            let entry = (name.to_owned(), value);
            let ghost e = entry;
            self.entries.push(entry);
            proof {
                lemma_entries_push(before, e);
            }
            None
        }
    }
}


impl Object {
    /// The value named `name`.
    pub fn get(&self, name: &str) -> (r: Option<&Value>)
        ensures
            match entry_get(self@, name@) {
                Some(v) => r matches Some(x) && x@ == v,
                None => r is None,
            },
    {
        proof {
            lemma_entries_len(self.entries@);
        }
        let i = self.position(name);
        if i < self.entries.len() {
            proof {
                lemma_entries_index(self.entries@, i as int);
            }
            Some(&self.entries[i].1)
        } else {
            None
        }
    }

    /// The names, in insertion order.
    pub fn keys(&self) -> (r: Vec<&str>)
        ensures
            r@.len() == self@.len(),
            forall|i: int| 0 <= i < r@.len() ==> (#[trigger] r@[i])@ == self@[i].0,
    {
        proof {
            lemma_entries_len(self.entries@);
        }
        let mut out: Vec<&str> = Vec::new();
        let mut i: usize = 0;
        while i < self.entries.len()
            invariant
                i <= self.entries@.len(),
                self@.len() == self.entries@.len(),
                out@.len() == i,
                forall|j: int| 0 <= j < i ==> (#[trigger] out@[j])@ == self@[j].0,
            decreases self.entries@.len() - i,
        {
            proof {
                lemma_entries_index(self.entries@, i as int);
            }
            out.push(self.entries[i].0.as_str());
            i = i + 1;
        }
        out
    }

    /// The entries, in insertion order.
    pub fn iter(&self) -> (r: &[(String, Value)])
        ensures
            entries_view(r@) == self@,
    {
        self.entries.as_slice()
    }

    pub fn len(&self) -> (r: usize)
        ensures
            r == self@.len(),
    {
        proof {
            lemma_entries_len(self.entries@);
        }
        self.entries.len()
    }

    pub fn is_empty(&self) -> (r: bool)
        ensures
            r == (self@.len() == 0),
    {
        proof {
            lemma_entries_len(self.entries@);
        }
        self.entries.len() == 0
    }
}

impl Default for Object {
    fn default() -> (r: Self)
        ensures
            r@ == Seq::<(Seq<char>, ValueV)>::empty(),
    {
        Object::new()
    }
}

// ---------------------------------------------------------------------------
// Strict accessors
// ---------------------------------------------------------------------------

impl Value {
    pub fn kind(&self) -> (r: ValueKind)
        ensures
            r == kind_of(self@),
    {
        match self {
            Value::Null => ValueKind::Null,
            Value::Boolean(_) => ValueKind::Boolean,
            Value::Number(_) => ValueKind::Number,
            Value::String(_) => ValueKind::String,
            Value::Array(_) => ValueKind::Array,
            Value::Object(_) => ValueKind::Object,
            Value::HtmlDocument(_) => ValueKind::HtmlDocument,
            Value::HtmlNode(_) => ValueKind::HtmlNode,
            Value::Response(_) => ValueKind::Response,
        }
    }

    /// The items of an array; any other value is a type error.
    pub fn expect_array(&self) -> (r: Result<&[Value], TypeError>)
        ensures
            match self@ {
                ValueV::Array(items) => r matches Ok(s) && values_view(s@) == items,
                _ => r matches Err(e) && e@ == ("array"@, kind_of(self@)),
            },
    {
        match self {
            Value::Array(values) => Ok(values.as_slice()),
            _ => Err(TypeError::new("array", self.kind())),
        }
    }

    /// The items of an array, taken; any other value is a type error.
    pub fn into_array(self) -> (r: Result<Vec<Value>, TypeError>)
        ensures
            match self@ {
                ValueV::Array(items) => r matches Ok(s) && values_view(s@) == items,
                _ => r matches Err(e) && e@ == ("array"@, kind_of(self@)),
            },
    {
        let kind = self.kind();
        match self {
            Value::Array(values) => Ok(values),
            _ => Err(TypeError::new("array", kind)),
        }
    }

    pub fn expect_string(&self) -> (r: Result<&str, TypeError>)
        ensures
            match self@ {
                ValueV::Str(s) => r matches Ok(x) && x@ == s,
                _ => r matches Err(e) && e@ == ("string"@, kind_of(self@)),
            },
    {
        match self {
            Value::String(value) => Ok(value.as_str()),
            _ => Err(TypeError::new("string", self.kind())),
        }
    }

    pub fn expect_boolean(&self) -> (r: Result<bool, TypeError>)
        ensures
            match self@ {
                ValueV::Boolean(b) => r == Ok::<bool, TypeError>(b),
                _ => r matches Err(e) && e@ == ("boolean"@, kind_of(self@)),
            },
    {
        match self {
            Value::Boolean(value) => Ok(*value),
            _ => Err(TypeError::new("boolean", self.kind())),
        }
    }

    pub fn expect_number(&self) -> (r: Result<&serde_json::Number, TypeError>)
        ensures
            match self@ {
                ValueV::Number(n) => r matches Ok(x) && *x == n,
                _ => r matches Err(e) && e@ == ("number"@, kind_of(self@)),
            },
    {
        match self {
            Value::Number(value) => Ok(value),
            _ => Err(TypeError::new("number", self.kind())),
        }
    }

    pub fn expect_object(&self) -> (r: Result<&Object, TypeError>)
        ensures
            match self@ {
                ValueV::Object(m) => r matches Ok(o) && o@ == m,
                _ => r matches Err(e) && e@ == ("object"@, kind_of(self@)),
            },
    {
        match self {
            Value::Object(value) => Ok(value),
            _ => Err(TypeError::new("object", self.kind())),
        }
    }
}


// ---------------------------------------------------------------------------
// JSON
// ---------------------------------------------------------------------------

#[verifier::external_type_specification]
#[verifier::external_body]
pub struct ExJsonValue(SerdeJson);

/// A JSON value whose objects keep their insertion order. An object may name
/// a field twice; `serde_json` then writes the name once, at its first
/// place, with its last value.
#[derive(Debug, PartialEq)]
pub enum Json {
    Null,
    Bool(bool),
    Number(serde_json::Number),
    String(String),
    Array(Vec<Json>),
    Object(Vec<(String, Json)>),
}

pub enum JsonV {
    Null,
    Bool(bool),
    Number(serde_json::Number),
    Str(Seq<char>),
    Array(Seq<JsonV>),
    Object(Seq<(Seq<char>, JsonV)>),
}

pub open spec fn json_view(j: Json) -> JsonV
    decreases j,
{
    match j {
        Json::Null => JsonV::Null,
        Json::Bool(b) => JsonV::Bool(b),
        Json::Number(n) => JsonV::Number(n),
        Json::String(s) => JsonV::Str(s@),
        Json::Array(items) => JsonV::Array(jsons_view(items@)),
        Json::Object(fields) => JsonV::Object(jfields_view(fields@)),
    }
}

pub open spec fn jsons_view(s: Seq<Json>) -> Seq<JsonV>
    decreases s,
{
    if s.len() == 0 {
        seq![]
    } else {
        proof {
            assert(decreases_to!(s => s.drop_last()));
        }
        jsons_view(s.drop_last()).push(json_view(s.last()))
    }
}

pub open spec fn jfields_view(s: Seq<(String, Json)>) -> Seq<(Seq<char>, JsonV)>
    decreases s,
{
    if s.len() == 0 {
        seq![]
    } else {
        proof {
            assert(decreases_to!(s => s.drop_last()));
        }
        jfields_view(s.drop_last()).push((s.last().0@, json_view(s.last().1)))
    }
}

impl View for Json {
    type V = JsonV;

    open spec fn view(&self) -> JsonV {
        json_view(*self)
    }
}

pub(crate) proof fn lemma_jsons_push(s: Seq<Json>, x: Json)
    ensures
        jsons_view(s.push(x)) == jsons_view(s).push(json_view(x)),
{
    assert(s.push(x).drop_last() =~= s);
}

pub(crate) proof fn lemma_jfields_push(s: Seq<(String, Json)>, x: (String, Json))
    ensures
        jfields_view(s.push(x)) == jfields_view(s).push((x.0@, json_view(x.1))),
{
    assert(s.push(x).drop_last() =~= s);
}

pub open spec fn index_path(path: Seq<char>, i: nat) -> Seq<char> {
    path + "["@ + decimal(i) + "]"@
}

pub open spec fn field_path(path: Seq<char>, name: Seq<char>) -> Seq<char> {
    path + "."@ + name
}

/// The JSON form of a value at `path`, or the path and kind of the first
/// part (in order) that has none: HTML documents and nodes and responses.
pub open spec fn json_of(v: ValueV, path: Seq<char>) -> Result<JsonV, (Seq<char>, ValueKind)>
    decreases v, 1int,
{
    match v {
        ValueV::Null => Ok(JsonV::Null),
        ValueV::Boolean(b) => Ok(JsonV::Bool(b)),
        ValueV::Number(n) => Ok(JsonV::Number(n)),
        ValueV::Str(s) => Ok(JsonV::Str(s)),
        ValueV::Array(items) => match json_items(items, path, 0) {
            Ok(js) => Ok(JsonV::Array(js)),
            Err(e) => Err(e),
        },
        ValueV::Object(m) => match json_fields(m, path, 0) {
            Ok(fs) => Ok(JsonV::Object(fs)),
            Err(e) => Err(e),
        },
        _ => Err((path, kind_of(v))),
    }
}

/// The JSON forms of the items from `i` on, each at `path[i]`.
pub open spec fn json_items(items: Seq<ValueV>, path: Seq<char>, i: int) -> Result<Seq<JsonV>, (Seq<char>, ValueKind)>
    decreases items, items.len() - i,
{
    if i < 0 || i >= items.len() {
        Ok(seq![])
    } else {
        match json_of(items[i], index_path(path, i as nat)) {
            Err(e) => Err(e),
            Ok(j) => match json_items(items, path, i + 1) {
                Ok(rest) => Ok(seq![j] + rest),
                Err(e) => Err(e),
            },
        }
    }
}

/// The JSON forms of the entries from `i` on, each at `path.name`.
pub open spec fn json_fields(m: Seq<(Seq<char>, ValueV)>, path: Seq<char>, i: int) -> Result<Seq<(Seq<char>, JsonV)>, (Seq<char>, ValueKind)>
    decreases m, m.len() - i,
{
    if i < 0 || i >= m.len() {
        Ok(seq![])
    } else {
        match json_of(m[i].1, field_path(path, m[i].0)) {
            Err(e) => Err(e),
            Ok(j) => match json_fields(m, path, i + 1) {
                Ok(rest) => Ok(seq![(m[i].0, j)] + rest),
                Err(e) => Err(e),
            },
        }
    }
}

pub open spec fn prepend<T, E>(p: Seq<T>, r: Result<Seq<T>, E>) -> Result<Seq<T>, E> {
    match r {
        Ok(rest) => Ok(p + rest),
        Err(e) => Err(e),
    }
}

fn to_json_at(v: &Value, path: String) -> (r: Result<Json, SerializationError>)
    ensures
        match json_of(v@, path@) {
            Ok(j) => r matches Ok(x) && x@ == j,
            Err(e) => r matches Err(x) && x@ == e,
        },
    decreases v, 1int,
{
    match v {
        Value::Null => Ok(Json::Null),
        Value::Boolean(b) => Ok(Json::Bool(*b)),
        Value::Number(n) => Ok(Json::Number(n.clone())),
        Value::String(s) => Ok(Json::String(s.clone())),
        Value::Array(items) => {
            let js = to_json_items(items, path.as_str())?;
            Ok(Json::Array(js))
        },
        Value::Object(o) => {
            let fs = to_json_fields(&o.entries, path.as_str())?;
            Ok(Json::Object(fs))
        },
        _ => Err(SerializationError::unsupported(path, v.kind())),
    }
}

fn to_json_items(items: &Vec<Value>, path: &str) -> (r: Result<Vec<Json>, SerializationError>)
    ensures
        match json_items(values_view(items@), path@, 0) {
            Ok(js) => r matches Ok(x) && jsons_view(x@) == js,
            Err(e) => r matches Err(x) && x@ == e,
        },
    decreases items, 0int,
{
    let ghost iv = values_view(items@);
    proof {
        lemma_values_len(items@);
    }
    let mut out: Vec<Json> = Vec::new();
    let mut i: usize = 0;
    proof {
        assert(jsons_view(out@) =~= Seq::<JsonV>::empty());
        match json_items(iv, path@, 0) {
            Ok(js) => assert(Seq::<JsonV>::empty() + js =~= js),
            Err(_) => {},
        }
    }
    while i < items.len()
        invariant
            iv == values_view(items@),
            iv.len() == items@.len(),
            i <= items@.len(),
            json_items(iv, path@, 0) == prepend(jsons_view(out@), json_items(iv, path@, i as int)),
        decreases items@.len() - i,
    {
        proof {
            lemma_values_index(items@, i as int);
            assert(decreases_to!(items => items@));
            assert(decreases_to!(items@ => items@[i as int]));
        }
        let mut child = path.to_owned();
        string_push_str(&mut child, "[");
        push_decimal(&mut child, i);
        string_push_str(&mut child, "]");
        proof {
            assert(child@ =~= index_path(path@, i as nat));
        }
        let ghost before = jsons_view(out@);
        match to_json_at(&items[i], child) {
            Ok(j) => {
                let ghost jv = json_view(j);
                proof {
                    lemma_jsons_push(out@, j);
                }
                out.push(j);
                proof {
                    match json_items(iv, path@, i + 1) {
                        Ok(rest) => {
                            assert(before + (seq![jv] + rest) =~= before.push(jv) + rest);
                        },
                        Err(_) => {},
                    }
                }
            },
            Err(e) => {
                return Err(e);
            },
        }
        i = i + 1;
    }
    proof {
        assert(jsons_view(out@) + Seq::<JsonV>::empty() =~= jsons_view(out@));
    }
    Ok(out)
}

fn to_json_fields(entries: &Vec<(String, Value)>, path: &str) -> (r: Result<Vec<(String, Json)>, SerializationError>)
    ensures
        match json_fields(entries_view(entries@), path@, 0) {
            Ok(fs) => r matches Ok(x) && jfields_view(x@) == fs,
            Err(e) => r matches Err(x) && x@ == e,
        },
    decreases entries, 0int,
{
    let ghost mv = entries_view(entries@);
    proof {
        lemma_entries_len(entries@);
    }
    let mut out: Vec<(String, Json)> = Vec::new();
    let mut i: usize = 0;
    proof {
        assert(jfields_view(out@) =~= Seq::<(Seq<char>, JsonV)>::empty());
        match json_fields(mv, path@, 0) {
            Ok(fs) => assert(Seq::<(Seq<char>, JsonV)>::empty() + fs =~= fs),
            Err(_) => {},
        }
    }
    while i < entries.len()
        invariant
            mv == entries_view(entries@),
            mv.len() == entries@.len(),
            i <= entries@.len(),
            json_fields(mv, path@, 0) == prepend(jfields_view(out@), json_fields(mv, path@, i as int)),
        decreases entries@.len() - i,
    {
        proof {
            lemma_entries_index(entries@, i as int);
            assert(decreases_to!(entries => entries@));
            assert(decreases_to!(entries@ => entries@[i as int]));
            assert(decreases_to!(entries@[i as int] => entries@[i as int].1));
        }
        let mut child = path.to_owned();
        string_push_str(&mut child, ".");
        string_push_str(&mut child, entries[i].0.as_str());
        proof {
            assert(child@ =~= field_path(path@, mv[i as int].0));
        }
        let ghost before = jfields_view(out@);
        match to_json_at(&entries[i].1, child) {
            Ok(j) => {
                let entry = (entries[i].0.clone(), j);
                let ghost e = entry;
                proof {
                    lemma_jfields_push(out@, e);
                }
                out.push(entry);
                proof {
                    match json_fields(mv, path@, i + 1) {
                        Ok(rest) => {
                            assert(before + (seq![(mv[i as int].0, json_view(e.1))] + rest) =~= before.push((e.0@, json_view(e.1))) + rest);
                        },
                        Err(_) => {},
                    }
                }
            },
            Err(e) => {
                return Err(e);
            },
        }
        i = i + 1;
    }
    proof {
        assert(jfields_view(out@) + Seq::<(Seq<char>, JsonV)>::empty() =~= jfields_view(out@));
    }
    Ok(out)
}

impl Value {
    /// The value as JSON (see `json_of`, from the root path `$`).
    pub fn to_json(&self) -> (r: Result<Json, SerializationError>)
        ensures
            match json_of(self@, "$"@) {
                Ok(j) => r matches Ok(x) && x@ == j,
                Err(e) => r matches Err(x) && x@ == e,
            },
    {
        to_json_at(self, "$".to_owned())
    }
}

/// What `serde_json::to_vec` writes for a JSON value (objects in insertion
/// order), or the text of its error.
pub uninterp spec fn json_encoding_of(j: JsonV) -> Result<Seq<u8>, Seq<char>>;

/// What `serde_json::to_string` writes for a JSON value, or the text of its
/// error.
pub uninterp spec fn json_text_of(j: JsonV) -> Result<Seq<char>, Seq<char>>;

/// The `serde_json` value with the same shape as `j`.
#[verifier::external_body]
pub(crate) fn serde_value(j: &Json) -> SerdeJson {
    match j {
        Json::Null => SerdeJson::Null,
        Json::Bool(b) => SerdeJson::Bool(*b),
        Json::Number(n) => SerdeJson::Number(n.clone()),
        Json::String(s) => SerdeJson::String(s.clone()),
        Json::Array(items) => SerdeJson::Array(items.iter().map(serde_value).collect()),
        Json::Object(fields) => SerdeJson::Object(
            fields.iter().map(|field| (field.0.clone(), serde_value(&field.1))).collect(),
        ),
    }
}

/// Encodes `j` with `serde_json::to_vec`. The contract claims only that the
/// outcome is a function of the JSON value, named `json_encoding_of`.
#[verifier::external_body]
fn json_encode(j: &Json) -> (r: Result<Vec<u8>, String>)
    ensures
        match r {
            Ok(b) => json_encoding_of(j@) == Ok::<Seq<u8>, Seq<char>>(b@),
            Err(e) => json_encoding_of(j@) == Err::<Seq<u8>, Seq<char>>(e@),
        },
{
    match serde_json::to_vec(&serde_value(j)) {
        Ok(bytes) => Ok(bytes),
        Err(error) => Err(error.to_string()),
    }
}

/// Writes `j` with `serde_json::to_string`. The contract claims only that
/// the outcome is a function of the JSON value, named `json_text_of`.
#[verifier::external_body]
fn json_write(j: &Json) -> (r: Result<String, String>)
    ensures
        match r {
            Ok(t) => json_text_of(j@) == Ok::<Seq<char>, Seq<char>>(t@),
            Err(e) => json_text_of(j@) == Err::<Seq<char>, Seq<char>>(e@),
        },
{
    match serde_json::to_string(&serde_value(j)) {
        Ok(text) => Ok(text),
        Err(error) => Err(error.to_string()),
    }
}

/// What `serde_json::from_str` reads from a text (objects in the order they
/// are written), or its error as `Display` and as `Debug` write it.
pub uninterp spec fn json_parse_of(text: Seq<char>) -> Result<JsonV, (Seq<char>, Seq<char>)>;

/// What `serde_json::from_slice` reads from bytes (objects in the order they
/// are written), or the text of its error.
pub uninterp spec fn json_bytes_of(bytes: Seq<u8>) -> Result<JsonV, Seq<char>>;

/// The library's JSON value with the same shape as `v`.
#[verifier::external_body]
fn json_from_serde(v: SerdeJson) -> Json {
    match v {
        SerdeJson::Null => Json::Null,
        SerdeJson::Bool(b) => Json::Bool(b),
        SerdeJson::Number(n) => Json::Number(n),
        SerdeJson::String(s) => Json::String(s),
        SerdeJson::Array(items) => Json::Array(items.into_iter().map(json_from_serde).collect()),
        SerdeJson::Object(fields) => Json::Object(
            fields.into_iter().map(|field| (field.0, json_from_serde(field.1))).collect(),
        ),
    }
}

/// Reads `text` with `serde_json::from_str`. The contract claims only that
/// the outcome is a function of the text, named `json_parse_of`.
#[verifier::external_body]
pub(crate) fn json_parse(text: &str) -> (r: Result<Json, (String, String)>)
    ensures
        match r {
            Ok(j) => json_parse_of(text@) == Ok::<JsonV, (Seq<char>, Seq<char>)>(j@),
            Err(e) => json_parse_of(text@) == Err::<JsonV, (Seq<char>, Seq<char>)>((e.0@, e.1@)),
        },
{
    match serde_json::from_str::<SerdeJson>(text) {
        Ok(value) => Ok(json_from_serde(value)),
        Err(error) => Err((error.to_string(), format!("{error:?}"))),
    }
}

/// Reads `bytes` with `serde_json::from_slice`. The contract claims only that
/// the outcome is a function of the bytes, named `json_bytes_of`.
#[verifier::external_body]
pub(crate) fn json_parse_bytes(bytes: &[u8]) -> (r: Result<Json, String>)
    ensures
        match r {
            Ok(j) => json_bytes_of(bytes@) == Ok::<JsonV, Seq<char>>(j@),
            Err(e) => json_bytes_of(bytes@) == Err::<JsonV, Seq<char>>(e@),
        },
{
    match serde_json::from_slice::<SerdeJson>(bytes) {
        Ok(value) => Ok(json_from_serde(value)),
        Err(error) => Err(error.to_string()),
    }
}

/// The field named `name` among `fields` (see `field_get`).
pub(crate) fn json_field<'a>(fields: &'a Vec<(String, Json)>, name: &str) -> (r: Option<&'a Json>)
    ensures
        match field_get(jfields_view(fields@), name@) {
            Some(v) => r matches Some(x) && x@ == v,
            None => r is None,
        },
{
    let ghost fv = jfields_view(fields@);
    proof {
        lemma_jfields_len(fields@);
    }
    let mut i: usize = 0;
    while i < fields.len()
        invariant
            fv == jfields_view(fields@),
            fv.len() == fields@.len(),
            i <= fields@.len(),
            first_field_from(fv, name@, 0) == first_field_from(fv, name@, i as int),
        decreases fields@.len() - i,
    {
        proof {
            lemma_jfields_index(fields@, i as int);
        }
        if str_eq(fields[i].0.as_str(), name) {
            return Some(&fields[i].1);
        }
        i = i + 1;
    }
    None
}

impl Json {
    /// The compact JSON text (objects in insertion order).
    pub fn to_text(&self) -> (r: Result<String, String>)
        ensures
            match json_text_of(self@) {
                Ok(t) => r matches Ok(x) && x@ == t,
                Err(e) => r matches Err(x) && x@ == e,
            },
    {
        json_write(self)
    }

    /// The JSON bytes (objects in insertion order).
    pub fn to_bytes(&self) -> (r: Result<Vec<u8>, String>)
        ensures
            match json_encoding_of(self@) {
                Ok(b) => r matches Ok(x) && x@ == b,
                Err(e) => r matches Err(x) && x@ == e,
            },
    {
        json_encode(self)
    }
}


// ---------------------------------------------------------------------------
// JSON read back as values
// ---------------------------------------------------------------------------

/// The value a JSON value reads as. Objects keep their order; a name that
/// occurs twice keeps its first place and takes its last value.
pub open spec fn value_of_json(j: JsonV) -> ValueV
    decreases j,
{
    match j {
        JsonV::Null => ValueV::Null,
        JsonV::Bool(b) => ValueV::Boolean(b),
        JsonV::Number(n) => ValueV::Number(n),
        JsonV::Str(s) => ValueV::Str(s),
        JsonV::Array(items) => ValueV::Array(values_of_jsons(items)),
        JsonV::Object(fields) => ValueV::Object(object_of_fields(fields)),
    }
}

pub open spec fn values_of_jsons(s: Seq<JsonV>) -> Seq<ValueV>
    decreases s,
{
    if s.len() == 0 {
        seq![]
    } else {
        proof {
            assert(decreases_to!(s => s.drop_last()));
            assert(decreases_to!(s => s[s.len() - 1]));
        }
        values_of_jsons(s.drop_last()).push(value_of_json(s.last()))
    }
}

/// The fields set one after another, as `Object::insert` sets them.
pub open spec fn object_of_fields(f: Seq<(Seq<char>, JsonV)>) -> Seq<(Seq<char>, ValueV)>
    decreases f,
{
    if f.len() == 0 {
        seq![]
    } else {
        proof {
            assert(decreases_to!(f => f.drop_last()));
            assert(decreases_to!(f => f[f.len() - 1]));
            assert(decreases_to!(f[f.len() - 1] => f[f.len() - 1].1));
        }
        entry_insert(object_of_fields(f.drop_last()), f.last().0, value_of_json(f.last().1))
    }
}

pub(crate) proof fn lemma_jsons_index(s: Seq<Json>, i: int)
    requires
        0 <= i < s.len(),
    ensures
        jsons_view(s)[i] == json_view(s[i]),
        jsons_view(s).len() == s.len(),
    decreases s.len(),
{
    lemma_jsons_len(s);
    if i < s.len() - 1 {
        lemma_jsons_index(s.drop_last(), i);
    }
}

pub(crate) proof fn lemma_jsons_len(s: Seq<Json>)
    ensures
        jsons_view(s).len() == s.len(),
    decreases s.len(),
{
    if s.len() > 0 {
        lemma_jsons_len(s.drop_last());
    }
}

pub(crate) proof fn lemma_jfields_len(s: Seq<(String, Json)>)
    ensures
        jfields_view(s).len() == s.len(),
    decreases s.len(),
{
    if s.len() > 0 {
        lemma_jfields_len(s.drop_last());
    }
}

pub(crate) proof fn lemma_jfields_index(s: Seq<(String, Json)>, i: int)
    requires
        0 <= i < s.len(),
    ensures
        jfields_view(s)[i] == (s[i].0@, json_view(s[i].1)),
        jfields_view(s).len() == s.len(),
    decreases s.len(),
{
    lemma_jfields_len(s);
    if i < s.len() - 1 {
        lemma_jfields_index(s.drop_last(), i);
    }
}

pub(crate) fn value_from_json(j: &Json) -> (r: Value)
    ensures
        r@ == value_of_json(j@),
    decreases j, 1int,
{
    match j {
        Json::Null => Value::Null,
        Json::Bool(b) => Value::Boolean(*b),
        Json::Number(n) => Value::Number(n.clone()),
        Json::String(s) => Value::String(s.clone()),
        Json::Array(items) => Value::Array(values_from_jsons(items)),
        Json::Object(fields) => Value::Object(object_from_fields(fields)),
    }
}

fn values_from_jsons(items: &Vec<Json>) -> (r: Vec<Value>)
    ensures
        values_view(r@) == values_of_jsons(jsons_view(items@)),
    decreases items, 0int,
{
    let ghost jv = jsons_view(items@);
    proof {
        lemma_jsons_len(items@);
    }
    let mut out: Vec<Value> = Vec::new();
    let mut i: usize = 0;
    proof {
        lemma_values_empty(out@);
        assert(jv.take(0) =~= Seq::<JsonV>::empty());
    }
    while i < items.len()
        invariant
            jv == jsons_view(items@),
            jv.len() == items@.len(),
            i <= items@.len(),
            values_view(out@) == values_of_jsons(jv.take(i as int)),
        decreases items@.len() - i,
    {
        proof {
            lemma_jsons_index(items@, i as int);
            assert(decreases_to!(items => items@));
            assert(decreases_to!(items@ => items@[i as int]));
        }
        let v = value_from_json(&items[i]);
        proof {
            lemma_values_push(out@, v);
            assert(jv.take(i + 1).drop_last() =~= jv.take(i as int));
        }
        out.push(v);
        i = i + 1;
    }
    proof {
        assert(jv.take(i as int) =~= jv);
    }
    out
}

fn object_from_fields(fields: &Vec<(String, Json)>) -> (r: Object)
    ensures
        r@ == object_of_fields(jfields_view(fields@)),
    decreases fields, 0int,
{
    let ghost fv = jfields_view(fields@);
    proof {
        lemma_jfields_len(fields@);
    }
    let mut out = Object::new();
    let mut i: usize = 0;
    proof {
        assert(fv.take(0) =~= Seq::<(Seq<char>, JsonV)>::empty());
    }
    while i < fields.len()
        invariant
            fv == jfields_view(fields@),
            fv.len() == fields@.len(),
            i <= fields@.len(),
            out@ == object_of_fields(fv.take(i as int)),
        decreases fields@.len() - i,
    {
        proof {
            lemma_jfields_index(fields@, i as int);
            assert(decreases_to!(fields => fields@));
            assert(decreases_to!(fields@ => fields@[i as int]));
            assert(decreases_to!(fields@[i as int] => fields@[i as int].1));
        }
        let v = value_from_json(&fields[i].1);
        out.insert(fields[i].0.as_str(), v);
        proof {
            assert(fv.take(i + 1).drop_last() =~= fv.take(i as int));
        }
        i = i + 1;
    }
    proof {
        assert(fv.take(i as int) =~= fv);
    }
    out
}

/// The value that `value` reads as (see `value_of_json`).
pub fn json_to_value(value: Json) -> (r: Value)
    ensures
        r@ == value_of_json(value@),
{
    value_from_json(&value)
}

// ---------------------------------------------------------------------------
// The request that `fetch` sends
// ---------------------------------------------------------------------------

/// A hexadecimal digit, upper case.
pub open spec fn hex_digit(d: u8) -> char {
    if d < 10 {
        (('0' as u8) + d) as char
    } else {
        (('A' as u8) + (d - 10)) as char
    }
}

/// Whether a byte is written as it is in a form: ASCII letters and digits
/// and `*`, `-`, `.`, `_`.
pub open spec fn form_plain_byte(b: u8) -> bool {
    b == 42 || b == 45 || b == 46 || b == 95 || (48 <= b && b <= 57) || (65 <= b && b <= 90)
        || (97 <= b && b <= 122)
}

/// A byte in a form: as it is, `+` for a space, else `%` and two
/// upper-case hexadecimal digits.
pub open spec fn form_byte(b: u8) -> Seq<char> {
    if form_plain_byte(b) {
        seq![b as char]
    } else if b == 32 {
        seq!['+']
    } else {
        seq!['%', hex_digit(b / 16), hex_digit(b % 16)]
    }
}

pub open spec fn form_bytes(bs: Seq<u8>) -> Seq<char>
    decreases bs.len(),
{
    if bs.len() == 0 {
        seq![]
    } else {
        form_bytes(bs.drop_last()) + form_byte(bs.last())
    }
}

/// Text in a form: the bytes of its UTF-8 encoding, each as `form_byte`.
pub open spec fn form_component(s: Seq<char>) -> Seq<char> {
    form_bytes(vstd::utf8::encode_utf8(s))
}

/// Name/value pairs in a form: `name=value`, joined by `&`.
pub open spec fn form_text(fields: Seq<(Seq<char>, Seq<char>)>) -> Seq<char>
    decreases fields.len(),
{
    if fields.len() == 0 {
        seq![]
    } else {
        form_text(fields.drop_last()) + (if fields.len() > 1 { "&"@ } else { seq![] })
            + form_component(fields.last().0) + "="@ + form_component(fields.last().1)
    }
}

/// What `serde_urlencoded::to_string` makes of name/value string pairs: the
/// form text, never an error (it refuses only values that are not strings,
/// numbers or booleans).
pub open spec fn urlencoded_of(fields: Seq<(Seq<char>, Seq<char>)>) -> Result<Seq<char>, Seq<char>> {
    Ok(form_text(fields))
}

/// Encodes the pairs as a form body with `serde_urlencoded::to_string`
/// (`form_urlencoded`'s byte serializer on the UTF-8 bytes of each name and
/// value).
#[verifier::external_body]
fn form_encode(fields: Vec<(String, String)>) -> (r: Result<String, String>)
    ensures
        match r {
            Ok(t) => urlencoded_of(header_pairs(fields@)) == Ok::<Seq<char>, Seq<char>>(t@),
            Err(e) => urlencoded_of(header_pairs(fields@)) == Err::<Seq<char>, Seq<char>>(e@),
        },
{
    match serde_urlencoded::to_string(fields) {
        Ok(text) => Ok(text),
        Err(error) => Err(error.to_string()),
    }
}

pub open spec fn fetch_option_name(name: Seq<char>) -> bool {
    name == "method"@ || name == "json"@ || name == "headers"@ || name == "cloudflare"@ || name == "urlencoded"@
}

/// The first option (in order) that `fetch` does not know.
pub open spec fn unknown_option(m: Seq<(Seq<char>, ValueV)>) -> Option<Seq<char>> {
    if exists|i: int| 0 <= i < m.len() && !fetch_option_name(m[i].0) {
        let i = choose|i: int| 0 <= i < m.len() && !fetch_option_name(m[i].0)
            && forall|j: int| 0 <= j < i ==> fetch_option_name(m[j].0);
        Some(m[i].0)
    } else {
        None
    }
}

/// The entries as name/text pairs, or the message for the first (in order)
/// whose value is not a string; `what` opens that message.
pub open spec fn string_pairs(m: Seq<(Seq<char>, ValueV)>, what: Seq<char>, i: int) -> Result<Seq<(Seq<char>, Seq<char>)>, Seq<char>>
    decreases m.len() - i,
{
    if i < 0 || i >= m.len() {
        Ok(seq![])
    } else {
        match m[i].1 {
            ValueV::Str(v) => match string_pairs(m, what, i + 1) {
                Ok(rest) => Ok(seq![(m[i].0, v)] + rest),
                Err(e) => Err(e),
            },
            _ => Err(what + m[i].0 + "` must be a string"@),
        }
    }
}

pub open spec fn method_option(m: Seq<(Seq<char>, ValueV)>) -> Result<Seq<char>, Seq<char>> {
    match entry_get(m, "method"@) {
        Some(ValueV::Str(s)) => Ok(s),
        Some(_) => Err("`fetch` option `method` must be a string"@),
        None => Ok("GET"@),
    }
}

pub open spec fn headers_option(m: Seq<(Seq<char>, ValueV)>) -> Result<Option<Seq<(Seq<char>, Seq<char>)>>, Seq<char>> {
    match entry_get(m, "headers"@) {
        Some(ValueV::Object(h)) => match string_pairs(h, "`fetch` header `"@, 0) {
            Ok(p) => Ok(Some(p)),
            Err(e) => Err(e),
        },
        Some(_) => Err("`fetch` option `headers` must be an object"@),
        None => Ok(None),
    }
}

pub open spec fn cloudflare_option(m: Seq<(Seq<char>, ValueV)>) -> Result<bool, Seq<char>> {
    match entry_get(m, "cloudflare"@) {
        Some(ValueV::Boolean(b)) => Ok(b),
        Some(_) => Err("`fetch` option `cloudflare` must be a boolean"@),
        None => Ok(false),
    }
}

/// The body and its content type: JSON from `json`, a form from
/// `urlencoded`, or none.
pub open spec fn body_option(m: Seq<(Seq<char>, ValueV)>) -> Result<(Option<Seq<u8>>, Option<Seq<char>>), Seq<char>> {
    match (entry_get(m, "json"@), entry_get(m, "urlencoded"@)) {
        (Some(_), Some(_)) => Err("`fetch` options cannot contain both `json` and `urlencoded`"@),
        (Some(j), None) => match json_of(j, "$"@) {
            Err((path, kind)) => Err("invalid `fetch` JSON body: "@ + ("cannot serialize "@ + crate::runtime::kind_name(kind) + " at "@ + path)),
            Ok(jv) => match json_encoding_of(jv) {
                Err(t) => Err("failed to encode `fetch` JSON body: "@ + t),
                Ok(b) => Ok((Some(b), Some("application/json"@))),
            },
        },
        (None, Some(ValueV::Object(f))) => match string_pairs(f, "`fetch` urlencoded field `"@, 0) {
            Err(e) => Err(e),
            Ok(p) => match urlencoded_of(p) {
                Err(t) => Err("failed to encode `fetch` urlencoded body: "@ + t),
                Ok(text) => Ok((Some(vstd::utf8::encode_utf8(text)), Some("application/x-www-form-urlencoded"@))),
            },
        },
        (None, Some(_)) => Err("`fetch` option `urlencoded` must be an object"@),
        (None, None) => Ok((None, None)),
    }
}

/// `c` upper-cased when it is an ASCII small letter.
pub open spec fn ascii_upper(c: char) -> char {
    if 'a' <= c && c <= 'z' {
        ((c as u32) - 32) as char
    } else {
        c
    }
}

pub open spec fn ascii_uppercase(s: Seq<char>) -> Seq<char> {
    s.map_values(|c: char| ascii_upper(c))
}

/// The request for `url` with the options `m`, or the message of the first
/// problem: an unknown option, then `method`, `headers`, `cloudflare`, the
/// body, and the method's name.
#[verifier::opaque]
pub open spec fn fetch_with_options(url: Seq<char>, m: Seq<(Seq<char>, ValueV)>) -> Result<HttpRequestV, Seq<char>> {
    match unknown_option(m) {
        Some(name) => Err("unknown `fetch` option `"@ + name + "`"@),
        None => match method_option(m) {
            Err(e) => Err(e),
            Ok(method) => match headers_option(m) {
                Err(e) => Err(e),
                Ok(headers) => match cloudflare_option(m) {
                    Err(e) => Err(e),
                    Ok(cloudflare) => match body_option(m) {
                        Err(e) => Err(e),
                        Ok((body, content_type)) => if ascii_uppercase(method) == "GET"@ {
                            if body is Some {
                                Err("`fetch` GET options must not include `json`"@)
                            } else {
                                Ok(HttpRequestV { url, method: HttpMethod::Get, body: None, content_type: None, headers, cloudflare })
                            }
                        } else if ascii_uppercase(method) == "POST"@ {
                            Ok(HttpRequestV { url, method: HttpMethod::Post, body, content_type, headers, cloudflare })
                        } else {
                            Err("unsupported `fetch` method `"@ + method + "`"@)
                        },
                    },
                },
            },
        },
    }
}

/// The request that `fetch(arguments)` sends: a GET of a URL alone, or as
/// the options object says (see `fetch_with_options`).
pub open spec fn spec_fetch_request(args: Seq<ValueV>) -> Result<HttpRequestV, Seq<char>> {
    if args.len() == 1 && args[0] is Str {
        Ok(HttpRequestV {
            url: args[0]->Str_0,
            method: HttpMethod::Get,
            body: None,
            content_type: None,
            headers: None,
            cloudflare: false,
        })
    } else if args.len() == 2 && args[0] is Str && args[1] is Object {
        fetch_with_options(args[0]->Str_0, args[1]->Object_0)
    } else if args.len() == 2 && args[0] is Str {
        Err("`fetch` options must be an object"@)
    } else {
        Err("`fetch` expects a URL string and optional options object"@)
    }
}


fn is_fetch_option(name: &str) -> (r: bool)
    ensures
        r == fetch_option_name(name@),
{
    crate::text::str_eq(name, "method") || crate::text::str_eq(name, "json") || crate::text::str_eq(name, "headers")
        || crate::text::str_eq(name, "cloudflare") || crate::text::str_eq(name, "urlencoded")
}

fn unknown_option_exec(o: &Object) -> (r: Option<&str>)
    ensures
        match unknown_option(o@) {
            Some(n) => r matches Some(x) && x@ == n,
            None => r is None,
        },
{
    let ghost m = o@;
    proof {
        lemma_entries_len(o.entries@);
    }
    let mut i: usize = 0;
    while i < o.entries.len()
        invariant
            m == o@,
            m.len() == o.entries@.len(),
            i <= m.len(),
            forall|j: int| 0 <= j < i ==> fetch_option_name(#[trigger] m[j].0),
        decreases m.len() - i,
    {
        proof {
            lemma_entries_index(o.entries@, i as int);
        }
        if !is_fetch_option(o.entries[i].0.as_str()) {
            proof {
                let k = choose|k: int| 0 <= k < m.len() && !fetch_option_name(m[k].0)
                    && forall|j: int| 0 <= j < k ==> fetch_option_name(m[j].0);
                assert(0 <= i < m.len() && !fetch_option_name(m[i as int].0));
                if k < i {
                    assert(fetch_option_name(m[k].0));
                }
                if k > i {
                    assert(fetch_option_name(m[i as int].0));
                }
            }
            return Some(o.entries[i].0.as_str());
        }
        i = i + 1;
    }
    None
}

fn string_pairs_exec(h: &Object, what: &str) -> (r: Result<Vec<(String, String)>, String>)
    ensures
        match string_pairs(h@, what@, 0) {
            Ok(p) => r matches Ok(v) && header_pairs(v@) == p,
            Err(e) => r matches Err(x) && x@ == e,
        },
{
    let ghost m = h@;
    proof {
        lemma_entries_len(h.entries@);
    }
    let mut out: Vec<(String, String)> = Vec::new();
    let mut i: usize = 0;
    proof {
        assert(header_pairs(out@) =~= Seq::<(Seq<char>, Seq<char>)>::empty());
        match string_pairs(m, what@, 0) {
            Ok(p) => assert(Seq::<(Seq<char>, Seq<char>)>::empty() + p =~= p),
            Err(_) => {},
        }
    }
    while i < h.entries.len()
        invariant
            m == h@,
            m.len() == h.entries@.len(),
            i <= m.len(),
            string_pairs(m, what@, 0) == prepend(header_pairs(out@), string_pairs(m, what@, i as int)),
        decreases m.len() - i,
    {
        proof {
            lemma_entries_index(h.entries@, i as int);
        }
        let ghost before = header_pairs(out@);
        match &h.entries[i].1 {
            Value::String(v) => {
                out.push((h.entries[i].0.clone(), v.clone()));
                proof {
                    assert(header_pairs(out@) =~= before.push((m[i as int].0, v@)));
                    match string_pairs(m, what@, i + 1) {
                        Ok(rest) => {
                            assert(before + (seq![(m[i as int].0, v@)] + rest) =~= before.push((m[i as int].0, v@)) + rest);
                        },
                        Err(_) => {},
                    }
                }
            },
            _ => {
                let mut msg = what.to_owned();
                string_push_str(&mut msg, h.entries[i].0.as_str());
                string_push_str(&mut msg, "` must be a string");
                proof {
                    assert(msg@ =~= what@ + m[i as int].0 + "` must be a string"@);
                }
                return Err(msg);
            },
        }
        i = i + 1;
    }
    proof {
        assert(header_pairs(out@) + Seq::<(Seq<char>, Seq<char>)>::empty() =~= header_pairs(out@));
    }
    Ok(out)
}

fn ascii_upper_exec(c: char) -> (r: char)
    ensures
        r == ascii_upper(c),
{
    if 'a' <= c && c <= 'z' {
        let code: u32 = (c as u32) - 32;
        let b: u8 = code as u8;
        b as char
    } else {
        c
    }
}

/// `s` with ASCII small letters upper-cased (`str::to_ascii_uppercase`).
pub fn to_ascii_uppercase(s: &str) -> (r: String)
    ensures
        r@ == ascii_uppercase(s@),
{
    let chars = crate::text::chars_of(s);
    let mut out: Vec<char> = Vec::new();
    let mut i: usize = 0;
    while i < chars.len()
        invariant
            chars@ == s@,
            i <= chars@.len(),
            out@ == ascii_uppercase(chars@.take(i as int)),
        decreases chars@.len() - i,
    {
        out.push(ascii_upper_exec(chars[i]));
        proof {
            assert(ascii_uppercase(chars@.take(i + 1)) =~= ascii_uppercase(chars@.take(i as int)).push(ascii_upper(chars@[i as int])));
        }
        i = i + 1;
    }
    proof {
        assert(chars@.take(chars@.len() as int) =~= chars@);
    }
    crate::text::string_from_range(&out, 0, out.len())
}


/// `before` + `rest`, as an error at `span`.
fn error_after(before: &str, rest: &str, span: Span) -> (r: ExecutionError)
    ensures
        r@ == (before@ + rest@, Some(span)),
{
    let mut m = before.to_owned();
    string_push_str(&mut m, rest);
    ExecutionError::from_message(m, Some(span))
}

/// `before` + `middle` + `after`, as an error at `span`.
fn error_with(before: &str, middle: &str, after: &str, span: Span) -> (r: ExecutionError)
    ensures
        r@ == (before@ + middle@ + after@, Some(span)),
{
    let mut m = before.to_owned();
    string_push_str(&mut m, middle);
    string_push_str(&mut m, after);
    proof {
        assert(m@ =~= before@ + middle@ + after@);
    }
    ExecutionError::from_message(m, Some(span))
}

fn method_option_exec(o: &Object, span: Span) -> (r: Result<String, ExecutionError>)
    ensures
        match method_option(o@) {
            Ok(m) => r matches Ok(x) && x@ == m,
            Err(e) => r matches Err(x) && x@ == (e, Some(span)),
        },
{
    match o.get("method") {
        Some(Value::String(m)) => Ok(m.clone()),
        Some(_) => Err(ExecutionError::new("`fetch` option `method` must be a string", Some(span))),
        None => Ok("GET".to_owned()),
    }
}

fn headers_option_exec(o: &Object, span: Span) -> (r: Result<Option<Vec<(String, String)>>, ExecutionError>)
    ensures
        match headers_option(o@) {
            Ok(h) => r matches Ok(x) && crate::runtime::opt_headers(x) == h,
            Err(e) => r matches Err(x) && x@ == (e, Some(span)),
        },
{
    match o.get("headers") {
        Some(Value::Object(h)) => match string_pairs_exec(h, "`fetch` header `") {
            Ok(pairs) => Ok(Some(pairs)),
            Err(m) => Err(ExecutionError::from_message(m, Some(span))),
        },
        Some(_) => Err(ExecutionError::new("`fetch` option `headers` must be an object", Some(span))),
        None => Ok(None),
    }
}

fn cloudflare_option_exec(o: &Object, span: Span) -> (r: Result<bool, ExecutionError>)
    ensures
        match cloudflare_option(o@) {
            Ok(b) => r == Ok::<bool, ExecutionError>(b),
            Err(e) => r matches Err(x) && x@ == (e, Some(span)),
        },
{
    match o.get("cloudflare") {
        Some(Value::Boolean(b)) => Ok(*b),
        Some(_) => Err(ExecutionError::new("`fetch` option `cloudflare` must be a boolean", Some(span))),
        None => Ok(false),
    }
}

pub open spec fn opt_bytes(b: Option<Vec<u8>>) -> Option<Seq<u8>> {
    match b {
        Some(v) => Some(v@),
        None => None,
    }
}

pub open spec fn opt_text(t: Option<String>) -> Option<Seq<char>> {
    match t {
        Some(v) => Some(v@),
        None => None,
    }
}

fn body_option_exec(o: &Object, span: Span) -> (r: Result<(Option<Vec<u8>>, Option<String>), ExecutionError>)
    ensures
        match body_option(o@) {
            Ok((b, c)) => r matches Ok(x) && opt_bytes(x.0) == b && opt_text(x.1) == c,
            Err(e) => r matches Err(x) && x@ == (e, Some(span)),
        },
{
    let json = o.get("json");
    let form = o.get("urlencoded");
    match (json, form) {
        (Some(_), Some(_)) => Err(
            ExecutionError::new("`fetch` options cannot contain both `json` and `urlencoded`", Some(span)),
        ),
        (Some(j), None) => match j.to_json() {
            Err(e) => {
                let text = e.to_string();
                Err(error_after("invalid `fetch` JSON body: ", text.as_str(), span))
            },
            Ok(value) => match value.to_bytes() {
                Err(t) => Err(error_after("failed to encode `fetch` JSON body: ", t.as_str(), span)),
                Ok(bytes) => Ok((Some(bytes), Some("application/json".to_owned()))),
            },
        },
        (None, Some(Value::Object(f))) => match string_pairs_exec(f, "`fetch` urlencoded field `") {
            Err(m) => Err(ExecutionError::from_message(m, Some(span))),
            Ok(pairs) => match form_encode(pairs) {
                Err(t) => Err(error_after("failed to encode `fetch` urlencoded body: ", t.as_str(), span)),
                Ok(text) => {
                    let bytes = vstd::slice::slice_to_vec(text.as_str().as_bytes());
                    Ok((Some(bytes), Some("application/x-www-form-urlencoded".to_owned())))
                },
            },
        },
        (None, Some(_)) => Err(ExecutionError::new("`fetch` option `urlencoded` must be an object", Some(span))),
        (None, None) => Ok((None, None)),
    }
}

fn fetch_with_options_exec(url: &str, o: &Object, span: Span) -> (r: Result<HttpRequest, ExecutionError>)
    ensures
        match fetch_with_options(url@, o@) {
            Ok(req) => r matches Ok(x) && x@ == req,
            Err(e) => r matches Err(x) && x@ == (e, Some(span)),
        },
{
    reveal(fetch_with_options);
    if let Some(name) = unknown_option_exec(o) {
        return Err(error_with("unknown `fetch` option `", name, "`", span));
    }
    let method = method_option_exec(o, span)?;
    let headers = headers_option_exec(o, span)?;
    let cloudflare = cloudflare_option_exec(o, span)?;
    let (body, content_type) = body_option_exec(o, span)?;
    let upper = to_ascii_uppercase(method.as_str());
    if crate::text::str_eq(upper.as_str(), "GET") {
        if body.is_some() {
            return Err(ExecutionError::new("`fetch` GET options must not include `json`", Some(span)));
        }
        Ok(HttpRequest::get(url, headers).with_cloudflare(cloudflare))
    } else if crate::text::str_eq(upper.as_str(), "POST") {
        Ok(HttpRequest::post(url, body, headers, content_type).with_cloudflare(cloudflare))
    } else {
        Err(error_with("unsupported `fetch` method `", method.as_str(), "`", span))
    }
}

/// The request that `fetch(arguments)` at `span` sends (see
/// `spec_fetch_request`); every failure is an error at `span`.
#[verifier::rlimit(40)]
pub fn fetch_request(arguments: Vec<Value>, span: Span) -> (r: Result<HttpRequest, ExecutionError>)
    ensures
        match spec_fetch_request(values_view(arguments@)) {
            Ok(req) => r matches Ok(x) && x@ == req,
            Err(e) => r matches Err(x) && x@ == (e, Some(span)),
        },
{
    proof {
        lemma_values_len(arguments@);
        if arguments@.len() > 0 {
            lemma_values_index(arguments@, 0);
        }
        if arguments@.len() > 1 {
            lemma_values_index(arguments@, 1);
        }
    }
    if arguments.len() == 1 {
        if let Value::String(url) = &arguments[0] {
            return Ok(HttpRequest::get(url.as_str(), None));
        }
    } else if arguments.len() == 2 {
        if let Value::String(url) = &arguments[0] {
            if let Value::Object(options) = &arguments[1] {
                return fetch_with_options_exec(url.as_str(), options, span);
            }
            return Err(ExecutionError::new("`fetch` options must be an object", Some(span)));
        }
    }
    Err(ExecutionError::new("`fetch` expects a URL string and optional options object", Some(span)))
}


// ---------------------------------------------------------------------------
// Laws of objects
// ---------------------------------------------------------------------------

/// No name occurs twice.
pub open spec fn names_unique(m: Seq<(Seq<char>, ValueV)>) -> bool {
    forall|i: int, j: int| 0 <= i < j < m.len() ==> m[i].0 != m[j].0
}

proof fn lemma_first_name(m: Seq<(Seq<char>, ValueV)>, name: Seq<char>, k: int)
    requires
        0 <= k < m.len(),
        m[k].0 == name,
    ensures
        exists|i: int| 0 <= i < m.len() && m[i].0 == name && forall|j: int| 0 <= j < i ==> m[j].0 != name,
    decreases k,
{
    if exists|j: int| 0 <= j < k && m[j].0 == name {
        let j = choose|j: int| 0 <= j < k && m[j].0 == name;
        lemma_first_name(m, name, j);
    } else {
        assert(0 <= k < m.len() && m[k].0 == name && forall|j: int| 0 <= j < k ==> m[j].0 != name);
    }
}

proof fn lemma_entry_index_found(m: Seq<(Seq<char>, ValueV)>, name: Seq<char>)
    ensures
        entry_index(m, name) matches Some(i) ==> 0 <= i < m.len() && m[i].0 == name
            && forall|j: int| 0 <= j < i ==> m[j].0 != name,
        entry_index(m, name) is None ==> forall|j: int| 0 <= j < m.len() ==> m[j].0 != name,
{
    if exists|i: int| 0 <= i < m.len() && m[i].0 == name {
        let k = choose|i: int| 0 <= i < m.len() && m[i].0 == name;
        lemma_first_name(m, name, k);
    }
}

/// What a read gives back after a write: the written value under the
/// written name, and the old value under every other name.
pub proof fn law_object_get_after_insert(m: Seq<(Seq<char>, ValueV)>, name: Seq<char>, v: ValueV, other: Seq<char>)
    ensures
        entry_get(entry_insert(m, name, v), name) == Some(v),
        other != name ==> entry_get(entry_insert(m, name, v), other) == entry_get(m, other),
{
    let r = entry_insert(m, name, v);
    lemma_entry_index_found(m, name);
    lemma_entry_index_found(m, other);
    match entry_index(m, name) {
        Some(i) => {
            lemma_entry_index(r, name, i);
            if other != name {
                match entry_index(m, other) {
                    Some(k) => {
                        assert forall|j: int| 0 <= j < k implies (#[trigger] r[j]).0 != other by {
                            if j == i {
                                assert(r[j].0 == name);
                            }
                        }
                        lemma_entry_index(r, other, k);
                    },
                    None => {
                        assert forall|j: int| 0 <= j < r.len() implies (#[trigger] r[j]).0 != other by {
                            if j == i {
                                assert(r[j].0 == name);
                            }
                        }
                        lemma_entry_index(r, other, r.len() as int);
                    },
                }
            }
        },
        None => {
            assert forall|j: int| 0 <= j < m.len() implies (#[trigger] r[j]).0 != name by {
                assert(r[j] == m[j]);
            }
            lemma_entry_index(r, name, m.len() as int);
            if other != name {
                match entry_index(m, other) {
                    Some(k) => {
                        assert forall|j: int| 0 <= j < k implies (#[trigger] r[j]).0 != other by {
                            assert(r[j] == m[j]);
                        }
                        lemma_entry_index(r, other, k);
                    },
                    None => {
                        assert forall|j: int| 0 <= j < r.len() implies (#[trigger] r[j]).0 != other by {
                            if j < m.len() {
                                assert(r[j] == m[j]);
                            }
                        }
                        lemma_entry_index(r, other, r.len() as int);
                    },
                }
            }
        },
    }
}

/// A write keeps every name at its place: a new name goes last, and an
/// existing one is replaced where it stands. Names stay unique.
pub proof fn law_object_insert_keeps_order(m: Seq<(Seq<char>, ValueV)>, name: Seq<char>, v: ValueV)
    ensures
        forall|i: int| 0 <= i < m.len() ==> (#[trigger] entry_insert(m, name, v)[i]).0 == m[i].0,
        entry_insert(m, name, v).len() == m.len() + (if entry_index(m, name) is Some { 0int } else { 1int }),
        names_unique(m) ==> names_unique(entry_insert(m, name, v)),
{
    lemma_entry_index_found(m, name);
    let r = entry_insert(m, name, v);
    if names_unique(m) {
        assert forall|i: int, j: int| 0 <= i < j < r.len() implies r[i].0 != r[j].0 by {
            if entry_index(m, name) is None && j == m.len() {
                assert(r[i] == m[i]);
            }
        }
    }
}


// ---------------------------------------------------------------------------
// Value functions that need no document, pattern or lambda
// ---------------------------------------------------------------------------

proof fn lemma_values_push(s: Seq<Value>, x: Value)
    ensures
        values_view(s.push(x)) == values_view(s).push(value_view(x)),
{
    assert(s.push(x).drop_last() =~= s);
}

proof fn lemma_values_empty(s: Seq<Value>)
    requires
        s.len() == 0,
    ensures
        values_view(s) == Seq::<ValueV>::empty(),
{
    assert(values_view(s) =~= Seq::<ValueV>::empty());
}

/// The error for arguments given to a function that takes none.
pub open spec fn no_arguments_error(name: Seq<char>) -> Seq<char> {
    "`"@ + name + "` expects no arguments"@
}

/// The error for a receiver that is not an array.
pub open spec fn not_array_error(v: ValueV) -> Seq<char> {
    "expected "@ + "array"@ + ", got "@ + crate::runtime::kind_name(kind_of(v))
}

fn no_arguments(name: &str, arguments: &Vec<Value>, span: Span) -> (r: Result<(), ExecutionError>)
    ensures
        arguments@.len() == 0 ==> r is Ok,
        arguments@.len() > 0 ==> (r matches Err(e) && e@ == (no_arguments_error(name@), Some(span))),
{
    if arguments.len() == 0 {
        Ok(())
    } else {
        Err(error_with("`", name, "` expects no arguments", span))
    }
}

/// A type error as an error at `span`.
fn type_error_at(error: TypeError, span: Span) -> (r: ExecutionError)
    ensures
        r@ == ("expected "@ + error@.0 + ", got "@ + crate::runtime::kind_name(error@.1), Some(span)),
{
    ExecutionError::from_message(error.to_string(), Some(span))
}

/// An outcome of a value function: the value, or the message of the error
/// (which is reported at the call).
pub open spec fn outcome_matches(r: Result<Value, ExecutionError>, o: Result<ValueV, Seq<char>>, span: Span) -> bool {
    match o {
        Ok(v) => r matches Ok(x) && x@ == v,
        Err(m) => r matches Err(e) && e@ == (m, Some(span)),
    }
}

/// `keys`: the names of an object, as strings in order.
pub open spec fn spec_keys(receiver: ValueV, argument_count: nat) -> Result<ValueV, Seq<char>> {
    if argument_count > 0 {
        Err(no_arguments_error("keys"@))
    } else {
        match receiver {
            ValueV::Object(m) => Ok(ValueV::Array(Seq::new(m.len(), |i: int| ValueV::Str(m[i].0)))),
            _ => Err("keys only work on objects"@),
        }
    }
}

pub fn keys(receiver: Value, arguments: Vec<Value>, span: Span) -> (r: Result<Value, ExecutionError>)
    ensures
        outcome_matches(r, spec_keys(receiver@, arguments@.len()), span),
{
    no_arguments("keys", &arguments, span)?;
    match receiver {
        Value::Object(object) => {
            let ghost m = object@;
            proof {
                lemma_entries_len(object.entries@);
            }
            let mut out: Vec<Value> = Vec::new();
            let mut i: usize = 0;
            proof {
                lemma_values_empty(out@);
            }
            while i < object.entries.len()
                invariant
                    m == object@,
                    m.len() == object.entries@.len(),
                    i <= m.len(),
                    values_view(out@) == Seq::new(i as nat, |k: int| ValueV::Str(m[k].0)),
                decreases m.len() - i,
            {
                proof {
                    lemma_entries_index(object.entries@, i as int);
                }
                let name = Value::String(object.entries[i].0.clone());
                proof {
                    lemma_values_push(out@, name);
                }
                out.push(name);
                proof {
                    assert(values_view(out@) =~= Seq::new((i + 1) as nat, |k: int| ValueV::Str(m[k].0)));
                }
                i = i + 1;
            }
            Ok(Value::Array(out))
        },
        _ => Err(ExecutionError::new("keys only work on objects", Some(span))),
    }
}

/// `values`: the values of an object, in order.
pub open spec fn spec_values(receiver: ValueV, argument_count: nat) -> Result<ValueV, Seq<char>> {
    if argument_count > 0 {
        Err(no_arguments_error("values"@))
    } else {
        match receiver {
            ValueV::Object(m) => Ok(ValueV::Array(Seq::new(m.len(), |i: int| m[i].1))),
            _ => Err("values only works on objects"@),
        }
    }
}

pub fn values(receiver: Value, arguments: Vec<Value>, span: Span) -> (r: Result<Value, ExecutionError>)
    ensures
        outcome_matches(r, spec_values(receiver@, arguments@.len()), span),
{
    no_arguments("values", &arguments, span)?;
    match receiver {
        Value::Object(object) => {
            let ghost m = object@;
            let ghost orig = object.entries@;
            proof {
                lemma_entries_len(orig);
            }
            let mut rest = object.entries;
            let n = rest.len();
            let mut out: Vec<Value> = Vec::new();
            let mut i: usize = 0;
            proof {
                lemma_values_empty(out@);
                assert(rest@ =~= orig.skip(0));
            }
            while i < n
                invariant
                    m == entries_view(orig),
                    m.len() == orig.len(),
                    n == orig.len(),
                    i <= n,
                    rest@ == orig.skip(i as int),
                    values_view(out@) == Seq::new(i as nat, |k: int| m[k].1),
                decreases n - i,
            {
                proof {
                    lemma_entries_index(orig, i as int);
                }
                let (_, value) = rest.remove(0);
                proof {
                    assert(rest@ =~= orig.skip(i + 1));
                    lemma_values_push(out@, value);
                }
                out.push(value);
                proof {
                    assert(values_view(out@) =~= Seq::new((i + 1) as nat, |k: int| m[k].1));
                }
                i = i + 1;
            }
            Ok(Value::Array(out))
        },
        _ => Err(ExecutionError::new("values only works on objects", Some(span))),
    }
}

/// `has`: whether an object has an entry named by the one string argument.
pub open spec fn spec_has(receiver: ValueV, args: Seq<ValueV>) -> Result<ValueV, Seq<char>> {
    if !(args.len() == 1 && args[0] is Str) {
        Err("`has` expects exactly one string key"@)
    } else {
        match receiver {
            ValueV::Object(m) => Ok(ValueV::Boolean(entry_get(m, args[0]->Str_0) is Some)),
            _ => Err("has only works on objects"@),
        }
    }
}

pub fn has(receiver: Value, arguments: Vec<Value>, span: Span) -> (r: Result<Value, ExecutionError>)
    ensures
        outcome_matches(r, spec_has(receiver@, values_view(arguments@)), span),
{
    proof {
        lemma_values_len(arguments@);
        if arguments@.len() > 0 {
            lemma_values_index(arguments@, 0);
        }
    }
    if arguments.len() != 1 {
        return Err(ExecutionError::new("`has` expects exactly one string key", Some(span)));
    }
    let key = match &arguments[0] {
        Value::String(key) => key,
        _ => {
            return Err(ExecutionError::new("`has` expects exactly one string key", Some(span)));
        },
    };
    match &receiver {
        Value::Object(object) => Ok(Value::Boolean(object.get(key.as_str()).is_some())),
        _ => Err(ExecutionError::new("has only works on objects", Some(span))),
    }
}

/// `nullcheck`: the receiver, or the one string argument as an error when
/// the receiver is null.
pub open spec fn spec_nullcheck(receiver: ValueV, args: Seq<ValueV>) -> Result<ValueV, Seq<char>> {
    if !(args.len() == 1 && args[0] is Str) {
        Err("`nullcheck` expects one string argument"@)
    } else if receiver is Null {
        Err(args[0]->Str_0)
    } else {
        Ok(receiver)
    }
}

pub fn nullcheck(receiver: Value, arguments: Vec<Value>, span: Span) -> (r: Result<Value, ExecutionError>)
    ensures
        outcome_matches(r, spec_nullcheck(receiver@, values_view(arguments@)), span),
{
    proof {
        lemma_values_len(arguments@);
        if arguments@.len() > 0 {
            lemma_values_index(arguments@, 0);
        }
    }
    if arguments.len() != 1 {
        return Err(ExecutionError::new("`nullcheck` expects one string argument", Some(span)));
    }
    let message = match &arguments[0] {
        Value::String(message) => message,
        _ => {
            return Err(ExecutionError::new("`nullcheck` expects one string argument", Some(span)));
        },
    };
    match receiver {
        Value::Null => Err(ExecutionError::new(message.as_str(), Some(span))),
        other => Ok(other),
    }
}

/// `unwrap_or`: the receiver, or the one argument when the receiver is null.
pub open spec fn spec_unwrap_or(receiver: ValueV, args: Seq<ValueV>) -> Result<ValueV, Seq<char>> {
    if args.len() != 1 {
        Err("`unwrap_or` expects one value "@)
    } else if receiver is Null {
        Ok(args[0])
    } else {
        Ok(receiver)
    }
}

pub fn unwrap_or(receiver: Value, arguments: Vec<Value>, span: Span) -> (r: Result<Value, ExecutionError>)
    ensures
        outcome_matches(r, spec_unwrap_or(receiver@, values_view(arguments@)), span),
{
    proof {
        lemma_values_len(arguments@);
        if arguments@.len() > 0 {
            lemma_values_index(arguments@, 0);
        }
    }
    if arguments.len() != 1 {
        return Err(ExecutionError::new("`unwrap_or` expects one value ", Some(span)));
    }
    let mut arguments = arguments;
    let fallback = arguments.remove(0);
    match receiver {
        Value::Null => Ok(fallback),
        other => Ok(other),
    }
}

/// The items of an array with each array item spliced in.
pub open spec fn flattened(items: Seq<ValueV>) -> Seq<ValueV>
    decreases items.len(),
{
    if items.len() == 0 {
        seq![]
    } else {
        flattened(items.drop_last()) + match items.last() {
            ValueV::Array(inner) => inner,
            v => seq![v],
        }
    }
}

/// `flatten`: an array with its array items spliced in.
pub open spec fn spec_flatten(receiver: ValueV, argument_count: nat) -> Result<ValueV, Seq<char>> {
    if argument_count > 0 {
        Err("`flatten` expects no arguments"@)
    } else {
        match receiver {
            ValueV::Array(items) => Ok(ValueV::Array(flattened(items))),
            _ => Err(not_array_error(receiver)),
        }
    }
}

pub fn flatten(receiver: Value, arguments: Vec<Value>, span: Span) -> (r: Result<Value, ExecutionError>)
    ensures
        outcome_matches(r, spec_flatten(receiver@, arguments@.len()), span),
{
    if arguments.len() != 0 {
        return Err(ExecutionError::new("`flatten` expects no arguments", Some(span)));
    }
    let ghost rv = receiver@;
    let items = match receiver.into_array() {
        Ok(items) => items,
        Err(error) => {
            return Err(type_error_at(error, span));
        },
    };
    let ghost orig = items@;
    let ghost iv = values_view(orig);
    proof {
        lemma_values_len(orig);
    }
    let mut rest = items;
    let n = rest.len();
    let mut out: Vec<Value> = Vec::new();
    let mut i: usize = 0;
    proof {
        lemma_values_empty(out@);
        assert(rest@ =~= orig.skip(0));
        assert(iv.take(0) =~= Seq::<ValueV>::empty());
    }
    while i < n
        invariant
            iv == values_view(orig),
            iv.len() == orig.len(),
            n == orig.len(),
            i <= n,
            rest@ == orig.skip(i as int),
            values_view(out@) == flattened(iv.take(i as int)),
        decreases n - i,
    {
        proof {
            lemma_values_index(orig, i as int);
            assert(iv.take(i + 1).drop_last() =~= iv.take(i as int));
            assert(iv.take(i + 1).last() == iv[i as int]);
        }
        let item = rest.remove(0);
        proof {
            assert(rest@ =~= orig.skip(i + 1));
        }
        match item {
            Value::Array(inner) => {
                let ghost start = values_view(out@);
                let ghost inner_v = values_view(inner@);
                proof {
                    lemma_values_len(inner@);
                }
                let mut inner_rest = inner;
                let ghost inner_orig = inner_rest@;
                let m = inner_rest.len();
                let mut j: usize = 0;
                proof {
                    assert(inner_rest@ =~= inner_orig.skip(0));
                    assert(start + inner_v.take(0) =~= start);
                }
                while j < m
                    invariant
                        inner_v == values_view(inner_orig),
                        inner_v.len() == inner_orig.len(),
                        m == inner_orig.len(),
                        j <= m,
                        inner_rest@ == inner_orig.skip(j as int),
                        values_view(out@) == start + inner_v.take(j as int),
                    decreases m - j,
                {
                    proof {
                        lemma_values_index(inner_orig, j as int);
                    }
                    let x = inner_rest.remove(0);
                    proof {
                        assert(inner_rest@ =~= inner_orig.skip(j + 1));
                        lemma_values_push(out@, x);
                        assert(start + inner_v.take(j + 1) =~= (start + inner_v.take(j as int)).push(inner_v[j as int]));
                    }
                    out.push(x);
                    j = j + 1;
                }
                proof {
                    assert(inner_v.take(m as int) =~= inner_v);
                }
            },
            other => {
                proof {
                    lemma_values_push(out@, other);
                    assert(flattened(iv.take(i + 1)) =~= flattened(iv.take(i as int)) + seq![value_view(other)]);
                }
                out.push(other);
            },
        }
        i = i + 1;
    }
    proof {
        assert(iv.take(n as int) =~= iv);
    }
    Ok(Value::Array(out))
}

/// `first`: an array's first item, or null when it is empty.
pub open spec fn spec_first(receiver: ValueV, argument_count: nat) -> Result<ValueV, Seq<char>> {
    if argument_count > 0 {
        Err(no_arguments_error("first"@))
    } else {
        match receiver {
            ValueV::Array(items) => Ok(if items.len() > 0 { items[0] } else { ValueV::Null }),
            _ => Err(not_array_error(receiver)),
        }
    }
}

pub fn first(receiver: Value, arguments: Vec<Value>, span: Span) -> (r: Result<Value, ExecutionError>)
    ensures
        outcome_matches(r, spec_first(receiver@, arguments@.len()), span),
{
    no_arguments("first", &arguments, span)?;
    let mut items = match receiver.into_array() {
        Ok(items) => items,
        Err(error) => {
            return Err(type_error_at(error, span));
        },
    };
    proof {
        lemma_values_len(items@);
        if items@.len() > 0 {
            lemma_values_index(items@, 0);
        }
    }
    if items.len() > 0 {
        Ok(items.remove(0))
    } else {
        Ok(Value::Null)
    }
}

/// `last`: an array's last item, or null when it is empty.
pub open spec fn spec_last(receiver: ValueV, argument_count: nat) -> Result<ValueV, Seq<char>> {
    if argument_count > 0 {
        Err(no_arguments_error("last"@))
    } else {
        match receiver {
            ValueV::Array(items) => Ok(if items.len() > 0 { items.last() } else { ValueV::Null }),
            _ => Err(not_array_error(receiver)),
        }
    }
}

pub fn last(receiver: Value, arguments: Vec<Value>, span: Span) -> (r: Result<Value, ExecutionError>)
    ensures
        outcome_matches(r, spec_last(receiver@, arguments@.len()), span),
{
    no_arguments("last", &arguments, span)?;
    let mut items = match receiver.into_array() {
        Ok(items) => items,
        Err(error) => {
            return Err(type_error_at(error, span));
        },
    };
    proof {
        lemma_values_len(items@);
        if items@.len() > 0 {
            lemma_values_index(items@, items@.len() - 1);
        }
    }
    match items.pop() {
        Some(x) => Ok(x),
        None => Ok(Value::Null),
    }
}

/// `extend`: the receiver's items followed by the argument's.
pub open spec fn spec_extend(receiver: ValueV, args: Seq<ValueV>) -> Result<ValueV, Seq<char>> {
    if args.len() != 1 {
        Err("`extend` expects exactly two arrays"@)
    } else {
        match receiver {
            ValueV::Array(items) => match args[0] {
                ValueV::Array(more) => Ok(ValueV::Array(items + more)),
                _ => Err(not_array_error(args[0])),
            },
            _ => Err(not_array_error(receiver)),
        }
    }
}

pub fn extend(receiver: Value, arguments: Vec<Value>, span: Span) -> (r: Result<Value, ExecutionError>)
    ensures
        outcome_matches(r, spec_extend(receiver@, values_view(arguments@)), span),
{
    proof {
        lemma_values_len(arguments@);
        if arguments@.len() > 0 {
            lemma_values_index(arguments@, 0);
        }
    }
    if arguments.len() != 1 {
        return Err(ExecutionError::new("`extend` expects exactly two arrays", Some(span)));
    }
    let mut arguments = arguments;
    let other = arguments.remove(0);
    let mut output = match receiver.into_array() {
        Ok(items) => items,
        Err(error) => {
            return Err(type_error_at(error, span));
        },
    };
    let more = match other.into_array() {
        Ok(items) => items,
        Err(error) => {
            return Err(type_error_at(error, span));
        },
    };
    let ghost start = values_view(output@);
    let ghost mv = values_view(more@);
    proof {
        lemma_values_len(more@);
    }
    let ghost morig = more@;
    let mut rest = more;
    let m = rest.len();
    let mut j: usize = 0;
    proof {
        assert(rest@ =~= morig.skip(0));
        assert(start + mv.take(0) =~= start);
    }
    while j < m
        invariant
            mv == values_view(morig),
            mv.len() == morig.len(),
            m == morig.len(),
            j <= m,
            rest@ == morig.skip(j as int),
            values_view(output@) == start + mv.take(j as int),
        decreases m - j,
    {
        proof {
            lemma_values_index(morig, j as int);
        }
        let x = rest.remove(0);
        proof {
            assert(rest@ =~= morig.skip(j + 1));
            lemma_values_push(output@, x);
            assert(start + mv.take(j + 1) =~= (start + mv.take(j as int)).push(mv[j as int]));
        }
        output.push(x);
        j = j + 1;
    }
    proof {
        assert(mv.take(m as int) =~= mv);
    }
    Ok(Value::Array(output))
}

/// `starts_with`: whether a string starts with the one string argument.
pub open spec fn spec_starts_with(receiver: ValueV, args: Seq<ValueV>) -> Result<ValueV, Seq<char>> {
    if !(args.len() == 1 && args[0] is Str) {
        Err("`starts_with` expects one string"@)
    } else {
        match receiver {
            ValueV::Str(s) => {
                let p = args[0]->Str_0;
                Ok(ValueV::Boolean(p.len() <= s.len() && s.take(p.len() as int) == p))
            },
            _ => Err("`starts_with` expected a string, got "@ + crate::runtime::kind_name(kind_of(receiver))),
        }
    }
}

pub fn starts_with(receiver: Value, arguments: Vec<Value>, span: Span) -> (r: Result<Value, ExecutionError>)
    ensures
        outcome_matches(r, spec_starts_with(receiver@, values_view(arguments@)), span),
{
    proof {
        lemma_values_len(arguments@);
        if arguments@.len() > 0 {
            lemma_values_index(arguments@, 0);
        }
    }
    if arguments.len() != 1 {
        return Err(ExecutionError::new("`starts_with` expects one string", Some(span)));
    }
    let prefix = match &arguments[0] {
        Value::String(p) => p,
        _ => {
            return Err(ExecutionError::new("`starts_with` expects one string", Some(span)));
        },
    };
    match &receiver {
        Value::String(s) => {
            let cs = crate::text::chars_of(s.as_str());
            let ps = crate::text::chars_of(prefix.as_str());
            if ps.len() > cs.len() {
                return Ok(Value::Boolean(false));
            }
            let mut i: usize = 0;
            while i < ps.len()
                invariant
                    cs@ == s@,
                    ps@ == prefix@,
                    receiver@ == ValueV::Str(s@),
                    values_view(arguments@).len() == 1,
                    values_view(arguments@)[0] == ValueV::Str(prefix@),
                    ps@.len() <= cs@.len(),
                    i <= ps@.len(),
                    forall|k: int| 0 <= k < i ==> cs@[k] == ps@[k],
                decreases ps@.len() - i,
            {
                if cs[i] != ps[i] {
                    proof {
                        assert(cs@.take(ps@.len() as int)[i as int] != ps@[i as int]);
                        assert(cs@.take(ps@.len() as int) != ps@);
                    }
                    return Ok(Value::Boolean(false));
                }
                i = i + 1;
            }
            proof {
                assert(cs@.take(ps@.len() as int) =~= ps@);
            }
            Ok(Value::Boolean(true))
        },
        _ => Err(error_after("`starts_with` expected a string, got ", receiver.kind().name(), span)),
    }
}

/// `replace`: a string with each occurrence of the first string argument
/// replaced by the second (`str::replace`).
pub open spec fn spec_replace(receiver: ValueV, args: Seq<ValueV>) -> Result<ValueV, Seq<char>> {
    if !(args.len() == 2 && args[0] is Str && args[1] is Str) {
        Err("`replace` expects 2 strings"@)
    } else {
        match receiver {
            ValueV::Str(s) => Ok(ValueV::Str(crate::text::str_replaced(s, args[0]->Str_0, args[1]->Str_0))),
            _ => Err("`attr` expected an HTML node, got "@ + crate::runtime::kind_name(kind_of(receiver))),
        }
    }
}

pub fn replace(receiver: Value, arguments: Vec<Value>, span: Span) -> (r: Result<Value, ExecutionError>)
    ensures
        outcome_matches(r, spec_replace(receiver@, values_view(arguments@)), span),
{
    proof {
        lemma_values_len(arguments@);
        if arguments@.len() > 1 {
            lemma_values_index(arguments@, 0);
            lemma_values_index(arguments@, 1);
        }
    }
    if arguments.len() != 2 {
        return Err(ExecutionError::new("`replace` expects 2 strings", Some(span)));
    }
    let (from, to) = match (&arguments[0], &arguments[1]) {
        (Value::String(from), Value::String(to)) => (from, to),
        _ => {
            return Err(ExecutionError::new("`replace` expects 2 strings", Some(span)));
        },
    };
    match &receiver {
        Value::String(s) => Ok(Value::String(crate::text::str_replace(s.as_str(), from.as_str(), to.as_str()))),
        _ => Err(error_after("`attr` expected an HTML node, got ", receiver.kind().name(), span)),
    }
}

// ---------------------------------------------------------------------------
// Integers read from numbers
// ---------------------------------------------------------------------------

/// What `serde_json::Number::as_i64` returns for `n`.
pub uninterp spec fn number_i64(n: serde_json::Number) -> Option<i64>;

/// What `serde_json::Number::as_u64` returns for `n`.
pub uninterp spec fn number_u64(n: serde_json::Number) -> Option<u64>;

/// The number that `serde_json::Number::from` makes of an `i64`.
pub uninterp spec fn number_of_i64(i: i64) -> serde_json::Number;

/// `n` as an `i64` (`serde_json::Number::as_i64`), when it is an integer in
/// that range; the contract claims only that the outcome is named
/// `number_i64`.
#[verifier::external_body]
pub(crate) fn number_as_i64(n: &serde_json::Number) -> (r: Option<i64>)
    ensures
        r == number_i64(*n),
{
    n.as_i64()
}

/// `n` as a `u64` (`serde_json::Number::as_u64`), when it is an integer in
/// that range; the contract claims only that the outcome is named
/// `number_u64`.
#[verifier::external_body]
pub(crate) fn number_as_u64(n: &serde_json::Number) -> (r: Option<u64>)
    ensures
        r == number_u64(*n),
{
    n.as_u64()
}

/// The number for `i` (`serde_json::Number::from`): the outcome is named
/// `number_of_i64`, and `as_i64` gives `i` back (a `PosInt` or `NegInt`
/// holding `i`).
#[verifier::external_body]
pub(crate) fn number_from_i64(i: i64) -> (r: serde_json::Number)
    ensures
        r == number_of_i64(i),
        number_i64(r) == Some(i),
{
    serde_json::Number::from(i)
}

/// The integer a value holds, if it is a number that fits an `i64`.
pub open spec fn integer_of(v: ValueV) -> Option<i64> {
    match v {
        ValueV::Number(n) => number_i64(n),
        _ => None,
    }
}

/// The count a value holds, if it is a number that fits a `u64` and a
/// `usize`.
pub open spec fn count_of(v: ValueV) -> Option<usize> {
    match v {
        ValueV::Number(n) => match number_u64(n) {
            Some(u) => if u <= usize::MAX { Some(u as usize) } else { None },
            None => None,
        },
        _ => None,
    }
}

fn integer_argument(v: &Value) -> (r: Option<i64>)
    ensures
        r == integer_of(v@),
{
    match v {
        Value::Number(n) => number_as_i64(n),
        _ => None,
    }
}

fn count_argument(v: &Value) -> (r: Option<usize>)
    ensures
        r == count_of(v@),
{
    match v {
        Value::Number(n) => match number_as_u64(n) {
            Some(u) => if u <= usize::MAX as u64 { Some(u as usize) } else { None },
            None => None,
        },
        _ => None,
    }
}

/// `range`: the integers from the receiver up to, not including, the one
/// argument, as numbers.
pub open spec fn spec_range(receiver: ValueV, args: Seq<ValueV>) -> Result<ValueV, Seq<char>> {
    if args.len() != 1 {
        Err("`range` expects exactly two arguments"@)
    } else {
        match (integer_of(receiver), integer_of(args[0])) {
            (Some(start), Some(end)) => Ok(ValueV::Array(Seq::new(
                if start < end { (end - start) as nat } else { 0 },
                |i: int| ValueV::Number(number_of_i64((start + i) as i64)),
            ))),
            _ => Err("`range` expects integer arguments"@),
        }
    }
}

pub fn range(receiver: Value, arguments: Vec<Value>, span: Span) -> (r: Result<Value, ExecutionError>)
    ensures
        outcome_matches(r, spec_range(receiver@, values_view(arguments@)), span),
{
    proof {
        lemma_values_len(arguments@);
        if arguments@.len() > 0 {
            lemma_values_index(arguments@, 0);
        }
    }
    if arguments.len() != 1 {
        return Err(ExecutionError::new("`range` expects exactly two arguments", Some(span)));
    }
    let start = match integer_argument(&receiver) {
        Some(i) => i,
        None => {
            return Err(ExecutionError::new("`range` expects integer arguments", Some(span)));
        },
    };
    let end = match integer_argument(&arguments[0]) {
        Some(i) => i,
        None => {
            return Err(ExecutionError::new("`range` expects integer arguments", Some(span)));
        },
    };
    let ghost expected = Seq::new(
        if start < end { (end - start) as nat } else { 0 },
        |i: int| ValueV::Number(number_of_i64((start + i) as i64)),
    );
    let mut out: Vec<Value> = Vec::new();
    proof {
        lemma_values_empty(out@);
    }
    let mut k = start;
    while k < end
        invariant
            start <= k,
            start < end ==> k <= end,
            start >= end ==> k == start,
            expected.len() == (if start < end { (end - start) as nat } else { 0 }),
            forall|i: int| 0 <= i < expected.len() ==> #[trigger] expected[i] == ValueV::Number(number_of_i64((start + i) as i64)),
            values_view(out@) == expected.take(k - start),
        decreases end - k,
    {
        let v = Value::Number(number_from_i64(k));
        proof {
            lemma_values_push(out@, v);
            assert(expected.take(k + 1 - start) =~= expected.take(k - start).push(ValueV::Number(number_of_i64(k))));
        }
        out.push(v);
        k = k + 1;
    }
    proof {
        assert(expected.take(k - start) =~= expected);
    }
    Ok(Value::Array(out))
}

/// `take`: the first `count` items of an array (all of them when it has
/// fewer).
pub open spec fn spec_take(receiver: ValueV, args: Seq<ValueV>) -> Result<ValueV, Seq<char>> {
    if args.len() != 1 {
        Err("`take` expects exactly one count"@)
    } else {
        match count_of(args[0]) {
            None => Err("`take` expects a non-negative integer"@),
            Some(count) => match receiver {
                ValueV::Array(items) => Ok(ValueV::Array(
                    if count < items.len() { items.take(count as int) } else { items },
                )),
                _ => Err(not_array_error(receiver)),
            },
        }
    }
}

pub fn take(receiver: Value, arguments: Vec<Value>, span: Span) -> (r: Result<Value, ExecutionError>)
    ensures
        outcome_matches(r, spec_take(receiver@, values_view(arguments@)), span),
{
    proof {
        lemma_values_len(arguments@);
        if arguments@.len() > 0 {
            lemma_values_index(arguments@, 0);
        }
    }
    if arguments.len() != 1 {
        return Err(ExecutionError::new("`take` expects exactly one count", Some(span)));
    }
    let count = match count_argument(&arguments[0]) {
        Some(c) => c,
        None => {
            return Err(ExecutionError::new("`take` expects a non-negative integer", Some(span)));
        },
    };
    let mut items = match receiver.into_array() {
        Ok(items) => items,
        Err(error) => {
            return Err(type_error_at(error, span));
        },
    };
    let ghost all = items@;
    proof {
        lemma_values_len(all);
    }
    if count < items.len() {
        items.truncate(count);
        proof {
            assert(items@ =~= all.take(count as int));
            assert forall|i: int| 0 <= i < count implies values_view(items@)[i] == values_view(all).take(count as int)[i] by {
                lemma_values_index(items@, i);
                lemma_values_index(all, i);
            }
            lemma_values_len(items@);
            assert(values_view(items@) =~= values_view(all).take(count as int));
        }
    }
    Ok(Value::Array(items))
}

// ---------------------------------------------------------------------------
// Copies of values, and `zip`
// ---------------------------------------------------------------------------

impl Value {
    /// A copy of the value.
    pub fn duplicate(&self) -> (r: Value)
        ensures
            r@ == self@,
        decreases self, 1int,
    {
        match self {
            Value::Null => Value::Null,
            Value::Boolean(b) => Value::Boolean(*b),
            Value::Number(n) => Value::Number(n.clone()),
            Value::String(s) => Value::String(s.clone()),
            Value::Array(items) => Value::Array(duplicate_values(items)),
            Value::Object(o) => Value::Object(Object { entries: duplicate_entries(&o.entries) }),
            Value::HtmlDocument(d) => Value::HtmlDocument(HtmlDocument::parse(d.source())),
            Value::HtmlNode(n) => Value::HtmlNode(HtmlNode::new(n.fragment(), n.root_tag())),
            Value::Response(r) => Value::Response(r.duplicate()),
        }
    }
}

fn duplicate_values(items: &Vec<Value>) -> (r: Vec<Value>)
    ensures
        values_view(r@) == values_view(items@),
    decreases items, 0int,
{
    let ghost iv = values_view(items@);
    proof {
        lemma_values_len(items@);
    }
    let mut out: Vec<Value> = Vec::new();
    proof {
        lemma_values_empty(out@);
    }
    let mut i: usize = 0;
    while i < items.len()
        invariant
            iv == values_view(items@),
            iv.len() == items@.len(),
            i <= items@.len(),
            values_view(out@) == iv.take(i as int),
        decreases items@.len() - i,
    {
        proof {
            lemma_values_index(items@, i as int);
            assert(decreases_to!(items => items@));
            assert(decreases_to!(items@ => items@[i as int]));
        }
        let v = items[i].duplicate();
        proof {
            lemma_values_push(out@, v);
            assert(iv.take(i + 1) =~= iv.take(i as int).push(iv[i as int]));
        }
        out.push(v);
        i = i + 1;
    }
    proof {
        assert(iv.take(i as int) =~= iv);
    }
    out
}

fn duplicate_entries(entries: &Vec<(String, Value)>) -> (r: Vec<(String, Value)>)
    ensures
        entries_view(r@) == entries_view(entries@),
    decreases entries, 0int,
{
    let ghost mv = entries_view(entries@);
    proof {
        lemma_entries_len(entries@);
    }
    let mut out: Vec<(String, Value)> = Vec::new();
    proof {
        lemma_entries_len(out@);
        assert(entries_view(out@) =~= Seq::<(Seq<char>, ValueV)>::empty());
    }
    let mut i: usize = 0;
    while i < entries.len()
        invariant
            mv == entries_view(entries@),
            mv.len() == entries@.len(),
            i <= entries@.len(),
            entries_view(out@) == mv.take(i as int),
        decreases entries@.len() - i,
    {
        proof {
            lemma_entries_index(entries@, i as int);
            assert(decreases_to!(entries => entries@));
            assert(decreases_to!(entries@ => entries@[i as int]));
            assert(decreases_to!(entries@[i as int] => entries@[i as int].1));
        }
        let entry = (entries[i].0.clone(), entries[i].1.duplicate());
        let ghost e = entry;
        proof {
            lemma_entries_push(out@, e);
            assert(mv.take(i + 1) =~= mv.take(i as int).push(mv[i as int]));
        }
        out.push(entry);
        i = i + 1;
    }
    proof {
        assert(mv.take(i as int) =~= mv);
    }
    out
}

/// The arrays among `vs`, in order, or the error for the first that is not
/// one.
pub open spec fn arrays_of(vs: Seq<ValueV>) -> Result<Seq<Seq<ValueV>>, Seq<char>>
    decreases vs.len(),
{
    if vs.len() == 0 {
        Ok(seq![])
    } else {
        match arrays_of(vs.drop_last()) {
            Err(e) => Err(e),
            Ok(arrays) => match vs.last() {
                ValueV::Array(items) => Ok(arrays.push(items)),
                _ => Err(not_array_error(vs.last())),
            },
        }
    }
}

/// `zip`: rows made of the items at each position of the receiver and the
/// arguments, all arrays of one length. Each argument is read in turn: the
/// first that is not an array, or is an array of another length, is the
/// error.
pub open spec fn spec_zip(receiver: ValueV, args: Seq<ValueV>) -> Result<ValueV, Seq<char>> {
    if args.len() == 0 {
        Err("`zip` expects at least two arrays"@)
    } else {
        match receiver {
            ValueV::Array(first) => zip_rows(first, args),
            _ => Err(not_array_error(receiver)),
        }
    }
}

/// The first argument that is not an array of `n` items, and why.
pub open spec fn zip_check(n: nat, args: Seq<ValueV>) -> Option<Seq<char>>
    decreases args.len(),
{
    if args.len() == 0 {
        None
    } else {
        match zip_check(n, args.drop_last()) {
            Some(e) => Some(e),
            None => match args.last() {
                ValueV::Array(items) => if items.len() == n {
                    None
                } else {
                    Some("`zip` expects arrays with the same length"@)
                },
                _ => Some(not_array_error(args.last())),
            },
        }
    }
}

pub open spec fn zip_rows(first: Seq<ValueV>, args: Seq<ValueV>) -> Result<ValueV, Seq<char>> {
    match zip_check(first.len(), args) {
        Some(e) => Err(e),
        None => Ok(ValueV::Array(Seq::new(first.len(), |i: int| ValueV::Array(
            Seq::new(args.len() + 1, |j: int| if j == 0 { first[i] } else { args[j - 1]->Array_0[i] }),
        )))),
    }
}

/// An error among the first `k` arguments is the first error of them all.
proof fn lemma_zip_check_prefix(n: nat, args: Seq<ValueV>, k: int)
    requires
        0 <= k <= args.len(),
        zip_check(n, args.take(k)) is Some,
    ensures
        zip_check(n, args) == zip_check(n, args.take(k)),
    decreases args.len() - k,
{
    if k < args.len() {
        assert(args.take(k + 1).drop_last() =~= args.take(k));
        lemma_zip_check_prefix(n, args, k + 1);
    } else {
        assert(args.take(k) =~= args);
    }
}

/// When no argument fails the check, each is an array of `n` items.
proof fn lemma_zip_check_none(n: nat, args: Seq<ValueV>)
    requires
        zip_check(n, args) is None,
    ensures
        forall|j: int| 0 <= j < args.len() ==> (#[trigger] args[j]) is Array && args[j]->Array_0.len() == n,
    decreases args.len(),
{
    if args.len() > 0 {
        lemma_zip_check_none(n, args.drop_last());
        assert forall|j: int| 0 <= j < args.len() implies (#[trigger] args[j]) is Array && args[j]->Array_0.len() == n by {
            if j < args.len() - 1 {
                assert(args.drop_last()[j] == args[j]);
            }
        }
    }
}

pub fn zip(receiver: Value, arguments: Vec<Value>, span: Span) -> (r: Result<Value, ExecutionError>)
    ensures
        outcome_matches(r, spec_zip(receiver@, values_view(arguments@)), span),
{
    let ghost args = values_view(arguments@);
    proof {
        lemma_values_len(arguments@);
    }
    if arguments.len() == 0 {
        return Err(ExecutionError::new("`zip` expects at least two arrays", Some(span)));
    }
    let first = match receiver.into_array() {
        Ok(items) => items,
        Err(error) => {
            return Err(type_error_at(error, span));
        },
    };
    let ghost fv = values_view(first@);
    proof {
        lemma_values_len(first@);
    }
    let n = first.len();
    let mut j: usize = 0;
    proof {
        assert(args.take(0) =~= Seq::<ValueV>::empty());
    }
    while j < arguments.len()
        invariant
            args == values_view(arguments@),
            args.len() == arguments@.len(),
            args.len() > 0,
            receiver@ == ValueV::Array(fv),
            n == fv.len(),
            j <= arguments@.len(),
            zip_check(n as nat, args.take(j as int)) is None,
        decreases arguments@.len() - j,
    {
        proof {
            lemma_values_index(arguments@, j as int);
            assert(args.take(j + 1).drop_last() =~= args.take(j as int));
            assert(args.take(j + 1).last() == args[j as int]);
        }
        match arguments[j].expect_array() {
            Ok(items) => {
                proof {
                    lemma_values_len(items@);
                }
                if items.len() != n {
                    proof {
                        lemma_zip_check_prefix(n as nat, args, j + 1);
                    }
                    return Err(ExecutionError::new("`zip` expects arrays with the same length", Some(span)));
                }
            },
            Err(error) => {
                proof {
                    lemma_zip_check_prefix(n as nat, args, j + 1);
                }
                return Err(type_error_at(error, span));
            },
        }
        j = j + 1;
    }
    proof {
        assert(args.take(j as int) =~= args);
        lemma_zip_check_none(n as nat, args);
    }
    let ghost target = Seq::new(fv.len(), |i: int| ValueV::Array(
        Seq::new(args.len() + 1, |k: int| if k == 0 { fv[i] } else { args[k - 1]->Array_0[i] }),
    ));
    let mut rows: Vec<Value> = Vec::new();
    proof {
        lemma_values_empty(rows@);
    }
    let mut i: usize = 0;
    while i < n
        invariant
            args == values_view(arguments@),
            args.len() == arguments@.len(),
            fv == values_view(first@),
            n == fv.len(),
            n == first@.len(),
            i <= n,
            forall|k: int| 0 <= k < args.len() ==> (#[trigger] args[k]) is Array && args[k]->Array_0.len() == n,
            target == Seq::new(fv.len(), |i: int| ValueV::Array(
                Seq::new(args.len() + 1, |k: int| if k == 0 { fv[i] } else { args[k - 1]->Array_0[i] }),
            )),
            values_view(rows@) == target.take(i as int),
        decreases n - i,
    {
        let ghost row_target = Seq::new(args.len() + 1, |k: int| if k == 0 { fv[i as int] } else { args[k - 1]->Array_0[i as int] });
        let mut row: Vec<Value> = Vec::new();
        proof {
            lemma_values_index(first@, i as int);
        }
        let head = first[i].duplicate();
        proof {
            lemma_values_empty(row@);
            lemma_values_push(row@, head);
            assert(row_target.take(1) =~= seq![fv[i as int]]);
            assert(Seq::<ValueV>::empty().push(head@) =~= seq![fv[i as int]]);
        }
        row.push(head);
        let mut k: usize = 0;
        while k < arguments.len()
            invariant
                args == values_view(arguments@),
                args.len() == arguments@.len(),
                n == fv.len(),
                i < n,
                k <= arguments@.len(),
                forall|k: int| 0 <= k < args.len() ==> (#[trigger] args[k]) is Array && args[k]->Array_0.len() == n,
                row_target == Seq::new(args.len() + 1, |k: int| if k == 0 { fv[i as int] } else { args[k - 1]->Array_0[i as int] }),
                values_view(row@) == row_target.take(k + 1),
            decreases arguments@.len() - k,
        {
            proof {
                lemma_values_index(arguments@, k as int);
                assert(args[k as int] is Array);
            }
            match &arguments[k] {
                Value::Array(items) => {
                    proof {
                        lemma_values_len(items@);
                        lemma_values_index(items@, i as int);
                    }
                    let v = items[i].duplicate();
                    proof {
                        lemma_values_push(row@, v);
                        assert(row_target.take(k + 2) =~= row_target.take(k + 1).push(v@));
                    }
                    row.push(v);
                },
                _ => {
                    proof {
                        assert(false);
                    }
                },
            }
            k = k + 1;
        }
        proof {
            assert(row_target.take(k + 1) =~= row_target);
        }
        let row_value = Value::Array(row);
        proof {
            lemma_values_push(rows@, row_value);
            assert(target.take(i + 1) =~= target.take(i as int).push(ValueV::Array(row_target)));
        }
        rows.push(row_value);
        i = i + 1;
    }
    proof {
        assert(target.take(i as int) =~= target);
    }
    Ok(Value::Array(rows))
}

// ---------------------------------------------------------------------------
// Equal values, and `unique`
// ---------------------------------------------------------------------------

/// Whether `serde_json::Number`'s `==` holds of two numbers.
pub uninterp spec fn numbers_equal(a: serde_json::Number, b: serde_json::Number) -> bool;

/// Compares two numbers with `serde_json::Number`'s `==`; the contract
/// claims only that the outcome is named `numbers_equal`.
#[verifier::external_body]
fn number_eq(a: &serde_json::Number, b: &serde_json::Number) -> (r: bool)
    ensures
        r == numbers_equal(*a, *b),
{
    a == b
}

/// Whether two values are equal: of one kind and with equal contents;
/// arrays item by item, objects with the same names bound to equal values
/// in any order, responses by status, URL and body.
pub open spec fn values_equal(a: ValueV, b: ValueV) -> bool
    decreases a, 1int,
{
    match a {
        ValueV::Null => b is Null,
        ValueV::Boolean(x) => b matches ValueV::Boolean(y) && x == y,
        ValueV::Number(x) => b matches ValueV::Number(y) && numbers_equal(x, y),
        ValueV::Str(x) => b matches ValueV::Str(y) && x == y,
        ValueV::Array(xs) => b matches ValueV::Array(ys) && items_equal(xs, ys),
        ValueV::Object(m) => b matches ValueV::Object(n) && m.len() == n.len() && fields_within(m, n),
        ValueV::HtmlDocument(x) => b matches ValueV::HtmlDocument(y) && x == y,
        ValueV::HtmlNode(x) => b matches ValueV::HtmlNode(y) && x == y,
        ValueV::Response(x) => b matches ValueV::Response(y) && x.status == y.status && x.url == y.url
            && x.body == y.body,
    }
}

/// Whether two sequences have equal items at each position.
pub open spec fn items_equal(xs: Seq<ValueV>, ys: Seq<ValueV>) -> bool
    decreases xs, 0int,
{
    if xs.len() != ys.len() {
        false
    } else if xs.len() == 0 {
        true
    } else {
        proof {
            assert(decreases_to!(xs => xs.drop_last()));
            assert(decreases_to!(xs => xs[xs.len() - 1]));
        }
        items_equal(xs.drop_last(), ys.drop_last()) && values_equal(xs.last(), ys.last())
    }
}

/// Whether each field of `m` is bound in `n` to an equal value.
pub open spec fn fields_within(m: Seq<(Seq<char>, ValueV)>, n: Seq<(Seq<char>, ValueV)>) -> bool
    decreases m, 0int,
{
    if m.len() == 0 {
        true
    } else {
        proof {
            assert(decreases_to!(m => m.drop_last()));
            assert(decreases_to!(m => m[m.len() - 1]));
            assert(decreases_to!(m[m.len() - 1] => m[m.len() - 1].1));
        }
        fields_within(m.drop_last(), n) && match entry_get(n, m.last().0) {
            Some(v) => values_equal(m.last().1, v),
            None => false,
        }
    }
}

/// Whether two values are equal (see `values_equal`).
pub fn value_eq(a: &Value, b: &Value) -> (r: bool)
    ensures
        r == values_equal(a@, b@),
    decreases a, 1int,
{
    match (a, b) {
        (Value::Null, Value::Null) => true,
        (Value::Boolean(x), Value::Boolean(y)) => *x == *y,
        (Value::Number(x), Value::Number(y)) => number_eq(x, y),
        (Value::String(x), Value::String(y)) => crate::text::str_eq(x.as_str(), y.as_str()),
        (Value::Array(xs), Value::Array(ys)) => values_eq_items(xs, ys),
        (Value::Object(m), Value::Object(n)) => {
            proof {
                lemma_entries_len(m.entries@);
                lemma_entries_len(n.entries@);
            }
            m.entries.len() == n.entries.len() && object_within(&m.entries, n)
        },
        (Value::HtmlDocument(x), Value::HtmlDocument(y)) => crate::text::str_eq(x.source(), y.source()),
        (Value::HtmlNode(x), Value::HtmlNode(y)) => crate::text::str_eq(x.fragment(), y.fragment())
            && crate::text::str_eq(x.root_tag(), y.root_tag()),
        (Value::Response(x), Value::Response(y)) => x.status() == y.status() && crate::text::str_eq(x.url(), y.url())
            && bytes_eq(x.body(), y.body()),
        _ => false,
    }
}

fn bytes_eq(a: &[u8], b: &[u8]) -> (r: bool)
    ensures
        r == (a@ == b@),
{
    if a.len() != b.len() {
        return false;
    }
    let mut i: usize = 0;
    while i < a.len()
        invariant
            a@.len() == b@.len(),
            i <= a@.len(),
            a@.take(i as int) == b@.take(i as int),
        decreases a@.len() - i,
    {
        if a[i] != b[i] {
            proof {
                assert(a@[i as int] != b@[i as int]);
            }
            return false;
        }
        proof {
            assert(a@.take(i + 1) =~= a@.take(i as int).push(a@[i as int]));
            assert(b@.take(i + 1) =~= b@.take(i as int).push(b@[i as int]));
        }
        i = i + 1;
    }
    proof {
        assert(a@.take(i as int) =~= a@);
        assert(b@.take(i as int) =~= b@);
    }
    true
}

fn values_eq_items(xs: &Vec<Value>, ys: &Vec<Value>) -> (r: bool)
    ensures
        r == items_equal(values_view(xs@), values_view(ys@)),
    decreases xs, 0int,
{
    let ghost xv = values_view(xs@);
    let ghost yv = values_view(ys@);
    proof {
        lemma_values_len(xs@);
        lemma_values_len(ys@);
    }
    if xs.len() != ys.len() {
        return false;
    }
    let mut i: usize = 0;
    proof {
        assert(xv.take(0) =~= Seq::<ValueV>::empty());
        assert(yv.take(0) =~= Seq::<ValueV>::empty());
    }
    while i < xs.len()
        invariant
            xv == values_view(xs@),
            yv == values_view(ys@),
            xv.len() == xs@.len(),
            yv.len() == xs@.len(),
            ys@.len() == xs@.len(),
            i <= xs@.len(),
            items_equal(xv.take(i as int), yv.take(i as int)),
        decreases xs@.len() - i,
    {
        proof {
            lemma_values_index(xs@, i as int);
            lemma_values_index(ys@, i as int);
            assert(decreases_to!(xs => xs@));
            assert(decreases_to!(xs@ => xs@[i as int]));
            assert(xv.take(i + 1).drop_last() =~= xv.take(i as int));
            assert(yv.take(i + 1).drop_last() =~= yv.take(i as int));
        }
        if !value_eq(&xs[i], &ys[i]) {
            proof {
                lemma_items_equal_prefix(xv, yv, i + 1);
            }
            return false;
        }
        i = i + 1;
    }
    proof {
        assert(xv.take(i as int) =~= xv);
        assert(yv.take(i as int) =~= yv);
    }
    true
}

/// Sequences whose first `k` items differ somewhere are not equal.
proof fn lemma_items_equal_prefix(xs: Seq<ValueV>, ys: Seq<ValueV>, k: int)
    requires
        xs.len() == ys.len(),
        0 <= k <= xs.len(),
        !items_equal(xs.take(k), ys.take(k)),
    ensures
        !items_equal(xs, ys),
    decreases xs.len() - k,
{
    if k < xs.len() {
        assert(xs.take(k + 1).drop_last() =~= xs.take(k));
        assert(ys.take(k + 1).drop_last() =~= ys.take(k));
        lemma_items_equal_prefix(xs, ys, k + 1);
    } else {
        assert(xs.take(k) =~= xs);
        assert(ys.take(k) =~= ys);
    }
}

/// Objects whose first `k` fields are not all within `n` are not within it.
proof fn lemma_fields_within_prefix(m: Seq<(Seq<char>, ValueV)>, n: Seq<(Seq<char>, ValueV)>, k: int)
    requires
        0 <= k <= m.len(),
        !fields_within(m.take(k), n),
    ensures
        !fields_within(m, n),
    decreases m.len() - k,
{
    if k < m.len() {
        assert(m.take(k + 1).drop_last() =~= m.take(k));
        lemma_fields_within_prefix(m, n, k + 1);
    } else {
        assert(m.take(k) =~= m);
    }
}

proof fn lemma_fields_within_step(m: Seq<(Seq<char>, ValueV)>, n: Seq<(Seq<char>, ValueV)>, i: int)
    requires
        0 <= i < m.len(),
    ensures
        fields_within(m.take(i + 1), n) == (fields_within(m.take(i), n) && match entry_get(n, m[i].0) {
            Some(v) => values_equal(m[i].1, v),
            None => false,
        }),
{
    assert(m.take(i + 1).drop_last() =~= m.take(i));
    assert(m.take(i + 1).last() == m[i]);
}

/// Whether `other` binds `name` to a value equal to `value`.
fn entry_within(name: &str, value: &Value, other: &Object) -> (r: bool)
    ensures
        r == match entry_get(other@, name@) {
            Some(v) => values_equal(value@, v),
            None => false,
        },
    decreases value, 2int,
{
    match other.get(name) {
        Some(v) => value_eq(value, v),
        None => false,
    }
}

fn object_within(entries: &Vec<(String, Value)>, other: &Object) -> (r: bool)
    ensures
        r == fields_within(entries_view(entries@), other@),
    decreases entries, 0int,
{
    let ghost mv = entries_view(entries@);
    proof {
        lemma_entries_len(entries@);
        assert(mv.take(0) =~= Seq::<(Seq<char>, ValueV)>::empty());
    }
    let mut i: usize = 0;
    while i < entries.len()
        invariant
            mv == entries_view(entries@),
            mv.len() == entries@.len(),
            i <= entries@.len(),
            fields_within(mv.take(i as int), other@),
        decreases entries@.len() - i,
    {
        proof {
            lemma_entries_index(entries@, i as int);
            assert(decreases_to!(entries => entries@));
            assert(decreases_to!(entries@ => entries@[i as int]));
            assert(decreases_to!(entries@[i as int] => entries@[i as int].1));
            lemma_fields_within_step(mv, other@, i as int);
        }
        let same = entry_within(entries[i].0.as_str(), &entries[i].1, other);
        if !same {
            proof {
                lemma_fields_within_prefix(mv, other@, i + 1);
            }
            return false;
        }
        i = i + 1;
    }
    proof {
        assert(mv.take(i as int) =~= mv);
    }
    true
}

/// The items of `s` without those equal to an item kept before them.
pub open spec fn unique_items(s: Seq<ValueV>) -> Seq<ValueV>
    decreases s.len(),
{
    if s.len() == 0 {
        seq![]
    } else {
        let kept = unique_items(s.drop_last());
        if exists|k: int| 0 <= k < kept.len() && values_equal(#[trigger] kept[k], s.last()) {
            kept
        } else {
            kept.push(s.last())
        }
    }
}

/// `unique` keeps no item equal to one kept before it: in what it returns,
/// no item is equal to a later one.
pub proof fn law_unique_items_are_distinct(s: Seq<ValueV>)
    ensures
        forall|i: int, j: int| 0 <= i < j < unique_items(s).len()
            ==> !values_equal(#[trigger] unique_items(s)[i], #[trigger] unique_items(s)[j]),
    decreases s.len(),
{
    if s.len() > 0 {
        law_unique_items_are_distinct(s.drop_last());
        let kept = unique_items(s.drop_last());
        if !(exists|k: int| 0 <= k < kept.len() && values_equal(#[trigger] kept[k], s.last())) {
            let u = kept.push(s.last());
            assert forall|i: int, j: int| 0 <= i < j < u.len() implies !values_equal(#[trigger] u[i], #[trigger] u[j]) by {
                if j < kept.len() {
                    assert(u[i] == kept[i] && u[j] == kept[j]);
                } else {
                    assert(u[i] == kept[i]);
                }
            }
        }
    }
}

/// `unique`: an array's items, each kept unless an equal one was kept
/// before it.
pub open spec fn spec_unique(receiver: ValueV, argument_count: nat) -> Result<ValueV, Seq<char>> {
    if argument_count > 0 {
        Err(no_arguments_error("unique"@))
    } else {
        match receiver {
            ValueV::Array(items) => Ok(ValueV::Array(unique_items(items))),
            _ => Err(not_array_error(receiver)),
        }
    }
}

fn contains_value(items: &Vec<Value>, v: &Value) -> (r: bool)
    ensures
        r == exists|k: int| 0 <= k < items@.len() && values_equal(#[trigger] values_view(items@)[k], v@),
{
    proof {
        lemma_values_len(items@);
    }
    let mut i: usize = 0;
    while i < items.len()
        invariant
            i <= items@.len(),
            values_view(items@).len() == items@.len(),
            forall|k: int| 0 <= k < i ==> !values_equal(#[trigger] values_view(items@)[k], v@),
        decreases items@.len() - i,
    {
        proof {
            lemma_values_index(items@, i as int);
        }
        if value_eq(&items[i], v) {
            return true;
        }
        i = i + 1;
    }
    false
}

pub fn unique(receiver: Value, arguments: Vec<Value>, span: Span) -> (r: Result<Value, ExecutionError>)
    ensures
        outcome_matches(r, spec_unique(receiver@, arguments@.len()), span),
{
    no_arguments("unique", &arguments, span)?;
    let items = match receiver.into_array() {
        Ok(items) => items,
        Err(error) => {
            return Err(type_error_at(error, span));
        },
    };
    let ghost iv = values_view(items@);
    proof {
        lemma_values_len(items@);
    }
    let mut out: Vec<Value> = Vec::new();
    proof {
        lemma_values_empty(out@);
        assert(iv.take(0) =~= Seq::<ValueV>::empty());
    }
    let mut i: usize = 0;
    while i < items.len()
        invariant
            iv == values_view(items@),
            iv.len() == items@.len(),
            i <= items@.len(),
            values_view(out@) == unique_items(iv.take(i as int)),
        decreases items@.len() - i,
    {
        proof {
            lemma_values_index(items@, i as int);
            assert(iv.take(i + 1).drop_last() =~= iv.take(i as int));
        }
        let ghost kept = values_view(out@);
        let found = contains_value(&out, &items[i]);
        proof {
            lemma_values_len(out@);
            assert(iv.take(i + 1).last() == iv[i as int]);
            assert(found == exists|k: int| 0 <= k < kept.len() && values_equal(#[trigger] kept[k], iv[i as int]));
        }
        if !found {
            let v = items[i].duplicate();
            proof {
                lemma_values_push(out@, v);
            }
            out.push(v);
        }
        i = i + 1;
    }
    proof {
        assert(iv.take(i as int) =~= iv);
    }
    Ok(Value::Array(out))
}

// ---------------------------------------------------------------------------
// Values as messages show them
// ---------------------------------------------------------------------------

/// What `char::escape_debug` writes for `c`.
pub uninterp spec fn char_escape_of(c: char) -> Seq<char>;

/// What `serde_json::Number`'s `Display` writes for `n`.
pub uninterp spec fn number_text_of(n: serde_json::Number) -> Seq<char>;

/// Writes `c` escaped (`char::escape_debug`); the contract claims only that
/// the outcome is named `char_escape_of`.
#[verifier::external_body]
fn push_char_escape(out: &mut String, c: char)
    ensures
        final(out)@ == old(out)@ + char_escape_of(c),
{
    out.extend(c.escape_debug());
}

/// The text of a number (`serde_json::Number`'s `Display`); the contract
/// claims only that the outcome is named `number_text_of`.
#[verifier::external_body]
pub(crate) fn number_text(n: &serde_json::Number) -> (r: String)
    ensures
        r@ == number_text_of(*n),
{
    n.to_string()
}

/// A character inside a quoted string: a single quote stays as it is, any
/// other is escaped as `char::escape_debug` does.
pub open spec fn char_escaped(c: char) -> Seq<char> {
    if c == '\'' {
        seq!['\'']
    } else {
        char_escape_of(c)
    }
}

pub open spec fn escaped(s: Seq<char>) -> Seq<char>
    decreases s.len(),
{
    if s.len() == 0 {
        seq![]
    } else {
        escaped(s.drop_last()) + char_escaped(s.last())
    }
}

/// A string in double quotes, escaped.
pub open spec fn quoted(s: Seq<char>) -> Seq<char> {
    "\""@ + escaped(s) + "\""@
}

/// How a value is written in messages: its kind and its contents, as the
/// `{:?}` notation writes them.
pub open spec fn debug_of(v: ValueV) -> Seq<char>
    decreases v, 1int,
{
    match v {
        ValueV::Null => "Null"@,
        ValueV::Boolean(b) => "Boolean("@ + (if b { "true"@ } else { "false"@ }) + ")"@,
        ValueV::Number(n) => "Number(Number("@ + number_text_of(n) + "))"@,
        ValueV::Str(s) => "String("@ + quoted(s) + ")"@,
        ValueV::Array(xs) => "Array(["@ + debug_items(xs) + "])"@,
        ValueV::Object(m) => "Object({"@ + debug_fields(m) + "})"@,
        ValueV::HtmlDocument(s) => "HtmlDocument { source: "@ + quoted(s) + " }"@,
        ValueV::HtmlNode(n) => "HtmlNode { fragment: "@ + quoted(n.0) + ", root_tag: "@ + quoted(n.1) + " }"@,
        ValueV::Response(r) => "Response { status: "@ + decimal(r.status as nat) + ", url: "@ + quoted(r.url)
            + ", body_len: "@ + decimal(r.body.len()) + " }"@,
    }
}

/// Items separated by `, `.
pub open spec fn debug_items(xs: Seq<ValueV>) -> Seq<char>
    decreases xs, 0int,
{
    if xs.len() == 0 {
        seq![]
    } else {
        proof {
            assert(decreases_to!(xs => xs.drop_last()));
            assert(decreases_to!(xs => xs[xs.len() - 1]));
        }
        debug_items(xs.drop_last()) + (if xs.len() > 1 { ", "@ } else { seq![] }) + debug_of(xs.last())
    }
}

/// Fields as `"name": value`, separated by `, `.
pub open spec fn debug_fields(m: Seq<(Seq<char>, ValueV)>) -> Seq<char>
    decreases m, 0int,
{
    if m.len() == 0 {
        seq![]
    } else {
        proof {
            assert(decreases_to!(m => m.drop_last()));
            assert(decreases_to!(m => m[m.len() - 1]));
            assert(decreases_to!(m[m.len() - 1] => m[m.len() - 1].1));
        }
        debug_fields(m.drop_last()) + (if m.len() > 1 { ", "@ } else { seq![] }) + quoted(m.last().0)
            + ": "@ + debug_of(m.last().1)
    }
}

fn push_quoted(out: &mut String, s: &str)
    ensures
        final(out)@ == old(out)@ + quoted(s@),
{
    let chars = crate::text::chars_of(s);
    string_push_str(out, "\"");
    let ghost start = out@;
    let mut i: usize = 0;
    proof {
        assert(chars@.take(0) =~= Seq::<char>::empty());
        assert(start + escaped(chars@.take(0)) =~= start);
    }
    while i < chars.len()
        invariant
            chars@ == s@,
            i <= chars@.len(),
            out@ == start + escaped(chars@.take(i as int)),
        decreases chars@.len() - i,
    {
        let c = chars[i];
        let ghost before = out@;
        if c == '\'' {
            crate::text::string_push(out, c);
            proof {
                assert(before.push(c) =~= before + seq!['\'']);
            }
        } else {
            push_char_escape(out, c);
        }
        proof {
            assert(chars@.take(i + 1).drop_last() =~= chars@.take(i as int));
            assert(chars@.take(i + 1).last() == c);
            assert(out@ =~= start + escaped(chars@.take(i + 1)));
        }
        i = i + 1;
    }
    string_push_str(out, "\"");
    proof {
        assert(chars@.take(i as int) =~= s@);
        assert(out@ =~= old(out)@ + quoted(s@));
    }
}

fn push_debug(out: &mut String, v: &Value)
    ensures
        final(out)@ == old(out)@ + debug_of(v@),
    decreases v, 1int,
{
    let ghost o = out@;
    match v {
        Value::Null => {
            string_push_str(out, "Null");
        },
        Value::Boolean(b) => {
            string_push_str(out, "Boolean(");
            if *b {
                string_push_str(out, "true");
            } else {
                string_push_str(out, "false");
            }
            string_push_str(out, ")");
        },
        Value::Number(n) => {
            string_push_str(out, "Number(Number(");
            let t = number_text(n);
            string_push_str(out, t.as_str());
            string_push_str(out, "))");
        },
        Value::String(s) => {
            string_push_str(out, "String(");
            push_quoted(out, s.as_str());
            string_push_str(out, ")");
        },
        Value::Array(xs) => {
            string_push_str(out, "Array([");
            push_debug_items(out, xs);
            string_push_str(out, "])");
        },
        Value::Object(m) => {
            string_push_str(out, "Object({");
            push_debug_fields(out, &m.entries);
            string_push_str(out, "})");
        },
        Value::HtmlDocument(d) => {
            string_push_str(out, "HtmlDocument { source: ");
            push_quoted(out, d.source());
            string_push_str(out, " }");
        },
        Value::HtmlNode(n) => {
            string_push_str(out, "HtmlNode { fragment: ");
            push_quoted(out, n.fragment());
            string_push_str(out, ", root_tag: ");
            push_quoted(out, n.root_tag());
            string_push_str(out, " }");
        },
        Value::Response(r) => {
            string_push_str(out, "Response { status: ");
            crate::text::push_decimal(out, r.status() as usize);
            string_push_str(out, ", url: ");
            push_quoted(out, r.url());
            string_push_str(out, ", body_len: ");
            crate::text::push_decimal(out, r.body().len());
            string_push_str(out, " }");
        },
    }
    proof {
        assert(out@ =~= o + debug_of(v@));
    }
}

fn push_debug_items(out: &mut String, xs: &Vec<Value>)
    ensures
        final(out)@ == old(out)@ + debug_items(values_view(xs@)),
    decreases xs, 0int,
{
    let ghost xv = values_view(xs@);
    let ghost start = out@;
    proof {
        lemma_values_len(xs@);
        assert(xv.take(0) =~= Seq::<ValueV>::empty());
        assert(start + debug_items(xv.take(0)) =~= start);
    }
    let mut i: usize = 0;
    while i < xs.len()
        invariant
            xv == values_view(xs@),
            xv.len() == xs@.len(),
            i <= xs@.len(),
            out@ == start + debug_items(xv.take(i as int)),
        decreases xs@.len() - i,
    {
        proof {
            lemma_values_index(xs@, i as int);
            assert(decreases_to!(xs => xs@));
            assert(decreases_to!(xs@ => xs@[i as int]));
            assert(xv.take(i + 1).drop_last() =~= xv.take(i as int));
            assert(xv.take(i + 1).last() == xv[i as int]);
        }
        let ghost before = out@;
        if i > 0 {
            string_push_str(out, ", ");
        }
        let ghost mid = out@;
        push_debug(out, &xs[i]);
        proof {
            if i > 0 {
                assert(out@ =~= start + debug_items(xv.take(i + 1)));
            } else {
                assert(mid == before);
                assert(out@ =~= start + debug_items(xv.take(i + 1)));
            }
        }
        i = i + 1;
    }
    proof {
        assert(xv.take(i as int) =~= xv);
    }
}

fn push_debug_fields(out: &mut String, entries: &Vec<(String, Value)>)
    ensures
        final(out)@ == old(out)@ + debug_fields(entries_view(entries@)),
    decreases entries, 0int,
{
    let ghost mv = entries_view(entries@);
    let ghost start = out@;
    proof {
        lemma_entries_len(entries@);
        assert(mv.take(0) =~= Seq::<(Seq<char>, ValueV)>::empty());
        assert(start + debug_fields(mv.take(0)) =~= start);
    }
    let mut i: usize = 0;
    while i < entries.len()
        invariant
            mv == entries_view(entries@),
            mv.len() == entries@.len(),
            i <= entries@.len(),
            out@ == start + debug_fields(mv.take(i as int)),
        decreases entries@.len() - i,
    {
        proof {
            lemma_entries_index(entries@, i as int);
            assert(decreases_to!(entries => entries@));
            assert(decreases_to!(entries@ => entries@[i as int]));
            assert(decreases_to!(entries@[i as int] => entries@[i as int].1));
            assert(mv.take(i + 1).drop_last() =~= mv.take(i as int));
            assert(mv.take(i + 1).last() == mv[i as int]);
        }
        let ghost before = out@;
        if i > 0 {
            string_push_str(out, ", ");
        }
        push_quoted(out, entries[i].0.as_str());
        string_push_str(out, ": ");
        push_debug(out, &entries[i].1);
        proof {
            assert(out@ =~= start + debug_fields(mv.take(i + 1)));
        }
        i = i + 1;
    }
    proof {
        assert(mv.take(i as int) =~= mv);
    }
}

impl Value {
    /// The value as messages write it (see `debug_of`).
    pub fn debug_text(&self) -> (r: String)
        ensures
            r@ == debug_of(self@),
    {
        let mut out = String::new();
        push_debug(&mut out, self);
        proof {
            assert(out@ =~= debug_of(self@));
        }
        out
    }
}

// ---------------------------------------------------------------------------
// String functions
// ---------------------------------------------------------------------------

/// The number that `serde_json::Number::from` makes of a `usize`.
pub uninterp spec fn number_of_usize(n: usize) -> serde_json::Number;

/// The number for `n` (`serde_json::Number::from`): the outcome is named
/// `number_of_usize`, and `as_u64` gives `n` back (a `PosInt` holding it).
#[verifier::external_body]
pub(crate) fn number_from_usize(n: usize) -> (r: serde_json::Number)
    ensures
        r == number_of_usize(n),
        number_u64(r) == Some(n as u64),
{
    serde_json::Number::from(n)
}

/// `len`: the length of a string in bytes, or of an array in items.
pub open spec fn spec_len(receiver: ValueV, argument_count: nat) -> Result<ValueV, Seq<char>> {
    if argument_count > 0 {
        Err(no_arguments_error("len"@))
    } else {
        match receiver {
            ValueV::Str(s) => Ok(ValueV::Number(number_of_usize(crate::text::byte_len(s) as usize))),
            ValueV::Array(items) => Ok(ValueV::Number(number_of_usize(items.len() as usize))),
            _ => Err("`"@ + debug_of(receiver) + "` not supported by len"@),
        }
    }
}

pub fn len(receiver: Value, arguments: Vec<Value>, span: Span) -> (r: Result<Value, ExecutionError>)
    ensures
        outcome_matches(r, spec_len(receiver@, arguments@.len()), span),
{
    no_arguments("len", &arguments, span)?;
    match &receiver {
        Value::String(s) => Ok(Value::Number(number_from_usize(crate::text::str_byte_len(s.as_str())))),
        Value::Array(items) => {
            proof {
                lemma_values_len(items@);
            }
            Ok(Value::Number(number_from_usize(items.len())))
        },
        _ => {
            let shown = receiver.debug_text();
            Err(error_with("`", shown.as_str(), "` not supported by len", span))
        },
    }
}

/// `s` without the whitespace at its start.
pub open spec fn trim_start(s: Seq<char>) -> Seq<char>
    decreases s.len(),
{
    if s.len() > 0 && crate::text::unicode_whitespace(s[0]) {
        trim_start(s.skip(1))
    } else {
        s
    }
}

/// `s` without the whitespace at its end.
pub open spec fn trim_end(s: Seq<char>) -> Seq<char>
    decreases s.len(),
{
    if s.len() > 0 && crate::text::unicode_whitespace(s.last()) {
        trim_end(s.drop_last())
    } else {
        s
    }
}

/// `s` without the whitespace at either end (`str::trim`).
pub open spec fn trimmed(s: Seq<char>) -> Seq<char> {
    trim_end(trim_start(s))
}

/// `str::trim`, computed over the characters.
pub fn trim_str(s: &str) -> (r: String)
    ensures
        r@ == trimmed(s@),
{
    let chars = crate::text::chars_of(s);
    let n = chars.len();
    let mut a: usize = 0;
    proof {
        assert(s@.skip(0) =~= s@);
    }
    while a < n && crate::text::char_is_whitespace(chars[a])
        invariant
            chars@ == s@,
            n == chars@.len(),
            a <= n,
            trim_start(s@) == trim_start(s@.skip(a as int)),
        decreases n - a,
    {
        proof {
            assert(s@.skip(a as int).skip(1) =~= s@.skip(a + 1));
        }
        a = a + 1;
    }
    let ghost t = s@.skip(a as int);
    proof {
        assert(trim_start(s@) == t);
    }
    let mut b: usize = n;
    proof {
        assert(s@.subrange(a as int, b as int) =~= t);
    }
    while b > a && crate::text::char_is_whitespace(chars[b - 1])
        invariant
            chars@ == s@,
            n == chars@.len(),
            a <= b <= n,
            t == s@.skip(a as int),
            trim_end(t) == trim_end(s@.subrange(a as int, b as int)),
        decreases b - a,
    {
        proof {
            assert(s@.subrange(a as int, b as int).drop_last() =~= s@.subrange(a as int, b - 1));
        }
        b = b - 1;
    }
    proof {
        let u = s@.subrange(a as int, b as int);
        if u.len() > 0 {
            assert(u.last() == chars@[b - 1]);
        }
    }
    crate::text::string_from_range(&chars, a, b)
}

/// `trim`: strings without the whitespace at either end; arrays item by
/// item, however deeply nested.
pub open spec fn trim_all(v: ValueV) -> Result<ValueV, Seq<char>>
    decreases v, 1int,
{
    match v {
        ValueV::Array(items) => match trim_items(items) {
            Ok(xs) => Ok(ValueV::Array(xs)),
            Err(e) => Err(e),
        },
        ValueV::Str(s) => Ok(ValueV::Str(trimmed(s))),
        _ => Err("`contains` is not supported for "@ + debug_of(v)),
    }
}

pub open spec fn trim_items(s: Seq<ValueV>) -> Result<Seq<ValueV>, Seq<char>>
    decreases s, 0int,
{
    if s.len() == 0 {
        Ok(seq![])
    } else {
        proof {
            assert(decreases_to!(s => s.drop_last()));
            assert(decreases_to!(s => s[s.len() - 1]));
        }
        match trim_items(s.drop_last()) {
            Err(e) => Err(e),
            Ok(xs) => match trim_all(s.last()) {
                Err(e) => Err(e),
                Ok(x) => Ok(xs.push(x)),
            },
        }
    }
}

pub open spec fn spec_trim(receiver: ValueV, argument_count: nat) -> Result<ValueV, Seq<char>> {
    if argument_count > 0 {
        Err(no_arguments_error("trim"@))
    } else {
        trim_all(receiver)
    }
}

/// An error among the first `k` items is the first error of them all.
proof fn lemma_trim_items_prefix(s: Seq<ValueV>, k: int)
    requires
        0 <= k <= s.len(),
        trim_items(s.take(k)) is Err,
    ensures
        trim_items(s) == trim_items(s.take(k)),
    decreases s.len() - k,
{
    if k < s.len() {
        assert(s.take(k + 1).drop_last() =~= s.take(k));
        lemma_trim_items_prefix(s, k + 1);
    } else {
        assert(s.take(k) =~= s);
    }
}

fn trim_value(v: &Value, span: Span) -> (r: Result<Value, ExecutionError>)
    ensures
        outcome_matches(r, trim_all(v@), span),
    decreases v, 1int,
{
    match v {
        Value::Array(items) => match trim_values(items, span) {
            Ok(xs) => Ok(Value::Array(xs)),
            Err(e) => Err(e),
        },
        Value::String(s) => Ok(Value::String(trim_str(s.as_str()))),
        _ => {
            let shown = v.debug_text();
            Err(error_after("`contains` is not supported for ", shown.as_str(), span))
        },
    }
}

fn trim_values(items: &Vec<Value>, span: Span) -> (r: Result<Vec<Value>, ExecutionError>)
    ensures
        match trim_items(values_view(items@)) {
            Ok(xs) => r matches Ok(x) && values_view(x@) == xs,
            Err(m) => r matches Err(e) && e@ == (m, Some(span)),
        },
    decreases items, 0int,
{
    let ghost iv = values_view(items@);
    proof {
        lemma_values_len(items@);
        assert(iv.take(0) =~= Seq::<ValueV>::empty());
    }
    let mut out: Vec<Value> = Vec::new();
    proof {
        lemma_values_empty(out@);
    }
    let mut i: usize = 0;
    while i < items.len()
        invariant
            iv == values_view(items@),
            iv.len() == items@.len(),
            i <= items@.len(),
            trim_items(iv.take(i as int)) == Ok::<Seq<ValueV>, Seq<char>>(values_view(out@)),
        decreases items@.len() - i,
    {
        proof {
            lemma_values_index(items@, i as int);
            assert(decreases_to!(items => items@));
            assert(decreases_to!(items@ => items@[i as int]));
            assert(iv.take(i + 1).drop_last() =~= iv.take(i as int));
            assert(iv.take(i + 1).last() == iv[i as int]);
        }
        match trim_value(&items[i], span) {
            Ok(x) => {
                proof {
                    lemma_values_push(out@, x);
                }
                out.push(x);
            },
            Err(e) => {
                proof {
                    lemma_trim_items_prefix(iv, i + 1);
                }
                return Err(e);
            },
        }
        i = i + 1;
    }
    proof {
        assert(iv.take(i as int) =~= iv);
    }
    Ok(out)
}

pub fn trim(receiver: Value, arguments: Vec<Value>, span: Span) -> (r: Result<Value, ExecutionError>)
    ensures
        outcome_matches(r, spec_trim(receiver@, arguments@.len()), span),
{
    no_arguments("trim", &arguments, span)?;
    trim_value(&receiver, span)
}

/// Whether `part` occurs in `s` (always, when it is empty).
pub open spec fn occurs_in(part: Seq<char>, s: Seq<char>) -> bool {
    exists|i: int| 0 <= i && i + part.len() <= s.len() && #[trigger] s.subrange(i, i + part.len()) == part
}

/// Whether `p` occurs in `s` at position `i`.
fn matches_at(s: &Vec<char>, p: &Vec<char>, i: usize) -> (r: bool)
    requires
        i + p@.len() <= s@.len(),
    ensures
        r == (s@.subrange(i as int, i + p@.len()) == p@),
{
    let n = s.len();
    let mut j: usize = 0;
    while j < p.len()
        invariant
            n == s@.len(),
            i + p@.len() <= s@.len(),
            j <= p@.len(),
            s@.subrange(i as int, i + j) == p@.take(j as int),
        decreases p@.len() - j,
    {
        if s[i + j] != p[j] {
            proof {
                assert(s@.subrange(i as int, i + p@.len())[j as int] != p@[j as int]);
            }
            return false;
        }
        proof {
            assert(s@.subrange(i as int, i + j + 1) =~= s@.subrange(i as int, i + j).push(s@[i + j]));
            assert(p@.take(j + 1) =~= p@.take(j as int).push(p@[j as int]));
        }
        j = j + 1;
    }
    proof {
        assert(p@.take(j as int) =~= p@);
    }
    true
}

fn str_contains(s: &str, part: &str) -> (r: bool)
    ensures
        r == occurs_in(part@, s@),
{
    let sc = crate::text::chars_of(s);
    let pc = crate::text::chars_of(part);
    if pc.len() > sc.len() {
        return false;
    }
    let last = sc.len() - pc.len();
    let mut i: usize = 0;
    while i <= last
        invariant
            sc@ == s@,
            pc@ == part@,
            pc@.len() <= sc@.len(),
            last == sc@.len() - pc@.len(),
            i <= last + 1,
            forall|k: int| 0 <= k < i ==> #[trigger] s@.subrange(k, k + part@.len()) != part@,
        decreases last + 1 - i,
    {
        if matches_at(&sc, &pc, i) {
            return true;
        }
        if i == last {
            proof {
                assert forall|k: int| 0 <= k && k + part@.len() <= s@.len() implies #[trigger] s@.subrange(k, k + part@.len()) != part@ by {
                    assert(k <= last);
                }
            }
            return false;
        }
        i = i + 1;
    }
    false
}

/// `contains`: whether a string contains the one string argument.
pub open spec fn spec_contains(receiver: ValueV, args: Seq<ValueV>) -> Result<ValueV, Seq<char>> {
    if !(args.len() == 1 && args[0] is Str) {
        Err("`contains` expects one string "@)
    } else {
        match receiver {
            ValueV::Str(s) => Ok(ValueV::Boolean(occurs_in(args[0]->Str_0, s))),
            _ => Err("`contains` is not supported for "@ + debug_of(receiver)),
        }
    }
}

pub fn contains(receiver: Value, arguments: Vec<Value>, span: Span) -> (r: Result<Value, ExecutionError>)
    requires
        values_view(arguments@).len() == 1 && values_view(arguments@)[0] is Str
            ==> !(receiver@ is Array || receiver@ is Object),
    ensures
        outcome_matches(r, spec_contains(receiver@, values_view(arguments@)), span),
{
    proof {
        lemma_values_len(arguments@);
        if arguments@.len() > 0 {
            lemma_values_index(arguments@, 0);
        }
    }
    if arguments.len() != 1 {
        return Err(ExecutionError::new("`contains` expects one string ", Some(span)));
    }
    let part = match &arguments[0] {
        Value::String(part) => part,
        _ => {
            return Err(ExecutionError::new("`contains` expects one string ", Some(span)));
        },
    };
    match &receiver {
        Value::String(s) => Ok(Value::Boolean(str_contains(s.as_str(), part.as_str()))),
        _ => {
            let shown = receiver.debug_text();
            Err(error_after("`contains` is not supported for ", shown.as_str(), span))
        },
    }
}

/// `ensure_suffix`: a string that ends with the one string argument, the
/// receiver itself when it does already.
pub open spec fn spec_ensure_suffix(receiver: ValueV, args: Seq<ValueV>) -> Result<ValueV, Seq<char>> {
    if !(args.len() == 1 && args[0] is Str) {
        Err("`ensure_suffix` expects one string name"@)
    } else {
        let suffix = args[0]->Str_0;
        match receiver {
            ValueV::Str(s) => Ok(ValueV::Str(
                if suffix.len() <= s.len() && s.skip(s.len() - suffix.len()) == suffix { s } else { s + suffix },
            )),
            _ => Err("`ensure_suffix` only supports string types and not "@ + debug_of(receiver)),
        }
    }
}

fn str_ends_with(s: &str, suffix: &str) -> (r: bool)
    ensures
        r == (suffix@.len() <= s@.len() && s@.skip(s@.len() - suffix@.len()) == suffix@),
{
    let sc = crate::text::chars_of(s);
    let pc = crate::text::chars_of(suffix);
    if pc.len() > sc.len() {
        return false;
    }
    let off = sc.len() - pc.len();
    let n = sc.len();
    let mut j: usize = 0;
    while j < pc.len()
        invariant
            n == sc@.len(),
            sc@ == s@,
            pc@ == suffix@,
            off == sc@.len() - pc@.len(),
            j <= pc@.len(),
            s@.subrange(off as int, off + j) == suffix@.take(j as int),
        decreases pc@.len() - j,
    {
        if sc[off + j] != pc[j] {
            proof {
                assert(s@.skip(off as int)[j as int] != suffix@[j as int]);
            }
            return false;
        }
        proof {
            assert(s@.subrange(off as int, off + j + 1) =~= s@.subrange(off as int, off + j).push(sc@[off + j]));
            assert(suffix@.take(j + 1) =~= suffix@.take(j as int).push(pc@[j as int]));
        }
        j = j + 1;
    }
    proof {
        assert(s@.subrange(off as int, off + j) =~= s@.skip(off as int));
        assert(suffix@.take(j as int) =~= suffix@);
    }
    true
}

pub fn ensure_suffix(receiver: Value, arguments: Vec<Value>, span: Span) -> (r: Result<Value, ExecutionError>)
    ensures
        outcome_matches(r, spec_ensure_suffix(receiver@, values_view(arguments@)), span),
{
    proof {
        lemma_values_len(arguments@);
        if arguments@.len() > 0 {
            lemma_values_index(arguments@, 0);
        }
    }
    if arguments.len() != 1 {
        return Err(ExecutionError::new("`ensure_suffix` expects one string name", Some(span)));
    }
    let suffix = match &arguments[0] {
        Value::String(suffix) => suffix,
        _ => {
            return Err(ExecutionError::new("`ensure_suffix` expects one string name", Some(span)));
        },
    };
    match &receiver {
        Value::String(s) => {
            if str_ends_with(s.as_str(), suffix.as_str()) {
                Ok(Value::String(s.clone()))
            } else {
                let mut out = s.clone();
                string_push_str(&mut out, suffix.as_str());
                Ok(Value::String(out))
            }
        },
        _ => {
            let shown = receiver.debug_text();
            Err(error_after("`ensure_suffix` only supports string types and not ", shown.as_str(), span))
        },
    }
}

/// `join`: a string followed by the one string argument, or by the text of
/// the one number argument.
pub open spec fn spec_join(receiver: ValueV, args: Seq<ValueV>) -> Result<ValueV, Seq<char>> {
    if args.len() != 1 {
        Err("`join` expects one string or number item"@)
    } else {
        let tail = match args[0] {
            ValueV::Number(n) => Some(number_text_of(n)),
            ValueV::Str(s) => Some(s),
            _ => None,
        };
        match tail {
            None => Err("`join` expects one string or number item"@),
            Some(t) => match receiver {
                ValueV::Str(s) => Ok(ValueV::Str(s + t)),
                _ => Err("`join` only supports string types and not "@ + debug_of(receiver)),
            },
        }
    }
}

pub fn join(receiver: Value, arguments: Vec<Value>, span: Span) -> (r: Result<Value, ExecutionError>)
    ensures
        outcome_matches(r, spec_join(receiver@, values_view(arguments@)), span),
{
    proof {
        lemma_values_len(arguments@);
        if arguments@.len() > 0 {
            lemma_values_index(arguments@, 0);
        }
    }
    if arguments.len() != 1 {
        return Err(ExecutionError::new("`join` expects one string or number item", Some(span)));
    }
    let tail = match &arguments[0] {
        Value::Number(n) => number_text(n),
        Value::String(s) => s.clone(),
        _ => {
            return Err(ExecutionError::new("`join` expects one string or number item", Some(span)));
        },
    };
    match &receiver {
        Value::String(s) => {
            let mut out = s.clone();
            string_push_str(&mut out, tail.as_str());
            Ok(Value::String(out))
        },
        _ => {
            let shown = receiver.debug_text();
            Err(error_after("`join` only supports string types and not ", shown.as_str(), span))
        },
    }
}

/// `s` without `p` at its start, when it starts with it.
pub open spec fn without_prefix(s: Seq<char>, p: Seq<char>) -> Seq<char> {
    if p.len() <= s.len() && s.take(p.len() as int) == p {
        s.skip(p.len() as int)
    } else {
        s
    }
}

fn strip_prefix_str(s: &str, p: &str) -> (r: String)
    ensures
        r@ == without_prefix(s@, p@),
{
    let sc = crate::text::chars_of(s);
    let pc = crate::text::chars_of(p);
    if pc.len() <= sc.len() && matches_at(&sc, &pc, 0) {
        proof {
            assert(s@.subrange(0, p@.len() as int) =~= s@.take(p@.len() as int));
        }
        crate::text::string_from_range(&sc, pc.len(), sc.len())
    } else {
        proof {
            if p@.len() <= s@.len() {
                assert(s@.subrange(0, p@.len() as int) =~= s@.take(p@.len() as int));
            }
        }
        s.to_owned()
    }
}

/// A string encoded as a URL form value: what `serde_urlencoded` writes for
/// the one pair `value`, without the leading `value=`.
pub open spec fn url_value(s: Seq<char>) -> Result<Seq<char>, Seq<char>> {
    match urlencoded_of(seq![("value"@, s)]) {
        Ok(t) => Ok(without_prefix(t, "value="@)),
        Err(e) => Err("failed to encode URL value: "@ + e),
    }
}

/// `urlencode`: strings encoded as URL form values; arrays item by item,
/// however deeply nested.
pub open spec fn urlencode_all(v: ValueV) -> Result<ValueV, Seq<char>>
    decreases v, 1int,
{
    match v {
        ValueV::Array(items) => match urlencode_items(items) {
            Ok(xs) => Ok(ValueV::Array(xs)),
            Err(e) => Err(e),
        },
        ValueV::Str(s) => match url_value(s) {
            Ok(t) => Ok(ValueV::Str(t)),
            Err(e) => Err(e),
        },
        _ => Err("`urlencode` expected a string, got "@ + crate::runtime::kind_name(kind_of(v))),
    }
}

pub open spec fn urlencode_items(s: Seq<ValueV>) -> Result<Seq<ValueV>, Seq<char>>
    decreases s, 0int,
{
    if s.len() == 0 {
        Ok(seq![])
    } else {
        proof {
            assert(decreases_to!(s => s.drop_last()));
            assert(decreases_to!(s => s[s.len() - 1]));
        }
        match urlencode_items(s.drop_last()) {
            Err(e) => Err(e),
            Ok(xs) => match urlencode_all(s.last()) {
                Err(e) => Err(e),
                Ok(x) => Ok(xs.push(x)),
            },
        }
    }
}

pub open spec fn spec_urlencode(receiver: ValueV, argument_count: nat) -> Result<ValueV, Seq<char>> {
    if argument_count > 0 {
        Err(no_arguments_error("urlencode"@))
    } else {
        urlencode_all(receiver)
    }
}

/// An error among the first `k` items is the first error of them all.
proof fn lemma_urlencode_items_prefix(s: Seq<ValueV>, k: int)
    requires
        0 <= k <= s.len(),
        urlencode_items(s.take(k)) is Err,
    ensures
        urlencode_items(s) == urlencode_items(s.take(k)),
    decreases s.len() - k,
{
    if k < s.len() {
        assert(s.take(k + 1).drop_last() =~= s.take(k));
        lemma_urlencode_items_prefix(s, k + 1);
    } else {
        assert(s.take(k) =~= s);
    }
}

fn url_encode_str(s: &str, span: Span) -> (r: Result<String, ExecutionError>)
    ensures
        match url_value(s@) {
            Ok(t) => r matches Ok(x) && x@ == t,
            Err(m) => r matches Err(e) && e@ == (m, Some(span)),
        },
{
    let mut fields: Vec<(String, String)> = Vec::new();
    fields.push(("value".to_owned(), s.to_owned()));
    proof {
        assert(crate::runtime::header_pairs(fields@) =~= seq![("value"@, s@)]);
    }
    match form_encode(fields) {
        Ok(encoded) => Ok(strip_prefix_str(encoded.as_str(), "value=")),
        Err(error) => Err(error_after("failed to encode URL value: ", error.as_str(), span)),
    }
}

fn urlencode_value(v: &Value, span: Span) -> (r: Result<Value, ExecutionError>)
    ensures
        outcome_matches(r, urlencode_all(v@), span),
    decreases v, 1int,
{
    match v {
        Value::Array(items) => match urlencode_values(items, span) {
            Ok(xs) => Ok(Value::Array(xs)),
            Err(e) => Err(e),
        },
        Value::String(s) => match url_encode_str(s.as_str(), span) {
            Ok(t) => Ok(Value::String(t)),
            Err(e) => Err(e),
        },
        _ => Err(error_after("`urlencode` expected a string, got ", v.kind().name(), span)),
    }
}

fn urlencode_values(items: &Vec<Value>, span: Span) -> (r: Result<Vec<Value>, ExecutionError>)
    ensures
        match urlencode_items(values_view(items@)) {
            Ok(xs) => r matches Ok(x) && values_view(x@) == xs,
            Err(m) => r matches Err(e) && e@ == (m, Some(span)),
        },
    decreases items, 0int,
{
    let ghost iv = values_view(items@);
    proof {
        lemma_values_len(items@);
        assert(iv.take(0) =~= Seq::<ValueV>::empty());
    }
    let mut out: Vec<Value> = Vec::new();
    proof {
        lemma_values_empty(out@);
    }
    let mut i: usize = 0;
    while i < items.len()
        invariant
            iv == values_view(items@),
            iv.len() == items@.len(),
            i <= items@.len(),
            urlencode_items(iv.take(i as int)) == Ok::<Seq<ValueV>, Seq<char>>(values_view(out@)),
        decreases items@.len() - i,
    {
        proof {
            lemma_values_index(items@, i as int);
            assert(decreases_to!(items => items@));
            assert(decreases_to!(items@ => items@[i as int]));
            assert(iv.take(i + 1).drop_last() =~= iv.take(i as int));
            assert(iv.take(i + 1).last() == iv[i as int]);
        }
        match urlencode_value(&items[i], span) {
            Ok(x) => {
                proof {
                    lemma_values_push(out@, x);
                }
                out.push(x);
            },
            Err(e) => {
                proof {
                    lemma_urlencode_items_prefix(iv, i + 1);
                }
                return Err(e);
            },
        }
        i = i + 1;
    }
    proof {
        assert(iv.take(i as int) =~= iv);
    }
    Ok(out)
}

pub fn urlencode(receiver: Value, arguments: Vec<Value>, span: Span) -> (r: Result<Value, ExecutionError>)
    ensures
        outcome_matches(r, spec_urlencode(receiver@, arguments@.len()), span),
{
    no_arguments("urlencode", &arguments, span)?;
    urlencode_value(&receiver, span)
}

// ---------------------------------------------------------------------------
// Responses read as values
// ---------------------------------------------------------------------------

impl Response {
    /// The body read as JSON (see `json_bytes_of`).
    pub fn json(&self) -> (r: Result<Json, ExecutionError>)
        ensures
            match json_bytes_of(self@.body) {
                Ok(j) => r matches Ok(x) && x@ == j,
                Err(e) => r matches Err(x) && x@ == ("invalid response JSON: "@ + e, None::<Span>),
            },
    {
        match json_parse_bytes(self.body()) {
            Ok(j) => Ok(j),
            Err(error) => {
                let mut message = "invalid response JSON: ".to_owned();
                string_push_str(&mut message, error.as_str());
                Err(ExecutionError::from_message(message, None))
            },
        }
    }
}

/// `status`: the status code of a response.
pub open spec fn spec_status(receiver: ValueV, argument_count: nat) -> Result<ValueV, Seq<char>> {
    if argument_count > 0 {
        Err(no_arguments_error("status"@))
    } else {
        match receiver {
            ValueV::Response(r) => Ok(ValueV::Number(number_of_usize(r.status as usize))),
            _ => Err("`status` expects a response"@),
        }
    }
}

pub fn status(receiver: Value, arguments: Vec<Value>, span: Span) -> (r: Result<Value, ExecutionError>)
    ensures
        outcome_matches(r, spec_status(receiver@, arguments@.len()), span),
{
    no_arguments("status", &arguments, span)?;
    match &receiver {
        Value::Response(response) => Ok(Value::Number(number_from_usize(response.status() as usize))),
        _ => Err(ExecutionError::new("`status` expects a response", Some(span))),
    }
}

/// `json`: a response's body or a string read as JSON, as a value. A body
/// that is not JSON is an error without a position.
pub open spec fn spec_json(receiver: ValueV, argument_count: nat, span: Span) -> Result<ValueV, (Seq<char>, Option<Span>)> {
    if argument_count > 0 {
        Err((no_arguments_error("json"@), Some(span)))
    } else {
        match receiver {
            ValueV::Response(r) => match json_bytes_of(r.body) {
                Ok(j) => Ok(value_of_json(j)),
                Err(e) => Err(("invalid response JSON: "@ + e, None)),
            },
            ValueV::Str(s) => match json_parse_of(s) {
                Ok(j) => Ok(value_of_json(j)),
                Err(e) => Err(("Failed to parse `"@ + s + "` to json: "@ + e.1, Some(span))),
            },
            _ => Err(("`json` expects a response"@, Some(span))),
        }
    }
}

pub fn json(receiver: Value, arguments: Vec<Value>, span: Span) -> (r: Result<Value, ExecutionError>)
    ensures
        match spec_json(receiver@, arguments@.len(), span) {
            Ok(v) => r matches Ok(x) && x@ == v,
            Err(e) => r matches Err(x) && x@ == e,
        },
{
    no_arguments("json", &arguments, span)?;
    match &receiver {
        Value::Response(response) => match response.json() {
            Ok(j) => Ok(value_from_json(&j)),
            Err(e) => Err(e),
        },
        Value::String(s) => match json_parse(s.as_str()) {
            Ok(j) => Ok(value_from_json(&j)),
            Err(error) => {
                let mut message = "Failed to parse `".to_owned();
                string_push_str(&mut message, s.as_str());
                string_push_str(&mut message, "` to json: ");
                string_push_str(&mut message, error.1.as_str());
                Err(ExecutionError::from_message(message, Some(span)))
            },
        },
        _ => Err(ExecutionError::new("`json` expects a response", Some(span))),
    }
}

// ---------------------------------------------------------------------------
// Values as JSON for logging
// ---------------------------------------------------------------------------

/// Whether `n` bytes of `t`'s UTF-8 encoding end on a character boundary.
pub open spec fn is_boundary(t: Seq<char>, n: nat) -> bool {
    exists|k: int| 0 <= k <= t.len() && crate::text::byte_offset(t, k) == n
}

/// The characters that the first `n` bytes of `t` encode, when `n` is a
/// boundary.
pub open spec fn chars_before_byte(t: Seq<char>, n: nat) -> Seq<char> {
    t.take(choose|k: int| 0 <= k <= t.len() && crate::text::byte_offset(t, k) == n)
}

/// A response body's text, or the empty text when it is not UTF-8.
pub open spec fn text_or_empty(body: Seq<u8>) -> Seq<char> {
    match crate::runtime::response_text(body) {
        Ok(t) => t,
        Err(_) => seq![],
    }
}

/// A value as JSON for logging: documents and nodes by their kind, a
/// response by its status, URL and the first 50 bytes of its text; any
/// other value as `to_json` writes it (and so with its errors).
pub open spec fn debug_json_of(v: ValueV) -> Result<JsonV, (Seq<char>, ValueKind)> {
    match v {
        ValueV::HtmlDocument(_) => Ok(JsonV::Str("HtmlDocument"@)),
        ValueV::HtmlNode(_) => Ok(JsonV::Str("HtmlNode"@)),
        ValueV::Response(r) => Ok(JsonV::Object(seq![
            ("type"@, JsonV::Str("Response"@)),
            ("status"@, JsonV::Number(number_of_usize(r.status as usize))),
            ("url"@, JsonV::Str(r.url)),
            ("body"@, JsonV::Str(chars_before_byte(text_or_empty(r.body), 50))),
        ])),
        _ => json_of(v, "$"@),
    }
}

/// The characters of `t` before byte `n`.
fn chars_before(t: &str, n: usize) -> (r: String)
    requires
        is_boundary(t@, n as nat),
    ensures
        r@ == chars_before_byte(t@, n as nat),
{
    let chars = crate::text::chars_of(t);
    let ghost s = chars@;
    let ghost kk = choose|k: int| 0 <= k <= s.len() && crate::text::byte_offset(s, k) == n;
    let mut k: usize = 0;
    let mut bytes: usize = 0;
    let count = chars.len();
    proof {
        assert(s.take(0) =~= Seq::<char>::empty());
    }
    while bytes < n
        invariant
            count == chars@.len(),
            s == chars@,
            s == t@,
            0 <= kk <= s.len(),
            crate::text::byte_offset(s, kk) == n,
            k <= s.len(),
            bytes == crate::text::byte_offset(s, k as int),
            bytes <= n,
            k <= kk,
        decreases kk - k,
    {
        proof {
            if kk <= k {
                crate::text::lemma_byte_offset_mono(s, kk, k as int);
            }
            crate::text::lemma_byte_offset_step(s, k as int);
            assert(k < kk);
            crate::text::lemma_byte_offset_mono(s, k + 1, kk);
        }
        bytes = bytes + crate::text::char_len_utf8(chars[k]);
        k = k + 1;
    }
    proof {
        if k < kk {
            crate::text::lemma_byte_offset_mono(s, k as int, kk);
        }
    }
    crate::text::string_from_range(&chars, 0, k)
}

impl Value {
    /// The value as JSON for logging (see `debug_json_of`).
    pub fn to_debug_json(&self) -> (r: Result<Json, SerializationError>)
        requires
            self@ is Response ==> is_boundary(text_or_empty(self@->Response_0.body), 50),
        ensures
            match debug_json_of(self@) {
                Ok(j) => r matches Ok(x) && x@ == j,
                Err(e) => r matches Err(x) && x@ == e,
            },
    {
        match self {
            Value::HtmlDocument(_) => Ok(Json::String("HtmlDocument".to_owned())),
            Value::HtmlNode(_) => Ok(Json::String("HtmlNode".to_owned())),
            Value::Response(response) => {
                let text = match response.text() {
                    Ok(t) => t,
                    Err(_) => String::new(),
                };
                let body = chars_before(text.as_str(), 50);
                let f0 = ("type".to_owned(), Json::String("Response".to_owned()));
                let f1 = ("status".to_owned(), Json::Number(number_from_usize(response.status() as usize)));
                let f2 = ("url".to_owned(), Json::String(response.url().to_owned()));
                let f3 = ("body".to_owned(), Json::String(body));
                let ghost (g0, g1, g2, g3) = (f0, f1, f2, f3);
                let mut fields: Vec<(String, Json)> = Vec::new();
                fields.push(f0);
                fields.push(f1);
                fields.push(f2);
                fields.push(f3);
                proof {
                    assert(fields@ =~= seq![g0, g1, g2, g3]);
                    assert(seq![g0, g1, g2, g3] =~= seq![g0, g1, g2].push(g3));
                    assert(seq![g0, g1, g2] =~= seq![g0, g1].push(g2));
                    assert(seq![g0, g1] =~= seq![g0].push(g1));
                    assert(seq![g0] =~= Seq::<(String, Json)>::empty().push(g0));
                    lemma_jfields_push(Seq::<(String, Json)>::empty(), g0);
                    lemma_jfields_push(seq![g0], g1);
                    lemma_jfields_push(seq![g0, g1], g2);
                    lemma_jfields_push(seq![g0, g1, g2], g3);
                    assert(jfields_view(Seq::<(String, Json)>::empty()) =~= Seq::<(Seq<char>, JsonV)>::empty());
                    assert(jfields_view(fields@) =~= debug_json_of(self@)->Ok_0->Object_0);
                }
                Ok(Json::Object(fields))
            },
            _ => self.to_json(),
        }
    }
}

// ---------------------------------------------------------------------------
// What a run produced
// ---------------------------------------------------------------------------

/// The public output of a run and the warnings it reported.
#[derive(Debug, PartialEq)]
pub struct ExecutionResult {
    output: Object,
    warnings: Vec<crate::runtime::Diagnostic>,
}

pub open spec fn diagnostics_view(d: Seq<crate::runtime::Diagnostic>) -> Seq<(Seq<char>, Option<Span>)> {
    d.map_values(|x: crate::runtime::Diagnostic| x@)
}

impl View for ExecutionResult {
    type V = (Seq<(Seq<char>, ValueV)>, Seq<(Seq<char>, Option<Span>)>);

    closed spec fn view(&self) -> (Seq<(Seq<char>, ValueV)>, Seq<(Seq<char>, Option<Span>)>) {
        (self.output@, diagnostics_view(self.warnings@))
    }
}

impl ExecutionResult {
    pub fn new(output: Object, warnings: Vec<crate::runtime::Diagnostic>) -> (r: Self)
        ensures
            r@ == (output@, diagnostics_view(warnings@)),
    {
        ExecutionResult { output, warnings }
    }

    pub fn output(&self) -> (r: &Object)
        ensures
            r@ == self@.0,
    {
        &self.output
    }

    pub fn warnings(&self) -> (r: &[crate::runtime::Diagnostic])
        ensures
            diagnostics_view(r@) == self@.1,
    {
        self.warnings.as_slice()
    }

    /// The output as JSON (see `json_of`, from the root path `$`).
    pub fn to_json(&self) -> (r: Result<Json, SerializationError>)
        ensures
            match json_of(ValueV::Object(self@.0), "$"@) {
                Ok(j) => r matches Ok(x) && x@ == j,
                Err(e) => r matches Err(x) && x@ == e,
            },
    {
        let value = Value::Object(Object { entries: duplicate_entries(&self.output.entries) });
        value.to_json()
    }
}

// ---------------------------------------------------------------------------
// JSON read as values and written back
// ---------------------------------------------------------------------------

/// Whether no two fields share a name.
pub open spec fn names_distinct(f: Seq<(Seq<char>, JsonV)>) -> bool {
    forall|i: int, j: int| 0 <= i < j < f.len() ==> (#[trigger] f[i]).0 != (#[trigger] f[j]).0
}

/// Whether no object in `j`, however deeply nested, names a field twice.
pub open spec fn plain_json(j: JsonV) -> bool
    decreases j, 1int,
{
    match j {
        JsonV::Array(items) => plain_items(items),
        JsonV::Object(f) => names_distinct(f) && plain_fields(f),
        _ => true,
    }
}

pub open spec fn plain_items(s: Seq<JsonV>) -> bool
    decreases s, 0int,
{
    if s.len() == 0 {
        true
    } else {
        proof {
            assert(decreases_to!(s => s.drop_last()));
            assert(decreases_to!(s => s[s.len() - 1]));
        }
        plain_items(s.drop_last()) && plain_json(s.last())
    }
}

pub open spec fn plain_fields(f: Seq<(Seq<char>, JsonV)>) -> bool
    decreases f, 0int,
{
    if f.len() == 0 {
        true
    } else {
        proof {
            assert(decreases_to!(f => f.drop_last()));
            assert(decreases_to!(f => f[f.len() - 1]));
            assert(decreases_to!(f[f.len() - 1] => f[f.len() - 1].1));
        }
        plain_fields(f.drop_last()) && plain_json(f.last().1)
    }
}

proof fn lemma_plain_items_index(s: Seq<JsonV>, i: int)
    requires
        plain_items(s),
        0 <= i < s.len(),
    ensures
        plain_json(s[i]),
    decreases s.len(),
{
    if i < s.len() - 1 {
        lemma_plain_items_index(s.drop_last(), i);
    }
}

proof fn lemma_plain_fields_index(f: Seq<(Seq<char>, JsonV)>, i: int)
    requires
        plain_fields(f),
        0 <= i < f.len(),
    ensures
        plain_json(f[i].1),
    decreases f.len(),
{
    if i < f.len() - 1 {
        lemma_plain_fields_index(f.drop_last(), i);
    }
}

proof fn lemma_values_of_jsons(s: Seq<JsonV>)
    ensures
        values_of_jsons(s) == Seq::new(s.len(), |i: int| value_of_json(s[i])),
    decreases s.len(),
{
    if s.len() > 0 {
        lemma_values_of_jsons(s.drop_last());
        assert(values_of_jsons(s) =~= Seq::new(s.len(), |i: int| value_of_json(s[i])));
    } else {
        assert(values_of_jsons(s) =~= Seq::new(s.len(), |i: int| value_of_json(s[i])));
    }
}

/// Fields with distinct names keep their order when read as an object.
pub proof fn law_json_objects_keep_their_order(f: Seq<(Seq<char>, JsonV)>)
    requires
        names_distinct(f),
    ensures
        object_of_fields(f) == Seq::new(f.len(), |i: int| (f[i].0, value_of_json(f[i].1))),
    decreases f.len(),
{
    if f.len() > 0 {
        let g = f.drop_last();
        assert(names_distinct(g));
        law_json_objects_keep_their_order(g);
        let m = object_of_fields(g);
        assert(!exists|i: int| 0 <= i < m.len() && m[i].0 == f.last().0) by {
            if exists|i: int| 0 <= i < m.len() && m[i].0 == f.last().0 {
                let i = choose|i: int| 0 <= i < m.len() && m[i].0 == f.last().0;
                assert(f[i].0 != f[f.len() - 1].0);
            }
        }
        assert(object_of_fields(f) =~= Seq::new(f.len(), |i: int| (f[i].0, value_of_json(f[i].1))));
    } else {
        assert(object_of_fields(f) =~= Seq::new(f.len(), |i: int| (f[i].0, value_of_json(f[i].1))));
    }
}

proof fn lemma_round_trip(j: JsonV, p: Seq<char>)
    requires
        plain_json(j),
    ensures
        json_of(value_of_json(j), p) == Ok::<JsonV, (Seq<char>, ValueKind)>(j),
    decreases j, 1int,
{
    match j {
        JsonV::Array(items) => {
            lemma_values_of_jsons(items);
            lemma_round_trip_items(items, p, 0);
            assert(items.skip(0) =~= items);
        },
        JsonV::Object(f) => {
            law_json_objects_keep_their_order(f);
            lemma_round_trip_fields(f, p, 0);
            assert(f.skip(0) =~= f);
        },
        _ => {},
    }
}

proof fn lemma_round_trip_items(items: Seq<JsonV>, p: Seq<char>, k: int)
    requires
        plain_items(items),
        0 <= k <= items.len(),
    ensures
        json_items(Seq::new(items.len(), |i: int| value_of_json(items[i])), p, k)
            == Ok::<Seq<JsonV>, (Seq<char>, ValueKind)>(items.skip(k)),
    decreases items, items.len() - k,
{
    let vs = Seq::new(items.len(), |i: int| value_of_json(items[i]));
    if k < items.len() {
        lemma_plain_items_index(items, k);
        assert(decreases_to!(items => items[k]));
        lemma_round_trip(items[k], index_path(p, k as nat));
        lemma_round_trip_items(items, p, k + 1);
        assert(vs[k] == value_of_json(items[k]));
        assert(seq![items[k]] + items.skip(k + 1) =~= items.skip(k));
    } else {
        assert(items.skip(k) =~= Seq::<JsonV>::empty());
    }
}

proof fn lemma_round_trip_fields(f: Seq<(Seq<char>, JsonV)>, p: Seq<char>, k: int)
    requires
        plain_fields(f),
        0 <= k <= f.len(),
    ensures
        json_fields(Seq::new(f.len(), |i: int| (f[i].0, value_of_json(f[i].1))), p, k)
            == Ok::<Seq<(Seq<char>, JsonV)>, (Seq<char>, ValueKind)>(f.skip(k)),
    decreases f, f.len() - k,
{
    let m = Seq::new(f.len(), |i: int| (f[i].0, value_of_json(f[i].1)));
    if k < f.len() {
        lemma_plain_fields_index(f, k);
        assert(decreases_to!(f => f[k]));
        assert(decreases_to!(f[k] => f[k].1));
        lemma_round_trip(f[k].1, field_path(p, f[k].0));
        lemma_round_trip_fields(f, p, k + 1);
        assert(m[k] == (f[k].0, value_of_json(f[k].1)));
        assert(seq![(f[k].0, f[k].1)] + f.skip(k + 1) =~= f.skip(k));
    } else {
        assert(f.skip(k) =~= Seq::<(Seq<char>, JsonV)>::empty());
    }
}

/// JSON read as a value is written back as the same JSON, when no object
/// in it names a field twice.
pub proof fn law_json_value_round_trip(j: JsonV)
    requires
        plain_json(j),
    ensures
        json_of(value_of_json(j), "$"@) == Ok::<JsonV, (Seq<char>, ValueKind)>(j),
{
    lemma_round_trip(j, "$"@);
}


// ---------------------------------------------------------------------------
// HTML-like values
// ---------------------------------------------------------------------------

/// Whether a value is HTML-like: a document, a node or a response, or an
/// array of such values (an empty one too).
pub open spec fn html_like(v: ValueV) -> bool
    decreases v, 1int,
{
    match v {
        ValueV::HtmlDocument(_) | ValueV::HtmlNode(_) | ValueV::Response(_) => true,
        ValueV::Array(items) => all_html_like(items),
        _ => false,
    }
}

pub open spec fn all_html_like(s: Seq<ValueV>) -> bool
    decreases s, 0int,
{
    if s.len() == 0 {
        true
    } else {
        proof {
            assert(decreases_to!(s => s.drop_last()));
            assert(decreases_to!(s => s[s.len() - 1]));
        }
        all_html_like(s.drop_last()) && html_like(s.last())
    }
}

proof fn lemma_all_html_like_prefix(s: Seq<ValueV>, k: int)
    requires
        0 <= k <= s.len(),
        !all_html_like(s.take(k)),
    ensures
        !all_html_like(s),
    decreases s.len() - k,
{
    if k < s.len() {
        assert(s.take(k + 1).drop_last() =~= s.take(k));
        lemma_all_html_like_prefix(s, k + 1);
    } else {
        assert(s.take(k) =~= s);
    }
}

pub fn is_html_like(value: &Value) -> (r: bool)
    ensures
        r == html_like(value@),
    decreases value, 1int,
{
    match value {
        Value::HtmlDocument(_) | Value::HtmlNode(_) | Value::Response(_) => true,
        Value::Array(items) => all_values_html_like(items),
        _ => false,
    }
}

fn all_values_html_like(items: &Vec<Value>) -> (r: bool)
    ensures
        r == all_html_like(values_view(items@)),
    decreases items, 0int,
{
    let ghost iv = values_view(items@);
    let mut i: usize = 0;
    proof {
        lemma_values_len(items@);
        assert(iv.take(0) =~= Seq::<ValueV>::empty());
    }
    while i < items.len()
        invariant
            iv == values_view(items@),
            iv.len() == items@.len(),
            i <= items@.len(),
            all_html_like(iv.take(i as int)),
        decreases items@.len() - i,
    {
        proof {
            lemma_values_index(items@, i as int);
            assert(decreases_to!(items => items@));
            assert(decreases_to!(items@ => items@[i as int]));
            assert(iv.take(i + 1).drop_last() =~= iv.take(i as int));
            assert(iv.take(i + 1).last() == iv[i as int]);
        }
        if !is_html_like(&items[i]) {
            proof {
                lemma_all_html_like_prefix(iv, i + 1);
            }
            return false;
        }
        i = i + 1;
    }
    proof {
        assert(iv.take(i as int) =~= iv);
    }
    true
}

// ---------------------------------------------------------------------------
// `sorted`
// ---------------------------------------------------------------------------

/// Whether `a` comes before `b`: the first character that differs is the
/// lower, or `a` is a proper prefix of `b` (the order of `str`).
pub open spec fn str_less(a: Seq<char>, b: Seq<char>) -> bool
    decreases a.len(),
{
    if a.len() == 0 {
        b.len() > 0
    } else if b.len() == 0 {
        false
    } else if a[0] != b[0] {
        (a[0] as u32) < (b[0] as u32)
    } else {
        str_less(a.skip(1), b.skip(1))
    }
}

/// Where `x` goes in `s`: before the first entry it comes before.
pub open spec fn insert_place(s: Seq<Seq<char>>, x: Seq<char>, j: int) -> int
    decreases s.len() - j,
{
    if j < 0 || j >= s.len() {
        s.len() as int
    } else if str_less(x, s[j]) {
        j
    } else {
        insert_place(s, x, j + 1)
    }
}

/// The strings in order; equal strings keep their order (a stable sort).
pub open spec fn sorted_strs(s: Seq<Seq<char>>) -> Seq<Seq<char>>
    decreases s.len(),
{
    if s.len() == 0 {
        seq![]
    } else {
        let before = sorted_strs(s.drop_last());
        before.insert(insert_place(before, s.last(), 0), s.last())
    }
}

/// The texts of items that are all strings.
pub open spec fn strs_of(items: Seq<ValueV>) -> Seq<Seq<char>> {
    Seq::new(items.len(), |i: int| items[i]->Str_0)
}

/// What `sorted` does with an array's items: strings are put in order
/// here; numbers are compared as floating-point values (`total_cmp`) by the
/// host, which this hands them to.
pub enum SortedV {
    Strings(Seq<Seq<char>>),
    Numbers(Seq<serde_json::Number>),
}

#[derive(Debug, PartialEq)]
pub enum Sorted {
    Strings(Vec<String>),
    Numbers(Vec<serde_json::Number>),
}

impl View for Sorted {
    type V = SortedV;

    open spec fn view(&self) -> SortedV {
        match self {
            Sorted::Strings(v) => SortedV::Strings(Seq::new(v@.len(), |i: int| v@[i]@)),
            Sorted::Numbers(v) => SortedV::Numbers(v@),
        }
    }
}

/// `sorted`: the items of an array of strings in order, or of numbers for
/// the host to order; any other item, or a mix of kinds, is an error.
pub open spec fn spec_sorted(receiver: ValueV, argument_count: nat) -> Result<SortedV, Seq<char>> {
    if argument_count > 0 {
        Err("`sorted` expects no arguments"@)
    } else {
        match receiver {
            ValueV::Array(items) => if forall|i: int| 0 <= i < items.len() ==> (#[trigger] items[i]) is Str {
                Ok(SortedV::Strings(sorted_strs(strs_of(items))))
            } else if forall|i: int| 0 <= i < items.len() ==> (#[trigger] items[i]) is Number {
                Ok(SortedV::Numbers(Seq::new(items.len(), |i: int| items[i]->Number_0)))
            } else {
                Err("sorting expects homogeneous non-null strings or numbers"@)
            },
            _ => Err(not_array_error(receiver)),
        }
    }
}

proof fn lemma_str_less_transitive(a: Seq<char>, b: Seq<char>, c: Seq<char>)
    requires
        str_less(a, b),
        str_less(b, c),
    ensures
        str_less(a, c),
    decreases a.len(),
{
    if a.len() > 0 && b.len() > 0 && c.len() > 0 && a[0] == b[0] && b[0] == c[0] {
        lemma_str_less_transitive(a.skip(1), b.skip(1), c.skip(1));
    }
}

proof fn lemma_str_less_irreflexive(a: Seq<char>)
    ensures
        !str_less(a, a),
    decreases a.len(),
{
    if a.len() > 0 {
        lemma_str_less_irreflexive(a.skip(1));
    }
}

/// Whether no entry comes before an earlier one.
pub open spec fn strs_in_order(s: Seq<Seq<char>>) -> bool {
    forall|i: int, j: int| 0 <= i < j < s.len() ==> !str_less(#[trigger] s[j], #[trigger] s[i])
}

proof fn lemma_insert_place(s: Seq<Seq<char>>, x: Seq<char>, k: int)
    requires
        0 <= k <= s.len(),
    ensures
        k <= insert_place(s, x, k) <= s.len(),
        forall|i: int| k <= i < insert_place(s, x, k) ==> !str_less(x, #[trigger] s[i]),
        insert_place(s, x, k) < s.len() ==> str_less(x, s[insert_place(s, x, k)]),
    decreases s.len() - k,
{
    if k < s.len() && !str_less(x, s[k]) {
        lemma_insert_place(s, x, k + 1);
    }
}

/// `sorted` puts strings in order: no string it returns comes before one
/// returned earlier.
pub proof fn law_sorted_strings_are_in_order(s: Seq<Seq<char>>)
    ensures
        strs_in_order(sorted_strs(s)),
    decreases s.len(),
{
    if s.len() > 0 {
        law_sorted_strings_are_in_order(s.drop_last());
        let before = sorted_strs(s.drop_last());
        let x = s.last();
        lemma_insert_place(before, x, 0);
        let p = insert_place(before, x, 0);
        let r = before.insert(p, x);
        assert forall|i: int, j: int| 0 <= i < j < r.len() implies !str_less(#[trigger] r[j], #[trigger] r[i]) by {
            if j < p {
                assert(r[i] == before[i] && r[j] == before[j]);
            } else if j == p {
                assert(r[i] == before[i]);
            } else if i > p {
                assert(r[i] == before[i - 1] && r[j] == before[j - 1]);
            } else if i == p {
                assert(r[j] == before[j - 1]);
                if str_less(before[j - 1], x) {
                    lemma_str_less_transitive(before[j - 1], x, before[p]);
                    if j - 1 > p {
                        assert(!str_less(before[j - 1], before[p]));
                    } else {
                        lemma_str_less_irreflexive(before[p]);
                    }
                }
            } else {
                assert(r[i] == before[i] && r[j] == before[j - 1]);
            }
        }
    }
}

fn str_less_exec(a: &str, b: &str) -> (r: bool)
    ensures
        r == str_less(a@, b@),
{
    let ac = crate::text::chars_of(a);
    let bc = crate::text::chars_of(b);
    let mut i: usize = 0;
    proof {
        assert(a@.skip(0) =~= a@);
        assert(b@.skip(0) =~= b@);
    }
    while i < ac.len() && i < bc.len() && ac[i] == bc[i]
        invariant
            ac@ == a@,
            bc@ == b@,
            i <= ac@.len(),
            i <= bc@.len(),
            str_less(a@, b@) == str_less(a@.skip(i as int), b@.skip(i as int)),
        decreases ac@.len() - i,
    {
        proof {
            assert(a@.skip(i as int).skip(1) =~= a@.skip(i + 1));
            assert(b@.skip(i as int).skip(1) =~= b@.skip(i + 1));
        }
        i = i + 1;
    }
    if i == ac.len() {
        i < bc.len()
    } else if i == bc.len() {
        false
    } else {
        (ac[i] as u32) < (bc[i] as u32)
    }
}

fn sort_strings(strings: Vec<String>) -> (r: Vec<String>)
    ensures
        Seq::new(r@.len(), |i: int| r@[i]@) == sorted_strs(Seq::new(strings@.len(), |i: int| strings@[i]@)),
{
    let ghost all = Seq::new(strings@.len(), |i: int| strings@[i]@);
    let mut out: Vec<String> = Vec::new();
    let mut k: usize = 0;
    proof {
        assert(all.take(0) =~= Seq::<Seq<char>>::empty());
        assert(Seq::new(out@.len(), |i: int| out@[i]@) =~= Seq::<Seq<char>>::empty());
    }
    while k < strings.len()
        invariant
            all == Seq::new(strings@.len(), |i: int| strings@[i]@),
            k <= strings@.len(),
            Seq::new(out@.len(), |i: int| out@[i]@) == sorted_strs(all.take(k as int)),
        decreases strings@.len() - k,
    {
        let ghost before = Seq::new(out@.len(), |i: int| out@[i]@);
        let x = strings[k].as_str();
        let mut j: usize = 0;
        while j < out.len() && !str_less_exec(x, out[j].as_str())
            invariant
                before == Seq::new(out@.len(), |i: int| out@[i]@),
                j <= out@.len(),
                insert_place(before, x@, 0) == insert_place(before, x@, j as int),
            decreases out@.len() - j,
        {
            j = j + 1;
        }
        let ghost old_out = out@;
        out.insert(j, strings[k].clone());
        proof {
            assert(all.take(k + 1).drop_last() =~= all.take(k as int));
            assert(all.take(k + 1).last() == x@);
            assert(insert_place(before, x@, j as int) == j as int);
            assert(Seq::new(out@.len(), |i: int| out@[i]@) =~= before.insert(j as int, x@));
        }
        k = k + 1;
    }
    proof {
        assert(all.take(k as int) =~= all);
    }
    out
}

pub fn sorted(receiver: Value, arguments: Vec<Value>, span: Span) -> (r: Result<Sorted, ExecutionError>)
    ensures
        match spec_sorted(receiver@, arguments@.len()) {
            Ok(v) => r matches Ok(x) && x@ == v,
            Err(m) => r matches Err(e) && e@ == (m, Some(span)),
        },
{
    if arguments.len() > 0 {
        return Err(ExecutionError::new("`sorted` expects no arguments", Some(span)));
    }
    let items = match receiver.into_array() {
        Ok(items) => items,
        Err(error) => {
            return Err(type_error_at(error, span));
        },
    };
    let ghost iv = values_view(items@);
    proof {
        lemma_values_len(items@);
    }
    let mut strings: Vec<String> = Vec::new();
    let mut numbers: Vec<serde_json::Number> = Vec::new();
    let mut i: usize = 0;
    while i < items.len()
        invariant
            iv == values_view(items@),
            iv.len() == items@.len(),
            i <= items@.len(),
            receiver@ == ValueV::Array(iv),
            arguments@.len() == 0,
            strings@.len() + numbers@.len() == i,
            strings@.len() == i || numbers@.len() == i,
            strings@.len() == i ==> forall|k: int| 0 <= k < i ==> (#[trigger] iv[k]) is Str && iv[k]->Str_0 == strings@[k]@,
            numbers@.len() == i ==> forall|k: int| 0 <= k < i ==> (#[trigger] iv[k]) is Number && iv[k]->Number_0 == numbers@[k],
        decreases items@.len() - i,
    {
        proof {
            lemma_values_index(items@, i as int);
        }
        let all_strings = strings.len() == i;
        match &items[i] {
            Value::String(s) => {
                if all_strings {
                    strings.push(s.clone());
                } else {
                    proof {
                        assert(iv[0] is Number);
                        assert(!(iv[0] is Str));
                        assert(!(iv[i as int] is Number));
                    }
                    return Err(ExecutionError::new("sorting expects homogeneous non-null strings or numbers", Some(span)));
                }
            },
            Value::Number(n) => {
                if numbers.len() == i {
                    numbers.push(n.clone());
                } else {
                    proof {
                        assert(iv[0] is Str);
                        assert(!(iv[0] is Number));
                        assert(!(iv[i as int] is Str));
                    }
                    return Err(ExecutionError::new("sorting expects homogeneous non-null strings or numbers", Some(span)));
                }
            },
            _ => {
                proof {
                    assert(!(iv[i as int] is Str) && !(iv[i as int] is Number));
                }
                return Err(ExecutionError::new("sorting expects homogeneous non-null strings or numbers", Some(span)));
            },
        }
        i = i + 1;
    }
    if strings.len() == items.len() {
        let sorted = sort_strings(strings);
        proof {
            assert(strs_of(iv) =~= Seq::new(strings@.len(), |k: int| strings@[k]@));
        }
        Ok(Sorted::Strings(sorted))
    } else {
        proof {
            assert(Seq::new(iv.len(), |k: int| iv[k]->Number_0) =~= numbers@);
        }
        Ok(Sorted::Numbers(numbers))
    }
}

} // verus!
