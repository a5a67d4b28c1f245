//! A structural model of JSON values as they travel through a node.

use serde_json::Value;
use vstd::prelude::*;

verus! {

broadcast use vstd::std_specs::vec::group_vec_axioms;

/// serde_json's parsed JSON value; opaque here.
#[verifier::external_type_specification]
#[verifier::external_body]
pub struct ExValue(serde_json::Value);

/// What serde_json makes of `text` as JSON, carried over to the model: `None` when the
/// text is not one JSON value.
pub uninterp spec fn parsed_json(text: Seq<char>) -> Option<JsonView>;

/// serde_json's `from_str` into its `Value`, the value carried over to [`Json`] variant for
/// variant. Claimed: the result is [`parsed_json`] of the text, and `None` exactly when
/// serde_json refuses the text. What serde_json accepts and makes of it is not restated.
#[verifier::external_body]
pub(crate) fn parse_json(text: &str) -> (res: Option<Json>)
    ensures
        match res {
            Some(j) => parsed_json(text@) == Some(j@),
            None => parsed_json(text@) is None,
        },
{
    serde_json::from_str::<Value>(text).ok().map(json_of_value)
}

/// serde_json's `Value` as a [`Json`], one variant for the other: integers that fit a `u64`
/// or an `i64` as such, other numbers by their text, object members in serde_json's order.
/// Nothing is claimed of it; it only serves [`parse_json`], whose contract covers it.
#[verifier::external_body]
fn json_of_value(v: Value) -> Json {
    match v {
        Value::Null => Json::Null,
        Value::Bool(b) => Json::Bool(b),
        Value::Number(n) => Json::Number(match (n.as_u64(), n.as_i64()) {
            (Some(u), _) => JsonNumber::PosInt(u),
            (None, Some(i)) => JsonNumber::NegInt(i),
            (None, None) => JsonNumber::Float(n.to_string()),
        }),
        Value::String(t) => Json::Str(t),
        Value::Array(a) => Json::Array(a.into_iter().map(json_of_value).collect()),
        Value::Object(m) => Json::Object(m.into_iter().map(|(k, x)| (k, json_of_value(x))).collect()),
    }
}

/// A JSON number, kept the way the wire format distinguishes it.
#[derive(Clone, Debug, PartialEq)]
pub enum JsonNumber {
    PosInt(u64),
    NegInt(i64),
    /// A number with a fraction or an exponent, kept as its text.
    Float(String),
}

/// A JSON value.
#[derive(Debug, PartialEq)]
pub enum Json {
    Null,
    Bool(bool),
    Number(JsonNumber),
    Str(String),
    Array(Vec<Json>),
    Object(Vec<(String, Json)>),
}

/// The mathematical content of a [`JsonNumber`].
pub enum NumberView {
    PosInt(u64),
    NegInt(i64),
    Float(Seq<char>),
}

/// The mathematical content of a [`Json`] value.
pub enum JsonView {
    Null,
    Bool(bool),
    Number(NumberView),
    Str(Seq<char>),
    Array(Seq<JsonView>),
    Object(Seq<(Seq<char>, JsonView)>),
}

impl JsonNumber {
    pub open spec fn view(&self) -> NumberView {
        match self {
            JsonNumber::PosInt(n) => NumberView::PosInt(*n),
            JsonNumber::NegInt(n) => NumberView::NegInt(*n),
            JsonNumber::Float(s) => NumberView::Float(s@),
        }
    }
}

/// The mathematical content of a JSON value.
pub open spec fn json_view(j: Json) -> JsonView
    decreases j, 0nat,
{
    match j {
        Json::Null => JsonView::Null,
        Json::Bool(b) => JsonView::Bool(b),
        Json::Number(n) => JsonView::Number(n.view()),
        Json::Str(s) => JsonView::Str(s@),
        Json::Array(items) => JsonView::Array(items_view(items@)),
        Json::Object(fields) => JsonView::Object(fields_view(fields@)),
    }
}

/// The contents of the elements of an array.
pub open spec fn items_view(s: Seq<Json>) -> Seq<JsonView>
    decreases s, 1nat,
{
    if s.len() == 0 {
        Seq::empty()
    } else {
        items_view(s.drop_last()).push(json_view(s.last()))
    }
}

/// The contents of the fields of an object.
pub open spec fn fields_view(s: Seq<(String, Json)>) -> Seq<(Seq<char>, JsonView)>
    decreases s, 1nat,
{
    if s.len() == 0 {
        Seq::empty()
    } else {
        fields_view(s.drop_last()).push((s.last().0@, json_view(s.last().1)))
    }
}

impl View for Json {
    type V = JsonView;

    open spec fn view(&self) -> JsonView {
        json_view(*self)
    }
}

/// The position of the first field named `key`.
pub open spec fn first_index<K, V>(fields: Seq<(K, V)>, key: K) -> Option<int>
    decreases fields.len(),
{
    if fields.len() == 0 {
        None
    } else if fields[0].0 == key {
        Some(0)
    } else {
        match first_index(fields.drop_first(), key) {
            Some(i) => Some(i + 1),
            None => None,
        }
    }
}

/// The value of the first field named `key`, as object lookup in JSON reads it.
pub open spec fn field_lookup<K, V>(fields: Seq<(K, V)>, key: K) -> Option<V> {
    match first_index(fields, key) {
        Some(i) => Some(fields[i].1),
        None => None,
    }
}

/// The fields after `key` is set to `value`: the first field of that name takes the new
/// value in place, or a new field is appended when there is none.
pub open spec fn field_insert<K, V>(fields: Seq<(K, V)>, key: K, value: V) -> Seq<(K, V)> {
    match first_index(fields, key) {
        Some(i) => fields.update(i, (key, value)),
        None => fields.push((key, value)),
    }
}

/// The member `key` of a JSON object; every other kind of value has no members.
pub open spec fn member(j: JsonView, key: Seq<char>) -> Option<JsonView> {
    match j {
        JsonView::Object(fields) => field_lookup(fields, key),
        _ => None,
    }
}

/// The first index of a key holds that key, and no earlier field does; without one, no
/// field does.
pub proof fn lemma_first_index_bounds<K, V>(fields: Seq<(K, V)>, key: K)
    ensures
        match first_index(fields, key) {
            Some(i) => 0 <= i < fields.len() && fields[i].0 == key && forall|j: int|
                0 <= j < i ==> #[trigger] fields[j].0 != key,
            None => forall|j: int| 0 <= j < fields.len() ==> #[trigger] fields[j].0 != key,
        },
    decreases fields.len(),
{
    if fields.len() > 0 && fields[0].0 != key {
        lemma_first_index_bounds(fields.drop_first(), key);
        assert forall|j: int| 1 <= j < fields.len() implies #[trigger] fields[j] == fields.drop_first()[j - 1] by {}
    }
}

/// A field that holds the key, with no earlier field holding it, is the first of its name.
pub proof fn lemma_first_index_unique<K, V>(fields: Seq<(K, V)>, key: K, i: int)
    requires
        0 <= i < fields.len(),
        fields[i].0 == key,
        forall|j: int| 0 <= j < i ==> #[trigger] fields[j].0 != key,
    ensures
        first_index(fields, key) == Some(i),
{
    lemma_first_index_bounds(fields, key);
    match first_index(fields, key) {
        Some(k) => {
            if k < i {
                assert(fields[k].0 != key);
            } else if k > i {
                assert(fields[i].0 != key);
            }
        },
        None => {
            assert(fields[i].0 != key);
        },
    }
}

/// When no field holds the key, there is no first field of that name.
pub proof fn lemma_first_index_none<K, V>(fields: Seq<(K, V)>, key: K)
    requires
        forall|j: int| 0 <= j < fields.len() ==> #[trigger] fields[j].0 != key,
    ensures
        first_index(fields, key) is None,
{
    lemma_first_index_bounds(fields, key);
    if let Some(k) = first_index(fields, key) {
        assert(fields[k].0 != key);
    }
}

/// Reading a field back after setting it gives the value that was set.
pub proof fn lemma_field_insert_lookup<K, V>(fields: Seq<(K, V)>, key: K, value: V)
    ensures
        field_lookup(field_insert(fields, key, value), key) == Some(value),
{
    lemma_first_index_bounds(fields, key);
    let ins = field_insert(fields, key, value);
    match first_index(fields, key) {
        Some(i) => {
            assert forall|j: int| 0 <= j < i implies #[trigger] ins[j].0 != key by {
                assert(ins[j] == fields[j]);
            }
            lemma_first_index_unique(ins, key, i);
        },
        None => {
            let n = fields.len() as int;
            assert forall|j: int| 0 <= j < n implies #[trigger] ins[j].0 != key by {
                assert(ins[j] == fields[j]);
            }
            lemma_first_index_unique(ins, key, n);
        },
    }
}

/// Setting a field leaves every field of another name as it was.
pub proof fn lemma_field_insert_other<K, V>(fields: Seq<(K, V)>, key: K, value: V, other: K)
    requires
        other != key,
    ensures
        field_lookup(field_insert(fields, key, value), other) == field_lookup(fields, other),
{
    lemma_first_index_bounds(fields, key);
    lemma_first_index_bounds(fields, other);
    let ins = field_insert(fields, key, value);
    match first_index(fields, other) {
        Some(i) => {
            assert(ins[i] == fields[i]);
            assert forall|j: int| 0 <= j < i implies #[trigger] ins[j].0 != other by {
                assert(ins[j].0 == fields[j].0 || ins[j].0 == key);
            }
            lemma_first_index_unique(ins, other, i);
        },
        None => {
            assert forall|j: int| 0 <= j < ins.len() implies #[trigger] ins[j].0 != other by {
                if j < fields.len() {
                    assert(ins[j].0 == fields[j].0 || ins[j].0 == key);
                }
            }
            lemma_first_index_none(ins, other);
        },
    }
}

/// The view of a sequence of values is the sequence of their views.
pub proof fn lemma_items_view_map(s: Seq<Json>)
    ensures
        items_view(s) == s.map_values(|j: Json| j@),
{
    lemma_items_view(s);
    assert(items_view(s) =~= s.map_values(|j: Json| j@));
}

/// The contents of an array hold the content of each element, in order.
pub proof fn lemma_items_view(s: Seq<Json>)
    ensures
        items_view(s).len() == s.len(),
        forall|i: int| 0 <= i < s.len() ==> #[trigger] items_view(s)[i] == json_view(s[i]),
    decreases s.len(),
{
    if s.len() > 0 {
        lemma_items_view(s.drop_last());
        assert forall|i: int| 0 <= i < s.len() implies #[trigger] items_view(s)[i] == json_view(
            s[i],
        ) by {
            if i < s.len() - 1 {
                assert(s.drop_last()[i] == s[i]);
            }
        }
    }
}

/// The contents of an object hold the name and content of each field, in order.
pub proof fn lemma_fields_view(s: Seq<(String, Json)>)
    ensures
        fields_view(s).len() == s.len(),
        forall|i: int|
            0 <= i < s.len() ==> #[trigger] fields_view(s)[i] == (s[i].0@, json_view(s[i].1)),
    decreases s.len(),
{
    if s.len() > 0 {
        lemma_fields_view(s.drop_last());
        assert forall|i: int| 0 <= i < s.len() implies #[trigger] fields_view(s)[i] == (
            s[i].0@,
            json_view(s[i].1),
        ) by {
            if i < s.len() - 1 {
                assert(s.drop_last()[i] == s[i]);
            }
        }
    }
}

/// Two sequences of values with the same contents have the same view.
pub proof fn lemma_items_view_ext(a: Seq<Json>, b: Seq<Json>)
    requires
        a.len() == b.len(),
        forall|i: int| 0 <= i < a.len() ==> json_view(#[trigger] a[i]) == json_view(b[i]),
    ensures
        items_view(a) == items_view(b),
{
    lemma_items_view(a);
    lemma_items_view(b);
    assert(items_view(a) =~= items_view(b));
}

/// Two sequences of fields with the same names and contents have the same view.
pub proof fn lemma_fields_view_ext(a: Seq<(String, Json)>, b: Seq<(String, Json)>)
    requires
        a.len() == b.len(),
        forall|i: int|
            0 <= i < a.len() ==> (#[trigger] a[i]).0@ == b[i].0@ && json_view(a[i].1) == json_view(
                b[i].1,
            ),
    ensures
        fields_view(a) == fields_view(b),
{
    lemma_fields_view(a);
    lemma_fields_view(b);
    assert(fields_view(a) =~= fields_view(b));
}

impl Clone for Json {
    fn clone(&self) -> (res: Json)
        ensures
            res@ == self@,
    {
        self.deep_copy()
    }
}

impl JsonNumber {
    /// An exact copy of the number.
    pub fn copy(&self) -> (res: JsonNumber)
        ensures
            res.view() == self.view(),
    {
        match self {
            JsonNumber::PosInt(n) => JsonNumber::PosInt(*n),
            JsonNumber::NegInt(n) => JsonNumber::NegInt(*n),
            JsonNumber::Float(s) => JsonNumber::Float(s.clone()),
        }
    }
}

impl Json {
    /// An exact copy of the value, member by member.
    pub fn deep_copy(&self) -> (res: Json)
        ensures
            res@ == self@,
        decreases self,
    {
        match self {
            Json::Null => Json::Null,
            Json::Bool(b) => Json::Bool(*b),
            Json::Number(n) => Json::Number(n.copy()),
            Json::Str(s) => Json::Str(s.clone()),
            Json::Array(items) => {
                let mut out: Vec<Json> = Vec::new();
                let mut i: usize = 0;
                while i < items.len()
                    invariant
                        *self == Json::Array(*items),
                        i <= items.len(),
                        out.len() == i,
                        forall|j: int| 0 <= j < i ==> json_view(#[trigger] out@[j]) == json_view(items@[j]),
                    decreases items.len() - i,
                {
                    proof {
                        assert(decreases_to!(*self => self->Array_0));
                        assert(decreases_to!(*items => items@));
                        assert(decreases_to!(items@ => items@[i as int]));
                    }
                    let c = items[i].deep_copy();
                    out.push(c);
                    i = i + 1;
                }
                proof {
                    lemma_items_view_ext(out@, items@);
                }
                Json::Array(out)
            },
            Json::Object(fields) => {
                let mut out: Vec<(String, Json)> = Vec::new();
                let mut i: usize = 0;
                while i < fields.len()
                    invariant
                        *self == Json::Object(*fields),
                        i <= fields.len(),
                        out.len() == i,
                        forall|j: int|
                            0 <= j < i ==> (#[trigger] out@[j]).0@ == fields@[j].0@ && json_view(out@[j].1)
                                == json_view(fields@[j].1),
                    decreases fields.len() - i,
                {
                    proof {
                        assert(decreases_to!(*self => self->Object_0));
                        assert(decreases_to!(*fields => fields@));
                        assert(decreases_to!(fields@ => fields@[i as int]));
                        assert(decreases_to!(fields@[i as int] => fields@[i as int].1));
                    }
                    let k = fields[i].0.clone();
                    let v = fields[i].1.deep_copy();
                    out.push((k, v));
                    i = i + 1;
                }
                proof {
                    lemma_fields_view_ext(out@, fields@);
                }
                Json::Object(out)
            },
        }
    }

    /// Whether the value is JSON `null`.
    pub fn is_null(&self) -> (res: bool)
        ensures
            res == (self@ == JsonView::Null),
    {
        match self {
            Json::Null => true,
            _ => false,
        }
    }

    /// The text of a JSON string.
    pub fn as_str(&self) -> (res: Option<&String>)
        ensures
            match *self {
                Json::Str(s) => res == Some(&s),
                _ => res is None,
            },
    {
        match self {
            Json::Str(s) => Some(s),
            _ => None,
        }
    }

    /// The elements of a JSON array.
    pub fn as_array(&self) -> (res: Option<&Vec<Json>>)
        ensures
            match *self {
                Json::Array(items) => res == Some(&items),
                _ => res is None,
            },
    {
        match self {
            Json::Array(items) => Some(items),
            _ => None,
        }
    }

    /// The member `key` of an object: the first field of that name. Other values have no
    /// members.
    pub fn get(&self, key: &str) -> (res: Option<&Json>)
        ensures
            match res {
                Some(v) => member(self@, key@) == Some(v@),
                None => member(self@, key@) is None,
            },
    {
        match self {
            Json::Object(fields) => {
                let k: String = key.to_owned();
                match find_field(fields, &k) {
                    Some(i) => {
                        proof {
                            lemma_fields_view(fields@);
                            lemma_first_index_bounds(fields_view(fields@), key@);
                        }
                        Some(&fields[i].1)
                    },
                    None => None,
                }
            },
            _ => None,
        }
    }

    /// Sets the member `key` of an object to `value`, in place of the first field of that
    /// name or as a new last field. Values that are not objects are left as they are.
    pub fn insert(&mut self, key: String, value: Json)
        ensures
            match old(self)@ {
                JsonView::Object(fields) => final(self)@ == JsonView::Object(
                    field_insert(fields, key@, value@),
                ),
                _ => *final(self) == *old(self),
            },
    {
        match self {
            Json::Object(fields) => {
                let ghost fv = fields_view(fields@);
                let ghost kv = key@;
                let ghost vv = value@;
                proof {
                    lemma_fields_view(fields@);
                }
                match find_field(fields, &key) {
                    Some(i) => {
                        proof {
                            lemma_first_index_bounds(fv, kv);
                        }
                        fields.set(i, (key, value));
                        proof {
                            lemma_fields_view(fields@);
                            assert(fields_view(fields@) =~= fv.update(i as int, (kv, vv)));
                        }
                    },
                    None => {
                        fields.push((key, value));
                        proof {
                            lemma_fields_view(fields@);
                            assert(fields_view(fields@) =~= fv.push((kv, vv)));
                        }
                    },
                }
            },
            _ => {},
        }
    }
}

/// The position of the first field named `key`.
fn find_field(fields: &Vec<(String, Json)>, key: &String) -> (res: Option<usize>)
    ensures
        match res {
            Some(i) => first_index(fields_view(fields@), key@) == Some(i as int),
            None => first_index(fields_view(fields@), key@) is None,
        },
{
    let ghost fv = fields_view(fields@);
    proof {
        lemma_fields_view(fields@);
    }
    let mut i: usize = 0;
    while i < fields.len()
        invariant
            i <= fields.len(),
            fv == fields_view(fields@),
            fv.len() == fields@.len(),
            forall|j: int|
                0 <= j < fields.len() ==> #[trigger] fv[j] == (fields@[j].0@, json_view(
                    fields@[j].1,
                )),
            forall|j: int| 0 <= j < i ==> (#[trigger] fv[j]).0 != key@,
        decreases fields.len() - i,
    {
        if fields[i].0 == *key {
            proof {
                lemma_first_index_unique(fv, key@, i as int);
            }
            return Some(i);
        }
        i = i + 1;
    }
    proof {
        lemma_first_index_none(fv, key@);
    }
    None
}

} // verus!
