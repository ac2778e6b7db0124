//! A plain JSON tree, and parsing into it.
//!
//! The decoder reads a handful of fields out of each frame's JSON payload.
//! So that that reading can be reasoned about, the payload is first brought
//! into [`Json`], an ordinary tree of plain values; the parsing itself is
//! serde_json's work and is taken on trust, under a name for its result.

use vstd::prelude::*;

verus! {

/// A JSON value as a tree of plain values.
///
/// Numbers carry their signed 64-bit integer value, or zero where they have
/// none (a fractional number); no field read by this crate is numeric, so the
/// collapse is harmless here.  Object fields keep their order; keys are
/// unique, since the parser's map merges duplicates.
#[derive(Debug)]
pub enum Json {
    /// `null`.
    Null,
    /// `true` or `false`.
    Bool(bool),
    /// A number, by its 64-bit integer value.
    Int(i64),
    /// A string.
    Text(String),
    /// An array.
    Arr(Vec<Json>),
    /// An object, as its fields in order.
    Obj(Vec<(String, Json)>),
}

/// The mathematical image of a [`Json`] tree.
pub enum JsonV {
    /// `null`.
    Null,
    /// `true` or `false`.
    Bool(bool),
    /// A number, by its 64-bit integer value.
    Int(i64),
    /// A string.
    Text(Seq<char>),
    /// An array.
    Arr(Seq<JsonV>),
    /// An object, as its fields in order.
    Obj(Seq<(Seq<char>, JsonV)>),
}

/// The mathematical image of a [`Json`] tree.
pub open spec fn json_view(j: Json) -> JsonV
    decreases j, 2int,
{
    match j {
        Json::Null => JsonV::Null,
        Json::Bool(b) => JsonV::Bool(b),
        Json::Int(n) => JsonV::Int(n),
        Json::Text(s) => JsonV::Text(s@),
        Json::Arr(items) => JsonV::Arr(json_view_arr(items@)),
        Json::Obj(fields) => JsonV::Obj(json_view_obj(fields@)),
    }
}

/// The mathematical image of a run of [`Json`] array elements.
pub open spec fn json_view_arr(items: Seq<Json>) -> Seq<JsonV>
    decreases items, 1int,
{
    if items.len() == 0 {
        Seq::empty()
    } else {
        seq![json_view(items[0])] + json_view_arr(items.skip(1))
    }
}

/// The mathematical image of a run of [`Json`] object fields.
pub open spec fn json_view_obj(fields: Seq<(String, Json)>) -> Seq<(Seq<char>, JsonV)>
    decreases fields, 1int,
{
    if fields.len() == 0 {
        Seq::empty()
    } else {
        seq![(fields[0].0@, json_view(fields[0].1))] + json_view_obj(fields.skip(1))
    }
}

/// Element by element, an array's image is the image of its elements.
pub proof fn lemma_json_view_arr(items: Seq<Json>)
    ensures
        json_view_arr(items).len() == items.len(),
        forall|i: int| 0 <= i < items.len() ==> json_view_arr(items)[i] == json_view(items[i]),
    decreases items.len(),
{
    if items.len() > 0 {
        lemma_json_view_arr(items.skip(1));
    }
}

/// Field by field, an object's image is the image of its fields.
pub proof fn lemma_json_view_obj(fields: Seq<(String, Json)>)
    ensures
        json_view_obj(fields).len() == fields.len(),
        forall|i: int|
            0 <= i < fields.len() ==> json_view_obj(fields)[i] == (
                fields[i].0@,
                json_view(fields[i].1),
            ),
    decreases fields.len(),
{
    if fields.len() > 0 {
        lemma_json_view_obj(fields.skip(1));
    }
}

impl View for Json {
    type V = JsonV;

    open spec fn view(&self) -> JsonV {
        json_view(*self)
    }
}

/// The value under the first field named `key`, if any.
pub open spec fn obj_get(fields: Seq<(Seq<char>, JsonV)>, key: Seq<char>) -> Option<JsonV>
    decreases fields.len(),
{
    if fields.len() == 0 {
        None
    } else if fields[0].0 == key {
        Some(fields[0].1)
    } else {
        obj_get(fields.skip(1), key)
    }
}

/// Looking up a key skips every field whose name differs.
proof fn lemma_obj_get_skip(fields: Seq<(Seq<char>, JsonV)>, key: Seq<char>, i: int)
    requires
        0 <= i <= fields.len(),
        forall|k: int| 0 <= k < i ==> fields[k].0 != key,
    ensures
        obj_get(fields, key) == obj_get(fields.skip(i), key),
    decreases i,
{
    if i > 0 {
        assert(fields.skip(1).skip(i - 1) =~= fields.skip(i));
        assert(forall|k: int| 0 <= k < i - 1 ==> fields.skip(1)[k].0 != key);
        lemma_obj_get_skip(fields.skip(1), key, i - 1);
    } else {
        assert(fields.skip(0) =~= fields);
    }
}

impl Json {
    /// The value under the first field named `key`, when this value is an
    /// object that has one.
    pub fn get<'a>(&'a self, key: &String) -> (r: Option<&'a Json>)
        ensures
            match self@ {
                JsonV::Obj(fs) => match (r, obj_get(fs, key@)) {
                    (Some(j), Some(v)) => j@ == v,
                    (None, None) => true,
                    _ => false,
                },
                _ => r is None,
            },
    {
        match self {
            Json::Obj(fields) => {
                let ghost fs = (self@)->Obj_0;
                proof {
                    lemma_json_view_obj(fields@);
                    assert(self@ == JsonV::Obj(fs));
                }
                let n = fields.len();
                let mut i: usize = 0;
                while i < n
                    invariant
                        n == fields@.len(),
                        0 <= i <= n,
                        self@ == JsonV::Obj(fs),
                        fs == json_view_obj(fields@),
                        fs.len() == n,
                        forall|k: int|
                            0 <= k < n ==> fs[k] == (fields@[k].0@, json_view(fields@[k].1)),
                        forall|k: int| 0 <= k < i ==> fs[k].0 != key@,
                    decreases n - i,
                {
                    if fields[i].0 == *key {
                        let out = &fields[i].1;
                        proof {
                            assert(self@ == JsonV::Obj(fs));
                            assert(fields@[i as int].0@ == key@);
                            assert(fs[i as int].0 == key@);
                            lemma_obj_get_skip(fs, key@, i as int);
                            assert(fs.skip(i as int)[0] == fs[i as int]);
                            assert(fs.skip(i as int).len() > 0);
                            assert(obj_get(fs, key@) == Some(fs[i as int].1));
                            assert(out@ == fs[i as int].1);
                        }
                        return Some(out);
                    }
                    i = i + 1;
                }
                proof {
                    lemma_obj_get_skip(fs, key@, n as int);
                    assert(fs.skip(n as int).len() == 0);
                }
                None
            },
            _ => None,
        }
    }
}

#[verifier::external_type_specification]
#[verifier::external_body]
pub struct ExValue(serde_json::Value);

/// What serde_json parses the given bytes to, carried onto [`JsonV`]: absent
/// exactly when the bytes are not one valid JSON text (or not valid UTF-8);
/// numbers are collapsed to their 64-bit integer value, or zero where they
/// have none.  The result depends on the bytes alone.
pub uninterp spec fn json_of(b: Seq<u8>) -> Option<JsonV>;

/// Relies on serde_json::from_slice for `serde_json::Value`: whether the
/// bytes parse, and to what value, depends on the bytes alone; the value is
/// carried over variant by variant through [`value_to_json`].
#[verifier::external_body]
pub(crate) fn parse_json(b: &[u8]) -> (r: Option<Json>)
    ensures
        match r {
            Some(j) => json_of(b@) == Some(j@),
            None => json_of(b@) is None,
        },
{
    serde_json::from_slice::<serde_json::Value>(b).ok().map(|v| value_to_json(&v))
}

/// Relies on the shape of serde_json::Value: each variant is moved onto the
/// matching [`Json`] variant, element by element and field by field; numbers
/// go through serde_json::Number::as_i64, zero where it gives nothing.
#[verifier::external_body]
fn value_to_json(v: &serde_json::Value) -> Json {
    match v {
        serde_json::Value::Null => Json::Null,
        serde_json::Value::Bool(b) => Json::Bool(*b),
        serde_json::Value::Number(n) => Json::Int(n.as_i64().unwrap_or(0)),
        serde_json::Value::String(s) => Json::Text(s.clone()),
        serde_json::Value::Array(a) => Json::Arr(a.iter().map(value_to_json).collect()),
        serde_json::Value::Object(o) => Json::Obj(
            o.iter().map(|(k, x)| (k.clone(), value_to_json(x))).collect(),
        ),
    }
}

} // verus!
