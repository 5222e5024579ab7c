//! JSON text, read and written by `serde_json`.
use vstd::prelude::*;
use vstd::utf8::encode_utf8;

use crate::json::{first_names_grow, without_members, Json, JsonObject, JsonView};
use crate::text::{ascending, decimal};

verus! {

/// `serde_json::Value`, between the text and a [`Json`].
#[verifier::external_type_specification]
#[verifier::external_body]
pub struct ExValue(serde_json::Value);

/// `serde_json::Map`, the members of an object in a `serde_json::Value`.
#[verifier::external_type_specification]
#[verifier::external_body]
#[verifier::reject_recursive_types(K)]
#[verifier::reject_recursive_types(V)]
pub struct ExMembers<K, V>(serde_json::Map<K, V>);

/// `serde_json::Error`, which says why a text is not JSON.
#[verifier::external_type_specification]
#[verifier::external_body]
pub struct ExSerdeError(serde_json::Error);

/// What a `serde_json::Value` holds.
pub uninterp spec fn value_tree(v: serde_json::Value) -> JsonView;

/// What a `serde_json::Map` holds.
pub uninterp spec fn members_tree(m: serde_json::Map<String, serde_json::Value>) -> Map<
    Seq<char>,
    JsonView,
>;

/// What the JSON text in `bytes` says; `None` where `serde_json::from_slice`
/// finds that `bytes` is no JSON text.
pub uninterp spec fn parsed_json(bytes: Seq<u8>) -> Option<JsonView>;

/// The text that `serde_json::to_string_pretty` writes for a value.
pub uninterp spec fn pretty_json(value: JsonView) -> Seq<char>;

/// The text as which a `serde_json::Value` is displayed.
pub uninterp spec fn compact_json(value: JsonView) -> Seq<char>;

/// Whether a value has at most `depth` arrays and objects inside one another, and no
/// numbers but whole ones of 64 bits: such a value is read back from its text as it is.
pub open spec fn is_simple(value: JsonView, depth: nat) -> bool
    decreases depth,
{
    match value {
        JsonView::Number(text) => exists|n: int|
            i64::MIN <= n <= u64::MAX && text == #[trigger] decimal(n),
        JsonView::Array(items) => depth > 0 && forall|i: int|
            0 <= i < items.len() ==> is_simple(#[trigger] items[i], (depth - 1) as nat),
        JsonView::Object(members) => depth > 0 && forall|name: Seq<char>| #[trigger]
            members.dom().contains(name) ==> is_simple(members[name], (depth - 1) as nat),
        _ => true,
    }
}

/// One layer of a `serde_json::Value`.
pub(crate) enum Layer {
    Null,
    Bool(bool),
    Number(serde_json::Number),
    Str(String),
    Array(Vec<serde_json::Value>),
    Object(serde_json::Map<String, serde_json::Value>),
}

spec fn layer_tree(layer: Layer) -> JsonView {
    match layer {
        Layer::Null => JsonView::Null,
        Layer::Bool(b) => JsonView::Bool(b),
        Layer::Number(n) => JsonView::Number(crate::json::number_text(n)),
        Layer::Str(s) => JsonView::Str(s@),
        Layer::Array(items) => JsonView::Array(
            items@.map_values(|v: serde_json::Value| value_tree(v)),
        ),
        Layer::Object(members) => JsonView::Object(members_tree(members)),
    }
}

/// The variants of `serde_json::Value`, one for one.
#[verifier::external_body]
fn open_value(v: serde_json::Value) -> (layer: Layer)
    ensures
        layer_tree(layer) == value_tree(v),
{
    match v {
        serde_json::Value::Null => Layer::Null,
        serde_json::Value::Bool(b) => Layer::Bool(b),
        serde_json::Value::Number(n) => Layer::Number(n),
        serde_json::Value::String(s) => Layer::Str(s),
        serde_json::Value::Array(items) => Layer::Array(items),
        serde_json::Value::Object(members) => Layer::Object(members),
    }
}

/// The variants of `serde_json::Value`, one for one.
#[verifier::external_body]
fn close_layer(layer: Layer) -> (v: serde_json::Value)
    ensures
        value_tree(v) == layer_tree(layer),
{
    match layer {
        Layer::Null => serde_json::Value::Null,
        Layer::Bool(b) => serde_json::Value::Bool(b),
        Layer::Number(n) => serde_json::Value::Number(n),
        Layer::Str(s) => serde_json::Value::String(s),
        Layer::Array(items) => serde_json::Value::Array(items),
        Layer::Object(members) => serde_json::Value::Object(members),
    }
}

/// The names of members, in order.
spec fn names(members: Seq<(String, serde_json::Value)>) -> Seq<Seq<char>> {
    members.map_values(|e: (String, serde_json::Value)| e.0@)
}

/// `into_iter` of `serde_json::Map`: hands out each member once, in the order of
/// the names.
#[verifier::external_body]
fn take_members(m: serde_json::Map<String, serde_json::Value>) -> (r: Vec<
    (String, serde_json::Value),
>)
    ensures
        ascending(names(r@)),
        members_tree(m).dom() == names(r@).to_set(),
        forall|i: int|
            0 <= i < r@.len() ==> members_tree(m)[(#[trigger] r@[i]).0@] == value_tree(r@[i].1),
{
    m.into_iter().collect()
}

/// `serde_json::Map::new`: a map without members.
#[verifier::external_body]
fn no_members() -> (m: serde_json::Map<String, serde_json::Value>)
    ensures
        members_tree(m) == without_members(),
{
    serde_json::Map::new()
}

/// `serde_json::Map::insert`: sets the member called `name`, and leaves the others
/// as they are.
#[verifier::external_body]
fn set_member(
    m: &mut serde_json::Map<String, serde_json::Value>,
    name: String,
    v: serde_json::Value,
)
    ensures
        members_tree(*final(m)) == members_tree(*old(m)).insert(name@, value_tree(v)),
{
    m.insert(name, v);
}

/// `serde_json::from_slice` to a `serde_json::Value`: what comes back depends on
/// the bytes alone.
#[verifier::external_body]
fn parse_value(bytes: &[u8]) -> (r: Result<serde_json::Value, serde_json::Error>)
    ensures
        match r {
            Ok(v) => parsed_json(bytes@) == Some(value_tree(v)),
            Err(_) => parsed_json(bytes@) is None,
        },
{
    serde_json::from_slice(bytes)
}

/// `serde_json::to_string_pretty` of a `serde_json::Value`: it does not fail, since all
/// names in a value are strings and the text goes to memory; the text depends on what the
/// value holds alone; and where the value is simple and not nested deeper than
/// `serde_json::from_slice` goes, that reads it back from the text.
#[verifier::external_body]
fn pretty_value(v: &serde_json::Value) -> (r: Result<String, serde_json::Error>)
    ensures
        r is Ok,
        r->Ok_0@ == pretty_json(value_tree(*v)),
        is_simple(value_tree(*v), 127) ==> parsed_json(encode_utf8(r->Ok_0@)) == Some(
            value_tree(*v),
        ),
{
    serde_json::to_string_pretty(v)
}

/// `to_string` of a `serde_json::Value`: the text depends on what the value holds
/// alone; and where the value is simple and not nested deeper than
/// `serde_json::from_slice` goes, that reads it back from the text.
#[verifier::external_body]
fn compact_value(v: &serde_json::Value) -> (r: String)
    ensures
        r@ == compact_json(value_tree(*v)),
        is_simple(value_tree(*v), 127) ==> parsed_json(encode_utf8(r@)) == Some(value_tree(*v)),
{
    v.to_string()
}

/// A [`Json`] that says what the `serde_json::Value` says.
fn import(v: serde_json::Value) -> (r: Json)
    ensures
        r@ == value_tree(v),
    decreases value_tree(v),
{
    let ghost said = value_tree(v);
    match open_value(v) {
        Layer::Null => Json::Null,
        Layer::Bool(b) => Json::Bool(b),
        Layer::Number(n) => Json::Number(n),
        Layer::Str(s) => Json::Str(s),
        Layer::Array(items) => {
            let ghost told = items@.map_values(|v: serde_json::Value| value_tree(v));
            let ghost all = items@;
            assert(said == JsonView::Array(told));
            let mut out: Vec<Json> = Vec::new();
            for item in it: items.into_iter()
                invariant
                    it.seq() == all,
                    said == JsonView::Array(told),
                    told == all.map_values(|v: serde_json::Value| value_tree(v)),
                    said == value_tree(v),
                    out@.len() == it.index(),
                    forall|i: int| 0 <= i < out@.len() ==> (#[trigger] out@[i])@ == told[i],
            {
                assert(told[it.index() as int] == value_tree(item));
                assert(decreases_to!(said => said->Array_0));
                assert(decreases_to!(told => told[it.index() as int]));
                out.push(import(item));
            }
            let r = Json::Array(out);
            assert(r@ =~= said) by {
                assert(r.tree()->Array_0 =~= told);
            }
            r
        },
        Layer::Object(members) => {
            let ghost told = members_tree(members);
            let list = take_members(members);
            let ghost all = list@;
            let mut out = JsonObject::new();
            for entry in it: list.into_iter()
                invariant
                    it.seq() == all,
                    said == JsonView::Object(told),
                    said == value_tree(v),
                    told.dom() == names(all).to_set(),
                    ascending(names(all)),
                    forall|i: int|
                        0 <= i < all.len() ==> told[(#[trigger] all[i]).0@] == value_tree(all[i].1),
                    out@.dom() == names(all).take(it.index() as int).to_set(),
                    forall|k: Seq<char>| #[trigger] out@.dom().contains(k) ==> out@[k] == told[k],
            {
                let ghost n = it.index() as int;
                let ghost before = out@;
                let (name, value) = entry;
                let ghost shown = name@;
                proof {
                    broadcast use vstd::seq_lib::seq_to_set_is_finite;

                    assert(names(all)[n] == shown);
                    assert(told.dom().contains(shown));
                    assert(told[all[n].0@] == value_tree(value));
                    assert(decreases_to!(said => said->Object_0));
                    assert(decreases_to!(told => told[shown]));
                }
                out.insert(name, import(value));
                proof {
                    first_names_grow(names(all), n);
                }
            }
            let r = Json::Object(out);
            assert(names(all).take(all.len() as int) =~= names(all));
            assert(out@ =~= told);
            r
        },
    }
}

/// The `serde_json::Value` that says what the [`Json`] says.
fn export(j: &Json) -> (r: serde_json::Value)
    ensures
        value_tree(r) == j@,
    decreases j@,
{
    let ghost said = j@;
    match j {
        Json::Null => close_layer(Layer::Null),
        Json::Bool(b) => close_layer(Layer::Bool(*b)),
        Json::Number(n) => close_layer(Layer::Number(n.clone())),
        Json::Str(s) => close_layer(Layer::Str(s.clone())),
        Json::Array(items) => {
            let mut out: Vec<serde_json::Value> = Vec::new();
            let mut i: usize = 0;
            while i < items.len()
                invariant
                    i == out@.len(),
                    i <= items@.len(),
                    *j == Json::Array(*items),
                    said == j@,
                    forall|k: int| 0 <= k < i ==> value_tree(#[trigger] out@[k]) == items@[k]@,
                decreases items.len() - i,
            {
                assert(decreases_to!(said => said->Array_0));
                assert(said->Array_0[i as int] == items@[i as int]@);
                assert(decreases_to!(said->Array_0 => said->Array_0[i as int]));
                out.push(export(&items[i]));
                i += 1;
            }
            let layer = Layer::Array(out);
            assert(layer_tree(layer)->Array_0 =~= said->Array_0);
            close_layer(layer)
        },
        Json::Object(members) => {
            let mut out = no_members();
            let mut i: usize = 0;
            let n = members.len();
            while i < n
                invariant
                    i <= n,
                    n == members.keys().len(),
                    *j == Json::Object(*members),
                    said == j@,
                    members@.dom() == members.keys().to_set(),
                    members@.dom().finite(),
                    members_tree(out).dom() == members.keys().take(i as int).to_set(),
                    forall|k: Seq<char>| #[trigger]
                        members_tree(out).dom().contains(k) ==> members_tree(out)[k] == members@[k],
                decreases n - i,
            {
                let ghost keys = members.keys();
                let name = members.name(i).clone();
                let value = members.value(i);
                assert(decreases_to!(said => said->Object_0));
                assert(decreases_to!(said->Object_0 => said->Object_0[keys[i as int]]));
                set_member(&mut out, name, export(value));
                proof {
                    first_names_grow(keys, i as int);
                }
                i += 1;
            }
            assert(members.keys().take(n as int) =~= members.keys());
            assert(members_tree(out) =~= members@);
            close_layer(Layer::Object(out))
        },
    }
}

impl Json {
    /// The value that the `serde_json::Value` holds.
    pub fn from_value(v: serde_json::Value) -> (r: Json)
        ensures
            r@ == value_tree(v),
    {
        import(v)
    }

    /// A `serde_json::Value` that holds the value.
    pub fn to_value(&self) -> (r: serde_json::Value)
        ensures
            value_tree(r) == self@,
    {
        export(self)
    }

    /// Reads a JSON text.
    pub fn parse(bytes: &[u8]) -> (r: Result<Json, serde_json::Error>)
        ensures
            match r {
                Ok(v) => parsed_json(bytes@) == Some(v@),
                Err(_) => parsed_json(bytes@) is None,
            },
    {
        match parse_value(bytes) {
            Ok(v) => Ok(import(v)),
            Err(e) => Err(e),
        }
    }

    /// The value as JSON text over several lines.
    pub fn to_pretty(&self) -> (r: Result<String, serde_json::Error>)
        ensures
            r is Ok,
            r->Ok_0@ == pretty_json(self@),
            is_simple(self@, 127) ==> parsed_json(encode_utf8(r->Ok_0@)) == Some(self@),
    {
        pretty_value(&export(self))
    }

    /// The value as JSON text on one line.
    pub fn to_compact(&self) -> (r: String)
        ensures
            r@ == compact_json(self@),
            is_simple(self@, 127) ==> parsed_json(encode_utf8(r@)) == Some(self@),
    {
        compact_value(&export(self))
    }
}

}
