//! A plain-value model of JSON documents and the reads the library makes of
//! them. Parsing itself is done by `serde_json`.

use vstd::prelude::*;
use crate::text::str_eq;

verus! {

/// A JSON number: its value as an `i64` when it is an integer in range, and
/// its text as `serde_json` prints it.
pub struct JsonNumber {
    pub int: Option<i64>,
    pub text: String,
}

/// A JSON document.
pub enum Json {
    Null,
    Bool(bool),
    Number(JsonNumber),
    Str(String),
    Array(Vec<Json>),
    Object(Vec<(String, Json)>),
}

/// The declared `serde_json` value type, carried only inside `parse_json`.
#[verifier::external_type_specification]
#[verifier::external_body]
pub struct ExJsonValue(serde_json::Value);

/// What `serde_json::from_str::<serde_json::Value>` makes of a text, as a
/// [`Json`]; `None` when the text is not a single JSON document.
pub uninterp spec fn json_parse(text: Seq<char>) -> Option<Json>;

/// Parses `text` with `serde_json::from_str::<serde_json::Value>` and
/// converts the resulting value variant by variant; object members come out
/// in the order `serde_json`'s map holds them (sorted by key). The contract
/// claims only that the outcome is [`json_parse`] of the text; the JSON
/// grammar itself is not stated here.
#[verifier::external_body]
pub(crate) fn parse_json(text: &str) -> (r: Option<Json>)
    ensures
        r == json_parse(text@),
{
    serde_json::from_str::<serde_json::Value>(text).ok().map(lift_value)
}

/// What `serde_json::from_str::<Vec<String>>` makes of a text: the strings
/// of a JSON array of strings, `None` for any other text.
pub uninterp spec fn json_string_list(text: Seq<char>) -> Option<Seq<Seq<char>>>;

/// Parses `text` as a JSON array of strings with
/// `serde_json::from_str::<Vec<String>>`. The contract claims only that the
/// outcome is [`json_string_list`] of the text; which texts parse is not
/// stated here.
#[verifier::external_body]
pub(crate) fn parse_string_list(text: &str) -> (r: Option<Vec<String>>)
    ensures
        match r {
            Some(v) => json_string_list(text@) == Some(v@.map_values(|s: String| s@)),
            None => json_string_list(text@) is None,
        },
{
    serde_json::from_str::<Vec<String>>(text).ok()
}

/// What `serde_json::Value::to_string` writes for a document: its compact
/// JSON text, object members in key order.
pub uninterp spec fn json_text(v: Json) -> Seq<char>;

/// The compact JSON text of a document, through `serde_json`: the document
/// is converted variant by variant to a `serde_json::Value` and written with
/// its `to_string`. The contract claims only that the text is [`json_text`]
/// of the document; the JSON writer itself is not stated here.
#[verifier::external_body]
pub(crate) fn to_json_text(v: &Json) -> (r: String)
    ensures
        r@ == json_text(*v),
{
    lower_value(v).to_string()
}

/// Variant-by-variant conversion of a document to a `serde_json::Value`,
/// used only inside `to_json_text`; it carries no contract of its own.
#[verifier::external_body]
fn lower_value(j: &Json) -> serde_json::Value {
    match j {
        Json::Null => serde_json::Value::Null,
        Json::Bool(b) => serde_json::Value::Bool(*b),
        Json::Number(n) => match n.int {
            Some(i) => serde_json::Value::from(i),
            None => serde_json::from_str::<serde_json::Value>(&n.text).unwrap_or(serde_json::Value::Null),
        },
        Json::Str(s) => serde_json::Value::String(s.clone()),
        Json::Array(a) => serde_json::Value::Array(a.iter().map(lower_value).collect()),
        Json::Object(fs) => serde_json::Value::Object(fs.iter().map(|(k, x)| (k.clone(), lower_value(x))).collect()),
    }
}

/// Variant-by-variant conversion of a parsed `serde_json::Value`, used only
/// inside `parse_json`; it carries no contract of its own.
#[verifier::external_body]
fn lift_value(v: serde_json::Value) -> Json {
    match v {
        serde_json::Value::Null => Json::Null,
        serde_json::Value::Bool(b) => Json::Bool(b),
        serde_json::Value::Number(n) => Json::Number(JsonNumber { int: n.as_i64(), text: n.to_string() }),
        serde_json::Value::String(s) => Json::Str(s),
        serde_json::Value::Array(a) => Json::Array(a.into_iter().map(lift_value).collect()),
        serde_json::Value::Object(o) => Json::Object(o.into_iter().map(|(k, x)| (k, lift_value(x))).collect()),
    }
}

/// The value of the first member named `key`.
pub open spec fn lookup(fields: Seq<(String, Json)>, key: Seq<char>) -> Option<Json>
    decreases fields.len(),
{
    if fields.len() == 0 {
        None
    } else if fields[0].0@ == key {
        Some(fields[0].1)
    } else {
        lookup(fields.drop_first(), key)
    }
}

impl Json {
    /// The member `key` of an object (`Value::get`).
    pub open spec fn get_spec(self, key: Seq<char>) -> Option<Json> {
        match self {
            Json::Object(fields) => lookup(fields@, key),
            _ => None,
        }
    }

    /// The element `i` of an array.
    pub open spec fn at_spec(self, i: int) -> Option<Json> {
        match self {
            Json::Array(items) => if 0 <= i < items@.len() { Some(items@[i]) } else { None },
            _ => None,
        }
    }

    /// The text of a string value (`Value::as_str`).
    pub open spec fn str_spec(self) -> Option<Seq<char>> {
        match self {
            Json::Str(s) => Some(s@),
            _ => None,
        }
    }

    /// The value of a boolean (`Value::as_bool`).
    pub open spec fn bool_spec(self) -> Option<bool> {
        match self {
            Json::Bool(b) => Some(b),
            _ => None,
        }
    }

    /// The value of an integer in `i64` range (`Value::as_i64`).
    pub open spec fn i64_spec(self) -> Option<i64> {
        match self {
            Json::Number(n) => n.int,
            _ => None,
        }
    }

    /// `v[key]` as text, `""` when missing or not a string
    /// (`v[key].as_str().unwrap_or("")`).
    pub open spec fn str_or_empty(self, key: Seq<char>) -> Seq<char> {
        match self.get_spec(key) {
            Some(v) => match v.str_spec() {
                Some(s) => s,
                None => seq![],
            },
            None => seq![],
        }
    }

    /// The member `key` of an object.
    pub fn get(&self, key: &str) -> (r: Option<&Json>)
        ensures
            r matches Some(v) ==> self.get_spec(key@) == Some(*v),
            r is None ==> self.get_spec(key@) is None,
    {
        match self {
            Json::Object(fields) => {
                let mut i: usize = 0;
                assert(fields@.skip(0) =~= fields@);
                while i < fields.len()
                    invariant
                        i <= fields@.len(),
                        self.get_spec(key@) == lookup(fields@, key@),
                        lookup(fields@, key@) == lookup(fields@.skip(i as int), key@),
                    decreases fields@.len() - i,
                {
                    proof {
                        assert(fields@.skip(i as int)[0] == fields@[i as int]);
                        assert(fields@.skip(i as int).drop_first() =~= fields@.skip(i + 1));
                    }
                    if str_eq(fields[i].0.as_str(), key) {
                        assert(lookup(fields@.skip(i as int), key@) == Some(fields@[i as int].1));
                        return Some(&fields[i].1);
                    }
                    i += 1;
                }
                None
            },
            _ => None,
        }
    }

    /// The member `key` of an object, moved out of it.
    pub fn into_member(self, key: &str) -> (r: Option<Json>)
        ensures
            r == self.get_spec(key@),
    {
        let ghost whole = self;
        match self {
            Json::Object(fields) => {
                let mut fields = fields;
                let ghost all = fields@;
                let mut i: usize = 0;
                assert(all.skip(0) =~= all);
                while i < fields.len()
                    invariant
                        fields@ == all,
                        i <= all.len(),
                        whole.get_spec(key@) == lookup(all, key@),
                        whole == self,
                        lookup(all, key@) == lookup(all.skip(i as int), key@),
                    decreases all.len() - i,
                {
                    proof {
                        assert(all.skip(i as int)[0] == all[i as int]);
                        assert(all.skip(i as int).drop_first() =~= all.skip(i + 1));
                    }
                    if str_eq(fields[i].0.as_str(), key) {
                        assert(lookup(all.skip(i as int), key@) == Some(all[i as int].1));
                        let (_k, v) = fields.remove(i);
                        return Some(v);
                    }
                    i += 1;
                }
                None
            },
            _ => None,
        }
    }

    /// The element `i` of an array.
    pub fn at(&self, i: usize) -> (r: Option<&Json>)
        ensures
            r matches Some(v) ==> self.at_spec(i as int) == Some(*v),
            r is None ==> self.at_spec(i as int) is None,
    {
        match self {
            Json::Array(items) => if i < items.len() { Some(&items[i]) } else { None },
            _ => None,
        }
    }

    /// The text of a string value.
    pub fn as_str(&self) -> (r: Option<&str>)
        ensures
            r matches Some(s) ==> self.str_spec() == Some(s@),
            r is None ==> self.str_spec() is None,
    {
        match self {
            Json::Str(s) => Some(s.as_str()),
            _ => None,
        }
    }

    /// The value of a boolean.
    pub fn as_bool(&self) -> (r: Option<bool>)
        ensures
            r == self.bool_spec(),
    {
        match self {
            Json::Bool(b) => Some(*b),
            _ => None,
        }
    }

    /// The value of an integer in `i64` range.
    pub fn as_i64(&self) -> (r: Option<i64>)
        ensures
            r == self.i64_spec(),
    {
        match self {
            Json::Number(n) => n.int,
            _ => None,
        }
    }

    /// `self[key]` as text, `""` when missing or not a string.
    pub fn str_field(&self, key: &str) -> (r: String)
        ensures
            r@ == self.str_or_empty(key@),
    {
        match self.get(key) {
            Some(v) => match v.as_str() {
                Some(s) => s.to_owned(),
                None => String::new(),
            },
            None => String::new(),
        }
    }
}

/// `v[a][b]`.
pub open spec fn get2(v: Json, a: Seq<char>, b: Seq<char>) -> Option<Json> {
    match v.get_spec(a) {
        Some(x) => x.get_spec(b),
        None => None,
    }
}

/// `v[a][b][c]`.
pub open spec fn get3(v: Json, a: Seq<char>, b: Seq<char>, c: Seq<char>) -> Option<Json> {
    match get2(v, a, b) {
        Some(x) => x.get_spec(c),
        None => None,
    }
}

/// `v[a][b]`, where both members exist.
pub fn get2_of<'a>(v: &'a Json, a: &str, b: &str) -> (r: Option<&'a Json>)
    ensures
        match r { Some(x) => Some(*x), None => None } == get2(*v, a@, b@),
{
    match v.get(a) {
        Some(x) => x.get(b),
        None => None,
    }
}

/// `v[a][b][c]`, where all three members exist.
pub fn get3_of<'a>(v: &'a Json, a: &str, b: &str, c: &str) -> (r: Option<&'a Json>)
    ensures
        match r { Some(x) => Some(*x), None => None } == get3(*v, a@, b@, c@),
{
    match get2_of(v, a, b) {
        Some(x) => x.get(c),
        None => None,
    }
}

} // verus!
