//! The JSON document that the code generator produces.
use vstd::prelude::*;

verus! {

/// A JSON value.
#[derive(Debug)]
pub enum JsonValue {
    /// A whole number, such as a handler's position.
    Integer(u32),
    Bool(bool),
    /// A number written as in the source: digits, and possibly a `.` and more digits.
    Number(String),
    Str(String),
    Array(Vec<JsonValue>),
    /// An object's members, in the order they were written.
    Object(Vec<(String, JsonValue)>),
}

/// A JSON value, as a mathematical value.
pub enum SpecJson {
    Integer(int),
    Bool(bool),
    Number(Seq<char>),
    Str(Seq<char>),
    Array(Seq<SpecJson>),
    Object(Seq<(Seq<char>, SpecJson)>),
}

pub open spec fn json_view(j: JsonValue) -> SpecJson
    decreases j,
{
    match j {
        JsonValue::Integer(n) => SpecJson::Integer(n as int),
        JsonValue::Bool(b) => SpecJson::Bool(b),
        JsonValue::Number(s) => SpecJson::Number(s@),
        JsonValue::Str(s) => SpecJson::Str(s@),
        JsonValue::Array(v) => SpecJson::Array(jsons_view(v@)),
        JsonValue::Object(fs) => SpecJson::Object(fields_view(fs@)),
    }
}

pub open spec fn jsons_view(s: Seq<JsonValue>) -> Seq<SpecJson>
    decreases s,
{
    Seq::new(s.len(), |i: int| if 0 <= i < s.len() { json_view(s[i]) } else { arbitrary() })
}

pub open spec fn fields_view(s: Seq<(String, JsonValue)>) -> Seq<(Seq<char>, SpecJson)>
    decreases s,
{
    Seq::new(
        s.len(),
        |i: int| if 0 <= i < s.len() { (s[i].0@, json_view(s[i].1)) } else { arbitrary() },
    )
}

impl View for JsonValue {
    type V = SpecJson;

    open spec fn view(&self) -> SpecJson {
        json_view(*self)
    }
}

pub proof fn lemma_jsons_push(s: Seq<JsonValue>, x: JsonValue)
    ensures
        jsons_view(s.push(x)) == jsons_view(s).push(json_view(x)),
{
    assert(jsons_view(s.push(x)) =~= jsons_view(s).push(json_view(x)));
}

pub proof fn lemma_fields_push(s: Seq<(String, JsonValue)>, x: (String, JsonValue))
    ensures
        fields_view(s.push(x)) == fields_view(s).push((x.0@, json_view(x.1))),
{
    assert(fields_view(s.push(x)) =~= fields_view(s).push((x.0@, json_view(x.1))));
}

/// Appends the member `key: value` to an object's members.
pub fn push_field(fields: &mut Vec<(String, JsonValue)>, key: String, value: JsonValue)
    ensures
        fields_view(final(fields)@) == fields_view(old(fields)@).push((key@, value@)),
{
    proof {
        lemma_fields_push(fields@, (key, value));
    }
    fields.push((key, value));
}

/// Appends a value to an array's elements.
pub fn push_value(values: &mut Vec<JsonValue>, value: JsonValue)
    ensures
        jsons_view(final(values)@) == jsons_view(old(values)@).push(value@),
{
    proof {
        lemma_jsons_push(values@, value);
    }
    values.push(value);
}

} // verus!
