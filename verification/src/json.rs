//! The JSON values that the native database answers with and that the
//! services answer in, their mathematical model, lookups and compact text.

use vstd::prelude::*;
use crate::text::{chars_of, string_of, parse_int};

verus! {

broadcast use vstd::std_specs::vec::group_vec_axioms;

/// A JSON value. Numbers are held as their decimal text (as `serde_json`
/// prints them); object members keep their order.
#[derive(Debug, PartialEq)]
pub enum JsonValue {
    Null,
    Bool(bool),
    Number(String),
    Str(String),
    Array(Vec<JsonValue>),
    Object(Vec<(String, JsonValue)>),
}

/// The model of a JSON value: texts as character sequences, arrays and
/// objects as sequences.
pub enum Json {
    Null,
    Bool(bool),
    Number(Seq<char>),
    Str(Seq<char>),
    Array(Seq<Json>),
    Object(Seq<(Seq<char>, Json)>),
}

pub open spec fn json_view(v: JsonValue) -> Json
    decreases v,
{
    match v {
        JsonValue::Null => Json::Null,
        JsonValue::Bool(b) => Json::Bool(b),
        JsonValue::Number(t) => Json::Number(t@),
        JsonValue::Str(s) => Json::Str(s@),
        JsonValue::Array(items) => Json::Array(items_view(items@)),
        JsonValue::Object(fields) => Json::Object(fields_view(fields@)),
    }
}

pub open spec fn items_view(items: Seq<JsonValue>) -> Seq<Json>
    decreases items,
{
    if items.len() == 0 {
        seq![]
    } else {
        items_view(items.drop_last()).push(json_view(items.last()))
    }
}

pub open spec fn fields_view(fields: Seq<(String, JsonValue)>) -> Seq<(Seq<char>, Json)>
    decreases fields,
{
    if fields.len() == 0 {
        seq![]
    } else {
        fields_view(fields.drop_last()).push((fields.last().0@, json_view(fields.last().1)))
    }
}

impl View for JsonValue {
    type V = Json;

    open spec fn view(&self) -> Json {
        json_view(*self)
    }
}

pub proof fn lemma_items_view(items: Seq<JsonValue>)
    ensures
        items_view(items).len() == items.len(),
        forall|i: int| 0 <= i < items.len() ==> #[trigger] items_view(items)[i] == json_view(items[i]),
    decreases items.len(),
{
    if items.len() > 0 {
        lemma_items_view(items.drop_last());
    }
}

pub proof fn lemma_fields_view(fields: Seq<(String, JsonValue)>)
    ensures
        fields_view(fields).len() == fields.len(),
        forall|i: int|
            0 <= i < fields.len() ==> #[trigger] fields_view(fields)[i] == (
                fields[i].0@,
                json_view(fields[i].1),
            ),
    decreases fields.len(),
{
    if fields.len() > 0 {
        lemma_fields_view(fields.drop_last());
    }
}

pub proof fn lemma_items_view_push(items: Seq<JsonValue>, v: JsonValue)
    ensures
        items_view(items.push(v)) == items_view(items).push(json_view(v)),
{
    assert(items.push(v).drop_last() == items);
}

pub proof fn lemma_fields_view_push(fields: Seq<(String, JsonValue)>, f: (String, JsonValue))
    ensures
        fields_view(fields.push(f)) == fields_view(fields).push((f.0@, json_view(f.1))),
{
    assert(fields.push(f).drop_last() == fields);
}

// ------------------------------------------------------------------ lookups

/// The value of the first member of `fields` named `key`.
pub open spec fn field_value(fields: Seq<(Seq<char>, Json)>, key: Seq<char>) -> Option<Json>
    decreases fields.len(),
{
    if fields.len() == 0 {
        None
    } else if fields[0].0 == key {
        Some(fields[0].1)
    } else {
        field_value(fields.drop_first(), key)
    }
}

/// `v.get(key)`: the member `key` of an object, `None` for anything else.
pub open spec fn json_get(v: Json, key: Seq<char>) -> Option<Json> {
    match v {
        Json::Object(fields) => field_value(fields, key),
        _ => None,
    }
}

/// `v.as_str()`: the text of a string value.
pub open spec fn json_str(v: Json) -> Option<Seq<char>> {
    match v {
        Json::Str(s) => Some(s),
        _ => None,
    }
}

/// The text of the member `key` when it is a string.
pub open spec fn get_str(v: Json, key: Seq<char>) -> Option<Seq<char>> {
    match json_get(v, key) {
        Some(x) => json_str(x),
        None => None,
    }
}

/// Number text that `serde_json` reads as an integer: an optional `-` and digits.
pub open spec fn number_i64(t: Seq<char>) -> Option<int> {
    if t.len() > 0 && t[0] == '+' {
        None
    } else {
        parse_int(t, true, i64::MIN as int, i64::MAX as int)
    }
}

/// `v.as_i64()`: an integer number that fits in an `i64`.
pub open spec fn json_i64(v: Json) -> Option<int> {
    match v {
        Json::Number(t) => number_i64(t),
        _ => None,
    }
}

// ------------------------------------------------------------- text form

pub open spec fn hex_digit(d: int) -> char {
    if d < 10 {
        (('0' as int) + d) as char
    } else {
        (('a' as int) + d - 10) as char
    }
}

/// How one character appears inside a JSON string literal.
pub open spec fn escape_char(c: char) -> Seq<char> {
    if c == '"' {
        seq!['\\', '"']
    } else if c == '\\' {
        seq!['\\', '\\']
    } else if c == '\x08' {
        seq!['\\', 'b']
    } else if c == '\x0C' {
        seq!['\\', 'f']
    } else if c == '\n' {
        seq!['\\', 'n']
    } else if c == '\r' {
        seq!['\\', 'r']
    } else if c == '\t' {
        seq!['\\', 't']
    } else if (c as u32) < 0x20 {
        seq!['\\', 'u', '0', '0', hex_digit((c as u32 / 16) as int), hex_digit((c as u32 % 16) as int)]
    } else {
        seq![c]
    }
}

pub open spec fn escaped(s: Seq<char>) -> Seq<char>
    decreases s.len(),
{
    if s.len() == 0 {
        seq![]
    } else {
        escaped(s.drop_last()) + escape_char(s.last())
    }
}

/// A JSON string literal holding `s`.
pub open spec fn quoted(s: Seq<char>) -> Seq<char> {
    seq!['"'] + escaped(s) + seq!['"']
}

/// Compact JSON text of a value (no whitespace, members in their order).
pub open spec fn json_text(v: Json) -> Seq<char>
    decreases v,
{
    match v {
        Json::Null => seq!['n', 'u', 'l', 'l'],
        Json::Bool(b) => if b {
            seq!['t', 'r', 'u', 'e']
        } else {
            seq!['f', 'a', 'l', 's', 'e']
        },
        Json::Number(t) => t,
        Json::Str(s) => quoted(s),
        Json::Array(items) => seq!['['] + items_text(items) + seq![']'],
        Json::Object(fields) => seq!['{'] + fields_text(fields) + seq!['}'],
    }
}

/// Array items separated by commas.
pub open spec fn items_text(items: Seq<Json>) -> Seq<char>
    decreases items,
{
    if items.len() == 0 {
        seq![]
    } else if items.len() == 1 {
        json_text(items[0])
    } else {
        items_text(items.drop_last()) + seq![','] + json_text(items.last())
    }
}

/// Object members `"name":value` separated by commas.
pub open spec fn fields_text(fields: Seq<(Seq<char>, Json)>) -> Seq<char>
    decreases fields,
{
    if fields.len() == 0 {
        seq![]
    } else if fields.len() == 1 {
        quoted(fields[0].0) + seq![':'] + json_text(fields[0].1)
    } else {
        fields_text(fields.drop_last()) + seq![','] + quoted(fields.last().0) + seq![':'] + json_text(
            fields.last().1,
        )
    }
}

/// An empty member list.
pub fn no_fields() -> (v: Vec<(String, JsonValue)>)
    ensures
        fields_view(v@) == Seq::<(Seq<char>, Json)>::empty(),
        v@.len() == 0,
{
    Vec::new()
}

/// Appends the member `key: value`.
pub fn add_field(fields: &mut Vec<(String, JsonValue)>, key: &str, value: JsonValue)
    ensures
        fields_view(final(fields)@) == fields_view(old(fields)@).push((key@, value@)),
{
    let k = String::from_str(key);
    proof {
        lemma_fields_view_push(fields@, (k, value));
    }
    fields.push((k, value));
}

/// An empty item list.
pub fn no_items() -> (v: Vec<JsonValue>)
    ensures
        items_view(v@) == Seq::<Json>::empty(),
        v@.len() == 0,
{
    Vec::new()
}

/// Appends an item.
pub fn add_item(items: &mut Vec<JsonValue>, value: JsonValue)
    ensures
        items_view(final(items)@) == items_view(old(items)@).push(value@),
{
    proof {
        lemma_items_view_push(items@, value);
    }
    items.push(value);
}

impl JsonValue {
    /// The member `key` of an object.
    pub fn get(&self, key: &str) -> (r: Option<&JsonValue>)
        ensures
            r matches Some(x) ==> json_get(self@, key@) == Some(x@),
            r is None ==> json_get(self@, key@) is None,
    {
        match self {
            JsonValue::Object(fields) => {
                proof {
                    lemma_fields_view(fields@);
                }
                let ghost fv = fields_view(fields@);
                let mut i: usize = 0;
                assert(fv.skip(0) == fv);
                while i < fields.len()
                    invariant
                        i <= fields.len(),
                        fv == fields_view(fields@),
                        fv.len() == fields.len(),
                        forall|k: int|
                            0 <= k < fields.len() ==> #[trigger] fv[k] == (
                                fields@[k].0@,
                                json_view(fields@[k].1),
                            ),
                        field_value(fv, key@) == field_value(fv.skip(i as int), key@),
                        *self == JsonValue::Object(*fields),
                    decreases fields.len() - i,
                {
                    assert(fv.skip(i as int).drop_first() == fv.skip(i + 1));
                    assert(fv.skip(i as int)[0] == fv[i as int]);
                    if crate::text::str_eq(fields[i].0.as_str(), key) {
                        assert(fv[i as int] == (fields@[i as int].0@, json_view(fields@[i as int].1)));
                        return Some(&fields[i].1);
                    }
                    i += 1;
                }
                None
            },
            _ => None,
        }
    }

    /// The text of a string value.
    pub fn as_str(&self) -> (r: Option<&String>)
        ensures
            r matches Some(s) ==> json_str(self@) == Some(s@),
            r is None ==> json_str(self@) is None,
    {
        match self {
            JsonValue::Str(s) => Some(s),
            _ => None,
        }
    }

    /// The items of an array.
    pub fn as_array(&self) -> (r: Option<&Vec<JsonValue>>)
        ensures
            r matches Some(items) ==> self@ == Json::Array(items_view(items@)),
            r is None ==> !(self@ is Array),
    {
        match self {
            JsonValue::Array(items) => Some(items),
            _ => None,
        }
    }

    /// The members of an object.
    pub fn as_object(&self) -> (r: Option<&Vec<(String, JsonValue)>>)
        ensures
            r matches Some(fields) ==> self@ == Json::Object(fields_view(fields@)),
            r is None ==> !(self@ is Object),
    {
        match self {
            JsonValue::Object(fields) => Some(fields),
            _ => None,
        }
    }

    /// An integer number that fits in an `i64`.
    pub fn as_i64(&self) -> (r: Option<i64>)
        ensures
            r matches Some(n) ==> json_i64(self@) == Some(n as int),
            r is None ==> json_i64(self@) is None,
    {
        match self {
            JsonValue::Number(t) => {
                let v = chars_of(t.as_str());
                if v.len() > 0 && v[0] == '+' {
                    return None;
                }
                crate::text::parse_i64(&v)
            },
            _ => None,
        }
    }

    /// A string value holding `s`.
    pub fn string(s: &str) -> (r: JsonValue)
        ensures
            r@ == Json::Str(s@),
    {
        JsonValue::Str(String::from_str(s))
    }

    /// A number value for an `i64`.
    pub fn integer(n: i64) -> (r: JsonValue)
        ensures
            r@ == Json::Number(crate::text::int_text(n as int)),
    {
        JsonValue::Number(string_of(&crate::text::format_i64(n)))
    }

    /// A number value for a count.
    pub fn count(n: usize) -> (r: JsonValue)
        ensures
            r@ == Json::Number(crate::text::nat_text(n as nat)),
    {
        JsonValue::Number(string_of(&crate::text::format_u128(n as u128)))
    }

    /// A string value holding a copy of `s`.
    pub fn text(s: &String) -> (r: JsonValue)
        ensures
            r@ == Json::Str(s@),
    {
        JsonValue::Str(s.clone())
    }

    /// A copy of the value.
    pub fn duplicate(&self) -> (r: JsonValue)
        ensures
            r@ == self@,
        decreases self,
    {
        match self {
            JsonValue::Null => JsonValue::Null,
            JsonValue::Bool(b) => JsonValue::Bool(*b),
            JsonValue::Number(t) => JsonValue::Number(t.clone()),
            JsonValue::Str(s) => JsonValue::Str(s.clone()),
            JsonValue::Array(items) => {
                let mut out: Vec<JsonValue> = Vec::new();
                let mut i: usize = 0;
                while i < items.len()
                    invariant
                        i <= items.len(),
                        items_view(out@) == items_view(items@.take(i as int)),
                        *self == JsonValue::Array(*items),
                    decreases items.len() - i,
                {
                    assert(decreases_to!(*items => items[i as int]));
                    assert(decreases_to!(*self => (*self)->Array_0));
                    assert(decreases_to!(*self => items[i as int]));
                    let x = items[i].duplicate();
                    proof {
                        lemma_items_view_push(out@, x);
                        lemma_items_view_push(items@.take(i as int), items@[i as int]);
                        assert(items@.take(i + 1) == items@.take(i as int).push(items@[i as int]));
                    }
                    out.push(x);
                    i += 1;
                }
                assert(items@.take(items.len() as int) == items@);
                JsonValue::Array(out)
            },
            JsonValue::Object(fields) => {
                let mut out: Vec<(String, JsonValue)> = Vec::new();
                let mut i: usize = 0;
                while i < fields.len()
                    invariant
                        i <= fields.len(),
                        fields_view(out@) == fields_view(fields@.take(i as int)),
                        *self == JsonValue::Object(*fields),
                    decreases fields.len() - i,
                {
                    assert(decreases_to!(*fields => fields[i as int]));
                    assert(decreases_to!(*self => (*self)->Object_0));
                    assert(decreases_to!(fields[i as int] => fields[i as int].1));
                    assert(decreases_to!(*self => fields[i as int].1));
                    let f = (fields[i].0.clone(), fields[i].1.duplicate());
                    proof {
                        lemma_fields_view_push(out@, f);
                        lemma_fields_view_push(fields@.take(i as int), fields@[i as int]);
                        assert(fields@.take(i + 1) == fields@.take(i as int).push(
                            fields@[i as int],
                        ));
                    }
                    out.push(f);
                    i += 1;
                }
                assert(fields@.take(fields.len() as int) == fields@);
                JsonValue::Object(out)
            },
        }
    }
}

} // verus!
