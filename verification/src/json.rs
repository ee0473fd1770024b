//! JSON documents, as far as the console reads them.

use vstd::prelude::*;

use crate::text::same_text;

verus! {

/// A JSON value.
#[derive(Debug)]
pub enum Json {
    Null,
    Bool(bool),
    /// A number, as an unsigned and as a signed integer where it is one.
    Number { whole: Option<u64>, signed: Option<i64> },
    Text(String),
    List(Vec<Json>),
    Object(Vec<(String, Json)>),
}

/// What a JSON value says.
pub ghost enum JsonView {
    Null,
    Bool(bool),
    Number { whole: Option<u64>, signed: Option<i64> },
    Text(Seq<char>),
    List(Seq<JsonView>),
    Object(Seq<(Seq<char>, JsonView)>),
}

/// What a JSON value says.
pub open spec fn said(json: Json) -> JsonView
    decreases json,
{
    match json {
        Json::Null => JsonView::Null,
        Json::Bool(b) => JsonView::Bool(b),
        Json::Number { whole, signed } => JsonView::Number { whole, signed },
        Json::Text(text) => JsonView::Text(text@),
        Json::List(items) => JsonView::List(
            Seq::new(
                items@.len(),
                |i: int|
                    if 0 <= i < items@.len() {
                        said(items@[i])
                    } else {
                        JsonView::Null
                    },
            ),
        ),
        Json::Object(fields) => JsonView::Object(
            Seq::new(
                fields@.len(),
                |i: int|
                    if 0 <= i < fields@.len() {
                        (fields@[i].0@, said(fields@[i].1))
                    } else {
                        (Seq::empty(), JsonView::Null)
                    },
            ),
        ),
    }
}

/// A parsed document of `serde_json`.
#[verifier::external_type_specification]
#[verifier::external_body]
pub struct ExValue(serde_json::Value);

/// What a parsed document holds.
pub uninterp spec fn value_says(value: serde_json::Value) -> JsonView;

/// What `serde_json::from_str` makes of a text: nothing where it is not JSON.
pub uninterp spec fn json_of(text: Seq<char>) -> Option<JsonView>;

/// `serde_json::from_str` reads a text. What it makes of it depends on the text
/// alone.
#[verifier::external_body]
fn parse_value(text: &str) -> (parsed: Option<serde_json::Value>)
    ensures
        match parsed {
            Some(value) => json_of(text@) == Some(value_says(value)),
            None => json_of(text@) is None,
        },
{
    serde_json::from_str(text).ok()
}

/// The variants of `serde_json::Value`, one by one: what it holds is what the
/// value made of it says.
#[verifier::external_body]
fn from_value(value: serde_json::Value) -> (json: Json)
    ensures
        said(json) == value_says(value),
{
    match value {
        serde_json::Value::Null => Json::Null,
        serde_json::Value::Bool(b) => Json::Bool(b),
        serde_json::Value::Number(n) => Json::Number { whole: n.as_u64(), signed: n.as_i64() },
        serde_json::Value::String(text) => Json::Text(text),
        serde_json::Value::Array(items) => Json::List(items.into_iter().map(from_value).collect()),
        serde_json::Value::Object(fields) => Json::Object(
            fields.into_iter().map(|(key, field)| (key, from_value(field))).collect(),
        ),
    }
}

/// Reads a JSON document; `None` where the text is not one.
pub fn parse_json(text: &str) -> (parsed: Option<Json>)
    ensures
        match parsed {
            Some(json) => json_of(text@) == Some(said(json)),
            None => json_of(text@) is None,
        },
{
    match parse_value(text) {
        Some(value) => Some(from_value(value)),
        None => None,
    }
}

/// The first entry from `i` on under a key.
pub open spec fn entry_from(fields: Seq<(Seq<char>, JsonView)>, key: Seq<char>, i: int) -> Option<
    JsonView,
>
    decreases fields.len() - i,
{
    if i < 0 || i >= fields.len() {
        None
    } else if fields[i].0 == key {
        Some(fields[i].1)
    } else {
        entry_from(fields, key, i + 1)
    }
}

impl JsonView {
    /// The value under a key; none where there is no such key or no object.
    pub open spec fn field(self, key: Seq<char>) -> Option<JsonView> {
        match self {
            JsonView::Object(fields) => entry_from(fields, key, 0),
            _ => None,
        }
    }

    /// The text, where it is one.
    pub open spec fn text(self) -> Option<Seq<char>> {
        match self {
            JsonView::Text(text) => Some(text),
            _ => None,
        }
    }

    /// The truth value, where it is one.
    pub open spec fn truth(self) -> Option<bool> {
        match self {
            JsonView::Bool(b) => Some(b),
            _ => None,
        }
    }

    /// The unsigned integer, where it is one.
    pub open spec fn whole_number(self) -> Option<u64> {
        match self {
            JsonView::Number { whole, .. } => whole,
            _ => None,
        }
    }

    /// The signed integer, where it is one.
    pub open spec fn signed_number(self) -> Option<i64> {
        match self {
            JsonView::Number { signed, .. } => signed,
            _ => None,
        }
    }

    /// The text under a key, where there is one.
    pub open spec fn text_at(self, key: Seq<char>) -> Option<Seq<char>> {
        match self.field(key) {
            Some(value) => value.text(),
            None => None,
        }
    }
}

impl Json {
    /// The value under a key.
    pub fn get(&self, key: &str) -> (value: Option<&Json>)
        ensures
            match value {
                Some(value) => said(*self).field(key@) == Some(said(*value)),
                None => said(*self).field(key@) is None,
            },
    {
        match self {
            Json::Object(fields) => {
                let ghost all = said(*self)->Object_0;
                let mut i: usize = 0;
                while i < fields.len()
                    invariant
                        *self == Json::Object(*fields),
                        all == said(*self)->Object_0,
                        all.len() == fields@.len(),
                        i <= fields.len(),
                        entry_from(all, key@, 0) == entry_from(all, key@, i as int),
                    decreases fields.len() - i,
                {
                    let field: &(String, Json) = &fields[i];
                    assert(all[i as int] == (field.0@, said(field.1)));
                    if same_text(field.0.as_str(), key) {
                        return Some(&field.1);
                    }
                    i = i + 1;
                }
                None
            },
            _ => None,
        }
    }

    /// The text, where it is one.
    pub fn as_str(&self) -> (text: Option<&str>)
        ensures
            match text {
                Some(text) => said(*self).text() == Some(text@),
                None => said(*self).text() is None,
            },
    {
        match self {
            Json::Text(text) => Some(text.as_str()),
            _ => None,
        }
    }

    /// The truth value, where it is one.
    pub fn as_bool(&self) -> (truth: Option<bool>)
        ensures
            truth == said(*self).truth(),
    {
        match self {
            Json::Bool(b) => Some(*b),
            _ => None,
        }
    }

    /// The unsigned integer, where it is one.
    pub fn as_u64(&self) -> (number: Option<u64>)
        ensures
            number == said(*self).whole_number(),
    {
        match self {
            Json::Number { whole, signed: _ } => *whole,
            _ => None,
        }
    }

    /// The signed integer, where it is one.
    pub fn as_i64(&self) -> (number: Option<i64>)
        ensures
            number == said(*self).signed_number(),
    {
        match self {
            Json::Number { whole: _, signed } => *signed,
            _ => None,
        }
    }

    /// The text under a key, where there is one.
    pub fn get_str(&self, key: &str) -> (text: Option<&str>)
        ensures
            match text {
                Some(text) => said(*self).text_at(key@) == Some(text@),
                None => said(*self).text_at(key@) is None,
            },
    {
        match self.get(key) {
            Some(value) => value.as_str(),
            None => None,
        }
    }
}

/// A value answers to the kind it is of, and to no other.
pub proof fn what_a_value_answers_to(
    json: &Json,
    text: Option<&str>,
    truth: Option<bool>,
    number: Option<u64>,
    signed: Option<i64>,
)
    requires
        call_ensures(Json::as_str, (json,), text),
        call_ensures(Json::as_bool, (json,), truth),
        call_ensures(Json::as_u64, (json,), number),
        call_ensures(Json::as_i64, (json,), signed),
    ensures
        text is Some <==> *json is Text,
        *json matches Json::Text(t) ==> text matches Some(said) && said@ == t@,
        truth is Some <==> *json is Bool,
        *json matches Json::Bool(b) ==> truth == Some(b),
        number == match *json {
            Json::Number { whole, .. } => whole,
            _ => None,
        },
        signed == match *json {
            Json::Number { signed: s, .. } => s,
            _ => None,
        },
{
    reveal_with_fuel(said, 2);
}

proof fn lemma_entry(fields: Seq<(Seq<char>, JsonView)>, key: Seq<char>, from: int, i: int)
    requires
        0 <= from <= i < fields.len(),
        fields[i].0 == key,
        forall|j: int| from <= j < i ==> (#[trigger] fields[j]).0 != key,
    ensures
        entry_from(fields, key, from) == Some(fields[i].1),
    decreases i - from,
{
    if from < i {
        assert(fields[from].0 != key);
        lemma_entry(fields, key, from + 1, i);
    }
}

proof fn lemma_no_entry(fields: Seq<(Seq<char>, JsonView)>, key: Seq<char>, from: int)
    requires
        0 <= from,
        forall|j: int| from <= j < fields.len() ==> (#[trigger] fields[j]).0 != key,
    ensures
        entry_from(fields, key, from) is None,
    decreases fields.len() - from,
{
    if from < fields.len() {
        lemma_no_entry(fields, key, from + 1);
    }
}

/// A key gives the first value that stands under it in an object, and nothing
/// elsewhere.
pub proof fn what_a_key_gives(json: &Json, key: &str, value: Option<&Json>, i: int)
    requires
        call_ensures(Json::get, (json, key), value),
    ensures
        !(*json is Object) ==> value is None,
        *json matches Json::Object(fields) ==> 0 <= i < fields@.len() && fields@[i].0@ == key@ && (
        forall|j: int| 0 <= j < i ==> (#[trigger] fields@[j]).0@ != key@) ==> (value matches Some(
            v,
        ) && said(*v) == said(fields@[i].1)),
        *json matches Json::Object(fields) ==> (forall|j: int|
            0 <= j < fields@.len() ==> (#[trigger] fields@[j]).0@ != key@) ==> value is None,
{
    if let Json::Object(fields) = *json {
        let view = said(*json);
        if let JsonView::Object(entries) = view {
            assert forall|j: int| 0 <= j < fields@.len() implies (#[trigger] entries[j]).0
                == fields@[j].0@ by {}
            if 0 <= i < fields@.len() && fields@[i].0@ == key@ && (forall|j: int|
                0 <= j < i ==> (#[trigger] fields@[j]).0@ != key@) {
                assert(entries[i].0 == key@);
                assert forall|j: int| 0 <= j < i implies (#[trigger] entries[j]).0 != key@ by {
                    assert(fields@[j].0@ != key@);
                }
                lemma_entry(entries, key@, 0, i);
            }
            if forall|j: int| 0 <= j < fields@.len() ==> (#[trigger] fields@[j]).0@ != key@ {
                assert forall|j: int| 0 <= j < entries.len() implies (#[trigger] entries[j]).0
                    != key@ by {
                    assert(fields@[j].0@ != key@);
                }
                lemma_no_entry(entries, key@, 0);
            }
        }
    }
}

} // verus!
