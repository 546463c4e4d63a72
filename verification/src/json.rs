//! JSON documents.

use crate::text::{same, string_views};
use vstd::prelude::*;

verus! {

/// A JSON value. One that was read has the fields of an object in the order of
/// their names; one that is put together keeps them as they are given.
#[derive(Debug)]
pub enum Json {
    Null,
    Bool(bool),
    /// A number that is not negative and has no fraction.
    Unsigned(u64),
    /// Any other number, as it is written.
    Number(String),
    Text(String),
    Array(Vec<Json>),
    Object(Vec<(String, Json)>),
}

/// What a [`Json`] holds.
pub ghost enum JsonView {
    Null,
    Bool(bool),
    Unsigned(u64),
    Number(Seq<char>),
    Text(Seq<char>),
    Array(Seq<JsonView>),
    Object(Seq<(Seq<char>, JsonView)>),
}

impl Json {
    /// What the value holds, all the way down.
    pub open spec fn deep(self) -> JsonView
        decreases self,
    {
        match self {
            Json::Null => JsonView::Null,
            Json::Bool(b) => JsonView::Bool(b),
            Json::Unsigned(n) => JsonView::Unsigned(n),
            Json::Number(n) => JsonView::Number(n@),
            Json::Text(s) => JsonView::Text(s@),
            Json::Array(items) => JsonView::Array(
                Seq::new(
                    items@.len(),
                    |i: int|
                        if 0 <= i < items@.len() {
                            items@[i].deep()
                        } else {
                            JsonView::Null
                        },
                ),
            ),
            Json::Object(fields) => JsonView::Object(
                Seq::new(
                    fields@.len(),
                    |i: int|
                        if 0 <= i < fields@.len() {
                            (fields@[i].0@, fields@[i].1.deep())
                        } else {
                            (seq![], JsonView::Null)
                        },
                ),
            ),
        }
    }
}

/// What some values hold.
pub open spec fn deep_items(items: Seq<Json>) -> Seq<JsonView> {
    items.map_values(|item: Json| item.deep())
}

/// What some fields hold.
pub open spec fn deep_fields(fields: Seq<(String, Json)>) -> Seq<(Seq<char>, JsonView)> {
    fields.map_values(|field: (String, Json)| (field.0@, field.1.deep()))
}

/// An array holds what its items hold, an object what its fields hold.
pub broadcast proof fn deep_parts(value: Json)
    ensures
        #![trigger value.deep()]
        value matches Json::Array(items) ==> value.deep() == JsonView::Array(deep_items(items@)),
        value matches Json::Object(fields) ==> value.deep() == JsonView::Object(
            deep_fields(fields@),
        ),
{
    match value {
        Json::Array(items) => {
            assert(value.deep()->Array_0 =~= deep_items(items@));
        },
        Json::Object(fields) => {
            assert(value.deep()->Object_0 =~= deep_fields(fields@));
        },
        _ => {},
    }
}

/// The value of the first field with some key.
pub open spec fn field_in(fields: Seq<(Seq<char>, JsonView)>, key: Seq<char>) -> Option<JsonView>
    decreases fields.len(),
{
    if fields.len() == 0 {
        None
    } else if fields[0].0 == key {
        Some(fields[0].1)
    } else {
        field_in(fields.drop_first(), key)
    }
}

impl JsonView {
    /// The value of a field of an object.
    pub open spec fn get(self, key: Seq<char>) -> Option<JsonView> {
        match self {
            JsonView::Object(fields) => field_in(fields, key),
            _ => None,
        }
    }

    pub open spec fn as_text(self) -> Option<Seq<char>> {
        match self {
            JsonView::Text(s) => Some(s),
            _ => None,
        }
    }

    pub open spec fn as_unsigned(self) -> Option<u64> {
        match self {
            JsonView::Unsigned(n) => Some(n),
            _ => None,
        }
    }

    pub open spec fn as_bool(self) -> Option<bool> {
        match self {
            JsonView::Bool(b) => Some(b),
            _ => None,
        }
    }

    pub open spec fn as_items(self) -> Option<Seq<JsonView>> {
        match self {
            JsonView::Array(items) => Some(items),
            _ => None,
        }
    }

    /// The text of a field.
    pub open spec fn text_at(self, key: Seq<char>) -> Option<Seq<char>> {
        match self.get(key) {
            Some(value) => value.as_text(),
            None => None,
        }
    }

    /// The number in a field.
    pub open spec fn unsigned_at(self, key: Seq<char>) -> Option<u64> {
        match self.get(key) {
            Some(value) => value.as_unsigned(),
            None => None,
        }
    }

    /// The truth value in a field.
    pub open spec fn bool_at(self, key: Seq<char>) -> Option<bool> {
        match self.get(key) {
            Some(value) => value.as_bool(),
            None => None,
        }
    }

    /// The items of an array in a field.
    pub open spec fn items_at(self, key: Seq<char>) -> Option<Seq<JsonView>> {
        match self.get(key) {
            Some(value) => value.as_items(),
            None => None,
        }
    }
}

impl Json {
    /// The value of a field of an object.
    pub fn get(&self, key: &str) -> (r: Option<&Json>)
        ensures
            r is Some <==> self.deep().get(key@) is Some,
            r is Some ==> self.deep().get(key@) == Some(r->0.deep()),
    {
        broadcast use deep_parts;

        match self {
            Json::Object(fields) => {
                let ghost all = deep_fields(fields@);
                let mut i: usize = 0;
                assert(all.skip(0) =~= all);
                while i < fields.len()
                    invariant
                        i <= fields.len(),
                        all == deep_fields(fields@),
                        self.deep() == JsonView::Object(all),
                        field_in(all, key@) == field_in(all.skip(i as int), key@),
                    decreases fields.len() - i,
                {
                    proof {
                        assert(all[i as int] == (fields@[i as int].0@, fields@[i as int].1.deep()));
                        assert(all.skip(i as int).drop_first() =~= all.skip(i + 1));
                    }
                    if same(fields[i].0.as_str(), key) {
                        return Some(&fields[i].1);
                    }
                    i += 1;
                }
                None
            },
            _ => None,
        }
    }

    /// The text, if the value is one.
    pub fn as_text(&self) -> (r: Option<&str>)
        ensures
            r is Some <==> self.deep().as_text() is Some,
            r is Some ==> self.deep().as_text() == Some(r->0@),
    {
        match self {
            Json::Text(s) => Some(s.as_str()),
            _ => None,
        }
    }

    /// The number, if the value is one that is not negative and has no
    /// fraction.
    pub fn as_unsigned(&self) -> (r: Option<u64>)
        ensures
            r == self.deep().as_unsigned(),
    {
        match self {
            Json::Unsigned(n) => Some(*n),
            _ => None,
        }
    }

    /// The truth value, if the value is one.
    pub fn as_bool(&self) -> (r: Option<bool>)
        ensures
            r == self.deep().as_bool(),
    {
        match self {
            Json::Bool(b) => Some(*b),
            _ => None,
        }
    }

    /// The items, if the value is an array.
    pub fn as_items(&self) -> (r: Option<&Vec<Json>>)
        ensures
            r is Some <==> self.deep().as_items() is Some,
            r is Some ==> self.deep().as_items() == Some(deep_items(r->0@)),
    {
        broadcast use deep_parts;

        match self {
            Json::Array(items) => Some(items),
            _ => None,
        }
    }

    /// The text of a field.
    pub fn text_at(&self, key: &str) -> (r: Option<&str>)
        ensures
            r is Some <==> self.deep().text_at(key@) is Some,
            r is Some ==> self.deep().text_at(key@) == Some(r->0@),
    {
        match self.get(key) {
            Some(value) => value.as_text(),
            None => None,
        }
    }

    /// The number in a field.
    pub fn unsigned_at(&self, key: &str) -> (r: Option<u64>)
        ensures
            r == self.deep().unsigned_at(key@),
    {
        match self.get(key) {
            Some(value) => value.as_unsigned(),
            None => None,
        }
    }

    /// The truth value in a field.
    pub fn bool_at(&self, key: &str) -> (r: Option<bool>)
        ensures
            r == self.deep().bool_at(key@),
    {
        match self.get(key) {
            Some(value) => value.as_bool(),
            None => None,
        }
    }

    /// The items of an array in a field.
    pub fn items_at(&self, key: &str) -> (r: Option<&Vec<Json>>)
        ensures
            r is Some <==> self.deep().items_at(key@) is Some,
            r is Some ==> self.deep().items_at(key@) == Some(deep_items(r->0@)),
    {
        match self.get(key) {
            Some(value) => value.as_items(),
            None => None,
        }
    }

    /// A text.
    pub fn text(s: &str) -> (r: Json)
        ensures
            r.deep() == JsonView::Text(s@),
    {
        Json::Text(s.to_owned())
    }
}

/// Adds a field to those of an object.
pub fn add_field(fields: &mut Vec<(String, Json)>, key: &str, value: Json)
    ensures
        deep_fields(final(fields)@) == deep_fields(old(fields)@).push((key@, value.deep())),
{
    fields.push((key.to_owned(), value));
    assert(deep_fields(fields@) =~= deep_fields(old(fields)@).push((key@, value.deep())));
}

/// The fields of an object with one more, if that one has a value.
pub open spec fn with_some_text(
    fields: Seq<(Seq<char>, JsonView)>,
    key: Seq<char>,
    text: Option<Seq<char>>,
) -> Seq<(Seq<char>, JsonView)> {
    match text {
        Some(text) => fields.push((key, JsonView::Text(text))),
        None => fields,
    }
}

/// What a text is, if there is one.
pub open spec fn some_text(text: Option<String>) -> Option<Seq<char>> {
    match text {
        Some(text) => Some(text@),
        None => None,
    }
}

/// Adds a text to the fields of an object, if there is one.
pub fn add_some_text(fields: &mut Vec<(String, Json)>, key: &str, text: &Option<String>)
    ensures
        deep_fields(final(fields)@) == with_some_text(
            deep_fields(old(fields)@),
            key@,
            some_text(*text),
        ),
{
    if let Some(text) = text {
        add_field(fields, key, Json::text(text.as_str()));
    }
}

/// The array of some texts.
pub open spec fn texts_view(texts: Seq<Seq<char>>) -> JsonView {
    JsonView::Array(texts.map_values(|text: Seq<char>| JsonView::Text(text)))
}

/// The array of some texts.
pub fn text_array(texts: &[String]) -> (r: Json)
    ensures
        r.deep() == texts_view(string_views(texts@)),
{
    broadcast use deep_parts;

    let mut items: Vec<Json> = Vec::new();
    let mut i: usize = 0;
    while i < texts.len()
        invariant
            i <= texts.len(),
            items@.len() == i,
            forall|k: int|
                0 <= k < i ==> (#[trigger] items@[k]).deep() == JsonView::Text(texts@[k]@),
        decreases texts.len() - i,
    {
        items.push(Json::text(texts[i].as_str()));
        i += 1;
    }
    assert(deep_items(items@) =~= texts_view(string_views(texts@))->Array_0);
    Json::Array(items)
}

/// A document in the form that `serde_json` parses into.
#[verifier::external_type_specification]
#[verifier::external_body]
pub struct ExValue(serde_json::Value);

/// What a parsed document holds.
pub uninterp spec fn parsed(value: serde_json::Value) -> JsonView;

/// The document that a text is, or the text of the error that it is none.
pub uninterp spec fn json_in(text: Seq<char>) -> Result<JsonView, Seq<char>>;

/// `serde_json::from_str` reads a document, or says why the text is none.
#[verifier::external_body]
fn parse_value(text: &str) -> (r: Result<serde_json::Value, String>)
    ensures
        match r {
            Ok(value) => json_in(text@) == Ok::<JsonView, Seq<char>>(parsed(value)),
            Err(error) => json_in(text@) == Err::<JsonView, Seq<char>>(error@),
        },
{
    serde_json::from_str(text).map_err(|e| e.to_string())
}

/// A `serde_json::Value`, variant by variant. The fields of an object are in
/// the order in which `serde_json::Map` hands them out, and a number that is
/// no `u64` is as it is written.
#[verifier::external_body]
fn from_value(value: serde_json::Value) -> (r: Json)
    ensures
        r.deep() == parsed(value),
{
    match value {
        serde_json::Value::Null => Json::Null,
        serde_json::Value::Bool(b) => Json::Bool(b),
        serde_json::Value::Number(n) => match n.as_u64() {
            Some(n) => Json::Unsigned(n),
            None => Json::Number(n.to_string()),
        },
        serde_json::Value::String(s) => Json::Text(s),
        serde_json::Value::Array(a) => Json::Array(a.into_iter().map(from_value).collect()),
        serde_json::Value::Object(fields) => {
            Json::Object(fields.into_iter().map(|(k, v)| (k, from_value(v))).collect())
        },
    }
}

/// Reads a document.
pub fn parse(text: &str) -> (r: Result<Json, String>)
    ensures
        match r {
            Ok(value) => json_in(text@) == Ok::<JsonView, Seq<char>>(value.deep()),
            Err(error) => json_in(text@) == Err::<JsonView, Seq<char>>(error@),
        },
{
    match parse_value(text) {
        Ok(value) => Ok(from_value(value)),
        Err(error) => Err(error),
    }
}

/// The value of a field is that of the first with its key.
pub proof fn first_field_counts(
    fields: Seq<(Seq<char>, JsonView)>,
    first: (Seq<char>, JsonView),
    key: Seq<char>,
)
    ensures
        first.0 == key ==> field_in(seq![first] + fields, key) == Some(first.1),
        first.0 != key ==> field_in(seq![first] + fields, key) == field_in(fields, key),
        field_in(Seq::empty(), key) is None,
{
    assert((seq![first] + fields).drop_first() =~= fields);
}

/// A field of an object is read as what it is, and as nothing else.
pub proof fn fields_are_read_as_they_are(value: JsonView, key: Seq<char>)
    ensures
        value !is Object ==> value.get(key) is None,
        value.text_at(key) is Some <==> value.get(key) is Some && value.get(key)->0 is Text,
        value.text_at(key) is Some ==> value.text_at(key)->0 == value.get(key)->0->Text_0,
        value.unsigned_at(key) is Some <==> value.get(key) is Some && value.get(key)->0
            is Unsigned,
        value.unsigned_at(key) is Some ==> value.unsigned_at(key)->0 == value.get(
            key,
        )->0->Unsigned_0,
        value.bool_at(key) is Some <==> value.get(key) is Some && value.get(key)->0 is Bool,
        value.bool_at(key) is Some ==> value.bool_at(key)->0 == value.get(key)->0->Bool_0,
        value.items_at(key) is Some <==> value.get(key) is Some && value.get(key)->0 is Array,
        value.items_at(key) is Some ==> value.items_at(key)->0 == value.get(key)->0->Array_0,
{
}

} // verus!
