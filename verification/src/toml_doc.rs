//! TOML documents.

use crate::order::{bytes_order, Order};
use crate::text::same;
use vstd::prelude::*;
use vstd::utf8::encode_utf8;

verus! {

/// A TOML value. Numbers with a fraction and times are as they are written.
#[derive(Debug)]
pub enum Toml {
    Text(String),
    Integer(i64),
    Float(String),
    Boolean(bool),
    Datetime(String),
    Array(Vec<Toml>),
    Table(Vec<(String, Toml)>),
}

/// What a [`Toml`] holds.
pub ghost enum TomlView {
    Text(Seq<char>),
    Integer(i64),
    Float(Seq<char>),
    Boolean(bool),
    Datetime(Seq<char>),
    Array(Seq<TomlView>),
    Table(Seq<(Seq<char>, TomlView)>),
}

impl Toml {
    /// What the value holds, all the way down.
    pub open spec fn deep(self) -> TomlView
        decreases self,
    {
        match self {
            Toml::Text(s) => TomlView::Text(s@),
            Toml::Integer(n) => TomlView::Integer(n),
            Toml::Float(n) => TomlView::Float(n@),
            Toml::Boolean(b) => TomlView::Boolean(b),
            Toml::Datetime(t) => TomlView::Datetime(t@),
            Toml::Array(items) => TomlView::Array(
                Seq::new(
                    items@.len(),
                    |i: int|
                        if 0 <= i < items@.len() {
                            items@[i].deep()
                        } else {
                            TomlView::Boolean(false)
                        },
                ),
            ),
            Toml::Table(fields) => TomlView::Table(
                Seq::new(
                    fields@.len(),
                    |i: int|
                        if 0 <= i < fields@.len() {
                            (fields@[i].0@, fields@[i].1.deep())
                        } else {
                            (seq![], TomlView::Boolean(false))
                        },
                ),
            ),
        }
    }
}

/// What some values hold.
pub open spec fn toml_items(items: Seq<Toml>) -> Seq<TomlView> {
    items.map_values(|item: Toml| item.deep())
}

/// What some entries hold.
pub open spec fn toml_fields(fields: Seq<(String, Toml)>) -> Seq<(Seq<char>, TomlView)> {
    fields.map_values(|field: (String, Toml)| (field.0@, field.1.deep()))
}

/// An array holds what its items hold, a table what its entries hold.
pub broadcast proof fn toml_parts(value: Toml)
    ensures
        #![trigger value.deep()]
        value matches Toml::Array(items) ==> value.deep() == TomlView::Array(toml_items(items@)),
        value matches Toml::Table(fields) ==> value.deep() == TomlView::Table(
            toml_fields(fields@),
        ),
{
    match value {
        Toml::Array(items) => {
            assert(value.deep()->Array_0 =~= toml_items(items@));
        },
        Toml::Table(fields) => {
            assert(value.deep()->Table_0 =~= toml_fields(fields@));
        },
        _ => {},
    }
}

/// The value of the first entry with some key.
pub open spec fn entry_in(fields: Seq<(Seq<char>, TomlView)>, key: Seq<char>) -> Option<TomlView>
    decreases fields.len(),
{
    if fields.len() == 0 {
        None
    } else if fields[0].0 == key {
        Some(fields[0].1)
    } else {
        entry_in(fields.drop_first(), key)
    }
}

impl TomlView {
    /// The value of an entry of a table.
    pub open spec fn get(self, key: Seq<char>) -> Option<TomlView> {
        match self {
            TomlView::Table(fields) => entry_in(fields, key),
            _ => None,
        }
    }
}

impl Toml {
    /// The value of an entry of a table.
    pub fn get(&self, key: &str) -> (r: Option<&Toml>)
        ensures
            r is Some <==> self.deep().get(key@) is Some,
            r is Some ==> self.deep().get(key@) == Some(r->0.deep()),
    {
        broadcast use toml_parts;

        match self {
            Toml::Table(fields) => {
                let ghost all = toml_fields(fields@);
                let mut i: usize = 0;
                assert(all.skip(0) =~= all);
                while i < fields.len()
                    invariant
                        i <= fields.len(),
                        all == toml_fields(fields@),
                        self.deep() == TomlView::Table(all),
                        entry_in(all, key@) == entry_in(all.skip(i as int), key@),
                    decreases fields.len() - i,
                {
                    proof {
                        assert(all[i as int] == (fields@[i as int].0@, fields@[i as int].1.deep()));
                        assert(all.skip(i as int).drop_first() =~= all.skip(i + 1));
                    }
                    if same(fields[i].0.as_str(), key) {
                        return Some(&fields[i].1);
                    }
                    i += 1;
                }
                None
            },
            _ => None,
        }
    }
}

/// A document in the form that `toml` parses into and writes from.
#[verifier::external_type_specification]
#[verifier::external_body]
pub struct ExTomlValue(toml::Value);

/// What a parsed document holds.
pub uninterp spec fn parsed_toml(value: toml::Value) -> TomlView;

/// The document that a text is, or the text of the error that it is none.
pub uninterp spec fn toml_in(text: Seq<char>) -> Result<TomlView, Seq<char>>;

/// What a document holds that is made from its parts, if there is one with
/// such parts.
pub uninterp spec fn rebuilt_toml(document: TomlView) -> Option<TomlView>;

/// Whether a document is made again as it was from its parts: the tables have
/// their entries in the order of the keys, each key once, and numbers with a
/// fraction and times are in the form in which they come back, at any depth.
pub open spec fn comes_back(value: TomlView) -> bool
    decreases value,
{
    match value {
        TomlView::Float(_) | TomlView::Datetime(_) => rebuilt_toml(value) == Some(value),
        TomlView::Array(items) => forall|i: int|
            0 <= i < items.len() ==> comes_back(#[trigger] items[i]),
        TomlView::Table(fields) => {
            &&& forall|i: int, j: int|
                0 <= i < j < fields.len() ==> bytes_order(
                    encode_utf8((#[trigger] fields[i]).0),
                    encode_utf8((#[trigger] fields[j]).0),
                ) == Order::Less
            &&& forall|i: int| 0 <= i < fields.len() ==> comes_back((#[trigger] fields[i]).1)
        },
        _ => true,
    }
}

/// A document as a text, if it can be written.
pub uninterp spec fn toml_text(document: TomlView) -> Option<Seq<char>>;

/// `toml::de::from_str` reads a document, or says why the text is none. Of what
/// it reads, `toml::Table` has the entries in the order of the keys, and a
/// number with a fraction or a time that is written and read again is written
/// as before.
#[verifier::external_body]
fn parse_value(text: &str) -> (r: Result<toml::Value, String>)
    ensures
        match r {
            Ok(value) => toml_in(text@) == Ok::<TomlView, Seq<char>>(parsed_toml(value)),
            Err(error) => toml_in(text@) == Err::<TomlView, Seq<char>>(error@),
        },
        r is Ok ==> comes_back(parsed_toml(r->Ok_0)),
{
    toml::de::from_str(text).map_err(|e| e.to_string())
}

/// A `toml::Value`, variant by variant. The entries of a table are in the
/// order in which `toml::Table` hands them out, and numbers with a fraction
/// and times are as `toml` writes them.
#[verifier::external_body]
fn from_value(value: toml::Value) -> (r: Toml)
    ensures
        r.deep() == parsed_toml(value),
{
    match value {
        toml::Value::String(s) => Toml::Text(s),
        toml::Value::Integer(n) => Toml::Integer(n),
        float @ toml::Value::Float(_) => Toml::Float(float.to_string()),
        toml::Value::Boolean(b) => Toml::Boolean(b),
        toml::Value::Datetime(t) => Toml::Datetime(t.to_string()),
        toml::Value::Array(a) => Toml::Array(a.into_iter().map(from_value).collect()),
        toml::Value::Table(fields) => {
            Toml::Table(fields.into_iter().map(|(k, v)| (k, from_value(v))).collect())
        },
    }
}

/// A `toml::Value` made from its parts, variant by variant; nothing if what
/// should be a number with a fraction or a time is none. What it holds follows
/// from the parts alone. Where the entries of tables already are in the order
/// in which `toml::Table` puts them, and every number with a fraction and every
/// time comes back by itself as it was, it holds just these parts.
#[verifier::external_body]
fn to_value(value: Toml) -> (r: Option<toml::Value>)
    ensures
        match r {
            Some(v) => rebuilt_toml(value.deep()) == Some(parsed_toml(v)),
            None => rebuilt_toml(value.deep()) is None,
        },
        comes_back(value.deep()) ==> r is Some && parsed_toml(r->0) == value.deep(),
{
    Some(match value {
        Toml::Text(s) => toml::Value::String(s),
        Toml::Integer(n) => toml::Value::Integer(n),
        Toml::Float(n) => toml::Value::Float(n.parse().ok()?),
        Toml::Boolean(b) => toml::Value::Boolean(b),
        Toml::Datetime(t) => toml::Value::Datetime(t.parse().ok()?),
        Toml::Array(a) => toml::Value::Array(a.into_iter().map(to_value).collect::<Option<_>>()?),
        Toml::Table(fields) => toml::Value::Table(
            fields.into_iter().map(|(k, v)| Some((k, to_value(v)?))).collect::<Option<_>>()?,
        ),
    })
}

/// `toml::to_string` writes a document, if it can be written.
#[verifier::external_body]
fn write_value(value: &toml::Value) -> (r: Option<String>)
    ensures
        r is Some <==> toml_text(parsed_toml(*value)) is Some,
        r is Some ==> toml_text(parsed_toml(*value)) == Some(r->0@),
{
    toml::to_string(value).ok()
}

/// Reads a document.
pub fn parse(text: &str) -> (r: Result<Toml, String>)
    ensures
        match r {
            Ok(value) => toml_in(text@) == Ok::<TomlView, Seq<char>>(value.deep()),
            Err(error) => toml_in(text@) == Err::<TomlView, Seq<char>>(error@),
        },
        r is Ok ==> comes_back(r->Ok_0.deep()),
{
    match parse_value(text) {
        Ok(value) => Ok(from_value(value)),
        Err(error) => Err(error),
    }
}

/// A document as a text that is made from its parts.
pub open spec fn written(document: TomlView) -> Option<Seq<char>> {
    match rebuilt_toml(document) {
        Some(rebuilt) => toml_text(rebuilt),
        None => None,
    }
}

/// Writes a document.
pub fn document_text(document: Toml) -> (r: Option<String>)
    ensures
        match r {
            Some(text) => written(document.deep()) == Some(text@),
            None => written(document.deep()) is None,
        },
        comes_back(document.deep()) ==> written(document.deep()) == toml_text(document.deep()),
{
    match to_value(document) {
        Some(value) => write_value(&value),
        None => None,
    }
}

/// The value of an entry is that of the first with its key, and only a table has
/// entries.
pub proof fn first_entry_counts(
    fields: Seq<(Seq<char>, TomlView)>,
    first: (Seq<char>, TomlView),
    key: Seq<char>,
    other: TomlView,
)
    ensures
        first.0 == key ==> TomlView::Table(seq![first] + fields).get(key) == Some(first.1),
        first.0 != key ==> TomlView::Table(seq![first] + fields).get(key) == TomlView::Table(
            fields,
        ).get(key),
        TomlView::Table(Seq::empty()).get(key) is None,
        other !is Table ==> other.get(key) is None,
{
    assert((seq![first] + fields).drop_first() =~= fields);
}

} // verus!
