//! TOML values as the library reads and writes them: `toml` parses and
//! renders; each value is seen one level at a time through `TomlShape`.
use vstd::prelude::*;

use crate::error::KaizenError;
use crate::strmap::entries_map;

verus! {

/// The top level of a TOML value.
pub enum TomlShape {
    Text(String),
    Flag(bool),
    /// An array: its items.
    List(Vec<toml::Value>),
    /// A table: its entries.
    Table(Vec<(String, toml::Value)>),
    /// A number or a date.
    Other,
}

/// What `toml::from_str::<toml::Value>` gives for a text; none when the
/// text is not a TOML document.
pub uninterp spec fn toml_document(content: Seq<char>) -> Option<toml::Value>;

/// Calls `toml::from_str::<toml::Value>`; the result is named by
/// `toml_document`, nothing more is claimed about it.
#[verifier::external_body]
pub fn parse_toml(content: &str) -> (r: Option<toml::Value>)
    ensures
        r == toml_document(content@),
{
    toml::from_str::<toml::Value>(content).ok()
}

/// The variant of a `toml::Value`, with its contents.
pub uninterp spec fn toml_shape(v: toml::Value) -> TomlShape;

/// Tells the variants of `toml::Value` apart: a string, a boolean, an
/// array (its items), a table (its entries); any other variant is `Other`.
/// The result is named by `toml_shape`.
#[verifier::external_body]
pub fn shape_of(v: &toml::Value) -> (r: TomlShape)
    ensures
        r == toml_shape(*v),
{
    match v {
        toml::Value::String(s) => TomlShape::Text(s.clone()),
        toml::Value::Boolean(b) => TomlShape::Flag(*b),
        toml::Value::Array(a) => TomlShape::List(a.clone()),
        toml::Value::Table(t) => TomlShape::Table(t.iter().map(|(k, x)| (k.clone(), x.clone())).collect()),
        _ => TomlShape::Other,
    }
}

/// The string value holding `s` (`toml::Value::String`).
pub uninterp spec fn toml_string_of(s: Seq<char>) -> toml::Value;

/// Builds `toml::Value::String(s)`; the value is named by `toml_string_of`.
#[verifier::external_body]
pub fn text_value(s: String) -> (r: toml::Value)
    ensures
        r == toml_string_of(s@),
{
    toml::Value::String(s)
}

/// The boolean value `b` (`toml::Value::Boolean`).
pub uninterp spec fn toml_bool_of(b: bool) -> toml::Value;

/// Builds `toml::Value::Boolean(b)`; the value is named by `toml_bool_of`.
#[verifier::external_body]
pub fn flag_value(b: bool) -> (r: toml::Value)
    ensures
        r == toml_bool_of(b),
{
    toml::Value::Boolean(b)
}

/// The array of `items`, in order (`toml::Value::Array`).
pub uninterp spec fn toml_array_of(items: Seq<toml::Value>) -> toml::Value;

/// Builds `toml::Value::Array(items)`; the value is named by `toml_array_of`.
#[verifier::external_body]
pub fn list_value(items: Vec<toml::Value>) -> (r: toml::Value)
    ensures
        r == toml_array_of(items@),
{
    toml::Value::Array(items)
}

/// The keys of table entries.
pub open spec fn entry_keys(e: Seq<(String, toml::Value)>) -> Seq<Seq<char>> {
    e.map_values(|p: (String, toml::Value)| p.0@)
}

/// The table holding the map `m` from keys to values
/// (`toml::Value::Table`).
pub uninterp spec fn toml_table_of(m: Map<Seq<char>, toml::Value>) -> toml::Value;

/// Builds `toml::Value::Table` from entries with distinct keys. The table
/// is a `toml::map::Map` (a `BTreeMap` here), so it depends on which key
/// holds which value and not on the order of the entries: it is named by
/// `toml_table_of` of the entries' map.
#[verifier::external_body]
pub fn table_value(entries: Vec<(String, toml::Value)>) -> (r: toml::Value)
    requires
        entry_keys(entries@).no_duplicates(),
    ensures
        r == toml_table_of(entries_map(entries@)),
{
    toml::Value::Table(entries.into_iter().collect())
}

/// Whether `toml::to_string_pretty` succeeds on a value.
pub uninterp spec fn toml_renders(v: toml::Value) -> bool;

/// What `toml::to_string_pretty` writes for a value.
pub uninterp spec fn toml_text(v: toml::Value) -> Seq<char>;

/// Calls `toml::to_string_pretty`, a function of the value alone: it
/// succeeds exactly when `toml_renders`, with the text named by
/// `toml_text`; a failure is `TomlSerialize`.
#[verifier::external_body]
pub fn render_toml(v: &toml::Value) -> (r: Result<String, KaizenError>)
    ensures
        r is Ok <==> toml_renders(*v),
        r matches Ok(s) ==> s@ == toml_text(*v),
        r is Err ==> r matches Err(KaizenError::TomlSerialize(_)),
{
    toml::to_string_pretty(v).map_err(KaizenError::TomlSerialize)
}

// ── Reading ─────────────────────────────────────────────────────────────────

/// The value of the last entry named `key`.
pub open spec fn entry_named(e: Seq<(String, toml::Value)>, key: Seq<char>) -> Option<toml::Value>
    decreases e.len(),
{
    if e.len() == 0 {
        None
    } else if e.last().0@ == key {
        Some(e.last().1)
    } else {
        entry_named(e.drop_last(), key)
    }
}

/// The value named `key` in a table value; none when `v` is not a table or
/// has no such entry (`toml::Value::get`).
pub open spec fn get_value(v: toml::Value, key: Seq<char>) -> Option<toml::Value> {
    match toml_shape(v) {
        TomlShape::Table(e) => entry_named(e@, key),
        _ => None,
    }
}

/// Where the last entry named `key` is (`entry_named`).
pub fn find_entry(e: &Vec<(String, toml::Value)>, key: &str) -> (r: Option<usize>)
    ensures
        match entry_named(e@, key@) {
            Some(x) => r matches Some(i) && i < e@.len() && e@[i as int].1 == x,
            None => r is None,
        },
{
    let mut i: usize = e.len();
    assert(e@.take(e@.len() as int) =~= e@);
    while i > 0
        invariant
            0 <= i <= e@.len(),
            entry_named(e@, key@) == entry_named(e@.take(i as int), key@),
        decreases i,
    {
        let ghost t = e@.take(i as int);
        assert(t.drop_last() =~= e@.take(i - 1));
        if crate::text::str_eq(e[i - 1].0.as_str(), key) {
            return Some(i - 1);
        }
        i = i - 1;
    }
    None
}

/// `get_value`.
pub fn get_entry(v: &toml::Value, key: &str) -> (r: Option<toml::Value>)
    ensures
        r == get_value(*v, key@),
{
    match shape_of(v) {
        TomlShape::Table(e) => match find_entry(&e, key) {
            Some(i) => {
                let mut e = e;
                let (_, x) = e.remove(i);
                Some(x)
            },
            None => None,
        },
        _ => None,
    }
}

} // verus!
