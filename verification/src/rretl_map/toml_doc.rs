//! Reading a TOML document, through the toml crate.

use vstd::prelude::*;
use toml::Value as TomlValue;

verus! {

/// What a TOML value holds, as far as it is read here.
pub enum TomlTree {
    Str(Seq<char>),
    Array(Seq<TomlTree>),
    Table(Map<Seq<char>, TomlTree>),
    Other,
}

/// A value of the toml crate.
#[verifier::external_type_specification]
#[verifier::external_body]
pub struct ExTomlValue(TomlValue);

/// What a value of the toml crate holds.
pub uninterp spec fn toml_tree(v: TomlValue) -> TomlTree;

/// What parsing a text as a TOML document gives: its contents, or the text of
/// the error.
pub uninterp spec fn toml_parsed(text: Seq<char>) -> std::result::Result<TomlTree, Seq<char>>;

/// Calls `toml::from_str` for a `toml::Value`. Its result, and the text of its
/// error, are a function of the document.
#[verifier::external_body]
pub(crate) fn parse_toml(text: &str) -> (r: std::result::Result<TomlValue, String>)
    ensures
        match r {
            Ok(v) => toml_parsed(text@) == Ok::<TomlTree, Seq<char>>(toml_tree(v)),
            Err(m) => toml_parsed(text@) == Err::<TomlTree, Seq<char>>(m@),
        },
{
    toml::from_str::<TomlValue>(text).map_err(|e| format!("{e}"))
}

/// Calls `toml::Value::get` with a string: the entry of a table, `None` for a
/// missing key and for a value that is no table.
#[verifier::external_body]
pub(crate) fn toml_get<'a>(v: &'a TomlValue, key: &str) -> (r: Option<&'a TomlValue>)
    ensures
        match toml_tree(*v) {
            TomlTree::Table(m) => match r {
                Some(e) => m.dom().contains(key@) && toml_tree(*e) == m[key@],
                None => !m.dom().contains(key@),
            },
            _ => r is None,
        },
{
    v.get(key)
}

/// Calls `toml::Value::as_str`: the text of a string value.
#[verifier::external_body]
pub(crate) fn toml_as_str(v: &TomlValue) -> (r: Option<&str>)
    ensures
        match toml_tree(*v) {
            TomlTree::Str(t) => r is Some && r->Some_0@ == t,
            _ => r is None,
        },
{
    v.as_str()
}

/// Calls `toml::Value::as_array`: the elements of an array value, in order.
#[verifier::external_body]
pub(crate) fn toml_as_array(v: &TomlValue) -> (r: Option<&Vec<TomlValue>>)
    ensures
        match toml_tree(*v) {
            TomlTree::Array(ts) => r is Some && r->Some_0@.len() == ts.len() && forall|i: int|
                0 <= i < ts.len() ==> toml_tree(#[trigger] r->Some_0@[i]) == ts[i],
            _ => r is None,
        },
{
    v.as_array()
}

} // verus!
