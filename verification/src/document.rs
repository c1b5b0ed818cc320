//! TOML documents, read through the `toml` crate: a text is parsed into a
//! table, and values are looked up in it by key.

use toml::Table;
use toml::Value;
use toml::de::Error;
use toml::map::Map as TomlMap;
use vstd::prelude::*;

verus! {

/// `toml::map::Map`, of which `toml::Table` is the instance with string
/// keys, as an opaque value.
#[verifier::external_type_specification]
#[verifier::external_body]
#[verifier::reject_recursive_types(K)]
#[verifier::reject_recursive_types(V)]
pub struct ExTomlMap<K, V>(TomlMap<K, V>);

/// `toml::Value`, one value of a document, as an opaque value.
#[verifier::external_type_specification]
#[verifier::external_body]
pub struct ExValue(Value);

/// `toml::de::Error`, the failure to parse a text, as an opaque value.
#[verifier::external_type_specification]
#[verifier::external_body]
pub struct ExError(Error);

/// The table that the TOML text `text` denotes, or `None` where the text is
/// not valid TOML.
pub uninterp spec fn toml_document(text: Seq<char>) -> Option<Table>;

/// The values of a table by their keys.
pub uninterp spec fn table_entries(table: Table) -> Map<Seq<char>, Value>;

/// The text of a value that is a string, `None` for any other value.
pub uninterp spec fn value_text(value: Value) -> Option<Seq<char>>;

/// The truth value of a value that is a boolean, `None` for any other.
pub uninterp spec fn value_flag(value: Value) -> Option<bool>;

/// The table of a value that is a table, `None` for any other value.
pub uninterp spec fn value_table(value: Value) -> Option<Table>;

/// `toml::from_str` into a table: the table that the text denotes, or an
/// error where the text is not valid TOML. Which of the two depends on the
/// text alone.
#[verifier::external_body]
pub(crate) fn parse_table(text: &str) -> (r: Result<Table, Error>)
    ensures
        match r {
            Ok(table) => toml_document(text@) == Some(table),
            Err(_) => toml_document(text@) is None,
        },
{
    toml::from_str::<Table>(text)
}

/// `Map::get`: the value kept under `key`, if there is one.
#[verifier::external_body]
pub(crate) fn table_get<'a>(table: &'a Table, key: &str) -> (r: Option<&'a Value>)
    ensures
        match r {
            Some(value) => table_entries(*table).contains_key(key@) && table_entries(
                *table,
            )[key@] == *value,
            None => !table_entries(*table).contains_key(key@),
        },
{
    table.get(key)
}

/// `Value::as_str`, copied into a string of its own.
#[verifier::external_body]
pub(crate) fn value_as_text(value: &Value) -> (r: Option<String>)
    ensures
        match r {
            Some(text) => value_text(*value) == Some(text@),
            None => value_text(*value) is None,
        },
{
    value.as_str().map(|text| text.to_string())
}

/// `Value::as_bool`.
#[verifier::external_body]
pub(crate) fn value_as_flag(value: &Value) -> (r: Option<bool>)
    ensures
        r == value_flag(*value),
{
    value.as_bool()
}

/// `Value::as_table`.
#[verifier::external_body]
pub(crate) fn value_as_table<'a>(value: &'a Value) -> (r: Option<&'a Table>)
    ensures
        match r {
            Some(table) => value_table(*value) == Some(*table),
            None => value_table(*value) is None,
        },
{
    value.as_table()
}

/// The text of a parse error, as its `Display` gives it.
#[verifier::external_body]
pub(crate) fn error_text(e: &Error) -> (text: String)
{
    e.to_string()
}

/// The text kept under `key` in `table`: `None` where the key is missing or
/// its value is no string.
pub open spec fn text_at(table: Table, key: Seq<char>) -> Option<Seq<char>> {
    if table_entries(table).contains_key(key) {
        value_text(table_entries(table)[key])
    } else {
        None
    }
}

/// The truth value kept under `key` in `table`: `None` where the key is
/// missing or its value is no boolean.
pub open spec fn flag_at(table: Table, key: Seq<char>) -> Option<bool> {
    if table_entries(table).contains_key(key) {
        value_flag(table_entries(table)[key])
    } else {
        None
    }
}

/// The table kept under `key` in `table`: `None` where the key is missing
/// or its value is no table.
pub open spec fn table_at(table: Table, key: Seq<char>) -> Option<Table> {
    if table_entries(table).contains_key(key) {
        value_table(table_entries(table)[key])
    } else {
        None
    }
}

/// Looks up the text kept under `key`.
pub fn get_text(table: &Table, key: &str) -> (r: Option<String>)
    ensures
        match r {
            Some(text) => text_at(*table, key@) == Some(text@),
            None => text_at(*table, key@) is None,
        },
{
    match table_get(table, key) {
        Some(value) => value_as_text(value),
        None => None,
    }
}

/// Looks up the truth value kept under `key`.
pub fn get_flag(table: &Table, key: &str) -> (r: Option<bool>)
    ensures
        r == flag_at(*table, key@),
{
    match table_get(table, key) {
        Some(value) => value_as_flag(value),
        None => None,
    }
}

/// Looks up the table kept under `key`.
pub fn get_table<'a>(table: &'a Table, key: &str) -> (r: Option<&'a Table>)
    ensures
        match r {
            Some(inner) => table_at(*table, key@) == Some(*inner),
            None => table_at(*table, key@) is None,
        },
{
    match table_get(table, key) {
        Some(value) => value_as_table(value),
        None => None,
    }
}

} // verus!
