//! The configuration document of the command line, held as a
//! `DocumentMut` so that what this library does not touch keeps its
//! place, its comments and its layout.
//!
//! Verus sees nothing inside a document. What the library reads of one is
//! named by `doc_entries`; the functions at the end of this file make the calls
//! into `toml_edit`, and their contracts over that name are believed, not
//! proved.

use vstd::prelude::*;
use toml_edit::{ArrayOfTables, DocumentMut, Item, Table, TomlError};
use crate::text::views;

verus! {

/// The fields of a table that hold a string, by name.
pub type Fields = Map<Seq<char>, Seq<char>>;

/// What one key of a document holds, as far as this library reads it.
pub enum Entry {
    /// A string.
    Text(Seq<char>),
    /// A table, or an inline table.
    Record(Fields),
    /// An array of tables.
    Rows(Seq<Fields>),
    /// Anything else.
    Other,
}

/// What a document holds under each of its keys.
pub type Entries = Map<Seq<char>, Entry>;

/// A document without keys.
pub open spec fn no_entries() -> Entries {
    Map::empty()
}

/// The characters of a string that may be absent.
pub open spec fn text_view(text: Option<String>) -> Option<Seq<char>> {
    match text {
        Some(s) => Some(s@),
        None => None,
    }
}

/// The string under a key, where the key holds a string.
pub open spec fn text_at(entries: Entries, key: Seq<char>) -> Option<Seq<char>> {
    if entries.contains_key(key) {
        match entries[key] {
            Entry::Text(text) => Some(text),
            _ => None,
        }
    } else {
        None
    }
}

/// The rows under a key, where the key holds an array of tables.
pub open spec fn rows_at(entries: Entries, key: Seq<char>) -> Option<Seq<Fields>> {
    if entries.contains_key(key) {
        match entries[key] {
            Entry::Rows(rows) => Some(rows),
            _ => None,
        }
    } else {
        None
    }
}

/// The fields under a key, where the key holds a table.
pub open spec fn record_at(entries: Entries, key: Seq<char>) -> Option<Fields> {
    if entries.contains_key(key) {
        match entries[key] {
            Entry::Record(fields) => Some(fields),
            _ => None,
        }
    } else {
        None
    }
}

/// The string in a field of a table, where the field holds a string.
pub open spec fn field_at(fields: Fields, field: Seq<char>) -> Option<Seq<char>> {
    if fields.contains_key(field) {
        Some(fields[field])
    } else {
        None
    }
}

/// The string in a field of the table under a key.
pub open spec fn record_text_at(entries: Entries, key: Seq<char>, field: Seq<char>) -> Option<
    Seq<char>,
> {
    match record_at(entries, key) {
        Some(fields) => field_at(fields, field),
        None => None,
    }
}

/// The string in a field of one row of the array of tables under a key.
pub open spec fn row_text_at(entries: Entries, key: Seq<char>, index: int, field: Seq<char>)
    -> Option<Seq<char>> {
    match rows_at(entries, key) {
        Some(rows) => if 0 <= index < rows.len() {
            field_at(rows[index], field)
        } else {
            None
        },
        None => None,
    }
}

/// A row holds some field. Such a row is a table: what is no table stands as
/// a row without fields.
pub open spec fn holds_a_field(row: Fields) -> bool {
    exists|known: Seq<char>| row.contains_key(known)
}

/// The number of rows of the array of tables under a key.
pub open spec fn row_count_at(entries: Entries, key: Seq<char>) -> Option<nat> {
    match rows_at(entries, key) {
        Some(rows) => Some(rows.len()),
        None => None,
    }
}

/// `toml_edit::DocumentMut`, a TOML document that can be edited in place.
#[verifier::external_type_specification]
#[verifier::external_body]
pub struct ExDocumentMut(toml_edit::DocumentMut);

/// `toml_edit::TomlError`, what the parser says of a text that is no TOML.
#[verifier::external_type_specification]
#[verifier::external_body]
pub struct ExTomlError(toml_edit::TomlError);

/// The entries of a document: one for each key of its root table whose item
/// is not `Item::None`. A string value is a `Text`. A table and an inline table
/// are a `Record` of those of their fields that are string values. An array of
/// tables is `Rows`: one row for each of its values, in the array's order. A
/// value that is a table stands as those of its fields that are string values;
/// a value that is no table, which only an assignment by index can put there,
/// stands as a row without fields. Every other item is `Other`.
pub uninterp spec fn doc_entries(doc: toml_edit::DocumentMut) -> Entries;

/// The entries of the document that `str::parse::<DocumentMut>` reads from a
/// text, or `None` where it reads none because the text is no TOML.
pub uninterp spec fn parsed_entries(text: Seq<char>) -> Option<Entries>;

/// The TOML text that `DocumentMut::to_string` writes for a document.
pub uninterp spec fn printed(doc: toml_edit::DocumentMut) -> Seq<char>;

/// `DocumentMut::new`: a document without keys.
pub assume_specification[ toml_edit::DocumentMut::new ]() -> (doc: toml_edit::DocumentMut)
    ensures
        doc_entries(doc) == no_entries(),
;

/// `str::parse::<DocumentMut>`, that is `DocumentMut::from_str`: the document
/// that the text stands for, or the parser's error.
#[verifier::external_body]
pub(crate) fn doc_parse(text: &str) -> (parsed: Result<DocumentMut, TomlError>)
    ensures
        match parsed {
            Ok(doc) => parsed_entries(text@) == Some(doc_entries(doc)),
            Err(_) => parsed_entries(text@) is None,
        },
{
    text.parse::<DocumentMut>()
}

/// `TomlError::to_string`: the parser's words for what is wrong with a text.
#[verifier::external_body]
pub(crate) fn toml_error_text(error: &TomlError) -> (text: String) {
    error.to_string()
}

/// `DocumentMut::to_string`: the document as TOML text.
#[verifier::external_body]
pub(crate) fn doc_print(doc: &DocumentMut) -> (text: String)
    ensures
        text@ == printed(*doc),
{
    doc.to_string()
}

/// `Table::contains_key` on the root table: whether the key holds an item.
#[verifier::external_body]
pub(crate) fn doc_has(doc: &DocumentMut, key: &str) -> (found: bool)
    ensures
        found == doc_entries(*doc).contains_key(key@),
{
    doc.contains_key(key)
}

/// `Table::get` on the root table, then `Item::as_str`: the string under the
/// key, where the key holds a string.
#[verifier::external_body]
pub(crate) fn doc_text(doc: &DocumentMut, key: &str) -> (text: Option<String>)
    ensures
        text_view(text) == text_at(doc_entries(*doc), key@),
{
    doc.get(key).and_then(|item| item.as_str()).map(|s| s.to_string())
}

/// `doc[key] = Item::Value(..)`: the key holds the string, and every other key
/// what it held.
#[verifier::external_body]
pub(crate) fn doc_set_text(doc: &mut DocumentMut, key: &str, value: &str)
    ensures
        doc_entries(*final(doc)) == doc_entries(*old(doc)).insert(key@, Entry::Text(value@)),
{
    doc[key] = Item::Value(value.into());
}

/// `doc[key] = Item::ArrayOfTables(..)`: the key holds an array of tables
/// without rows, and every other key what it held.
#[verifier::external_body]
pub(crate) fn doc_set_rows(doc: &mut DocumentMut, key: &str)
    ensures
        doc_entries(*final(doc)) == doc_entries(*old(doc)).insert(key@, Entry::Rows(Seq::empty())),
{
    doc[key] = Item::ArrayOfTables(ArrayOfTables::new());
}

/// `Table::get` on the root table, `Item::as_array_of_tables`, then
/// `ArrayOfTables::len`: how many rows the key holds, where it holds an array
/// of tables.
#[verifier::external_body]
pub(crate) fn doc_row_count(doc: &DocumentMut, key: &str) -> (count: Option<usize>)
    ensures
        match count {
            Some(n) => row_count_at(doc_entries(*doc), key@) == Some(n as nat),
            None => row_count_at(doc_entries(*doc), key@) is None,
        },
{
    doc.get(key).and_then(|item| item.as_array_of_tables()).map(|rows| rows.len())
}

/// `ArrayOfTables::get`, `Table::get`, then `Item::as_str`: the string in a
/// field of the row at `index`, where there is such a row and its field holds a
/// string.
#[verifier::external_body]
pub(crate) fn doc_row_text(
    doc: &DocumentMut,
    key: &str,
    index: usize,
    field: &str,
) -> (text: Option<String>)
    ensures
        text_view(text) == row_text_at(doc_entries(*doc), key@, index as int, field@),
{
    let row = doc.get(key)?.as_array_of_tables()?.get(index)?;
    row.get(field).and_then(|item| item.as_str()).map(|s| s.to_string())
}

/// `ArrayOfTables::get_mut`, then `table[field] = Item::Value(..)`: the field
/// of the row at `index` holds the string; the row's other fields, the other
/// rows and every other key hold what they held. `get_mut` reaches tables
/// only, so the row has to be known as one: it holds a field already.
#[verifier::external_body]
pub(crate) fn doc_row_set_text(
    doc: &mut DocumentMut,
    key: &str,
    index: usize,
    field: &str,
    value: &str,
)
    requires
        rows_at(doc_entries(*old(doc)), key@) is Some,
        index < rows_at(doc_entries(*old(doc)), key@).unwrap().len(),
        holds_a_field(rows_at(doc_entries(*old(doc)), key@).unwrap()[index as int]),
    ensures
        doc_entries(*final(doc)) == doc_entries(*old(doc)).insert(
            key@,
            Entry::Rows(
                rows_at(doc_entries(*old(doc)), key@).unwrap().update(
                    index as int,
                    rows_at(doc_entries(*old(doc)), key@).unwrap()[index as int].insert(
                        field@,
                        value@,
                    ),
                ),
            ),
        ),
{
    let rows = doc.get_mut(key).and_then(|item| item.as_array_of_tables_mut());
    if let Some(row) = rows.and_then(|rows| rows.get_mut(index)) {
        row[field] = Item::Value(value.into());
    }
}

/// `Table::new`, `table[field] = Item::Value(..)`, then
/// `ArrayOfTables::push`: one more row, which holds the string in the field
/// and nothing else, after the rows that the key held.
#[verifier::external_body]
pub(crate) fn doc_push_row(doc: &mut DocumentMut, key: &str, field: &str, value: &str)
    requires
        rows_at(doc_entries(*old(doc)), key@) is Some,
    ensures
        doc_entries(*final(doc)) == doc_entries(*old(doc)).insert(
            key@,
            Entry::Rows(
                rows_at(doc_entries(*old(doc)), key@).unwrap().push(
                    Map::empty().insert(field@, value@),
                ),
            ),
        ),
{
    let mut row = Table::new();
    row[field] = Item::Value(value.into());
    if let Some(rows) = doc.get_mut(key).and_then(|item| item.as_array_of_tables_mut()) {
        rows.push(row);
    }
}

/// `Table::iter` on the root table: the keys that hold an item, each once.
#[verifier::external_body]
pub(crate) fn doc_keys(doc: &DocumentMut) -> (keys: Vec<String>)
    ensures
        views(keys@).no_duplicates(),
        views(keys@).to_set() == doc_entries(*doc).dom(),
{
    doc.iter().map(|(key, _)| key.to_string()).collect()
}

/// `Table::get` on the root table, `Item::as_table_like`, `TableLike::get`,
/// then `Item::as_str`: the string in a field of the table under the key.
#[verifier::external_body]
pub(crate) fn doc_record_text(doc: &DocumentMut, key: &str, field: &str) -> (text: Option<String>)
    ensures
        text_view(text) == record_text_at(doc_entries(*doc), key@, field@),
{
    let record = doc.get(key)?.as_table_like()?;
    record.get(field).and_then(|item| item.as_str()).map(|s| s.to_string())
}

/// `doc[key] = Item::Table(Table::new())`: the key holds a table without
/// fields, and every other key what it held.
#[verifier::external_body]
pub(crate) fn doc_set_record(doc: &mut DocumentMut, key: &str)
    ensures
        doc_entries(*final(doc)) == doc_entries(*old(doc)).insert(
            key@,
            Entry::Record(Map::empty()),
        ),
{
    doc[key] = Item::Table(Table::new());
}

/// `doc[key][field] = Item::Value(..)`: the field of the table under the key
/// holds the string; its other fields and every other key hold what they held.
#[verifier::external_body]
pub(crate) fn doc_record_set_text(
    doc: &mut DocumentMut,
    key: &str,
    field: &str,
    value: &str,
)
    requires
        record_at(doc_entries(*old(doc)), key@) is Some,
    ensures
        doc_entries(*final(doc)) == doc_entries(*old(doc)).insert(
            key@,
            Entry::Record(record_at(doc_entries(*old(doc)), key@).unwrap().insert(field@, value@)),
        ),
{
    doc[key][field] = Item::Value(value.into());
}

} // verus!
