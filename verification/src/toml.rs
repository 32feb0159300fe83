//! The parts of `toml_edit` that the manifest readers call, with what each
//! call is relied on to do. What a document, a table, an item and an array
//! hold is read as a `TomlModel`: plain values that the contracts speak of.

use vstd::prelude::*;

use toml_edit::{Array, DocumentMut, Item, Table, TomlError};

use crate::source::opt_string;

verus! {

#[verifier::external_type_specification]
#[verifier::external_body]
pub struct ExDocumentMut(DocumentMut);

#[verifier::external_type_specification]
#[verifier::external_body]
pub struct ExTable(Table);

#[verifier::external_type_specification]
#[verifier::external_body]
pub struct ExItem(Item);

#[verifier::external_type_specification]
#[verifier::external_body]
pub struct ExArray(Array);

#[verifier::external_type_specification]
#[verifier::external_body]
pub struct ExTomlError(TomlError);

/// A TOML item as the manifest readers see it.
pub enum TomlModel {
    /// A string value, by its text.
    Text(Seq<char>),
    /// A table written as `[name]` (or made implicitly by `[name.sub]`): its
    /// entries in order, each a key and the item under it.
    Table(Seq<(Seq<char>, TomlModel)>),
    /// An array value: each value's text when it is a string, else `None`.
    Array(Seq<Option<Seq<char>>>),
    /// Anything else: numbers, booleans, dates, inline tables, arrays of
    /// tables.
    Other,
}

/// The item under the first entry with key `key`, if any.
pub open spec fn lookup(entries: Seq<(Seq<char>, TomlModel)>, key: Seq<char>) -> Option<TomlModel>
    decreases entries.len(),
{
    if entries.len() == 0 {
        None
    } else if entries[0].0 == key {
        Some(entries[0].1)
    } else {
        lookup(entries.drop_first(), key)
    }
}

/// The keys of the entries, in order.
pub open spec fn entry_keys(entries: Seq<(Seq<char>, TomlModel)>) -> Seq<Seq<char>> {
    entries.map_values(|e: (Seq<char>, TomlModel)| e.0)
}

/// The text of an item that is a string.
pub open spec fn text_of(m: Option<TomlModel>) -> Option<Seq<char>> {
    match m {
        Some(TomlModel::Text(s)) => Some(s),
        _ => None,
    }
}

/// The entries of the `[table]` under `key`, if that entry is one.
pub open spec fn table_at(entries: Seq<(Seq<char>, TomlModel)>, key: Seq<char>) -> Option<
    Seq<(Seq<char>, TomlModel)>,
> {
    match lookup(entries, key) {
        Some(TomlModel::Table(es)) => Some(es),
        _ => None,
    }
}

/// The text of the string under `key`, if that entry is one.
pub open spec fn text_at(entries: Seq<(Seq<char>, TomlModel)>, key: Seq<char>) -> Option<Seq<char>> {
    text_of(lookup(entries, key))
}

/// What parsing `content` as a TOML document gives: `None` when `content` is
/// not well-formed TOML, else the entries of the document's root table.
pub uninterp spec fn parsed_toml(content: Seq<char>) -> Option<Seq<(Seq<char>, TomlModel)>>;

/// The entries of a document's root table that hold something, in order.
pub uninterp spec fn document_model(d: DocumentMut) -> Seq<(Seq<char>, TomlModel)>;

/// The entries of a table that hold something, in the order `Table::iter`
/// yields them.
pub uninterp spec fn table_model(t: Table) -> Seq<(Seq<char>, TomlModel)>;

/// What an item holds.
pub uninterp spec fn item_model(i: Item) -> TomlModel;

/// What the values of an array are: the text of each string value, `None`
/// for a value of another type.
pub uninterp spec fn array_model(a: Array) -> Seq<Option<Seq<char>>>;

/// `content.parse::<toml_edit::DocumentMut>()`. Claimed: it succeeds exactly
/// when the contents are well-formed TOML, and what the document holds is a
/// function of the contents.
#[verifier::external_body]
pub(crate) fn parse_document(content: &str) -> (r: Result<DocumentMut, TomlError>)
    ensures
        r.is_ok() == (parsed_toml(content@) is Some),
        r matches Ok(d) ==> parsed_toml(content@) == Some(document_model(d)),
{
    content.parse::<DocumentMut>()
}

/// `DocumentMut::as_table`: the root table, which holds the document's entries.
#[verifier::external_body]
pub(crate) fn root_table(doc: &DocumentMut) -> (r: &Table)
    ensures
        table_model(*r) == document_model(*doc),
{
    doc.as_table()
}

/// `Table::get`: the item under the key, `None` when no entry that holds
/// something has that key (`get` and `iter` both skip empty entries).
#[verifier::external_body]
pub(crate) fn table_get<'a>(t: &'a Table, key: &str) -> (r: Option<&'a Item>)
    ensures
        r is None <==> lookup(table_model(*t), key@) is None,
        r matches Some(i) ==> lookup(table_model(*t), key@) == Some(item_model(*i)),
{
    t.get(key)
}

/// The keys that `Table::iter` yields, in order, as strings.
#[verifier::external_body]
pub(crate) fn table_key_list(t: &Table) -> (r: Vec<String>)
    ensures
        r@.map_values(|k: String| k@) == entry_keys(table_model(*t)),
{
    t.iter().map(|(k, _)| k.to_string()).collect()
}

/// `Item::as_table`: the table of a `[table]` item, `None` for any other
/// item (an inline table included).
#[verifier::external_body]
pub(crate) fn item_as_table(item: &Item) -> (r: Option<&Table>)
    ensures
        r is Some <==> item_model(*item) is Table,
        r matches Some(t) ==> item_model(*item) == TomlModel::Table(table_model(*t)),
{
    item.as_table()
}

/// `Item::as_str`: the text of a string value, `None` for any other item.
#[verifier::external_body]
pub(crate) fn item_as_str(item: &Item) -> (r: Option<String>)
    ensures
        opt_string(r) == text_of(Some(item_model(*item))),
{
    item.as_str().map(String::from)
}

/// `Item::as_array`: the array of an array value, `None` for any other item
/// (an array of tables included).
#[verifier::external_body]
pub(crate) fn item_as_array(item: &Item) -> (r: Option<&Array>)
    ensures
        r is Some <==> item_model(*item) is Array,
        r matches Some(a) ==> item_model(*item) == TomlModel::Array(array_model(*a)),
{
    item.as_array()
}

/// The values that `Array::iter` yields, each taken by `Value::as_str`.
#[verifier::external_body]
pub(crate) fn array_string_list(a: &Array) -> (r: Vec<Option<String>>)
    ensures
        r@.map_values(|o: Option<String>| opt_string(o)) == array_model(*a),
{
    a.iter().map(|v| v.as_str().map(String::from)).collect()
}

} // verus!
