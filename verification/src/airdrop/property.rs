//! Apple's property lists, which an outside crate reads and writes.

use crate::bytes::has_prefix;
use vstd::prelude::*;

verus! {

/// What a property list holds. A number, a date or a reference is not looked
/// into: each has a code that no other has.
pub ghost enum Tree {
    Text(Seq<char>),
    Data(Seq<u8>),
    Flag(bool),
    List(Seq<Tree>),
    Dict(Seq<(Seq<char>, Tree)>),
    Other(int),
}

/// `plist::Value`, one node of a property list.
#[verifier::external_type_specification]
#[verifier::external_body]
pub struct ExValue(plist::Value);

/// `plist::Dictionary`, which keeps its entries in the order of insertion.
#[verifier::external_type_specification]
#[verifier::external_body]
pub struct ExDictionary(plist::Dictionary);

/// What a value holds.
pub uninterp spec fn tree_of(value: plist::Value) -> Tree;

/// The entries of a dictionary, in their order.
pub uninterp spec fn entries_of(dict: plist::Dictionary) -> Seq<(Seq<char>, Tree)>;

/// The binary form of a property list.
pub uninterp spec fn binary_of(tree: Tree) -> Seq<u8>;

/// The property list in the bytes, in whatever form; `None` where there is none.
pub uninterp spec fn tree_in(bytes: Seq<u8>) -> Option<Tree>;

pub open spec fn trees_of(values: Seq<plist::Value>) -> Seq<Tree> {
    Seq::new(values.len(), |i: int| tree_of(values[i]))
}

/// Where a key stands.
pub open spec fn place_of(entries: Seq<(Seq<char>, Tree)>, key: Seq<char>) -> Option<int>
    decreases entries.len(),
{
    if entries.len() == 0 {
        None
    } else if entries.last().0 == key {
        Some(entries.len() - 1)
    } else {
        place_of(entries.drop_last(), key)
    }
}

/// The value of a key.
pub open spec fn lookup(entries: Seq<(Seq<char>, Tree)>, key: Seq<char>) -> Option<Tree> {
    match place_of(entries, key) {
        Some(at) => Some(entries[at].1),
        None => None,
    }
}

/// The entries after a key got a value: in the place of the key, or at the end.
pub open spec fn with_entry(entries: Seq<(Seq<char>, Tree)>, key: Seq<char>, value: Tree) -> Seq<
    (Seq<char>, Tree),
> {
    match place_of(entries, key) {
        Some(at) => entries.update(at, (key, value)),
        None => entries.push((key, value)),
    }
}

/// `bplist00`, the first bytes of the binary form.
pub open spec fn binary_mark() -> Seq<u8> {
    seq![0x62u8, 0x70, 0x6C, 0x69, 0x73, 0x74, 0x30, 0x30]
}

/// Makes a `plist::Value::String`.
#[verifier::external_body]
pub(crate) fn text_value(text: &str) -> (value: plist::Value)
    ensures
        tree_of(value) == Tree::Text(text@),
{
    plist::Value::String(text.to_string())
}

/// Makes a `plist::Value::Data`.
#[verifier::external_body]
pub(crate) fn data_value(data: &[u8]) -> (value: plist::Value)
    ensures
        tree_of(value) == Tree::Data(data@),
{
    plist::Value::Data(data.to_vec())
}

/// Makes a `plist::Value::Boolean`.
#[verifier::external_body]
pub(crate) fn flag_value(flag: bool) -> (value: plist::Value)
    ensures
        tree_of(value) == Tree::Flag(flag),
{
    plist::Value::Boolean(flag)
}

/// Makes a `plist::Value::Array`.
#[verifier::external_body]
pub(crate) fn list_value(items: Vec<plist::Value>) -> (value: plist::Value)
    ensures
        tree_of(value) == Tree::List(trees_of(items@)),
{
    plist::Value::Array(items)
}

/// Makes a `plist::Value::Dictionary`.
#[verifier::external_body]
pub(crate) fn dict_value(dict: plist::Dictionary) -> (value: plist::Value)
    ensures
        tree_of(value) == Tree::Dict(entries_of(dict)),
{
    plist::Value::Dictionary(dict)
}

/// Calls `plist::Dictionary::new`.
#[verifier::external_body]
pub(crate) fn dict_new() -> (dict: plist::Dictionary)
    ensures
        entries_of(dict) == Seq::<(Seq<char>, Tree)>::empty(),
{
    plist::Dictionary::new()
}

/// Calls `plist::Dictionary::insert`.
#[verifier::external_body]
pub(crate) fn dict_insert(dict: &mut plist::Dictionary, key: &str, value: plist::Value)
    ensures
        entries_of(*final(dict)) == with_entry(entries_of(*old(dict)), key@, tree_of(value)),
{
    dict.insert(key.to_string(), value);
}

/// Calls `plist::Dictionary::get`.
#[verifier::external_body]
pub(crate) fn dict_get<'a>(dict: &'a plist::Dictionary, key: &str) -> (value: Option<
    &'a plist::Value,
>)
    ensures
        match lookup(entries_of(*dict), key@) {
            Some(tree) => value is Some && tree_of(*value->0) == tree,
            None => value is None,
        },
{
    dict.get(key)
}

/// Calls `plist::Value::as_string`.
#[verifier::external_body]
pub(crate) fn as_text(value: &plist::Value) -> (text: Option<&str>)
    ensures
        match tree_of(*value) {
            Tree::Text(expected) => text is Some && text->0@ == expected,
            _ => text is None,
        },
{
    value.as_string()
}

/// Calls `plist::Value::as_array`.
#[verifier::external_body]
pub(crate) fn as_list(value: &plist::Value) -> (items: Option<&Vec<plist::Value>>)
    ensures
        match tree_of(*value) {
            Tree::List(expected) => items is Some && trees_of(items->0@) == expected,
            _ => items is None,
        },
{
    value.as_array()
}

/// Calls `plist::Value::as_dictionary`.
#[verifier::external_body]
pub(crate) fn as_dict(value: &plist::Value) -> (dict: Option<&plist::Dictionary>)
    ensures
        match tree_of(*value) {
            Tree::Dict(expected) => dict is Some && entries_of(*dict->0) == expected,
            _ => dict is None,
        },
{
    value.as_dictionary()
}

/// The tree holds texts, data, flags, lists and dictionaries alone.
pub open spec fn is_plain(tree: Tree) -> bool
    decreases tree,
{
    match tree {
        Tree::List(items) => forall|i: int| 0 <= i < items.len() ==> is_plain(#[trigger] items[i]),
        Tree::Dict(entries) => forall|i: int|
            0 <= i < entries.len() ==> is_plain((#[trigger] entries[i]).1),
        Tree::Other(_) => false,
        _ => true,
    }
}

/// Calls `plist::Value::to_writer_binary` on a growing buffer: a value is always
/// well formed and a buffer takes every byte, so nothing is refused. What is
/// written of a plain tree is read back by [`from_bytes`]; of numbers, dates and
/// references nothing is claimed.
#[verifier::external_body]
pub(crate) fn to_binary(value: &plist::Value) -> (bytes: Result<Vec<u8>, String>)
    ensures
        bytes is Ok,
        bytes matches Ok(out) ==> {
            &&& out@ == binary_of(tree_of(*value))
            &&& has_prefix(out@, binary_mark())
            &&& is_plain(tree_of(*value)) ==> tree_in(out@) == Some(tree_of(*value))
        },
{
    let mut out = Vec::new();
    value.to_writer_binary(&mut out).map_err(|error| error.to_string())?;
    Ok(out)
}

/// Calls `plist::Value::from_reader` on the bytes. An error is told in words of
/// that crate.
#[verifier::external_body]
pub(crate) fn from_bytes(bytes: &[u8]) -> (value: Result<plist::Value, String>)
    ensures
        match tree_in(bytes@) {
            Some(tree) => value is Ok && tree_of(value->Ok_0) == tree,
            None => value is Err,
        },
{
    plist::Value::from_reader(std::io::Cursor::new(bytes)).map_err(|error| error.to_string())
}

/// A key that is not there goes to the end.
pub proof fn lemma_new_key(entries: Seq<(Seq<char>, Tree)>, key: Seq<char>, value: Tree)
    requires
        forall|i: int| 0 <= i < entries.len() ==> (#[trigger] entries[i]).0 != key,
    ensures
        place_of(entries, key) is None,
        with_entry(entries, key, value) == entries.push((key, value)),
    decreases entries.len(),
{
    if entries.len() > 0 {
        lemma_new_key(entries.drop_last(), key, value);
    }
}

/// A key that stands in one place only is found there.
pub proof fn lemma_found_key(entries: Seq<(Seq<char>, Tree)>, at: int)
    requires
        0 <= at < entries.len(),
        forall|i: int| at < i < entries.len() ==> (#[trigger] entries[i]).0 != entries[at].0,
    ensures
        place_of(entries, entries[at].0) == Some(at),
        lookup(entries, entries[at].0) == Some(entries[at].1),
    decreases entries.len(),
{
    if at < entries.len() - 1 {
        assert(entries.last().0 != entries[at].0);
        lemma_found_key(entries.drop_last(), at);
    }
}

} // verus!
