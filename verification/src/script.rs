//! What a script prints: a title and a tree of menu items, and the checks applied to it.

use vstd::prelude::*;
use crate::hash::{xxh3_64, xxh3_64_spec};
use vstd::utf8::encode_utf8;

verus! {

/// Most bytes of output read from a script.
pub const MAX_SCRIPT_OUTPUT: usize = 262144;

/// Kind of a menu item printed by a script.
#[derive(Clone, Copy, Debug, PartialEq, Eq)]
pub enum ScriptItemType {
    Link,
    Submenu,
    Divider,
    Text,
}

/// One menu item printed by a script.
#[derive(Debug)]
pub struct ScriptItem {
    pub item_type: ScriptItemType,
    pub title: Option<String>,
    pub path: Option<String>,
    pub items: Option<Vec<ScriptItem>>,
}

/// A script's parsed output, with the hash of the raw bytes it came from.
#[derive(Debug)]
pub struct ScriptResult {
    pub title: String,
    pub items: Vec<ScriptItem>,
    pub raw_output_hash: u64,
}

/// Why a script's output was refused.
#[derive(Clone, Copy, Debug, PartialEq, Eq)]
pub enum ScriptError {
    /// More than [`MAX_SCRIPT_OUTPUT`] bytes.
    OutputTooLarge,
    /// Not a JSON object of the expected shape.
    InvalidJson,
    /// An item whose fields do not fit its kind.
    InvalidItem,
}

/// A [`ScriptItem`] as a value of specifications: its texts as characters.
pub struct ItemModel {
    pub item_type: ScriptItemType,
    pub title: Option<Seq<char>>,
    pub path: Option<Seq<char>>,
    pub items: Option<Seq<ItemModel>>,
}

/// An optional text as characters.
pub open spec fn opt_text(s: Option<String>) -> Option<Seq<char>> {
    match s {
        Some(t) => Some(t@),
        None => None,
    }
}

/// The model of an item and of all items below it.
pub open spec fn item_model(item: ScriptItem) -> ItemModel
    decreases item,
{
    ItemModel {
        item_type: item.item_type,
        title: opt_text(item.title),
        path: opt_text(item.path),
        items: match item.items {
            Some(children) => Some(items_model(children@)),
            None => None,
        },
    }
}

/// The models of a sequence of items.
pub open spec fn items_model(items: Seq<ScriptItem>) -> Seq<ItemModel>
    decreases items,
{
    if items.len() == 0 {
        Seq::empty()
    } else {
        items_model(items.drop_last()).push(item_model(items.last()))
    }
}

/// The text, where present, has at most `usize::MAX` bytes in UTF-8.
pub open spec fn text_fits(s: Option<String>) -> bool {
    s matches Some(t) ==> encode_utf8(t@).len() <= usize::MAX
}

/// Every text of the item and of the items below it fits a `usize` length.
pub open spec fn item_texts_fit(item: ScriptItem) -> bool
    decreases item,
{
    &&& text_fits(item.title)
    &&& text_fits(item.path)
    &&& item.items matches Some(children) ==> items_texts_fit(children@)
}

/// Every text of every item fits a `usize` length.
pub open spec fn items_texts_fit(items: Seq<ScriptItem>) -> bool
    decreases items,
{
    if items.len() == 0 {
        true
    } else {
        items_texts_fit(items.drop_last()) && item_texts_fit(items.last())
    }
}

/// Each kind of item has exactly its own fields: a link a title and a path, a submenu a
/// title and children (themselves valid), a divider nothing, a text a title.
pub open spec fn valid_item(item: ScriptItem) -> bool
    decreases item,
{
    match item.item_type {
        ScriptItemType::Link => item.title is Some && item.path is Some && item.items is None,
        ScriptItemType::Submenu => {
            &&& item.title is Some
            &&& item.path is None
            &&& item.items is Some
            &&& valid_items(item.items->0@)
        },
        ScriptItemType::Divider => item.title is None && item.path is None && item.items is None,
        ScriptItemType::Text => item.title is Some && item.path is None && item.items is None,
    }
}

/// Every item of `items` is valid.
pub open spec fn valid_items(items: Seq<ScriptItem>) -> bool
    decreases items,
{
    if items.len() == 0 {
        true
    } else {
        valid_items(items.drop_last()) && valid_item(items.last())
    }
}

proof fn lemma_valid_items_take(items: Seq<ScriptItem>, i: int)
    requires
        0 <= i < items.len(),
    ensures
        valid_items(items.take(i + 1)) == (valid_items(items.take(i)) && valid_item(items[i])),
{
    assert(items.take(i + 1).drop_last() =~= items.take(i));
}

/// The model of a sequence of items is the sequence of the items' models.
pub(crate) proof fn lemma_items_model_index(items: Seq<ScriptItem>)
    ensures
        items_model(items).len() == items.len(),
        forall|i: int| 0 <= i < items.len() ==> #[trigger] items_model(items)[i] == item_model(items[i]),
    decreases items.len(),
{
    if items.len() > 0 {
        lemma_items_model_index(items.drop_last());
    }
}

/// `valid_items` holds exactly when each item is valid.
pub(crate) proof fn lemma_valid_items_index(items: Seq<ScriptItem>)
    ensures
        valid_items(items) <==> forall|i: int| 0 <= i < items.len() ==> #[trigger] valid_item(items[i]),
    decreases items.len(),
{
    if items.len() > 0 {
        lemma_valid_items_index(items.drop_last());
        assert forall|i: int| 0 <= i < items.len() - 1 implies items.drop_last()[i] == items[i] by {}
        if forall|i: int| 0 <= i < items.len() ==> #[trigger] valid_item(items[i]) {
            assert(valid_item(items[items.len() - 1]));
        }
    }
}

/// `items_texts_fit` holds exactly when it holds of each item.
pub(crate) proof fn lemma_texts_fit_index(items: Seq<ScriptItem>)
    ensures
        items_texts_fit(items) <==> forall|i: int| 0 <= i < items.len() ==> #[trigger] item_texts_fit(items[i]),
    decreases items.len(),
{
    if items.len() > 0 {
        lemma_texts_fit_index(items.drop_last());
        assert forall|i: int| 0 <= i < items.len() - 1 implies items.drop_last()[i] == items[i] by {}
        if forall|i: int| 0 <= i < items.len() ==> #[trigger] item_texts_fit(items[i]) {
            assert(item_texts_fit(items[items.len() - 1]));
        }
    }
}

/// A submenu with a title, no path and children is valid exactly when every child is
/// valid, whatever the children's kinds: submenus nest to any depth.
pub proof fn lemma_submenu_valid_iff_children_valid(item: ScriptItem)
    requires
        item.item_type == ScriptItemType::Submenu,
        item.title is Some,
        item.path is None,
        item.items is Some,
    ensures
        valid_item(item) <==> forall|i: int|
            0 <= i < item.items->0@.len() ==> #[trigger] valid_item(item.items->0@[i]),
{
    lemma_valid_items_index(item.items->0@);
}

/// Every other shape is judged by its kind alone: a link needs exactly a title and a
/// path, a text exactly a title, a divider nothing, and a submenu without a title,
/// with a path or without children is refused.
pub proof fn lemma_valid_leaf_shapes(item: ScriptItem)
    ensures
        item.item_type == ScriptItemType::Link ==> (valid_item(item) <==> (item.title is Some
            && item.path is Some && item.items is None)),
        item.item_type == ScriptItemType::Text ==> (valid_item(item) <==> (item.title is Some
            && item.path is None && item.items is None)),
        item.item_type == ScriptItemType::Divider ==> (valid_item(item) <==> (item.title is None
            && item.path is None && item.items is None)),
        item.item_type == ScriptItemType::Submenu && (item.title is None || item.path is Some
            || item.items is None) ==> !valid_item(item),
{
}

/// Checks that every item of `items`, and every child below them, is valid.
pub fn validate_items(items: &[ScriptItem]) -> (r: Result<(), ScriptError>)
    ensures
        r is Ok <==> valid_items(items@),
        r is Err ==> r == Err::<(), ScriptError>(ScriptError::InvalidItem),
    decreases items@,
{
    let mut i: usize = 0;
    while i < items.len()
        invariant
            0 <= i <= items.len(),
            valid_items(items@.take(i as int)),
        decreases items.len() - i,
    {
        proof {
            lemma_valid_items_take(items@, i as int);
            assert(decreases_to!(items@ => items@[i as int]));
        }
        match validate_item(&items[i]) {
            Ok(()) => {},
            Err(e) => {
                proof {
                    if valid_items(items@) {
                        lemma_valid_items_prefix(items@, (i + 1) as int);
                    }
                }
                return Err(e);
            },
        }
        i = i + 1;
    }
    assert(items@.take(items.len() as int) =~= items@);
    Ok(())
}

proof fn lemma_valid_items_prefix(items: Seq<ScriptItem>, i: int)
    requires
        0 <= i <= items.len(),
        valid_items(items),
    ensures
        valid_items(items.take(i)),
    decreases items.len() - i,
{
    if i < items.len() {
        lemma_valid_items_prefix(items, i + 1);
        lemma_valid_items_take(items, i);
    } else {
        assert(items.take(i) =~= items);
    }
}

/// Checks that `item` has exactly the fields of its kind, and, for a submenu, that
/// every child is valid.
pub fn validate_item(item: &ScriptItem) -> (r: Result<(), ScriptError>)
    ensures
        r is Ok <==> valid_item(*item),
        r is Err ==> r == Err::<(), ScriptError>(ScriptError::InvalidItem),
    decreases item,
{
    match (&item.item_type, &item.title, &item.path, &item.items) {
        (ScriptItemType::Link, Some(_), Some(_), None) => Ok(()),
        (ScriptItemType::Submenu, Some(_), None, Some(children)) => {
            proof {
                assert(decreases_to!(*item => children@));
            }
            validate_items(children.as_slice())
        },
        (ScriptItemType::Divider, None, None, None) => Ok(()),
        (ScriptItemType::Text, Some(_), None, None) => Ok(()),
        _ => Err(ScriptError::InvalidItem),
    }
}

/// What a script's run comes to, given the bytes it printed (`buf`, read up to one byte
/// past [`MAX_SCRIPT_OUTPUT`]) and, where `buf` is not empty, the JSON parse of `buf`
/// (`None` where it does not parse). Too much output is an error; no output is no
/// result; otherwise the parsed result, with the XXH3 hash of `buf` as its raw hash,
/// once every item is valid.
pub fn check_script_output(buf: &[u8], parsed: Option<ScriptResult>) -> (r: Result<
    Option<ScriptResult>,
    ScriptError,
>)
    ensures
        buf.len() > MAX_SCRIPT_OUTPUT ==> r == Err::<Option<ScriptResult>, ScriptError>(
            ScriptError::OutputTooLarge,
        ),
        buf.len() == 0 ==> r == Ok::<Option<ScriptResult>, ScriptError>(None),
        0 < buf.len() <= MAX_SCRIPT_OUTPUT ==> match parsed {
            None => r == Err::<Option<ScriptResult>, ScriptError>(ScriptError::InvalidJson),
            Some(p) => if valid_items(p.items@) {
                r matches Ok(Some(res)) && res.title == p.title && res.items == p.items
                    && res.raw_output_hash == xxh3_64_spec(buf@)
            } else {
                r == Err::<Option<ScriptResult>, ScriptError>(ScriptError::InvalidItem)
            },
        },
{
    if buf.len() > MAX_SCRIPT_OUTPUT {
        return Err(ScriptError::OutputTooLarge);
    }
    if buf.len() == 0 {
        return Ok(None);
    }
    let mut result = match parsed {
        Some(p) => p,
        None => {
            return Err(ScriptError::InvalidJson);
        },
    };
    result.raw_output_hash = xxh3_64(buf);
    match validate_items(result.items.as_slice()) {
        Ok(()) => Ok(Some(result)),
        Err(e) => Err(e),
    }
}

} // verus!
