//! Hashes of a script's output, used to tell when the menu or its items changed.

use vstd::prelude::*;
use vstd::string::StringSliceAdditionalSpecFns;
use vstd::utf8::encode_utf8;
use crate::hash::{lemma_ne_bytes_inj, usize_ne_bytes, usize_to_ne_bytes, xxh3_64, xxh3_64_spec};
use crate::script::{
    item_model, item_texts_fit, items_model, items_texts_fit, lemma_items_model_index,
    lemma_texts_fit_index, lemma_valid_items_index, valid_item, valid_items, ScriptItem,
    ScriptItemType, ScriptResult,
};

verus! {

/// The byte that stands for an item's kind in the hashed stream.
pub open spec fn type_code(t: ScriptItemType) -> u8 {
    match t {
        ScriptItemType::Link => 1,
        ScriptItemType::Submenu => 2,
        ScriptItemType::Divider => 3,
        ScriptItemType::Text => 4,
    }
}

/// A text in the hashed stream: its UTF-8 length, in native byte order, then its bytes.
pub open spec fn encode_str(s: Seq<char>) -> Seq<u8> {
    usize_ne_bytes(encode_utf8(s).len() as usize) + encode_utf8(s)
}

/// An optional text: its encoding where present, nothing where absent.
pub open spec fn encode_opt_str(s: Option<String>) -> Seq<u8> {
    match s {
        Some(t) => encode_str(t@),
        None => Seq::empty(),
    }
}

/// The bytes an item itself adds: its kind, its title, its path, then a zero.
pub open spec fn encode_head(item: ScriptItem) -> Seq<u8> {
    seq![type_code(item.item_type)] + encode_opt_str(item.title) + encode_opt_str(item.path)
        + seq![0u8]
}

/// An item followed by its children's list, where it has one.
pub open spec fn encode_item(item: ScriptItem) -> Seq<u8>
    decreases item,
{
    encode_head(item) + match item.items {
        Some(children) => encode_seq(children@) + seq![0u8],
        None => Seq::empty(),
    }
}

/// The items one after the other, without the list's closing zero.
pub open spec fn encode_seq(items: Seq<ScriptItem>) -> Seq<u8>
    decreases items,
{
    if items.len() == 0 {
        Seq::empty()
    } else {
        encode_seq(items.drop_last()) + encode_item(items.last())
    }
}

/// A list of items: each item in pre-order, every list closed by a zero.
pub open spec fn encode_list(items: Seq<ScriptItem>) -> Seq<u8> {
    encode_seq(items) + seq![0u8]
}

/// The whole stream hashed for an output: its title, then its list of items.
pub open spec fn encode_output(result: ScriptResult) -> Seq<u8> {
    encode_str(result.title@) + encode_list(result.items@)
}

/// The byte that stands for an item's kind.
pub fn item_type_id(item_type: &ScriptItemType) -> (id: u8)
    ensures
        id == type_code(*item_type),
{
    match item_type {
        ScriptItemType::Link => 1,
        ScriptItemType::Submenu => 2,
        ScriptItemType::Divider => 3,
        ScriptItemType::Text => 4,
    }
}

fn push_bytes(out: &mut Vec<u8>, bytes: &[u8])
    ensures
        final(out)@ == old(out)@ + bytes@,
{
    let mut i: usize = 0;
    while i < bytes.len()
        invariant
            0 <= i <= bytes.len(),
            out@ == old(out)@ + bytes@.take(i as int),
        decreases bytes.len() - i,
    {
        out.push(bytes[i]);
        i = i + 1;
        assert(out@ =~= old(out)@ + bytes@.take(i as int));
    }
    assert(bytes@.take(bytes.len() as int) =~= bytes@);
}

/// Feeds a text: its length in bytes (native byte order), then its bytes.
fn hash_str(out: &mut Vec<u8>, value: &str)
    ensures
        final(out)@ == old(out)@ + encode_str(value@),
{
    let len_bytes = usize_to_ne_bytes(value.len());
    push_bytes(out, len_bytes.as_slice());
    push_bytes(out, value.as_bytes());
    assert(final(out)@ =~= old(out)@ + encode_str(value@));
}

/// What one visit of the walk feeds: for an item its kind, title and path and a zero;
/// for the end of a list a zero.
fn hash_visit(out: &mut Vec<u8>, item: Option<&ScriptItem>)
    ensures
        final(out)@ == old(out)@ + match item {
            Some(it) => encode_head(*it),
            None => seq![0u8],
        },
{
    match item {
        None => {
            out.push(0);
        },
        Some(item) => {
            out.push(item_type_id(&item.item_type));
            match &item.title {
                Some(title) => hash_str(out, title.as_str()),
                None => {},
            }
            match &item.path {
                Some(path) => hash_str(out, path.as_str()),
                None => {},
            }
            out.push(0);
        },
    }
    assert(final(out)@ =~= old(out)@ + match item {
        Some(it) => encode_head(*it),
        None => seq![0u8],
    });
}

/// Walks `items` in pre-order: each item, then its children's list; every list
/// (this one too) is closed by an end-of-list visit. Each visit is fed to `out`.
pub fn for_each_item(items: &[ScriptItem], out: &mut Vec<u8>)
    ensures
        final(out)@ == old(out)@ + encode_list(items@),
    decreases items@,
{
    let mut i: usize = 0;
    while i < items.len()
        invariant
            0 <= i <= items.len(),
            out@ == old(out)@ + encode_seq(items@.take(i as int)),
        decreases items.len() - i,
    {
        let item = &items[i];
        let ghost before = out@;
        proof {
            assert(items@.take(i + 1).drop_last() =~= items@.take(i as int));
            assert(decreases_to!(items@ => items@[i as int]));
        }
        hash_visit(out, Some(item));
        match &item.items {
            Some(children) => {
                proof {
                    assert(decreases_to!(items@ => children@));
                }
                for_each_item(children.as_slice(), out);
            },
            None => {},
        }
        assert(out@ =~= before + encode_item(*item));
        assert(items@.take(i + 1).last() == *item);
        assert(encode_seq(items@.take(i + 1)) == encode_seq(items@.take(i as int)) + encode_item(
            *item,
        ));
        i = i + 1;
        assert(out@ =~= old(out)@ + encode_seq(items@.take(i as int)));
    }
    assert(items@.take(items.len() as int) =~= items@);
    hash_visit(out, None);
    assert(final(out)@ =~= old(out)@ + encode_list(items@));
}

/// The XXH3 hash of an output's title and items, as the stream `encode_output` lays
/// them out.
pub fn hash_output(result: &ScriptResult) -> (h: u64)
    ensures
        h == xxh3_64_spec(encode_output(*result)),
{
    let mut out: Vec<u8> = Vec::new();
    hash_str(&mut out, result.title.as_str());
    for_each_item(result.items.as_slice(), &mut out);
    assert(out@ =~= encode_output(*result));
    xxh3_64(out.as_slice())
}

/// The XXH3 hash of the items alone, or `None` where there are no items.
pub fn notification_hash(items: &[ScriptItem]) -> (h: Option<u64>)
    ensures
        items@.len() == 0 ==> h is None,
        items@.len() > 0 ==> h == Some(xxh3_64_spec(encode_list(items@))),
{
    if items.len() == 0 {
        return None;
    }
    let mut out: Vec<u8> = Vec::new();
    for_each_item(items, &mut out);
    assert(out@ =~= encode_list(items@));
    Some(xxh3_64(out.as_slice()))
}

proof fn lemma_str_prefix(s: Seq<char>, t: Seq<char>, x: Seq<u8>, y: Seq<u8>)
    requires
        encode_utf8(s).len() <= usize::MAX,
        encode_utf8(t).len() <= usize::MAX,
        encode_str(s) + x == encode_str(t) + y,
    ensures
        s == t,
        x == y,
{
    let es = encode_utf8(s);
    let et = encode_utf8(t);
    let ls = es.len() as usize;
    let lt = et.len() as usize;
    lemma_ne_bytes_inj(ls, lt);
    lemma_ne_bytes_inj(lt, ls);
    let n = (usize::BITS / 8) as int;
    let a = encode_str(s) + x;
    let b = encode_str(t) + y;
    assert(a.take(n) =~= usize_ne_bytes(ls));
    assert(b.take(n) =~= usize_ne_bytes(lt));
    assert(ls == lt);
    assert(a.skip(n) =~= es + x);
    assert(b.skip(n) =~= et + y);
    assert((es + x).take(ls as int) =~= es);
    assert((et + y).take(ls as int) =~= et);
    assert((es + x).skip(ls as int) =~= x);
    assert((et + y).skip(ls as int) =~= y);
    vstd::utf8::encode_utf8_decode_utf8(s);
    vstd::utf8::encode_utf8_decode_utf8(t);
}

proof fn lemma_encode_seq_concat(a: Seq<ScriptItem>, b: Seq<ScriptItem>)
    ensures
        encode_seq(a + b) == encode_seq(a) + encode_seq(b),
    decreases b.len(),
{
    if b.len() == 0 {
        assert(a + b =~= a);
        assert(encode_seq(a) + encode_seq(b) =~= encode_seq(a));
    } else {
        assert((a + b).drop_last() =~= a + b.drop_last());
        assert((a + b).last() == b.last());
        lemma_encode_seq_concat(a, b.drop_last());
        assert(encode_seq(a + b) =~= encode_seq(a) + encode_seq(b));
    }
}

proof fn lemma_encode_list_front(items: Seq<ScriptItem>)
    requires
        items.len() > 0,
    ensures
        encode_list(items) == encode_item(items[0]) + encode_list(items.drop_first()),
{
    let head = seq![items[0]];
    assert(items =~= head + items.drop_first());
    lemma_encode_seq_concat(head, items.drop_first());
    assert(head.drop_last() =~= Seq::<ScriptItem>::empty());
    assert(head.last() == items[0]);
    assert(encode_seq(Seq::<ScriptItem>::empty()) =~= Seq::<u8>::empty());
    assert(encode_seq(head) =~= encode_item(items[0]));
    assert(encode_list(items) =~= encode_item(items[0]) + encode_list(items.drop_first()));
}

proof fn lemma_encode_item_first(item: ScriptItem)
    ensures
        encode_item(item).len() > 0,
        encode_item(item)[0] == type_code(item.item_type),
        type_code(item.item_type) != 0,
{
}

proof fn lemma_zero_prefix(x: Seq<u8>, y: Seq<u8>)
    requires
        seq![0u8] + x == seq![0u8] + y,
    ensures
        x == y,
{
    assert((seq![0u8] + x).skip(1) =~= x);
    assert((seq![0u8] + y).skip(1) =~= y);
}

proof fn lemma_link_prefix(a: ScriptItem, b: ScriptItem, x: Seq<u8>, y: Seq<u8>)
    requires
        a.item_type == ScriptItemType::Link,
        b.item_type == ScriptItemType::Link,
        valid_item(a),
        valid_item(b),
        item_texts_fit(a),
        item_texts_fit(b),
        encode_item(a) + x == encode_item(b) + y,
    ensures
        item_model(a) == item_model(b),
        x == y,
{
    let ta = a.title->0@;
    let pa = a.path->0@;
    let tb = b.title->0@;
    let pb = b.path->0@;
    let ra = encode_str(pa) + (seq![0u8] + x);
    let rb = encode_str(pb) + (seq![0u8] + y);
    assert(encode_item(a) + x =~= seq![1u8] + (encode_str(ta) + ra));
    assert(encode_item(b) + y =~= seq![1u8] + (encode_str(tb) + rb));
    assert((seq![1u8] + (encode_str(ta) + ra)).skip(1) =~= encode_str(ta) + ra);
    assert((seq![1u8] + (encode_str(tb) + rb)).skip(1) =~= encode_str(tb) + rb);
    lemma_str_prefix(ta, tb, ra, rb);
    lemma_str_prefix(pa, pb, seq![0u8] + x, seq![0u8] + y);
    lemma_zero_prefix(x, y);
}

proof fn lemma_text_prefix(a: ScriptItem, b: ScriptItem, x: Seq<u8>, y: Seq<u8>)
    requires
        a.item_type == ScriptItemType::Text,
        b.item_type == ScriptItemType::Text,
        valid_item(a),
        valid_item(b),
        item_texts_fit(a),
        item_texts_fit(b),
        encode_item(a) + x == encode_item(b) + y,
    ensures
        item_model(a) == item_model(b),
        x == y,
{
    let ta = a.title->0@;
    let tb = b.title->0@;
    let ra = seq![0u8] + x;
    let rb = seq![0u8] + y;
    assert(encode_item(a) + x =~= seq![4u8] + (encode_str(ta) + ra));
    assert(encode_item(b) + y =~= seq![4u8] + (encode_str(tb) + rb));
    assert((seq![4u8] + (encode_str(ta) + ra)).skip(1) =~= encode_str(ta) + ra);
    assert((seq![4u8] + (encode_str(tb) + rb)).skip(1) =~= encode_str(tb) + rb);
    lemma_str_prefix(ta, tb, ra, rb);
    lemma_zero_prefix(x, y);
}

proof fn lemma_divider_prefix(a: ScriptItem, b: ScriptItem, x: Seq<u8>, y: Seq<u8>)
    requires
        a.item_type == ScriptItemType::Divider,
        b.item_type == ScriptItemType::Divider,
        valid_item(a),
        valid_item(b),
        encode_item(a) + x == encode_item(b) + y,
    ensures
        item_model(a) == item_model(b),
        x == y,
{
    assert(encode_item(a) + x =~= seq![3u8, 0u8] + x);
    assert(encode_item(b) + y =~= seq![3u8, 0u8] + y);
    assert((seq![3u8, 0u8] + x).skip(2) =~= x);
    assert((seq![3u8, 0u8] + y).skip(2) =~= y);
}

#[verifier::spinoff_prover]
proof fn lemma_item_prefix(a: ScriptItem, b: ScriptItem, x: Seq<u8>, y: Seq<u8>)
    requires
        valid_item(a),
        valid_item(b),
        item_texts_fit(a),
        item_texts_fit(b),
        encode_item(a) + x == encode_item(b) + y,
    ensures
        item_model(a) == item_model(b),
        x == y,
    decreases a,
{
    lemma_encode_item_first(a);
    lemma_encode_item_first(b);
    assert((encode_item(a) + x)[0] == type_code(a.item_type));
    assert((encode_item(b) + y)[0] == type_code(b.item_type));
    assert(a.item_type == b.item_type);
    match a.item_type {
        ScriptItemType::Link => lemma_link_prefix(a, b, x, y),
        ScriptItemType::Text => lemma_text_prefix(a, b, x, y),
        ScriptItemType::Divider => lemma_divider_prefix(a, b, x, y),
        ScriptItemType::Submenu => {
            let ta = a.title->0@;
            let tb = b.title->0@;
            let ca = a.items->0@;
            let cb = b.items->0@;
            let ra = seq![0u8] + (encode_list(ca) + x);
            let rb = seq![0u8] + (encode_list(cb) + y);
            assert(encode_item(a) + x =~= seq![2u8] + (encode_str(ta) + ra));
            assert(encode_item(b) + y =~= seq![2u8] + (encode_str(tb) + rb));
            assert((seq![2u8] + (encode_str(ta) + ra)).skip(1) =~= encode_str(ta) + ra);
            assert((seq![2u8] + (encode_str(tb) + rb)).skip(1) =~= encode_str(tb) + rb);
            lemma_str_prefix(ta, tb, ra, rb);
            lemma_zero_prefix(encode_list(ca) + x, encode_list(cb) + y);
            assert(decreases_to!(a => ca));
            lemma_list_prefix(ca, cb, x, y);
        },
    }
}

proof fn lemma_list_prefix(a: Seq<ScriptItem>, b: Seq<ScriptItem>, x: Seq<u8>, y: Seq<u8>)
    requires
        valid_items(a),
        valid_items(b),
        items_texts_fit(a),
        items_texts_fit(b),
        encode_list(a) + x == encode_list(b) + y,
    ensures
        items_model(a) == items_model(b),
        x == y,
    decreases a,
{
    lemma_items_model_index(a);
    lemma_items_model_index(b);
    lemma_valid_items_index(a);
    lemma_valid_items_index(b);
    lemma_texts_fit_index(a);
    lemma_texts_fit_index(b);
    if a.len() == 0 {
        if b.len() > 0 {
            lemma_encode_list_front(b);
            lemma_encode_item_first(b[0]);
            assert((encode_list(b) + y)[0] == type_code(b[0].item_type));
            assert((encode_list(a) + x)[0] == 0);
        }
        assert((encode_list(a) + x).skip(1) =~= x);
        assert((encode_list(b) + y).skip(1) =~= y);
        assert(items_model(a) =~= items_model(b));
    } else if b.len() == 0 {
        lemma_encode_list_front(a);
        lemma_encode_item_first(a[0]);
        assert((encode_list(a) + x)[0] == type_code(a[0].item_type));
        assert((encode_list(b) + y)[0] == 0);
    } else {
        lemma_encode_list_front(a);
        lemma_encode_list_front(b);
        let a1 = a.drop_first();
        let b1 = b.drop_first();
        assert(encode_list(a) + x =~= encode_item(a[0]) + (encode_list(a1) + x));
        assert(encode_list(b) + y =~= encode_item(b[0]) + (encode_list(b1) + y));
        assert(decreases_to!(a => a[0]));
        lemma_item_prefix(a[0], b[0], encode_list(a1) + x, encode_list(b1) + y);
        lemma_valid_items_index(a1);
        lemma_valid_items_index(b1);
        lemma_texts_fit_index(a1);
        lemma_texts_fit_index(b1);
        assert(decreases_to!(a => a1));
        lemma_list_prefix(a1, b1, x, y);
        lemma_items_model_index(a1);
        lemma_items_model_index(b1);
        assert forall|i: int| 0 <= i < a.len() implies items_model(a)[i] == items_model(b)[i] by {
            if i > 0 {
                assert(a[i] == a1[i - 1]);
                assert(b[i] == b1[i - 1]);
                assert(items_model(a1)[i - 1] == item_model(a1[i - 1]));
                assert(items_model(b1)[i - 1] == item_model(b1[i - 1]));
                assert(items_model(a1)[i - 1] == items_model(b1)[i - 1]);
            } else {
                assert(items_model(a)[0] == item_model(a[0]));
                assert(items_model(b)[0] == item_model(b[0]));
            }
        }
        assert(items_model(a) =~= items_model(b));
    }
}

/// Two outputs whose items are valid give the same hashed stream only when their
/// titles and items are the same (texts up to `usize::MAX` bytes): the output hash
/// tells every change of title or items apart, up to collisions of XXH3.
pub proof fn lemma_encode_output_injective(r1: ScriptResult, r2: ScriptResult)
    requires
        valid_items(r1.items@),
        valid_items(r2.items@),
        encode_utf8(r1.title@).len() <= usize::MAX,
        encode_utf8(r2.title@).len() <= usize::MAX,
        items_texts_fit(r1.items@),
        items_texts_fit(r2.items@),
        encode_output(r1) == encode_output(r2),
    ensures
        r1.title@ == r2.title@,
        items_model(r1.items@) == items_model(r2.items@),
{
    let e: Seq<u8> = Seq::empty();
    assert(encode_output(r1) =~= encode_str(r1.title@) + (encode_list(r1.items@) + e));
    assert(encode_output(r2) =~= encode_str(r2.title@) + (encode_list(r2.items@) + e));
    lemma_str_prefix(r1.title@, r2.title@, encode_list(r1.items@) + e, encode_list(r2.items@) + e);
    lemma_list_prefix(r1.items@, r2.items@, e, e);
}

} // verus!
