use stilla::output_hash::{for_each_item, hash_output, item_type_id, notification_hash};
use stilla::script::{
    check_script_output, validate_item, validate_items, ScriptError, ScriptItem, ScriptItemType,
    ScriptResult, MAX_SCRIPT_OUTPUT,
};
use xxhash_rust::xxh3::xxh3_64;

fn item(
    item_type: ScriptItemType,
    title: Option<&str>,
    path: Option<&str>,
    items: Option<Vec<ScriptItem>>,
) -> ScriptItem {
    ScriptItem {
        item_type,
        title: title.map(|s| s.to_string()),
        path: path.map(|s| s.to_string()),
        items,
    }
}

fn link(title: &str, url: &str) -> ScriptItem {
    item(ScriptItemType::Link, Some(title), Some(url), None)
}

fn text(title: &str) -> ScriptItem {
    item(ScriptItemType::Text, Some(title), None, None)
}

fn divider() -> ScriptItem {
    item(ScriptItemType::Divider, None, None, None)
}

fn result(title: &str, items: Vec<ScriptItem>) -> ScriptResult {
    ScriptResult { title: title.to_string(), items, raw_output_hash: 0 }
}

#[test]
fn valid_items_of_each_kind() {
    assert_eq!(validate_item(&link("Link", "https://example.com")), Ok(()));
    assert_eq!(validate_item(&text("Hello")), Ok(()));
    assert_eq!(validate_item(&divider()), Ok(()));
    let sub = item(
        ScriptItemType::Submenu,
        Some("More"),
        None,
        Some(vec![link("Nested", "https://example.com/nested")]),
    );
    assert_eq!(validate_item(&sub), Ok(()));
    let empty_sub = item(ScriptItemType::Submenu, Some("More"), None, Some(vec![]));
    assert_eq!(validate_item(&empty_sub), Ok(()));
}

#[test]
fn invalid_items_are_refused() {
    let bad = [
        item(ScriptItemType::Link, Some("t"), None, None),
        item(ScriptItemType::Link, None, Some("u"), None),
        item(ScriptItemType::Link, Some("t"), Some("u"), Some(vec![])),
        item(ScriptItemType::Text, None, None, None),
        item(ScriptItemType::Text, Some("t"), Some("u"), None),
        item(ScriptItemType::Divider, Some("t"), None, None),
        item(ScriptItemType::Submenu, Some("t"), None, None),
        item(ScriptItemType::Submenu, None, None, Some(vec![])),
    ];
    for it in bad.iter() {
        assert_eq!(validate_item(it), Err(ScriptError::InvalidItem));
    }
    let nested_bad = item(ScriptItemType::Submenu, Some("t"), None, Some(vec![text("ok"), divider(), item(ScriptItemType::Text, None, None, None)]));
    assert_eq!(validate_item(&nested_bad), Err(ScriptError::InvalidItem));
    assert_eq!(validate_items(&[text("a"), link("b", "c")]), Ok(()));
    assert_eq!(validate_items(&[text("a"), item(ScriptItemType::Link, Some("b"), None, None)]), Err(ScriptError::InvalidItem));
}

#[test]
fn output_too_large() {
    let buf = vec![b' '; MAX_SCRIPT_OUTPUT + 1];
    let r = check_script_output(&buf, Some(result("t", vec![])));
    assert_eq!(r.unwrap_err(), ScriptError::OutputTooLarge);
}

#[test]
fn empty_output_is_no_result() {
    let r = check_script_output(&[], None);
    assert!(matches!(r, Ok(None)));
}

#[test]
fn unparsable_output() {
    let r = check_script_output(b"not json", None);
    assert_eq!(r.unwrap_err(), ScriptError::InvalidJson);
}

#[test]
fn output_with_invalid_item() {
    let parsed = result("t", vec![item(ScriptItemType::Divider, Some("x"), None, None)]);
    let r = check_script_output(b"{}", Some(parsed));
    assert_eq!(r.unwrap_err(), ScriptError::InvalidItem);
}

#[test]
fn valid_output_gets_raw_hash() {
    let buf = br#"{"title": "Tray title", "items": [{"item_type": "text", "title": "Hello"}]}"#;
    let parsed = result("Tray title", vec![text("Hello")]);
    let r = check_script_output(buf, Some(parsed)).unwrap().unwrap();
    assert_eq!(r.title, "Tray title");
    assert_eq!(r.items.len(), 1);
    assert_eq!(r.raw_output_hash, xxh3_64(buf));
    assert_ne!(r.raw_output_hash, 0);
}

#[test]
fn item_type_ids() {
    assert_eq!(item_type_id(&ScriptItemType::Link), 1);
    assert_eq!(item_type_id(&ScriptItemType::Submenu), 2);
    assert_eq!(item_type_id(&ScriptItemType::Divider), 3);
    assert_eq!(item_type_id(&ScriptItemType::Text), 4);
}

fn push_str(out: &mut Vec<u8>, s: &str) {
    out.extend_from_slice(&s.len().to_ne_bytes());
    out.extend_from_slice(s.as_bytes());
}

#[test]
fn walk_feeds_items_in_pre_order() {
    let items = vec![
        text("a"),
        item(ScriptItemType::Submenu, Some("s"), None, Some(vec![link("l", "u")])),
        divider(),
    ];
    let mut out = Vec::new();
    for_each_item(&items, &mut out);
    let mut expected = Vec::new();
    expected.push(4);
    push_str(&mut expected, "a");
    expected.push(0);
    expected.push(2);
    push_str(&mut expected, "s");
    expected.push(0);
    expected.push(1);
    push_str(&mut expected, "l");
    push_str(&mut expected, "u");
    expected.push(0);
    expected.push(0);
    expected.push(3);
    expected.push(0);
    expected.push(0);
    assert_eq!(out, expected);
}

#[test]
fn output_hash_is_xxh3_of_stream() {
    let r = result("T", vec![text("a")]);
    let mut expected = Vec::new();
    push_str(&mut expected, "T");
    expected.push(4);
    push_str(&mut expected, "a");
    expected.push(0);
    expected.push(0);
    assert_eq!(hash_output(&r), xxh3_64(&expected));
}

#[test]
fn output_hash_tells_changes_apart() {
    let a = result("T", vec![text("a")]);
    let b = result("T", vec![text("b")]);
    let c = result("U", vec![text("a")]);
    let d = result("T", vec![text("a")]);
    assert_ne!(hash_output(&a), hash_output(&b));
    assert_ne!(hash_output(&a), hash_output(&c));
    assert_eq!(hash_output(&a), hash_output(&d));
    // a title moved into the items is a different stream
    let e = result("", vec![text("Ta")]);
    assert_ne!(hash_output(&a), hash_output(&e));
}

#[test]
fn notification_hash_of_items() {
    assert_eq!(notification_hash(&[]), None);
    let items = vec![divider()];
    assert_eq!(notification_hash(&items), Some(xxh3_64(&[3, 0, 0])));
}
