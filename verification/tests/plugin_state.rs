use stilla::manager::{Click, PluginManager};
use stilla::menu::{set_menu, Action, MenuEntry};
use stilla::plugin::{poll_step, OutputEffect, Plugin};
use stilla::script::{ScriptItem, ScriptItemType, ScriptResult};
use xxhash_rust::xxh3::xxh3_64;

fn item(
    item_type: ScriptItemType,
    title: Option<&str>,
    path: Option<&str>,
    items: Option<Vec<ScriptItem>>,
) -> ScriptItem {
    ScriptItem {
        item_type,
        title: title.map(|s| s.to_string()),
        path: path.map(|s| s.to_string()),
        items,
    }
}

fn link(title: &str, url: &str) -> ScriptItem {
    item(ScriptItemType::Link, Some(title), Some(url), None)
}

fn text(title: &str) -> ScriptItem {
    item(ScriptItemType::Text, Some(title), None, None)
}

fn result(title: &str, items: Vec<ScriptItem>) -> ScriptResult {
    ScriptResult { title: title.to_string(), items, raw_output_hash: 0 }
}

fn readme_result() -> ScriptResult {
    result(
        "Tray title",
        vec![
            text("Hello ✅"),
            link("Link", "https://example.com"),
            item(ScriptItemType::Divider, None, None, None),
            item(
                ScriptItemType::Submenu,
                Some("More"),
                None,
                Some(vec![link("Nested", "https://example.com/nested")]),
            ),
        ],
    )
}

#[test]
fn readme_menu() {
    let mut next = 10u64;
    let (menu, actions) = set_menu(&readme_result(), &mut next);
    assert_eq!(next, 13);
    assert_eq!(menu.len(), 6);
    assert!(matches!(&menu[0], MenuEntry::Label { title } if title == "Hello ✅"));
    assert!(matches!(&menu[1], MenuEntry::Clickable { id: 10, title, action: Action::OpenUrl(u) } if title == "Link" && u == "https://example.com"));
    assert!(matches!(&menu[2], MenuEntry::Separator));
    match &menu[3] {
        MenuEntry::Submenu { title, children } => {
            assert_eq!(title, "More");
            assert_eq!(children.len(), 1);
            assert!(matches!(&children[0], MenuEntry::Clickable { id: 11, title, action: Action::OpenUrl(u) } if title == "Nested" && u == "https://example.com/nested"));
        }
        _ => panic!("expected a submenu"),
    }
    assert!(matches!(&menu[4], MenuEntry::Separator));
    assert!(matches!(&menu[5], MenuEntry::Clickable { id: 12, title, action: Action::Refresh } if title == "Update"));
    assert_eq!(actions.len(), 3);
    assert!(matches!(actions.get(&10), Some(Action::OpenUrl(u)) if u == "https://example.com"));
    assert!(matches!(actions.get(&11), Some(Action::OpenUrl(u)) if u == "https://example.com/nested"));
    assert!(matches!(actions.get(&12), Some(Action::Refresh)));
}

#[test]
fn entries_without_text_are_hidden() {
    let r = result(
        "T",
        vec![
            link("", "https://example.com"),
            link("t", ""),
            text(""),
            item(ScriptItemType::Submenu, Some("s"), None, Some(vec![])),
            item(ScriptItemType::Submenu, Some(""), None, Some(vec![text("x")])),
        ],
    );
    let mut next = 0u64;
    let (menu, actions) = set_menu(&r, &mut next);
    assert_eq!(menu.len(), 2);
    assert_eq!(next, 1);
    assert_eq!(actions.len(), 1);
}

#[test]
fn new_plugin_is_named_by_its_path() {
    let p = Plugin::new(b"/home/u/.stilla/a.5m.sh".to_vec(), 300, false);
    assert_eq!(p.id, xxh3_64(b"/home/u/.stilla/a.5m.sh"));
    assert_eq!(p.interval, 300);
    assert!(!p.notify);
    assert!(p.actions.is_empty());
}

#[test]
fn missing_or_untitled_output_removes_the_plugin() {
    let mut p = Plugin::new(b"p".to_vec(), 60, false);
    let mut next = 0u64;
    assert!(matches!(p.apply_output(None, &mut next), OutputEffect::Remove));
    assert!(matches!(p.apply_output(Some(result("", vec![])), &mut next), OutputEffect::Remove));
    assert_eq!(next, 0);
}

#[test]
fn same_output_twice_redraws_once() {
    let mut p = Plugin::new(b"p".to_vec(), 60, false);
    let mut next = 0u64;
    let first = p.apply_output(Some(readme_result()), &mut next);
    assert!(matches!(first, OutputEffect::Redraw { ref title, notify: false, .. } if title == "Tray title"));
    assert_eq!(next, 3);
    assert_eq!(p.actions.len(), 3);
    let second = p.apply_output(Some(readme_result()), &mut next);
    assert!(matches!(second, OutputEffect::Unchanged));
    assert_eq!(next, 3);
    let third = p.apply_output(Some(result("Other", vec![])), &mut next);
    assert!(matches!(third, OutputEffect::Redraw { ref title, .. } if title == "Other"));
    assert_eq!(next, 4);
    assert_eq!(p.actions.len(), 1);
}

#[test]
fn notifies_when_items_change() {
    let mut p = Plugin::new(b"p".to_vec(), 300, true);
    let mut next = 0u64;
    let e = p.apply_output(Some(result("T", vec![text("a")])), &mut next);
    assert!(matches!(e, OutputEffect::Redraw { notify: false, .. }));
    let e = p.apply_output(Some(result("T2", vec![text("a")])), &mut next);
    assert!(matches!(e, OutputEffect::Redraw { notify: false, .. }));
    let e = p.apply_output(Some(result("T2", vec![text("b")])), &mut next);
    assert!(matches!(e, OutputEffect::Redraw { notify: true, .. }));
    let e = p.apply_output(Some(result("T2", vec![])), &mut next);
    assert!(matches!(e, OutputEffect::Redraw { notify: true, .. }));
    // items appearing after an output without items are a change too
    let e = p.apply_output(Some(result("T3", vec![text("c")])), &mut next);
    assert!(matches!(e, OutputEffect::Redraw { notify: true, .. }));
}

#[test]
fn first_output_without_items_then_items_notifies() {
    let mut p = Plugin::new(b"p".to_vec(), 300, true);
    let mut next = 0u64;
    let e = p.apply_output(Some(result("T", vec![])), &mut next);
    assert!(matches!(e, OutputEffect::Redraw { notify: false, .. }));
    let e = p.apply_output(Some(result("T", vec![text("new")])), &mut next);
    assert!(matches!(e, OutputEffect::Redraw { notify: true, .. }));
    let e = p.apply_output(Some(result("T2", vec![text("new")])), &mut next);
    assert!(matches!(e, OutputEffect::Redraw { notify: false, .. }));
}

#[test]
fn silent_plugin_never_notifies() {
    let mut p = Plugin::new(b"p".to_vec(), 300, false);
    let mut next = 0u64;
    p.apply_output(Some(result("T", vec![text("a")])), &mut next);
    let e = p.apply_output(Some(result("T", vec![text("b")])), &mut next);
    assert!(matches!(e, OutputEffect::Redraw { notify: false, .. }));
}

#[test]
fn poll_steps() {
    let mut r = result("T", vec![]);
    r.raw_output_hash = 7;
    let s = poll_step(0, &Some(r), 30);
    assert!(s.send && !s.stop && s.last_raw_hash == 7 && s.rerun_after == Some(30));
    let mut r = result("T", vec![]);
    r.raw_output_hash = 7;
    let s = poll_step(7, &Some(r), 30);
    assert!(!s.send && !s.stop && s.last_raw_hash == 7 && s.rerun_after == Some(30));
    let s = poll_step(7, &None, 30);
    assert!(s.send && s.stop && s.last_raw_hash == 7 && s.rerun_after.is_none());
    let mut r = result("", vec![]);
    r.raw_output_hash = 9;
    let s = poll_step(7, &Some(r), 30);
    assert!(s.send && s.stop && s.last_raw_hash == 7 && s.rerun_after.is_none());
}

#[test]
fn poll_loop_sends_only_changes() {
    // a fresh loop keeps 0; outputs with raw hashes 5, 5, 6, then a removal
    let hashes = [5u64, 5, 6];
    let mut last = 0u64;
    let mut sent = Vec::new();
    for h in hashes {
        let mut r = result("T", vec![]);
        r.raw_output_hash = h;
        let s = poll_step(last, &Some(r), 60);
        last = s.last_raw_hash;
        sent.push(s.send);
        assert!(!s.stop);
    }
    let s = poll_step(last, &None, 60);
    sent.push(s.send);
    assert!(s.stop);
    assert_eq!(sent, vec![true, false, true, true]);
}

#[test]
fn manager_routes_clicks_to_plugins() {
    let mut m = PluginManager::new();
    let (stopped, started) = m.start(vec![
        (b"a.60s.sh".to_vec(), 60, false),
        (b"b.5mn.sh".to_vec(), 300, true),
    ]);
    assert!(stopped.is_empty());
    assert_eq!(started, vec![xxh3_64(b"a.60s.sh"), xxh3_64(b"b.5mn.sh")]);
    assert_eq!(m.plugin_count(), 2);
    let a = started[0];
    let b = started[1];
    let e = m.apply_output(a, Some(result("A", vec![link("L", "https://a")]))).unwrap();
    assert!(matches!(e, OutputEffect::Redraw { .. }));
    let e = m.apply_output(b, Some(result("B", vec![link("M", "https://b")]))).unwrap();
    assert!(matches!(e, OutputEffect::Redraw { .. }));
    assert_eq!(m.menu_id_count(), 4);
    assert!(matches!(m.handle_click(0), Click::OpenUrl(u) if u == "https://a"));
    assert!(matches!(m.handle_click(1), Click::Refresh(p) if p == a));
    assert!(matches!(m.handle_click(2), Click::OpenUrl(u) if u == "https://b"));
    assert!(matches!(m.handle_click(3), Click::Refresh(p) if p == b));
    assert!(matches!(m.handle_click(4), Click::Nothing));
    assert!(m.apply_output(12345, None).is_none());
    // the first plugin's script stops printing: it goes, with its menu ids
    let e = m.apply_output(a, None).unwrap();
    assert!(matches!(e, OutputEffect::Remove));
    assert_eq!(m.plugin_count(), 1);
    assert!(matches!(m.handle_click(0), Click::Nothing));
    assert!(matches!(m.handle_click(2), Click::OpenUrl(u) if u == "https://b"));
    let mut stopped = m.terminate();
    stopped.sort();
    assert_eq!(stopped, vec![b]);
    assert!(m.plugin_count() == 0);
    assert!(m.menu_id_count() == 0);
}

#[test]
fn update_all_replaces_plugins() {
    let mut m = PluginManager::new();
    m.start(vec![(b"original.60s.sh".to_vec(), 60, false)]);
    let (stopped, started) = m.start(vec![(b"renamed.60s.sh".to_vec(), 60, false)]);
    assert_eq!(stopped, vec![xxh3_64(b"original.60s.sh")]);
    assert_eq!(started, vec![xxh3_64(b"renamed.60s.sh")]);
    assert_eq!(m.plugin_count(), 1);
    assert!(m.has_plugin(xxh3_64(b"renamed.60s.sh")));
    let (stopped, started) = m.start(vec![]);
    assert_eq!(stopped.len(), 1);
    assert!(started.is_empty());
    assert!(m.plugin_count() == 0);
}
