//! The tray menu that a script's output stands for, as plain values: which entries it
//! has, in which order, and what clicking each one does.

use vstd::prelude::*;
use crate::script::{ScriptItem, ScriptItemType, ScriptResult};

verus! {

broadcast use vstd::std_specs::hash::group_hash_axioms;

/// What a menu entry does when clicked.
#[derive(Debug)]
pub enum Action {
    /// Open this URL or path.
    OpenUrl(String),
    /// Run the plugin's script again now.
    Refresh,
}

/// [`Action`] as a value of specifications.
pub enum ActionModel {
    OpenUrl(Seq<char>),
    Refresh,
}

impl View for Action {
    type V = ActionModel;

    open spec fn view(&self) -> ActionModel {
        match self {
            Action::OpenUrl(url) => ActionModel::OpenUrl(url@),
            Action::Refresh => ActionModel::Refresh,
        }
    }
}

/// One entry of a tray menu.
#[derive(Debug)]
pub enum MenuEntry {
    /// An enabled entry; clicking it is reported under `id`.
    Clickable { id: u64, title: String, action: Action },
    /// A disabled entry that only shows text.
    Label { title: String },
    /// A separator line.
    Separator,
    /// An entry that opens a nested menu.
    Submenu { title: String, children: Vec<MenuEntry> },
}

/// [`MenuEntry`] as a value of specifications.
pub enum MenuModel {
    Clickable { id: u64, title: Seq<char>, action: ActionModel },
    Label { title: Seq<char> },
    Separator,
    Submenu { title: Seq<char>, children: Seq<MenuModel> },
}

/// The model of one entry.
pub open spec fn entry_model(e: MenuEntry) -> MenuModel
    decreases e,
{
    match e {
        MenuEntry::Clickable { id, title, action } => MenuModel::Clickable {
            id,
            title: title@,
            action: action@,
        },
        MenuEntry::Label { title } => MenuModel::Label { title: title@ },
        MenuEntry::Separator => MenuModel::Separator,
        MenuEntry::Submenu { title, children } => MenuModel::Submenu {
            title: title@,
            children: entries_model(children@),
        },
    }
}

/// The models of a sequence of entries.
pub open spec fn entries_model(es: Seq<MenuEntry>) -> Seq<MenuModel>
    decreases es,
{
    if es.len() == 0 {
        Seq::empty()
    } else {
        entries_model(es.drop_last()).push(entry_model(es.last()))
    }
}

/// The text is there and not empty.
pub open spec fn shown_text(t: Option<String>) -> bool {
    t is Some && t->0@.len() > 0
}

/// Menu ids that the entries for `item` take.
pub open spec fn item_ids(item: ScriptItem) -> nat
    decreases item,
{
    match item.item_type {
        ScriptItemType::Link => if shown_text(item.title) && shown_text(item.path) {
            1
        } else {
            0
        },
        ScriptItemType::Submenu => if shown_text(item.title) && item.items is Some
            && item.items->0@.len() > 0 {
            seq_ids(item.items->0@)
        } else {
            0
        },
        _ => 0,
    }
}

/// Menu ids that the entries for `items` take.
pub open spec fn seq_ids(items: Seq<ScriptItem>) -> nat
    decreases items,
{
    if items.len() == 0 {
        0
    } else {
        seq_ids(items.drop_last()) + item_ids(items.last())
    }
}

/// The entries shown for `item`, clickable ones numbered from `next` on: a link with a
/// title and a URL opens the URL; a divider is a separator; a text with a title is a
/// label; a submenu with a title and children opens the children's entries. Anything
/// else shows nothing.
pub open spec fn item_menu(item: ScriptItem, next: nat) -> Seq<MenuModel>
    decreases item,
{
    match item.item_type {
        ScriptItemType::Link => if shown_text(item.title) && shown_text(item.path) {
            seq![
                MenuModel::Clickable {
                    id: next as u64,
                    title: item.title->0@,
                    action: ActionModel::OpenUrl(item.path->0@),
                },
            ]
        } else {
            Seq::empty()
        },
        ScriptItemType::Divider => seq![MenuModel::Separator],
        ScriptItemType::Text => if shown_text(item.title) {
            seq![MenuModel::Label { title: item.title->0@ }]
        } else {
            Seq::empty()
        },
        ScriptItemType::Submenu => if shown_text(item.title) && item.items is Some
            && item.items->0@.len() > 0 {
            seq![
                MenuModel::Submenu {
                    title: item.title->0@,
                    children: seq_menu(item.items->0@, next),
                },
            ]
        } else {
            Seq::empty()
        },
    }
}

/// The entries shown for `items`, one item after the other.
pub open spec fn seq_menu(items: Seq<ScriptItem>, next: nat) -> Seq<MenuModel>
    decreases items,
{
    if items.len() == 0 {
        Seq::empty()
    } else {
        seq_menu(items.drop_last(), next) + item_menu(
            items.last(),
            next + seq_ids(items.drop_last()),
        )
    }
}

/// What each clickable id of an entry does.
pub open spec fn entry_actions(e: MenuModel) -> Map<u64, ActionModel>
    decreases e,
{
    match e {
        MenuModel::Clickable { id, title, action } => map![id => action],
        MenuModel::Submenu { title, children } => menu_actions(children),
        _ => Map::empty(),
    }
}

/// What each clickable id of a sequence of entries does.
pub open spec fn menu_actions(es: Seq<MenuModel>) -> Map<u64, ActionModel>
    decreases es,
{
    if es.len() == 0 {
        Map::empty()
    } else {
        menu_actions(es.drop_last()).union_prefer_right(entry_actions(es.last()))
    }
}

/// A map of actions as a map of their models.
pub open spec fn actions_view(m: Map<u64, Action>) -> Map<u64, ActionModel> {
    m.map_values(|a: Action| a@)
}

proof fn lemma_entries_model_push(es: Seq<MenuEntry>, e: MenuEntry)
    ensures
        entries_model(es.push(e)) == entries_model(es).push(entry_model(e)),
{
    assert(es.push(e).drop_last() =~= es);
}

proof fn lemma_menu_actions_concat(a: Seq<MenuModel>, b: Seq<MenuModel>)
    ensures
        menu_actions(a + b) == menu_actions(a).union_prefer_right(menu_actions(b)),
    decreases b.len(),
{
    if b.len() == 0 {
        assert(a + b =~= a);
        assert(menu_actions(a).union_prefer_right(menu_actions(b)) =~= menu_actions(a));
    } else {
        assert((a + b).drop_last() =~= a + b.drop_last());
        lemma_menu_actions_concat(a, b.drop_last());
        assert(menu_actions(a + b) =~= menu_actions(a).union_prefer_right(menu_actions(b)));
    }
}

proof fn lemma_menu_actions_single(e: MenuModel)
    ensures
        menu_actions(seq![e]) == entry_actions(e),
{
    assert(seq![e].drop_last() =~= Seq::<MenuModel>::empty());
    assert(seq![e].last() == e);
    assert(menu_actions(Seq::<MenuModel>::empty()) =~= Map::<u64, ActionModel>::empty());
    assert(Map::<u64, ActionModel>::empty().union_prefer_right(entry_actions(e)) =~= entry_actions(e));
}

proof fn lemma_seq_ids_prefix(items: Seq<ScriptItem>, i: int)
    requires
        0 <= i <= items.len(),
    ensures
        seq_ids(items.take(i)) <= seq_ids(items),
    decreases items.len() - i,
{
    if i < items.len() {
        lemma_seq_ids_prefix(items, i + 1);
        assert(items.take(i + 1).drop_last() =~= items.take(i));
    } else {
        assert(items.take(i) =~= items);
    }
}

/// Appends the entries shown for each of `items` to `out`, numbering clickable entries
/// from `next` on and recording what each does in `actions`.
pub fn append_items(
    items: &[ScriptItem],
    next: &mut u64,
    out: &mut Vec<MenuEntry>,
    actions: &mut std::collections::HashMap<u64, Action>,
)
    requires
        *old(next) + seq_ids(items@) <= u64::MAX,
    ensures
        *final(next) == *old(next) + seq_ids(items@),
        entries_model(final(out)@) == entries_model(old(out)@) + seq_menu(
            items@,
            *old(next) as nat,
        ),
        actions_view(final(actions)@) == actions_view(old(actions)@).union_prefer_right(
            menu_actions(seq_menu(items@, *old(next) as nat)),
        ),
    decreases items@,
{
    let ghost n0 = *next as nat;
    let mut i: usize = 0;
    while i < items.len()
        invariant
            0 <= i <= items.len(),
            n0 + seq_ids(items@) <= u64::MAX,
            *next == n0 + seq_ids(items@.take(i as int)),
            entries_model(out@) == entries_model(old(out)@) + seq_menu(items@.take(i as int), n0),
            actions_view(actions@) == actions_view(old(actions)@).union_prefer_right(
                menu_actions(seq_menu(items@.take(i as int), n0)),
            ),
        decreases items.len() - i,
    {
        let ghost pre = items@.take(i as int);
        let ghost out_before = entries_model(out@);
        let ghost actions_before = actions_view(actions@);
        proof {
            let t = items@.take(i + 1);
            assert(t.drop_last() =~= pre);
            assert(t.last() == items@[i as int]);
            lemma_seq_ids_prefix(items@, i + 1);
            assert(decreases_to!(items@ => items@[i as int]));
        }
        append_item(&items[i], next, out, actions);
        proof {
            let part = item_menu(items@[i as int], n0 + seq_ids(pre));
            lemma_menu_actions_concat(seq_menu(pre, n0), part);
            assert(entries_model(out@) =~= entries_model(old(out)@) + seq_menu(
                items@.take(i + 1),
                n0,
            ));
            assert(actions_view(actions@) =~= actions_view(old(actions)@).union_prefer_right(
                menu_actions(seq_menu(items@.take(i + 1), n0)),
            ));
        }
        i = i + 1;
    }
    assert(items@.take(items.len() as int) =~= items@);
}

/// Appends the entries shown for `item` to `out`, numbering its clickable entries
/// from `next` on and recording what each does in `actions`.
pub fn append_item(
    item: &ScriptItem,
    next: &mut u64,
    out: &mut Vec<MenuEntry>,
    actions: &mut std::collections::HashMap<u64, Action>,
)
    requires
        *old(next) + item_ids(*item) <= u64::MAX,
    ensures
        *final(next) == *old(next) + item_ids(*item),
        entries_model(final(out)@) == entries_model(old(out)@) + item_menu(*item, *old(next) as nat),
        actions_view(final(actions)@) == actions_view(old(actions)@).union_prefer_right(
            menu_actions(item_menu(*item, *old(next) as nat)),
        ),
    decreases item,
{
    let ghost next0 = *next as nat;
    let ghost shown = item_menu(*item, next0);
    let entry: MenuEntry;
    match item.item_type {
        ScriptItemType::Link => {
            match (&item.title, &item.path) {
                (Some(title), Some(url)) => {
                    if !title.as_str().is_empty() && !url.as_str().is_empty() {
                        let id = *next;
                        actions.insert(id, Action::OpenUrl(url.clone()));
                        *next = id + 1;
                        entry = MenuEntry::Clickable {
                            id,
                            title: title.clone(),
                            action: Action::OpenUrl(url.clone()),
                        };
                        assert(actions_view(actions@) =~= actions_view(old(actions)@).insert(
                            id,
                            ActionModel::OpenUrl(url@),
                        ));
                    } else {
                        assert(shown =~= Seq::<MenuModel>::empty());
                        assert(actions_view(old(actions)@).union_prefer_right(menu_actions(shown))
                            =~= actions_view(old(actions)@));
                        assert(entries_model(out@) =~= entries_model(old(out)@) + shown);
                        return ;
                    }
                },
                _ => {
                    assert(shown =~= Seq::<MenuModel>::empty());
                    assert(actions_view(old(actions)@).union_prefer_right(menu_actions(shown))
                        =~= actions_view(old(actions)@));
                    assert(entries_model(out@) =~= entries_model(old(out)@) + shown);
                    return ;
                },
            }
        },
        ScriptItemType::Divider => {
            entry = MenuEntry::Separator;
        },
        ScriptItemType::Text => {
            match &item.title {
                Some(title) => {
                    if !title.as_str().is_empty() {
                        entry = MenuEntry::Label { title: title.clone() };
                    } else {
                        assert(shown =~= Seq::<MenuModel>::empty());
                        assert(actions_view(old(actions)@).union_prefer_right(menu_actions(shown))
                            =~= actions_view(old(actions)@));
                        assert(entries_model(out@) =~= entries_model(old(out)@) + shown);
                        return ;
                    }
                },
                None => {
                    assert(shown =~= Seq::<MenuModel>::empty());
                    assert(actions_view(old(actions)@).union_prefer_right(menu_actions(shown))
                        =~= actions_view(old(actions)@));
                    assert(entries_model(out@) =~= entries_model(old(out)@) + shown);
                    return ;
                },
            }
        },
        ScriptItemType::Submenu => {
            match (&item.title, &item.items) {
                (Some(title), Some(children)) => {
                    if !title.as_str().is_empty() && children.len() > 0 {
                        let mut sub: Vec<MenuEntry> = Vec::new();
                        proof {
                            assert(decreases_to!(*item => children@));
                            assert(entries_model(sub@) =~= Seq::<MenuModel>::empty());
                        }
                        append_items(children.as_slice(), next, &mut sub, actions);
                        entry = MenuEntry::Submenu { title: title.clone(), children: sub };
                    } else {
                        assert(shown =~= Seq::<MenuModel>::empty());
                        assert(actions_view(old(actions)@).union_prefer_right(menu_actions(shown))
                            =~= actions_view(old(actions)@));
                        assert(entries_model(out@) =~= entries_model(old(out)@) + shown);
                        return ;
                    }
                },
                _ => {
                    assert(shown =~= Seq::<MenuModel>::empty());
                    assert(actions_view(old(actions)@).union_prefer_right(menu_actions(shown))
                        =~= actions_view(old(actions)@));
                    assert(entries_model(out@) =~= entries_model(old(out)@) + shown);
                    return ;
                },
            }
        },
    }
    proof {
        assert(shown == seq![entry_model(entry)]);
        lemma_entries_model_push(out@, entry);
        lemma_menu_actions_single(entry_model(entry));
    }
    out.push(entry);
    assert(entries_model(out@) =~= entries_model(old(out)@) + shown);
    assert(actions_view(actions@) =~= actions_view(old(actions)@).union_prefer_right(
        menu_actions(shown),
    ));
}

/// The whole menu shown for an output's items: their entries, then a separator and an
/// "Update" entry that runs the script again.
pub open spec fn full_menu(items: Seq<ScriptItem>, next: nat) -> Seq<MenuModel> {
    seq_menu(items, next) + seq![
        MenuModel::Separator,
        MenuModel::Clickable {
            id: (next + seq_ids(items)) as u64,
            title: "Update"@,
            action: ActionModel::Refresh,
        },
    ]
}

/// Menu ids that the whole menu for `items` takes.
pub open spec fn menu_ids(items: Seq<ScriptItem>) -> nat {
    seq_ids(items) + 1
}

/// The menu of `result`'s items (see [`full_menu`]), its clickable entries numbered
/// from `next` on, with what each one does.
pub fn set_menu(
    result: &ScriptResult,
    next: &mut u64,
) -> (r: (Vec<MenuEntry>, std::collections::HashMap<u64, Action>))
    requires
        *old(next) + menu_ids(result.items@) <= u64::MAX,
    ensures
        *final(next) == *old(next) + menu_ids(result.items@),
        entries_model(r.0@) == full_menu(result.items@, *old(next) as nat),
        actions_view(r.1@) == menu_actions(full_menu(result.items@, *old(next) as nat)),
{
    let ghost n0 = *next as nat;
    let mut menu: Vec<MenuEntry> = Vec::new();
    let mut actions: std::collections::HashMap<u64, Action> = std::collections::HashMap::new();
    assert(entries_model(menu@) =~= Seq::<MenuModel>::empty());
    assert(actions_view(actions@) =~= Map::<u64, ActionModel>::empty());
    append_items(result.items.as_slice(), next, &mut menu, &mut actions);
    let sep = MenuEntry::Separator;
    proof {
        lemma_entries_model_push(menu@, sep);
    }
    menu.push(sep);
    let id = *next;
    *next = id + 1;
    actions.insert(id, Action::Refresh);
    let update = MenuEntry::Clickable { id, title: "Update".to_owned(), action: Action::Refresh };
    proof {
        lemma_entries_model_push(menu@, update);
    }
    menu.push(update);
    proof {
        let tail = seq![
            MenuModel::Separator,
            MenuModel::Clickable { id, title: "Update"@, action: ActionModel::Refresh },
        ];
        assert(entries_model(menu@) =~= full_menu(result.items@, n0));
        lemma_menu_actions_concat(seq_menu(result.items@, n0), tail);
        assert(tail.drop_last() =~= seq![MenuModel::Separator]);
        lemma_menu_actions_single(MenuModel::Separator);
        assert(entry_actions(MenuModel::Separator) =~= Map::<u64, ActionModel>::empty());
        assert(tail.last() == MenuModel::Clickable {
            id,
            title: "Update"@,
            action: ActionModel::Refresh,
        });
        assert(Map::<u64, ActionModel>::empty().union_prefer_right(map![id => ActionModel::Refresh])
            =~= map![id => ActionModel::Refresh]);
        assert(menu_actions(tail.drop_last()) =~= Map::<u64, ActionModel>::empty());
        assert(entry_actions(tail.last()) =~= map![id => ActionModel::Refresh]);
        assert(menu_actions(tail) == menu_actions(tail.drop_last()).union_prefer_right(
            entry_actions(tail.last()),
        ));
        assert(menu_actions(tail) =~= map![id => ActionModel::Refresh]);
        assert(Map::<u64, ActionModel>::empty().union_prefer_right(
            menu_actions(seq_menu(result.items@, n0)),
        ) =~= menu_actions(seq_menu(result.items@, n0)));
        assert(actions_view(actions@) =~= menu_actions(full_menu(result.items@, n0)));
    }
    (menu, actions)
}

proof fn lemma_item_ids_range(item: ScriptItem, next: nat)
    requires
        next + item_ids(item) <= u64::MAX,
    ensures
        forall|k: u64| #[trigger]
            menu_actions(item_menu(item, next)).contains_key(k) ==> next <= k < next + item_ids(
                item,
            ),
    decreases item,
{
    let m = item_menu(item, next);
    if m.len() == 1 {
        lemma_menu_actions_single(m[0]);
        assert(m =~= seq![m[0]]);
        match item.item_type {
            ScriptItemType::Submenu => {
                assert(decreases_to!(item => item.items->0@));
                lemma_seq_ids_range(item.items->0@, next);
                assert(entry_actions(m[0]) == menu_actions(seq_menu(item.items->0@, next)));
            },
            ScriptItemType::Link => {
                assert(entry_actions(m[0]) =~= map![next as u64 => ActionModel::OpenUrl(item.path->0@)]);
            },
            _ => {
                assert(entry_actions(m[0]) =~= Map::<u64, ActionModel>::empty());
            },
        }
    } else {
        assert(m =~= Seq::<MenuModel>::empty());
    }
}

proof fn lemma_seq_ids_range(items: Seq<ScriptItem>, next: nat)
    requires
        next + seq_ids(items) <= u64::MAX,
    ensures
        forall|k: u64| #[trigger]
            menu_actions(seq_menu(items, next)).contains_key(k) ==> next <= k < next + seq_ids(
                items,
            ),
    decreases items,
{
    if items.len() > 0 {
        let dl = items.drop_last();
        lemma_seq_ids_range(dl, next);
        lemma_item_ids_range(items.last(), next + seq_ids(dl));
        lemma_menu_actions_concat(seq_menu(dl, next), item_menu(items.last(), next + seq_ids(dl)));
    }
}

/// Every clickable id of the menu built from `next` on lies in
/// `next .. next + menu_ids(items)`: the ids a menu takes are fresh.
pub proof fn lemma_menu_ids_fresh(items: Seq<ScriptItem>, next: nat)
    requires
        next + menu_ids(items) <= u64::MAX,
    ensures
        forall|k: u64| #[trigger]
            menu_actions(full_menu(items, next)).contains_key(k) ==> next <= k < next + menu_ids(
                items,
            ),
{
    let id = (next + seq_ids(items)) as u64;
    let tail = seq![
        MenuModel::Separator,
        MenuModel::Clickable { id, title: "Update"@, action: ActionModel::Refresh },
    ];
    lemma_seq_ids_range(items, next);
    lemma_menu_actions_concat(seq_menu(items, next), tail);
    assert(tail.drop_last() =~= seq![MenuModel::Separator]);
    lemma_menu_actions_single(MenuModel::Separator);
    assert(entry_actions(MenuModel::Separator) =~= Map::<u64, ActionModel>::empty());
    assert(menu_actions(tail.drop_last()) =~= Map::<u64, ActionModel>::empty());
    assert(entry_actions(tail.last()) =~= map![id => ActionModel::Refresh]);
    assert(menu_actions(tail) =~= map![id => ActionModel::Refresh]);
}

/// The number of menu ids that the entries for `items` take, where it fits a `u64`.
pub fn count_seq_ids(items: &[ScriptItem]) -> (r: Option<u64>)
    ensures
        r matches Some(n) ==> n == seq_ids(items@),
        r is None ==> seq_ids(items@) > u64::MAX,
    decreases items@,
{
    let mut total: u64 = 0;
    let mut i: usize = 0;
    while i < items.len()
        invariant
            0 <= i <= items.len(),
            total == seq_ids(items@.take(i as int)),
        decreases items.len() - i,
    {
        proof {
            assert(items@.take(i + 1).drop_last() =~= items@.take(i as int));
            assert(decreases_to!(items@ => items@[i as int]));
        }
        let n = match count_item_ids(&items[i]) {
            Some(n) => n,
            None => {
                proof {
                    lemma_seq_ids_prefix(items@, i + 1);
                }
                return None;
            },
        };
        match total.checked_add(n) {
            Some(t) => {
                total = t;
            },
            None => {
                proof {
                    lemma_seq_ids_prefix(items@, i + 1);
                }
                return None;
            },
        }
        i = i + 1;
    }
    assert(items@.take(items.len() as int) =~= items@);
    Some(total)
}

/// The number of menu ids that the entries for `item` take, where it fits a `u64`.
pub fn count_item_ids(item: &ScriptItem) -> (r: Option<u64>)
    ensures
        r matches Some(n) ==> n == item_ids(*item),
        r is None ==> item_ids(*item) > u64::MAX,
    decreases item,
{
    match item.item_type {
        ScriptItemType::Link => match (&item.title, &item.path) {
            (Some(title), Some(url)) => if !title.as_str().is_empty()
                && !url.as_str().is_empty() {
                Some(1)
            } else {
                Some(0)
            },
            _ => Some(0),
        },
        ScriptItemType::Submenu => match (&item.title, &item.items) {
            (Some(title), Some(children)) => if !title.as_str().is_empty() && children.len() > 0 {
                proof {
                    assert(decreases_to!(*item => children@));
                }
                count_seq_ids(children.as_slice())
            } else {
                Some(0)
            },
            _ => Some(0),
        },
        _ => Some(0),
    }
}

/// The entries of one item alone, numbered from `next`.
proof fn lemma_seq_menu_single(x: ScriptItem, next: nat)
    ensures
        seq_menu(seq![x], next) == item_menu(x, next),
        seq_ids(seq![x]) == item_ids(x),
{
    let s = seq![x];
    assert(s.drop_last() =~= Seq::<ScriptItem>::empty());
    assert(s.last() == x);
    assert(seq_ids(Seq::<ScriptItem>::empty()) == 0);
    assert(seq_menu(Seq::<ScriptItem>::empty(), next) =~= Seq::<MenuModel>::empty());
    assert(seq_menu(s, next) == seq_menu(s.drop_last(), next) + item_menu(
        s.last(),
        next + seq_ids(s.drop_last()),
    ));
    assert(seq_menu(s, next) =~= item_menu(x, next));
}

/// The entries of a sequence of items are those of its first part followed by those
/// of the rest, numbered on from where the first part stopped; the ids add up.
pub proof fn lemma_seq_menu_concat(a: Seq<ScriptItem>, b: Seq<ScriptItem>, next: nat)
    ensures
        seq_menu(a + b, next) == seq_menu(a, next) + seq_menu(b, next + seq_ids(a)),
        seq_ids(a + b) == seq_ids(a) + seq_ids(b),
    decreases b.len(),
{
    if b.len() == 0 {
        assert(a + b =~= a);
        assert(seq_menu(a, next) + seq_menu(b, next + seq_ids(a)) =~= seq_menu(a, next));
    } else {
        assert((a + b).drop_last() =~= a + b.drop_last());
        assert((a + b).last() == b.last());
        lemma_seq_menu_concat(a, b.drop_last(), next);
        assert(seq_menu(a + b, next) =~= seq_menu(a, next) + seq_menu(b, next + seq_ids(a)));
    }
}

/// A shown submenu (a title and at least one child) is a single entry whose children
/// are the entries of every child, one after the other: the first child's entries
/// numbered from `next`, each later child's numbered on from where the earlier ones
/// stopped; the ids it takes are the sum over every child.
pub proof fn lemma_submenu_holds_every_child(item: ScriptItem, next: nat)
    requires
        item.item_type == ScriptItemType::Submenu,
        shown_text(item.title),
        item.items is Some,
        item.items->0@.len() > 0,
    ensures
        item_menu(item, next) == seq![
            MenuModel::Submenu {
                title: item.title->0@,
                children: seq_menu(item.items->0@, next),
            },
        ],
        item_ids(item) == seq_ids(item.items->0@),
        forall|i: int|
            0 <= i < item.items->0@.len() ==> {
                &&& seq_menu(item.items->0@, next) == seq_menu(item.items->0@.take(i), next)
                    + item_menu(
                    #[trigger] item.items->0@[i],
                    next + seq_ids(item.items->0@.take(i)),
                ) + seq_menu(
                    item.items->0@.skip(i + 1),
                    next + seq_ids(item.items->0@.take(i + 1)),
                )
                &&& seq_ids(item.items->0@.take(i + 1)) == seq_ids(item.items->0@.take(i))
                    + item_ids(item.items->0@[i])
            },
{
    let c = item.items->0@;
    assert forall|i: int| 0 <= i < c.len() implies {
        &&& seq_menu(c, next) == seq_menu(c.take(i), next) + item_menu(
            #[trigger] c[i],
            next + seq_ids(c.take(i)),
        ) + seq_menu(c.skip(i + 1), next + seq_ids(c.take(i + 1)))
        &&& seq_ids(c.take(i + 1)) == seq_ids(c.take(i)) + item_ids(c[i])
    } by {
        assert(c.take(i + 1) =~= c.take(i) + seq![c[i]]);
        assert(c =~= c.take(i + 1) + c.skip(i + 1));
        lemma_seq_menu_concat(c.take(i), seq![c[i]], next);
        lemma_seq_menu_single(c[i], next + seq_ids(c.take(i)));
        lemma_seq_menu_concat(c.take(i + 1), c.skip(i + 1), next);
    }
}

} // verus!
