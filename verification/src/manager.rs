//! Which files are plugin scripts, and the set of running plugins with their menus.

use vstd::prelude::*;
use vstd::string::StringSliceAdditionalSpecFns;
use vstd::std_specs::iter::IteratorSpec;
use crate::time_parse::{interval_of_bytes, interval_seconds};
use crate::hash::xxh3_64_spec;
use crate::menu::{Action, ActionModel, actions_view, lemma_menu_ids_fresh, menu_actions};
use crate::plugin::{apply_spec, EffectModel, OutputEffect, Plugin, PluginView};
use crate::script::ScriptResult;

verus! {

/// Position of the first `c` in `s`.
pub open spec fn find_byte(s: Seq<u8>, c: u8) -> Option<nat>
    decreases s.len(),
{
    if s.len() == 0 {
        None
    } else if s[0] == c {
        Some(0)
    } else {
        match find_byte(s.drop_first(), c) {
            Some(i) => Some(i + 1),
            None => None,
        }
    }
}

/// The interval part of a script file name `<name>.<interval>.sh`: the text between the
/// first and the second dot, where the text after the second dot is exactly `sh`.
pub open spec fn script_interval_part(b: Seq<u8>) -> Option<Seq<u8>> {
    match find_byte(b, 46) {
        None => None,
        Some(i) => {
            let rest = b.skip(i + 1 as int);
            match find_byte(rest, 46) {
                None => None,
                Some(j) => if rest.skip(j + 1 as int) == seq![115u8, 104u8] {
                    Some(rest.take(j as int))
                } else {
                    None
                },
            }
        },
    }
}

/// The interval part ends with `n`: the plugin notifies on changes.
pub open spec fn part_notifies(p: Seq<u8>) -> bool {
    p.len() > 0 && p.last() == 110
}

/// What a file name in the plugins folder stands for.
#[derive(Debug, Clone, Copy, PartialEq, Eq)]
pub enum ScriptName {
    /// A plugin script run every `interval` seconds, notifying on changes where `notify`.
    Plugin { interval: u64, notify: bool },
    /// Not a plugin script.
    NotAPlugin,
    /// A plugin script whose interval does not fit a `u64` number of seconds.
    IntervalOverflow,
}

proof fn lemma_find_byte(s: Seq<u8>, c: u8, i: int)
    requires
        0 <= i <= s.len(),
        forall|k: int| 0 <= k < i ==> #[trigger] s[k] != c,
    ensures
        i < s.len() && s[i] == c ==> find_byte(s, c) == Some(i as nat),
        i == s.len() ==> find_byte(s, c) is None,
    decreases i,
{
    if i > 0 {
        let t = s.drop_first();
        assert forall|k: int| 0 <= k < i - 1 implies #[trigger] t[k] != c by {
            assert(t[k] == s[k + 1]);
        }
        if i < s.len() {
            assert(t[i - 1] == s[i]);
        }
        lemma_find_byte(t, c, i - 1);
    }
}

/// Position of the first `c` at or after `from`.
fn find_from(b: &[u8], from: usize, c: u8) -> (r: Option<usize>)
    requires
        from <= b@.len(),
    ensures
        match find_byte(b@.skip(from as int), c) {
            Some(i) => from + i < b@.len() && r == Some((from + i) as usize),
            None => r is None,
        },
        r matches Some(i) ==> from <= i < b@.len() && b@[i as int] == c,
{
    let ghost s = b@.skip(from as int);
    let mut i = from;
    while i < b.len()
        invariant
            from <= i <= b@.len(),
            s == b@.skip(from as int),
            forall|k: int| 0 <= k < i - from ==> #[trigger] s[k] != c,
        decreases b.len() - i,
    {
        if b[i] == c {
            proof {
                lemma_find_byte(s, c, i - from);
            }
            return Some(i);
        }
        i = i + 1;
    }
    proof {
        lemma_find_byte(s, c, i - from);
    }
    None
}

/// What the file name `name` stands for: a plugin script `<name>.<interval>.sh` runs
/// every `time_parse(<interval>)` seconds and notifies where the interval part ends in
/// `n`; any other name is not a plugin.
pub fn plugin_script_entry(name: &str) -> (r: ScriptName)
    ensures
        match script_interval_part(name.spec_bytes()) {
            None => r == ScriptName::NotAPlugin,
            Some(part) => if interval_seconds(part) <= u64::MAX {
                r == (ScriptName::Plugin {
                    interval: interval_seconds(part) as u64,
                    notify: part_notifies(part),
                })
            } else {
                r == ScriptName::IntervalOverflow
            },
        },
{
    let b = name.as_bytes();
    let n = b.len();
    let first = match find_from(b, 0, 46) {
        Some(i) => i,
        None => {
            assert(b@.skip(0) =~= b@);
            return ScriptName::NotAPlugin;
        },
    };
    assert(b@.skip(0) =~= b@);
    assert(find_byte(b@, 46) == Some(first as nat));
    let second = match find_from(b, first + 1, 46) {
        Some(j) => j,
        None => {
            assert(find_byte(b@.skip(first + 1), 46) is None);
            return ScriptName::NotAPlugin;
        },
    };
    let ghost rest = b@.skip(first + 1);
    let ghost j = second - first - 1;
    assert(rest.skip(j + 1) =~= b@.skip(second + 1));
    if !(n - second == 3 && b[second + 1] == 115 && b[second + 2] == 104) {
        assert(b@.skip(second + 1) != seq![115u8, 104u8]) by {
            if b@.skip(second + 1) == seq![115u8, 104u8] {
                assert(b@.skip(second + 1).len() == 2);
                assert(b@.skip(second + 1)[0] == b@[second + 1]);
                assert(b@.skip(second + 1)[1] == b@[second + 2]);
            }
        }
        return ScriptName::NotAPlugin;
    }
    assert(b@.skip(second + 1) =~= seq![115u8, 104u8]);
    let mut part: Vec<u8> = Vec::new();
    let mut k = first + 1;
    while k < second
        invariant
            first + 1 <= k <= second,
            second < b@.len(),
            part@ == b@.subrange(first + 1, k as int),
        decreases second - k,
    {
        part.push(b[k]);
        k = k + 1;
        assert(part@ =~= b@.subrange(first + 1, k as int));
    }
    assert(part@ =~= rest.take(j));
    let notify = part.len() > 0 && part[part.len() - 1] == 110;
    match interval_of_bytes(part.as_slice()) {
        Some(interval) => ScriptName::Plugin { interval, notify },
        None => ScriptName::IntervalOverflow,
    }
}

/// The keys of `m`, each once.
fn map_keys<V>(m: &std::collections::HashMap<u64, V>) -> (ks: Vec<u64>)
    ensures
        ks@.to_set() == m@.dom(),
        ks@.no_duplicates(),
{
    broadcast use vstd::std_specs::hash::group_hash_axioms;
    let mut ks: Vec<u64> = Vec::new();
    for k in it: m.keys()
        invariant
            ks@ == it.seq().take(it.index() as int).map_values(|r: &u64| *r),
            it.seq() == vstd::std_specs::hash::spec_keys_iter(m).remaining(),
    {
        ks.push(*k);
    }
    let ghost all = vstd::std_specs::hash::spec_keys_iter(m).remaining();
    assert(ks@ =~= all.unref());
    ks
}

/// The fields of a [`PluginManager`].
struct ManagerState {
    /// The plugins, by id.
    pub plugins: std::collections::HashMap<u64, Plugin>,
    /// The plugin that each menu id of a plugin menu belongs to.
    pub menu_to_plugin: std::collections::HashMap<u64, u64>,
    /// The first menu id not handed out yet.
    pub next_menu_id: u64,
}

/// A [`PluginManager`] as a value of specifications.
pub struct ManagerView {
    pub plugins: Map<u64, PluginView>,
    pub menu_to_plugin: Map<u64, u64>,
    pub next_menu_id: u64,
}

impl View for ManagerState {
    type V = ManagerView;

    closed spec fn view(&self) -> ManagerView {
        ManagerView {
            plugins: self.plugins@.map_values(|p: Plugin| p@),
            menu_to_plugin: self.menu_to_plugin@,
            next_menu_id: self.next_menu_id,
        }
    }
}

/// The state is consistent: each plugin sits under its own id; a menu id belongs to a
/// plugin exactly when that plugin's menu has it; every menu id in use was handed out.
pub open spec fn manager_wf(v: ManagerView) -> bool {
    &&& forall|pid: u64| #[trigger] v.plugins.contains_key(pid) ==> v.plugins[pid].id == pid
    &&& forall|m: u64| #[trigger]
        v.menu_to_plugin.contains_key(m) ==> v.plugins.contains_key(v.menu_to_plugin[m])
            && v.plugins[v.menu_to_plugin[m]].actions.contains_key(m)
    &&& forall|pid: u64, m: u64|
        v.plugins.contains_key(pid) && #[trigger] v.plugins[pid].actions.contains_key(m)
            ==> v.menu_to_plugin.contains_key(m) && v.menu_to_plugin[m] == pid && m
            < v.next_menu_id
}

/// A plugin just made for the script at `path`: nothing shown yet.
pub open spec fn fresh_plugin(path: Seq<u8>, interval: u64, notify: bool) -> PluginView {
    PluginView {
        id: xxh3_64_spec(path),
        path,
        interval,
        notify,
        cached: None,
        output_hash: None,
        actions: Map::empty(),
    }
}

/// The plugins made for `scripts` (path bytes, interval, notify), each under its id; of
/// two scripts with one id the later stays.
pub open spec fn started_plugins(scripts: Seq<(Vec<u8>, u64, bool)>) -> Map<u64, PluginView>
    decreases scripts.len(),
{
    if scripts.len() == 0 {
        Map::empty()
    } else {
        let s = scripts.last();
        started_plugins(scripts.drop_last()).insert(
            xxh3_64_spec(s.0@),
            fresh_plugin(s.0@, s.1, s.2),
        )
    }
}

/// The ids of the plugins made for `scripts`, in order.
pub open spec fn script_ids(scripts: Seq<(Vec<u8>, u64, bool)>) -> Seq<u64> {
    scripts.map_values(|s: (Vec<u8>, u64, bool)| xxh3_64_spec(s.0@))
}

/// What applying `output` to the plugin `id` does to the manager, and what the tray
/// has to do (`None` where no such plugin runs): the plugin's old menu ids are
/// released; a removed plugin is dropped; otherwise the plugin takes its new state (see
/// [`apply_spec`]) and its menu ids now belong to it.
pub open spec fn manager_apply_spec(v: ManagerView, id: u64, output: Option<ScriptResult>) -> (
    ManagerView,
    Option<EffectModel>,
) {
    if !v.plugins.contains_key(id) {
        (v, None)
    } else {
        let p = v.plugins[id];
        let (p1, effect, n1) = apply_spec(p, output, v.next_menu_id as nat);
        let cleared = v.menu_to_plugin.remove_keys(p.actions.dom());
        if effect is Remove {
            (
                ManagerView {
                    plugins: v.plugins.remove(id),
                    menu_to_plugin: cleared,
                    next_menu_id: v.next_menu_id,
                },
                Some(effect),
            )
        } else {
            (
                ManagerView {
                    plugins: v.plugins.insert(id, p1),
                    menu_to_plugin: cleared.union_prefer_right(
                        Map::new(|m: u64| p1.actions.contains_key(m), |m: u64| id),
                    ),
                    next_menu_id: n1 as u64,
                },
                Some(effect),
            )
        }
    }
}

/// What a click on a menu id leads to.
#[derive(Debug)]
pub enum Click {
    /// The id belongs to no plugin action.
    Nothing,
    /// Run the plugin with this id again.
    Refresh(u64),
    /// Open this URL or path.
    OpenUrl(String),
}

impl ManagerState {
    /// No plugins.
    fn new() -> (m: Self)
        ensures
            m@.plugins == Map::<u64, PluginView>::empty(),
            m@.menu_to_plugin == Map::<u64, u64>::empty(),
            m@.next_menu_id == 0,
            manager_wf(m@),
    {
        let m = ManagerState {
            plugins: std::collections::HashMap::new(),
            menu_to_plugin: std::collections::HashMap::new(),
            next_menu_id: 0,
        };
        assert(m@.plugins =~= Map::<u64, PluginView>::empty());
        m
    }

    /// Drops every plugin; returns the ids of the plugins whose runs are to be stopped.
    fn terminate(&mut self) -> (stopped: Vec<u64>)
        ensures
            stopped@.to_set() == old(self)@.plugins.dom(),
            stopped@.no_duplicates(),
            final(self)@.plugins == Map::<u64, PluginView>::empty(),
            final(self)@.menu_to_plugin == Map::<u64, u64>::empty(),
            final(self)@.next_menu_id == old(self)@.next_menu_id,
            manager_wf(final(self)@),
    {
        let stopped = map_keys(&self.plugins);
        self.plugins.clear();
        self.menu_to_plugin.clear();
        assert(self@.plugins =~= Map::<u64, PluginView>::empty());
        assert(old(self)@.plugins.dom() =~= old(self).plugins@.dom());
        stopped
    }

    /// Drops every plugin, then makes one for each of `scripts` (path bytes, interval,
    /// notify). Returns the ids of the plugins whose runs are to be stopped, and the ids
    /// of the plugins made, in order, whose runs are to be started.
    fn start(&mut self, scripts: Vec<(Vec<u8>, u64, bool)>) -> (r: (Vec<u64>, Vec<u64>))
        ensures
            r.0@.to_set() == old(self)@.plugins.dom(),
            r.0@.no_duplicates(),
            r.1@ == script_ids(scripts@),
            final(self)@.plugins == started_plugins(scripts@),
            final(self)@.menu_to_plugin == Map::<u64, u64>::empty(),
            final(self)@.next_menu_id == old(self)@.next_menu_id,
            manager_wf(final(self)@),
    {
        broadcast use vstd::std_specs::hash::group_hash_axioms;
        let stopped = self.terminate();
        let mut started: Vec<u64> = Vec::new();
        let ghost all = scripts@;
        for entry in it: scripts
            invariant
                it.seq() == all,
                started@ == script_ids(all.take(it.index() as int)),
                self@.plugins == started_plugins(all.take(it.index() as int)),
                self@.menu_to_plugin == Map::<u64, u64>::empty(),
                self.next_menu_id == old(self).next_menu_id,
                manager_wf(self@),
        {
            let ghost k = it.index();
            proof {
                assert(all.take(k + 1).drop_last() =~= all.take(k as int));
                assert(all.take(k + 1).last() == entry);
            }
            let (path, interval, notify) = entry;
            let p = Plugin::new(path, interval, notify);
            let id = p.id;
            started.push(id);
            self.plugins.insert(id, p);
            assert(started@ =~= script_ids(all.take(k + 1)));
            assert(self@.plugins =~= started_plugins(all.take(k + 1)));
        }
        assert(all.take(all.len() as int) =~= all);
        (stopped, started)
    }

    /// Applies a run's output to the plugin `id` (see [`manager_apply_spec`]); returns
    /// what its tray has to do, or `None` where no such plugin runs.
    fn apply_output(&mut self, id: u64, output: Option<ScriptResult>) -> (r: Option<
        OutputEffect,
    >)
        requires
            manager_wf(old(self)@),
        ensures
            (final(self)@, match r {
                Some(e) => Some(e@),
                None => None,
            }) == manager_apply_spec(old(self)@, id, output),
            manager_wf(final(self)@),
    {
        broadcast use vstd::std_specs::hash::group_hash_axioms;
        let ghost v = self@;
        let mut plugin = match self.plugins.remove(&id) {
            Some(p) => p,
            None => {
                assert(self@.plugins =~= v.plugins);
                return None;
            },
        };
        let ghost p0 = plugin@;
        let ghost rest = self.plugins@;
        assert(rest == old(self).plugins@.remove(id));
        assert(v.plugins[id] == p0);
        let old_ids = map_keys(&plugin.actions);
        let mut i: usize = 0;
        while i < old_ids.len()
            invariant
                0 <= i <= old_ids.len(),
                self.menu_to_plugin@ == v.menu_to_plugin.remove_keys(
                    old_ids@.take(i as int).to_set(),
                ),
                self.plugins@ == rest,
                self.next_menu_id == v.next_menu_id,
            decreases old_ids.len() - i,
        {
            self.menu_to_plugin.remove(&old_ids[i]);
            proof {
                assert(old_ids@.take(i + 1) =~= old_ids@.take(i as int).push(old_ids@[i as int]));
                old_ids@.take(i as int).lemma_push_to_set_commute(old_ids@[i as int]);
                assert(self.menu_to_plugin@ =~= v.menu_to_plugin.remove_keys(
                    old_ids@.take(i + 1).to_set(),
                ));
            }
            i = i + 1;
        }
        proof {
            assert(old_ids@.take(old_ids.len() as int) =~= old_ids@);
            assert(p0.actions.dom() =~= plugin.actions@.dom());
        }
        let effect = plugin.apply_output(output, &mut self.next_menu_id);
        let ghost p1 = plugin@;
        match effect {
            OutputEffect::Remove => {
                proof {
                    assert(self@.plugins =~= v.plugins.remove(id));
                    lemma_apply_keeps_wf(v, id, output);
                }
                return Some(effect);
            },
            _ => {},
        }
        let new_ids = map_keys(&plugin.actions);
        let ghost cleared = self.menu_to_plugin@;
        let ghost n1 = self.next_menu_id;
        let mut j: usize = 0;
        while j < new_ids.len()
            invariant
                0 <= j <= new_ids.len(),
                self.menu_to_plugin@ == cleared.union_prefer_right(
                    Map::new(|m: u64| new_ids@.take(j as int).to_set().contains(m), |m: u64| id),
                ),
                self.plugins@ == rest,
                self.next_menu_id == n1,
            decreases new_ids.len() - j,
        {
            self.menu_to_plugin.insert(new_ids[j], id);
            proof {
                assert(new_ids@.take(j + 1) =~= new_ids@.take(j as int).push(new_ids@[j as int]));
                new_ids@.take(j as int).lemma_push_to_set_commute(new_ids@[j as int]);
                assert(self.menu_to_plugin@ =~= cleared.union_prefer_right(
                    Map::new(|m: u64| new_ids@.take(j + 1).to_set().contains(m), |m: u64| id),
                ));
            }
            j = j + 1;
        }
        proof {
            assert(new_ids@.take(new_ids.len() as int) =~= new_ids@);
            assert(p1.actions.dom() =~= plugin.actions@.dom());
            assert(self.menu_to_plugin@ =~= cleared.union_prefer_right(
                Map::new(|m: u64| p1.actions.contains_key(m), |m: u64| id),
            ));
        }
        self.plugins.insert(id, plugin);
        proof {
            assert(self@.plugins =~= v.plugins.insert(id, p1));
            lemma_apply_keeps_wf(v, id, output);
        }
        Some(effect)
    }

    /// What a click on menu id `id` does: the action of the plugin it belongs to.
    fn handle_click(&self, id: u64) -> (r: Click)
        requires
            manager_wf(self@),
        ensures
            match self@.menu_to_plugin.get(id) {
                Some(pid) => match self@.plugins[pid].actions[id] {
                    ActionModel::Refresh => r matches Click::Refresh(p) && p == pid,
                    ActionModel::OpenUrl(url) => r matches Click::OpenUrl(u) && u@ == url,
                },
                None => r matches Click::Nothing,
            },
    {
        broadcast use vstd::std_specs::hash::group_hash_axioms;
        let pid = match self.menu_to_plugin.get(&id) {
            Some(p) => *p,
            None => {
                return Click::Nothing;
            },
        };
        let plugin = match self.plugins.get(&pid) {
            Some(p) => p,
            None => {
                return Click::Nothing;
            },
        };
        match plugin.actions.get(&id) {
            Some(Action::Refresh) => Click::Refresh(pid),
            Some(Action::OpenUrl(url)) => Click::OpenUrl(url.clone()),
            None => Click::Nothing,
        }
    }
}

/// Applying an output to a plugin keeps the manager consistent (see [`manager_wf`]).
pub proof fn lemma_apply_keeps_wf(v: ManagerView, id: u64, output: Option<ScriptResult>)
    requires
        manager_wf(v),
    ensures
        manager_wf(manager_apply_spec(v, id, output).0),
{
    if v.plugins.contains_key(id) {
        let p = v.plugins[id];
        let (p1, effect, n1) = apply_spec(p, output, v.next_menu_id as nat);
        let w = manager_apply_spec(v, id, output).0;
        match output {
            Some(r) => {
                if effect is Redraw {
                    lemma_menu_ids_fresh(r.items@, v.next_menu_id as nat);
                }
            },
            None => {},
        }
        assert forall|pid: u64, m: u64|
            w.plugins.contains_key(pid) && #[trigger] w.plugins[pid].actions.contains_key(m)
                implies w.menu_to_plugin.contains_key(m) && w.menu_to_plugin[m] == pid && m
                < w.next_menu_id by {
            if pid != id {
                assert(v.plugins[pid].actions.contains_key(m));
                assert(!p.actions.contains_key(m));
            }
        }
        assert forall|m: u64| #[trigger]
            w.menu_to_plugin.contains_key(m) implies w.plugins.contains_key(w.menu_to_plugin[m])
                && w.plugins[w.menu_to_plugin[m]].actions.contains_key(m) by {
            if !(effect is Remove) && p1.actions.contains_key(m) {
            } else {
                assert(v.menu_to_plugin.contains_key(m));
                assert(!p.actions.contains_key(m));
                assert(v.menu_to_plugin[m] != id);
            }
        }
    }
}

/// An output that leaves a plugin's display unchanged leaves the whole manager as it
/// was: the plugin keeps its actions, and every id of the menu still shown routes to
/// it and does what it did.
pub proof fn lemma_unchanged_output_keeps_routing(v: ManagerView, id: u64, output: Option<ScriptResult>)
    requires
        manager_wf(v),
        manager_apply_spec(v, id, output).1 == Some(EffectModel::Unchanged),
    ensures
        manager_apply_spec(v, id, output).0 == v,
        forall|m: u64| #[trigger]
            v.plugins[id].actions.contains_key(m) ==> manager_apply_spec(v, id, output).0.menu_to_plugin.get(m)
                == Some(id) && manager_apply_spec(v, id, output).0.plugins[id].actions[m]
                == v.plugins[id].actions[m],
{
    let p = v.plugins[id];
    let w = manager_apply_spec(v, id, output).0;
    assert(w.plugins =~= v.plugins);
    assert forall|m: u64| #[trigger] w.menu_to_plugin.contains_key(m) == v.menu_to_plugin.contains_key(m)
        && (w.menu_to_plugin.contains_key(m) ==> w.menu_to_plugin[m] == v.menu_to_plugin[m]) by {
        if p.actions.contains_key(m) {
            assert(v.menu_to_plugin.contains_key(m) && v.menu_to_plugin[m] == id);
        }
    }
    assert(w.menu_to_plugin =~= v.menu_to_plugin);
}

/// After an output is shown, a click on any id of the shown menu is routed to this
/// plugin and does what the shown menu says.
pub proof fn lemma_click_follows_shown_menu(
    v: ManagerView,
    id: u64,
    output: Option<ScriptResult>,
    m: u64,
)
    requires
        manager_wf(v),
        manager_apply_spec(v, id, output).1 matches Some(EffectModel::Redraw { menu, .. })
            && menu_actions(menu).contains_key(m),
    ensures
        ({
            let w = manager_apply_spec(v, id, output).0;
            let menu = manager_apply_spec(v, id, output).1->0->menu;
            &&& w.menu_to_plugin.get(m) == Some(id)
            &&& w.plugins[id].actions[m] == menu_actions(menu)[m]
        }),
{
    lemma_apply_keeps_wf(v, id, output);
}

/// The running plugins, and which plugin each menu id belongs to; always consistent
/// (see [`manager_wf`]).
pub struct PluginManager {
    state: ManagerState,
}

impl View for PluginManager {
    type V = ManagerView;

    closed spec fn view(&self) -> ManagerView {
        self.state@
    }
}

impl PluginManager {
    #[verifier::type_invariant]
    spec fn consistent(self) -> bool {
        manager_wf(self.state@)
    }

    /// No plugins.
    pub fn new() -> (m: Self)
        ensures
            m@.plugins == Map::<u64, PluginView>::empty(),
            m@.menu_to_plugin == Map::<u64, u64>::empty(),
            m@.next_menu_id == 0,
    {
        PluginManager { state: ManagerState::new() }
    }

    /// Drops every plugin; returns the ids of the plugins whose runs are to be stopped.
    pub fn terminate(&mut self) -> (stopped: Vec<u64>)
        ensures
            stopped@.to_set() == old(self)@.plugins.dom(),
            stopped@.no_duplicates(),
            final(self)@.plugins == Map::<u64, PluginView>::empty(),
            final(self)@.menu_to_plugin == Map::<u64, u64>::empty(),
            final(self)@.next_menu_id == old(self)@.next_menu_id,
    {
        proof {
            use_type_invariant(&*self);
        }
        let mut st = ManagerState::new();
        std::mem::swap(&mut st, &mut self.state);
        let stopped = st.terminate();
        self.state = st;
        stopped
    }

    /// Drops every plugin, then makes one for each of `scripts` (path bytes, interval,
    /// notify). Returns the ids of the plugins whose runs are to be stopped, and the ids
    /// of the plugins made, in order, whose runs are to be started.
    pub fn start(&mut self, scripts: Vec<(Vec<u8>, u64, bool)>) -> (r: (Vec<u64>, Vec<u64>))
        ensures
            r.0@.to_set() == old(self)@.plugins.dom(),
            r.0@.no_duplicates(),
            r.1@ == script_ids(scripts@),
            final(self)@.plugins == started_plugins(scripts@),
            final(self)@.menu_to_plugin == Map::<u64, u64>::empty(),
            final(self)@.next_menu_id == old(self)@.next_menu_id,
    {
        proof {
            use_type_invariant(&*self);
        }
        let mut st = ManagerState::new();
        std::mem::swap(&mut st, &mut self.state);
        let r = st.start(scripts);
        self.state = st;
        r
    }

    /// Applies a run's output to the plugin `id` (see [`manager_apply_spec`]); returns
    /// what its tray has to do, or `None` where no such plugin runs.
    pub fn apply_output(&mut self, id: u64, output: Option<ScriptResult>) -> (r: Option<
        OutputEffect,
    >)
        ensures
            (final(self)@, match r {
                Some(e) => Some(e@),
                None => None,
            }) == manager_apply_spec(old(self)@, id, output),
    {
        proof {
            use_type_invariant(&*self);
        }
        let mut st = ManagerState::new();
        std::mem::swap(&mut st, &mut self.state);
        let r = st.apply_output(id, output);
        self.state = st;
        r
    }

    /// What a click on menu id `id` does: the action of the plugin it belongs to.
    pub fn handle_click(&self, id: u64) -> (r: Click)
        ensures
            match self@.menu_to_plugin.get(id) {
                Some(pid) => match self@.plugins[pid].actions[id] {
                    ActionModel::Refresh => r matches Click::Refresh(p) && p == pid,
                    ActionModel::OpenUrl(url) => r matches Click::OpenUrl(u) && u@ == url,
                },
                None => r matches Click::Nothing,
            },
    {
        proof {
            use_type_invariant(self);
        }
        self.state.handle_click(id)
    }

    /// Number of running plugins.
    pub fn plugin_count(&self) -> (n: usize)
        ensures
            n == self@.plugins.len(),
    {
        broadcast use vstd::std_specs::hash::group_hash_axioms;
        assert(self.state.plugins@.map_values(|p: Plugin| p@).dom() =~= self.state.plugins@.dom());
        self.state.plugins.len()
    }

    /// Whether a plugin with id `id` runs.
    pub fn has_plugin(&self, id: u64) -> (b: bool)
        ensures
            b == self@.plugins.contains_key(id),
    {
        broadcast use vstd::std_specs::hash::group_hash_axioms;
        self.state.plugins.contains_key(&id)
    }

    /// Number of menu ids that belong to a plugin.
    pub fn menu_id_count(&self) -> (n: usize)
        ensures
            n == self@.menu_to_plugin.len(),
    {
        broadcast use vstd::std_specs::hash::group_hash_axioms;
        self.state.menu_to_plugin.len()
    }
}

} // verus!
