//! One plugin: a script run on a timer, and the decisions taken on each of its outputs.

use vstd::prelude::*;
use crate::hash::{xxh3_64, xxh3_64_spec};
use crate::menu::{
    count_seq_ids,
    actions_view, full_menu, menu_actions, menu_ids, set_menu, Action, ActionModel, MenuEntry,
    MenuModel, entries_model,
};
use crate::output_hash::{encode_list, encode_output, hash_output, notification_hash};
use crate::script::ScriptResult;

verus! {

broadcast use vstd::std_specs::hash::group_hash_axioms;

/// A plugin: the script at `path`, run every `interval` seconds, whose output is shown
/// in its own tray icon.
pub struct Plugin {
    /// XXH3 hash of the script's path.
    pub id: u64,
    /// The script's path, as the platform's encoded bytes.
    pub path: Vec<u8>,
    /// Seconds between runs.
    pub interval: u64,
    /// Whether a change of the items raises a desktop notification.
    pub notify: bool,
    /// Items hash of the last output seen (`Some(None)` for one without items), or
    /// `None` before the first output.
    pub cached: Option<Option<u64>>,
    /// Hash of the output last shown.
    pub output_hash: Option<u64>,
    /// What each menu id of the plugin's current menu does.
    pub actions: std::collections::HashMap<u64, Action>,
}

/// [`Plugin`] as a value of specifications.
pub struct PluginView {
    pub id: u64,
    pub path: Seq<u8>,
    pub interval: u64,
    pub notify: bool,
    /// Items hash of the last output seen (`Some(None)` for one without items), or
    /// `None` before the first output.
    pub cached: Option<Option<u64>>,
    /// Hash of the output last shown.
    pub output_hash: Option<u64>,
    pub actions: Map<u64, ActionModel>,
}

impl View for Plugin {
    type V = PluginView;

    open spec fn view(&self) -> PluginView {
        PluginView {
            id: self.id,
            path: self.path@,
            interval: self.interval,
            notify: self.notify,
            cached: self.cached,
            output_hash: self.output_hash,
            actions: actions_view(self.actions@),
        }
    }
}

/// What the tray of a plugin has to do after an output was applied.
#[derive(Debug)]
pub enum OutputEffect {
    /// The plugin is gone: stop its runs and drop its icon.
    Remove,
    /// Nothing changed.
    Unchanged,
    /// Show `title` and `menu`; where `notify`, raise a desktop notification.
    Redraw { title: String, menu: Vec<MenuEntry>, notify: bool },
}

/// [`OutputEffect`] as a value of specifications.
pub enum EffectModel {
    Remove,
    Unchanged,
    Redraw { title: Seq<char>, menu: Seq<MenuModel>, notify: bool },
}

impl View for OutputEffect {
    type V = EffectModel;

    open spec fn view(&self) -> EffectModel {
        match self {
            OutputEffect::Remove => EffectModel::Remove,
            OutputEffect::Unchanged => EffectModel::Unchanged,
            OutputEffect::Redraw { title, menu, notify } => EffectModel::Redraw {
                title: title@,
                menu: entries_model(menu@),
                notify: *notify,
            },
        }
    }
}

/// The hash of an output's items that notifications compare, `None` for no items.
pub open spec fn items_hash(r: ScriptResult) -> Option<u64> {
    if r.items@.len() == 0 {
        None
    } else {
        Some(xxh3_64_spec(encode_list(r.items@)))
    }
}

/// What applying `output` to a plugin in state `p` does, with menu ids numbered from
/// `next` on: the plugin's next state, what the tray has to do, and the next free menu id.
/// No output, or one with an empty title, removes the plugin. An output whose hash
/// equals the one shown changes nothing. Otherwise the plugin shows the output's title
/// and menu; where it notifies, it remembers the items' hash and raises a notification
/// when an earlier output was seen and its items' hash differs (items appearing,
/// changing or going away all count).
pub open spec fn apply_spec(p: PluginView, output: Option<ScriptResult>, next: nat) -> (
    PluginView,
    EffectModel,
    nat,
) {
    match output {
        None => (p, EffectModel::Remove, next),
        Some(r) => if r.title@.len() == 0 {
            (p, EffectModel::Remove, next)
        } else {
            let h = xxh3_64_spec(encode_output(r));
            if p.output_hash == Some(h) || next + menu_ids(r.items@) > u64::MAX {
                (p, EffectModel::Unchanged, next)
            } else {
                let menu = full_menu(r.items@, next);
                let current = items_hash(r);
                let changed = p.notify && p.cached is Some && Some(current) != p.cached;
                let cached = if p.notify {
                    Some(current)
                } else {
                    p.cached
                };
                (
                    PluginView {
                        id: p.id,
                        path: p.path,
                        interval: p.interval,
                        notify: p.notify,
                        cached,
                        output_hash: Some(h),
                        actions: menu_actions(menu),
                    },
                    EffectModel::Redraw { title: r.title@, menu, notify: changed },
                    next + menu_ids(r.items@),
                )
            }
        },
    }
}

/// What one run of the polling loop leads to.
pub struct PollStep {
    /// Hand the output to the plugin.
    pub send: bool,
    /// End the loop: the plugin is being removed.
    pub stop: bool,
    /// Raw hash of the last output kept, to compare the next one with.
    pub last_raw_hash: u64,
    /// Seconds to wait, from the end of this run, before the next run; `None` where the
    /// loop ends.
    pub rerun_after: Option<u64>,
}

impl Plugin {
    /// A plugin for the script at `path` (the platform's encoded bytes), identified by
    /// the XXH3 hash of the path, with nothing shown yet.
    pub fn new(path: Vec<u8>, interval: u64, notify: bool) -> (p: Self)
        ensures
            p@ == (PluginView {
                id: xxh3_64_spec(path@),
                path: path@,
                interval,
                notify,
                cached: None,
                output_hash: None,
                actions: Map::empty(),
            }),
    {
        let id = xxh3_64(path.as_slice());
        let p = Plugin {
            id,
            path,
            interval,
            notify,
            cached: None,
            output_hash: None,
            actions: std::collections::HashMap::new(),
        };
        assert(actions_view(p.actions@) =~= Map::<u64, ActionModel>::empty());
        p
    }

    /// Remembers the hash of `result`'s items and tells whether a notification is due:
    /// an earlier output was seen and its items' hash differs from the new one.
    fn notify_new_items(&mut self, result: &ScriptResult) -> (changed: bool)
        ensures
            final(self).cached == Some(items_hash(*result)),
            changed == (old(self).cached is Some && Some(items_hash(*result)) != old(
                self,
            ).cached),
            final(self).id == old(self).id,
            final(self).path == old(self).path,
            final(self).interval == old(self).interval,
            final(self).notify == old(self).notify,
            final(self).output_hash == old(self).output_hash,
            final(self).actions == old(self).actions,
    {
        let current = notification_hash(result.items.as_slice());
        let changed = match (self.cached, current) {
            (Some(Some(a)), Some(b)) => a != b,
            (Some(Some(_)), None) => true,
            (Some(None), Some(_)) => true,
            _ => false,
        };
        self.cached = Some(current);
        changed
    }

    /// Applies a run's output (see [`apply_spec`]); menu ids are taken from `next_id` on.
    pub fn apply_output(&mut self, output: Option<ScriptResult>, next_id: &mut u64) -> (effect:
        OutputEffect)
        ensures
            (final(self)@, effect@, *final(next_id) as nat) == apply_spec(
                old(self)@,
                output,
                *old(next_id) as nat,
            ),
    {
        let result = match output {
            None => {
                return OutputEffect::Remove;
            },
            Some(r) => r,
        };
        if result.title.as_str().is_empty() {
            return OutputEffect::Remove;
        }
        let h = hash_output(&result);
        let same = match self.output_hash {
            Some(prev) => prev == h,
            None => false,
        };
        if same {
            return OutputEffect::Unchanged;
        }
        let fits = match count_seq_ids(result.items.as_slice()) {
            Some(n) => n < u64::MAX - *next_id,
            None => false,
        };
        if !fits {
            return OutputEffect::Unchanged;
        }
        let ghost n0 = *next_id as nat;
        self.output_hash = Some(h);
        let (menu, actions) = set_menu(&result, next_id);
        self.actions = actions;
        let notify = if self.notify {
            self.notify_new_items(&result)
        } else {
            false
        };
        let effect = OutputEffect::Redraw { title: result.title, menu, notify };
        effect
    }
}

/// The output of a run removes the plugin: there is none, or its title is empty.
pub open spec fn removes(output: Option<ScriptResult>) -> bool {
    match output {
        Some(r) => r.title@.len() == 0,
        None => true,
    }
}

/// The raw hash of a run's output, 0 where there is none.
pub open spec fn raw_hash_of(output: Option<ScriptResult>) -> u64 {
    match output {
        Some(r) => r.raw_output_hash,
        None => 0,
    }
}

/// What the polling loop of a plugin run every `interval` seconds does after a run: an
/// output that removes the plugin is handed on and ends the loop; any other output is
/// handed on when its raw hash differs from the last one kept, which it then replaces,
/// and the next run comes `interval` seconds after this one ended.
pub open spec fn poll_spec(last_raw_hash: u64, output: Option<ScriptResult>, interval: u64) -> PollStep {
    if removes(output) {
        PollStep { send: true, stop: true, last_raw_hash, rerun_after: None }
    } else {
        PollStep {
            send: raw_hash_of(output) != last_raw_hash,
            stop: false,
            last_raw_hash: raw_hash_of(output),
            rerun_after: Some(interval),
        }
    }
}

/// One step of the polling loop (see [`poll_spec`]).
pub fn poll_step(last_raw_hash: u64, output: &Option<ScriptResult>, interval: u64) -> (step:
    PollStep)
    ensures
        step == poll_spec(last_raw_hash, *output, interval),
{
    match output {
        Some(r) => if !r.title.as_str().is_empty() {
            PollStep {
                send: r.raw_output_hash != last_raw_hash,
                stop: false,
                last_raw_hash: r.raw_output_hash,
                rerun_after: Some(interval),
            }
        } else {
            PollStep { send: true, stop: true, last_raw_hash, rerun_after: None }
        },
        None => PollStep { send: true, stop: true, last_raw_hash, rerun_after: None },
    }
}

/// The steps of a polling loop that starts with `last_raw_hash` and whose runs give
/// `outputs`, up to the run that ends it.
pub open spec fn run_steps(
    last_raw_hash: u64,
    outputs: Seq<Option<ScriptResult>>,
    interval: u64,
) -> Seq<PollStep>
    decreases outputs.len(),
{
    if outputs.len() == 0 {
        Seq::empty()
    } else {
        let step = poll_spec(last_raw_hash, outputs[0], interval);
        if step.stop {
            seq![step]
        } else {
            seq![step] + run_steps(step.last_raw_hash, outputs.drop_first(), interval)
        }
    }
}

/// Over a whole polling loop (started with 0 kept, as a fresh loop is): run `k` hands
/// its output on exactly when the output removes the plugin or its raw hash differs
/// from that of run `k - 1` (or from the starting hash, for the first run); the loop
/// ends at the first output that removes the plugin and at no other, and every other
/// run is followed by the next one `interval` seconds later.
pub proof fn lemma_run_sends(
    last_raw_hash: u64,
    outputs: Seq<Option<ScriptResult>>,
    interval: u64,
)
    ensures
        run_steps(last_raw_hash, outputs, interval).len() <= outputs.len(),
        forall|k: int|
            0 <= k < run_steps(last_raw_hash, outputs, interval).len() ==> {
                let step = #[trigger] run_steps(last_raw_hash, outputs, interval)[k];
                &&& step.send == (removes(outputs[k]) || raw_hash_of(outputs[k]) != if k == 0 {
                    last_raw_hash
                } else {
                    raw_hash_of(outputs[k - 1])
                })
                &&& step.stop == removes(outputs[k])
                &&& step.rerun_after == if removes(outputs[k]) {
                    None
                } else {
                    Some(interval)
                }
            },
        forall|j: int|
            0 <= j < run_steps(last_raw_hash, outputs, interval).len() - 1 ==> !removes(
                #[trigger] outputs[j],
            ),
        run_steps(last_raw_hash, outputs, interval).len() < outputs.len() ==> run_steps(
            last_raw_hash,
            outputs,
            interval,
        ).len() > 0 && removes(
            outputs[run_steps(last_raw_hash, outputs, interval).len() - 1],
        ),
    decreases outputs.len(),
{
    let steps = run_steps(last_raw_hash, outputs, interval);
    if outputs.len() > 0 {
        let step = poll_spec(last_raw_hash, outputs[0], interval);
        if !step.stop {
            let rest = outputs.drop_first();
            lemma_run_sends(step.last_raw_hash, rest, interval);
            let tail = run_steps(step.last_raw_hash, rest, interval);
            assert(steps == seq![step] + tail);
            assert forall|k: int| 0 < k < steps.len() implies #[trigger] steps[k] == tail[k - 1]
                && outputs[k] == rest[k - 1] && outputs[k - 1] == if k == 1 {
                outputs[0]
            } else {
                rest[k - 2]
            } by {}
            assert forall|j: int| 0 <= j < steps.len() - 1 implies !removes(
                #[trigger] outputs[j],
            ) by {
                if j > 0 {
                    assert(outputs[j] == rest[j - 1]);
                }
            }
        }
    }
}

/// The polling loop ends exactly on the outputs that remove the plugin, and always
/// hands those on, so the plugin is removed whenever its loop ends.
pub proof fn lemma_poll_stops_on_removal(
    last_raw_hash: u64,
    output: Option<ScriptResult>,
    interval: u64,
    p: PluginView,
    next: nat,
)
    ensures
        poll_spec(last_raw_hash, output, interval).stop <==> apply_spec(p, output, next).1 is Remove,
        poll_spec(last_raw_hash, output, interval).stop ==> poll_spec(
            last_raw_hash,
            output,
            interval,
        ).send,
{
}

/// A plugin that notifies, and has seen an earlier output, raises a notification when
/// it shows an output whose items hash differs from that output's: in particular when
/// items appear after an output without any, or go away.
pub proof fn lemma_notification_on_change(p: PluginView, r: ScriptResult, next: nat)
    requires
        p.notify,
        p.cached is Some,
        Some(items_hash(r)) != p.cached,
        apply_spec(p, Some(r), next).1 is Redraw,
    ensures
        apply_spec(p, Some(r), next).1 matches EffectModel::Redraw { notify: true, .. },
        apply_spec(p, Some(r), next).0.cached == Some(items_hash(r)),
{
}

/// Items appearing after an output without items are a change that notifies.
pub proof fn lemma_items_appearing_notify(p: PluginView, r: ScriptResult, next: nat)
    requires
        p.notify,
        p.cached == Some(None::<u64>),
        r.items@.len() > 0,
        apply_spec(p, Some(r), next).1 is Redraw,
    ensures
        apply_spec(p, Some(r), next).1 matches EffectModel::Redraw { notify: true, .. },
{
}

/// Whenever an output is drawn, the plugin remembers that output's hash, so the output
/// drawn last is the one later outputs are compared with.
pub proof fn lemma_redraw_remembers_output(p: PluginView, r: ScriptResult, next: nat)
    ensures
        apply_spec(p, Some(r), next).1 is Redraw ==> apply_spec(p, Some(r), next).0.output_hash
            == Some(xxh3_64_spec(encode_output(r))),
{
}

/// An output leaves the display unchanged only when its hash equals the hash of the
/// output last drawn (or its menu ids would not fit), and then nothing of the plugin
/// changes; a removal changes nothing of the plugin either.
pub proof fn lemma_unchanged_only_for_same_hash(p: PluginView, output: Option<ScriptResult>, next: nat)
    ensures
        apply_spec(p, output, next).1 is Unchanged ==> (output matches Some(r) && (p.output_hash
            == Some(xxh3_64_spec(encode_output(r))) || next + menu_ids(r.items@) > u64::MAX)),
        !(apply_spec(p, output, next).1 is Redraw) ==> apply_spec(p, output, next).0 == p
            && apply_spec(p, output, next).2 == next,
{
}

/// Once an output is shown, applying it again, or any output with the same title and
/// items as far as the hash stream tells, changes nothing and redraws nothing.
pub proof fn lemma_same_output_unchanged(
    p: PluginView,
    r: ScriptResult,
    r2: ScriptResult,
    next: nat,
    next2: nat,
)
    requires
        apply_spec(p, Some(r), next).1 is Redraw,
        encode_output(r2) == encode_output(r),
        r2.title@.len() > 0,
    ensures
        apply_spec(apply_spec(p, Some(r), next).0, Some(r2), next2) == (
            apply_spec(p, Some(r), next).0,
            EffectModel::Unchanged,
            next2,
        ),
{
}

/// Outputs that differ in their hashed stream are each drawn: after `r` is shown, an
/// output `r2` with another stream (and room for its menu ids) is drawn again.
pub proof fn lemma_changed_output_redrawn(
    p: PluginView,
    r: ScriptResult,
    r2: ScriptResult,
    next: nat,
    next2: nat,
)
    requires
        apply_spec(p, Some(r), next).1 is Redraw,
        xxh3_64_spec(encode_output(r2)) != xxh3_64_spec(encode_output(r)),
        r2.title@.len() > 0,
        next2 + menu_ids(r2.items@) <= u64::MAX,
    ensures
        apply_spec(apply_spec(p, Some(r), next).0, Some(r2), next2).1 is Redraw,
{
}

/// A plugin that has shown nothing yet raises no notification on its first output.
pub proof fn lemma_first_output_no_notification(
    path: Seq<u8>,
    interval: u64,
    notify: bool,
    output: Option<ScriptResult>,
    next: nat,
)
    ensures
        !(apply_spec(
            PluginView {
                id: xxh3_64_spec(path),
                path,
                interval,
                notify,
                cached: None,
                output_hash: None,
                actions: Map::empty(),
            },
            output,
            next,
        ).1 matches EffectModel::Redraw { notify: true, .. }),
{
}

/// A notification is raised only by a plugin that notifies, when an earlier output was
/// seen and the hash of the new items differs from that output's.
pub proof fn lemma_notification_only_on_change(
    p: PluginView,
    output: Option<ScriptResult>,
    next: nat,
)
    ensures
        apply_spec(p, output, next).1 matches EffectModel::Redraw { notify: true, .. } ==> {
            &&& p.notify
            &&& p.cached is Some
            &&& output matches Some(r) && Some(items_hash(r)) != p.cached
        },
{
}

/// Items that did not change raise no notification, whatever else changed (the title,
/// say), including outputs without items after outputs without items.
pub proof fn lemma_same_items_no_notification(p: PluginView, r: ScriptResult, next: nat)
    requires
        Some(items_hash(r)) == p.cached,
    ensures
        !(apply_spec(p, Some(r), next).1 matches EffectModel::Redraw { notify: true, .. }),
{
}

} // verus!
