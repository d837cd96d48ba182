//! What the reconciliation loop guarantees about the commands it hands out.

use vstd::prelude::*;
use crate::engine::{skip_settled, ActionView, MonitorView};
use crate::monitor::{
    class_index, distinct_classes, fits, item_due, item_valid, made_opaque, of_class,
    opaque_commands, planned, recorded, refreshed, reset_commands, reset_entries, rule_plan,
    EntryView, PendingUpdate, WindowHandleState,
};
use crate::monitor_proofs::{lemma_refreshed_all, lemma_refreshed_is_tidy};
use crate::seq_util::lemma_first_index;
use crate::win_utils::{AlphaCommand, LiveWindow};
use crate::window_config::RuleView;

verus! {

/// What passing over the settled comparisons leaves is the tail of the
/// work that begins at the first comparison that is due.
pub proof fn lemma_skip_settled(entries: Seq<EntryView>, work: Seq<PendingUpdate>)
    ensures
        skip_settled(entries, work).len() <= work.len(),
        skip_settled(entries, work) == work.skip(work.len() - skip_settled(entries, work).len()),
        skip_settled(entries, work).len() > 0 ==> item_due(
            entries,
            skip_settled(entries, work).first(),
        ),
        forall|i: int|
            0 <= i < work.len() - skip_settled(entries, work).len() ==> !item_due(
                entries,
                #[trigger] work[i],
            ),
    decreases work.len(),
{
    let rest = skip_settled(entries, work);
    if work.len() == 0 {
        assert(rest =~= work.skip(0));
    } else if item_due(entries, work.first()) {
        assert(rest =~= work.skip(0));
    } else {
        let shorter = work.drop_first();
        lemma_skip_settled(entries, shorter);
        assert(rest =~= work.skip(work.len() - rest.len()));
        assert forall|i: int| 0 <= i < work.len() - rest.len() implies !item_due(
            entries,
            #[trigger] work[i],
        ) by {
            if i > 0 {
                assert(work[i] == shorter[i - 1]);
            }
        }
    }
}

/// Where no comparison is due nothing is left of the work.
pub proof fn lemma_all_settled(entries: Seq<EntryView>, work: Seq<PendingUpdate>)
    requires
        forall|i: int| 0 <= i < work.len() ==> !item_due(entries, #[trigger] work[i]),
    ensures
        skip_settled(entries, work).len() == 0,
{
    lemma_skip_settled(entries, work);
    let rest = skip_settled(entries, work);
    if rest.len() > 0 {
        assert(rest.first() == work[work.len() - rest.len()]);
    }
}

/// The comparisons of one tick: each points at a cached window, under the
/// class of a rule, and carries that rule's values.
pub proof fn lemma_planned_items(rules: Seq<RuleView>, entries: Seq<EntryView>)
    requires
        fits(entries),
    ensures
        forall|k: int|
            0 <= k < planned(rules, entries).len() ==> {
                let item = #[trigger] planned(rules, entries)[k];
                item_valid(entries, item) && exists|r: int|
                    0 <= r < rules.len() && item.entry == class_index(
                        entries,
                        (#[trigger] rules[r]).window_class,
                    ) && item.transparency == rules[r].transparency && item.enabled
                        == rules[r].enabled
            },
    decreases rules.len(),
{
    let plan = planned(rules, entries);
    if rules.len() > 0 {
        let shorter = rules.drop_last();
        let earlier = planned(shorter, entries);
        let rule = rules.last();
        lemma_planned_items(shorter, entries);
        lemma_first_index(entries, of_class(rule.window_class));
        assert forall|k: int| 0 <= k < plan.len() implies {
            let item = #[trigger] plan[k];
            item_valid(entries, item) && exists|r: int|
                0 <= r < rules.len() && item.entry == class_index(
                    entries,
                    (#[trigger] rules[r]).window_class,
                ) && item.transparency == rules[r].transparency && item.enabled == rules[r].enabled
        } by {
            let item = plan[k];
            if k < earlier.len() {
                assert(item == earlier[k]);
                let r = choose|r: int|
                    0 <= r < shorter.len() && item.entry == class_index(
                        entries,
                        (#[trigger] shorter[r]).window_class,
                    ) && item.transparency == shorter[r].transparency && item.enabled
                        == shorter[r].enabled;
                assert(rules[r] == shorter[r]);
            } else {
                assert(item == rule_plan(rule, entries)[k - earlier.len()]);
                assert(rules[rules.len() - 1] == rule);
            }
        }
    }
}

/// Every rule is compared with every window cached under its class.
pub proof fn lemma_planned_covers(rules: Seq<RuleView>, entries: Seq<EntryView>, r: int, slot: int)
    requires
        fits(entries),
        0 <= r < rules.len(),
        class_index(entries, rules[r].window_class) < entries.len(),
        0 <= slot < entries[class_index(entries, rules[r].window_class)].states.len(),
    ensures
        planned(rules, entries).contains(
            PendingUpdate {
                entry: class_index(entries, rules[r].window_class) as usize,
                slot: slot as usize,
                transparency: rules[r].transparency,
                enabled: rules[r].enabled,
            },
        ),
    decreases rules.len(),
{
    let plan = planned(rules, entries);
    let shorter = rules.drop_last();
    let earlier = planned(shorter, entries);
    let item = PendingUpdate {
        entry: class_index(entries, rules[r].window_class) as usize,
        slot: slot as usize,
        transparency: rules[r].transparency,
        enabled: rules[r].enabled,
    };
    if r == rules.len() - 1 {
        assert(rule_plan(rules.last(), entries)[slot] == item);
        assert(plan[earlier.len() + slot] == item);
    } else {
        assert(shorter[r] == rules[r]);
        lemma_planned_covers(shorter, entries, r, slot);
        let k = choose|k: int| 0 <= k < earlier.len() && earlier[k] == item;
        assert(plan[k] == item);
    }
}

/// A command is handed out only for a window whose record differs from
/// what its rule asks for: after a tick and after every outcome the head of
/// the work, if there is one, is due.
pub proof fn lemma_command_only_when_due(state: MonitorView, live: Seq<LiveWindow>, success: bool)
    ensures
        state.on_tick(live).running && state.on_tick(live).enabled && state.on_tick(live).work.len()
            > 0 ==> item_due(state.on_tick(live).cache, state.on_tick(live).work.first()),
        state.running && state.on_applied(success).work.len() > 0 ==> item_due(
            state.on_applied(success).cache,
            state.on_applied(success).work.first(),
        ),
{
    if state.running && state.enabled {
        let cache = refreshed(state.cache, state.rules, live);
        lemma_skip_settled(cache, planned(state.rules, cache));
    }
    if state.running && state.work.len() > 0 {
        let cache = if success {
            recorded(state.cache, state.work.first())
        } else {
            state.cache
        };
        lemma_skip_settled(cache, state.work.drop_first());
    }
}

/// A tick that finds every cached window at what its rule asks for hands
/// out no command.
pub proof fn lemma_matching_state_asks_nothing(state: MonitorView, live: Seq<LiveWindow>)
    requires
        state.running,
        state.enabled,
        forall|k: int|
            0 <= k < planned(state.rules, refreshed(state.cache, state.rules, live)).len()
                ==> !item_due(
                refreshed(state.cache, state.rules, live),
                #[trigger] planned(state.rules, refreshed(state.cache, state.rules, live))[k],
            ),
    ensures
        state.on_tick(live).work.len() == 0,
        state.on_tick(live).request() == ActionView::Idle,
{
    let cache = refreshed(state.cache, state.rules, live);
    lemma_all_settled(cache, planned(state.rules, cache));
}

/// Once the command of a comparison succeeded and was recorded, that
/// comparison is settled.
pub proof fn lemma_recorded_settles(entries: Seq<EntryView>, item: PendingUpdate)
    ensures
        !item_due(recorded(entries, item), item),
        item_valid(recorded(entries, item), item) == item_valid(entries, item),
{
}

/// The reset commands: one for every cached window, each asking for fully
/// opaque, and none for any other window.
pub proof fn lemma_reset_commands(entries: Seq<EntryView>)
    ensures
        forall|i: int, k: int|
            0 <= i < entries.len() && 0 <= k < entries[i].states.len() ==> reset_commands(
                entries,
            ).contains(AlphaCommand { handle: (#[trigger] entries[i].states[k]).handle, alpha: 255 }),
        forall|j: int|
            0 <= j < reset_commands(entries).len() ==> (#[trigger] reset_commands(entries)[j]).alpha
                == 255 && exists|i: int, k: int|
                0 <= i < entries.len() && 0 <= k < entries[i].states.len() && (
                #[trigger] entries[i].states[k]).handle == reset_commands(entries)[j].handle,
    decreases entries.len(),
{
    let commands = reset_commands(entries);
    if entries.len() > 0 {
        let shorter = entries.drop_last();
        let earlier = reset_commands(shorter);
        let last = opaque_commands(entries.last().states);
        lemma_reset_commands(shorter);
        assert forall|i: int, k: int|
            0 <= i < entries.len() && 0 <= k < entries[i].states.len() implies commands.contains(
            AlphaCommand { handle: (#[trigger] entries[i].states[k]).handle, alpha: 255 },
        ) by {
            let wanted = AlphaCommand { handle: entries[i].states[k].handle, alpha: 255 };
            if i < shorter.len() {
                assert(shorter[i].states[k] == entries[i].states[k]);
                assert(earlier.contains(wanted));
                let j = choose|j: int| 0 <= j < earlier.len() && earlier[j] == wanted;
                assert(commands[j] == wanted);
            } else {
                assert(last[k] == wanted);
                assert(commands[earlier.len() + k] == wanted);
            }
        }
        assert forall|j: int| 0 <= j < commands.len() implies (#[trigger] commands[j]).alpha == 255
            && exists|i: int, k: int|
            0 <= i < entries.len() && 0 <= k < entries[i].states.len() && (
            #[trigger] entries[i].states[k]).handle == commands[j].handle by {
            if j < earlier.len() {
                assert(commands[j] == earlier[j]);
                let (i, k) = choose|i: int, k: int|
                    0 <= i < shorter.len() && 0 <= k < shorter[i].states.len() && (
                    #[trigger] shorter[i].states[k]).handle == earlier[j].handle;
                assert(entries[i].states[k].handle == commands[j].handle);
            } else {
                let k = j - earlier.len();
                assert(commands[j] == last[k]);
                assert(entries[entries.len() - 1].states[k].handle == commands[j].handle);
            }
        }
    }
}

/// Going from enabled to disabled leaves no window translucent: in the
/// same step every cached window is recorded as fully opaque and the caller
/// is handed a command that sets it to 255. A tick that follows while the
/// loop is disabled changes nothing and asks for nothing.
pub proof fn lemma_disable_makes_opaque(state: MonitorView, live: Seq<LiveWindow>)
    requires
        state.running,
        state.enabled,
    ensures
        !state.on_toggle(false).enabled,
        state.toggle_action(false) == ActionView::Reset(reset_commands(state.cache)),
        state.on_toggle(false).cache.len() == state.cache.len(),
        forall|i: int, k: int|
            0 <= i < state.cache.len() && 0 <= k < state.cache[i].states.len() ==> {
                let before = #[trigger] state.cache[i].states[k];
                &&& state.on_toggle(false).cache[i].class == state.cache[i].class
                &&& state.on_toggle(false).cache[i].states.len() == state.cache[i].states.len()
                &&& state.on_toggle(false).cache[i].states[k] == made_opaque(before)
                &&& state.on_toggle(false).cache[i].states[k].transparency == 255
                &&& reset_commands(state.cache).contains(
                    AlphaCommand { handle: before.handle, alpha: 255 },
                )
            },
        state.on_toggle(false).on_tick(live) == state.on_toggle(false),
        state.on_toggle(false).on_tick(live).request() == ActionView::Idle,
{
    lemma_reset_commands(state.cache);
}

/// The shutdown signal leaves no window translucent: every window that is
/// cached when it fires is recorded as fully opaque, the caller is handed a
/// command that sets it to 255, and the loop has ended.
pub proof fn lemma_shutdown_makes_opaque(state: MonitorView)
    requires
        state.running,
    ensures
        !state.on_shutdown().running,
        state.shutdown_action() == ActionView::Exit(reset_commands(state.cache)),
        state.on_shutdown().cache.len() == state.cache.len(),
        forall|i: int, k: int|
            0 <= i < state.cache.len() && 0 <= k < state.cache[i].states.len() ==> {
                let before = #[trigger] state.cache[i].states[k];
                &&& state.on_shutdown().cache[i].class == state.cache[i].class
                &&& state.on_shutdown().cache[i].states.len() == state.cache[i].states.len()
                &&& state.on_shutdown().cache[i].states[k] == made_opaque(before)
                &&& state.on_shutdown().cache[i].states[k].transparency == 255
                &&& reset_commands(state.cache).contains(
                    AlphaCommand { handle: before.handle, alpha: 255 },
                )
            },
{
    lemma_reset_commands(state.cache);
}

/// A loop that has ended stays ended: no event changes its state, and none
/// makes it hand out a command.
pub proof fn lemma_stopped_stays_stopped(
    state: MonitorView,
    rules: Seq<RuleView>,
    toggle: bool,
    live: Seq<LiveWindow>,
    success: bool,
)
    requires
        !state.running,
    ensures
        state.on_shutdown() == state,
        state.on_config(rules) == state,
        state.on_toggle(toggle) == state,
        state.on_tick(live) == state,
        state.on_applied(success) == state,
        state.shutdown_action() == ActionView::Exit(Seq::empty()),
        state.config_action() == ActionView::Exit(Seq::empty()),
        state.toggle_action(toggle) == ActionView::Exit(Seq::empty()),
        state.request() == ActionView::Exit(Seq::empty()),
{
}

/// Every record says that its rule was not enabled when it was applied.
pub open spec fn all_disabled(entries: Seq<EntryView>) -> bool {
    forall|i: int, k: int|
        0 <= i < entries.len() && 0 <= k < entries[i].states.len() ==> !(
        #[trigger] entries[i].states[k]).enabled
}

/// After a reset every record says so.
pub proof fn lemma_reset_all_disabled(entries: Seq<EntryView>)
    ensures
        all_disabled(reset_entries(entries)),
{
}

/// The first tick after the loop was switched on again applies every
/// enabled rule anew, though no rule changed: on a cache whose records all
/// say "not enabled", as a reset leaves them, every comparison of an
/// enabled rule is due after the refresh.
pub proof fn lemma_enabled_rules_due_after_reset(
    entries: Seq<EntryView>,
    rules: Seq<RuleView>,
    live: Seq<LiveWindow>,
)
    requires
        all_disabled(entries),
        fits(refreshed(entries, rules, live)),
    ensures
        all_disabled(refreshed(entries, rules, live)),
        forall|k: int|
            0 <= k < planned(rules, refreshed(entries, rules, live)).len() && (
            #[trigger] planned(rules, refreshed(entries, rules, live))[k]).enabled ==> item_due(
                refreshed(entries, rules, live),
                planned(rules, refreshed(entries, rules, live))[k],
            ),
{
    let cache = refreshed(entries, rules, live);
    let not_enabled = |state: WindowHandleState| !state.enabled;
    assert forall|i: int, k: int|
        0 <= i < entries.len() && 0 <= k < entries[i].states.len() implies not_enabled(
        #[trigger] entries[i].states[k],
    ) by {}
    lemma_refreshed_all(entries, rules, live, not_enabled);
    assert(all_disabled(cache)) by {
        assert forall|i: int, k: int|
            0 <= i < cache.len() && 0 <= k < cache[i].states.len() implies !(
            #[trigger] cache[i].states[k]).enabled by {
            assert(not_enabled(cache[i].states[k]));
        }
    }
    lemma_planned_items(rules, cache);
    assert forall|k: int|
        0 <= k < planned(rules, cache).len() && (#[trigger] planned(rules, cache)[k]).enabled implies item_due(
        cache,
        planned(rules, cache)[k],
    ) by {
        let item = planned(rules, cache)[k];
        assert(item_valid(cache, item));
        assert(!cache[item.entry as int].states[item.slot as int].enabled);
    }
}

/// The loop never gives a class a second cache entry: whatever the event,
/// a cache with one entry per class stays one.
pub proof fn lemma_cache_keeps_classes_distinct(
    state: MonitorView,
    rules: Seq<RuleView>,
    toggle: bool,
    live: Seq<LiveWindow>,
    success: bool,
)
    requires
        distinct_classes(state.cache),
    ensures
        distinct_classes(state.on_shutdown().cache),
        distinct_classes(state.on_config(rules).cache),
        distinct_classes(state.on_toggle(toggle).cache),
        distinct_classes(state.on_tick(live).cache),
        distinct_classes(state.on_applied(success).cache),
{
    let reset = reset_entries(state.cache);
    assert(distinct_classes(reset)) by {
        assert forall|i: int, j: int| 0 <= i < j < reset.len() implies (#[trigger] reset[i]).class
            != (#[trigger] reset[j]).class by {
            assert(state.cache[i].class != state.cache[j].class);
        }
    }
    lemma_refreshed_is_tidy(state.cache, state.rules, live);
    if state.work.len() > 0 {
        let after = recorded(state.cache, state.work.first());
        assert forall|i: int, j: int| 0 <= i < j < after.len() implies (#[trigger] after[i]).class
            != (#[trigger] after[j]).class by {
            assert(state.cache[i].class != state.cache[j].class);
        }
    }
}

} // verus!
