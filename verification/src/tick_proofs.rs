//! What a tick leaves in the cache once every command it handed out has
//! succeeded.

use vstd::prelude::*;
use crate::engine::{skip_settled, MonitorView};
use crate::monitor::{
    class_index, distinct_classes, fits, has_class, item_due, item_valid, of_class, planned,
    recorded, refreshed, rule_plan, EntryView, PendingUpdate,
};
use crate::monitor_proofs::lemma_refreshed_is_tidy;
use crate::seq_util::lemma_first_index;
use crate::win_utils::LiveWindow;
use crate::window_config::RuleView;

verus! {

/// The cache after every comparison of `work` was carried out with
/// success, first comparison first.
pub open spec fn all_recorded(entries: Seq<EntryView>, work: Seq<PendingUpdate>) -> Seq<EntryView>
    decreases work.len(),
{
    if work.len() == 0 {
        entries
    } else {
        all_recorded(recorded(entries, work.first()), work.drop_first())
    }
}

/// The state after `steps` outcomes were handed back, each a success.
pub open spec fn after_successes(state: MonitorView, steps: nat) -> MonitorView
    decreases steps,
{
    if steps == 0 {
        state
    } else {
        after_successes(state.on_applied(true), (steps - 1) as nat)
    }
}

/// Two caches hold the same windows under the same classes; only the
/// records may differ.
pub open spec fn same_windows(first: Seq<EntryView>, second: Seq<EntryView>) -> bool {
    &&& first.len() == second.len()
    &&& forall|i: int|
        0 <= i < first.len() ==> (#[trigger] first[i]).class == second[i].class
            && first[i].states.len() == second[i].states.len()
    &&& forall|i: int, k: int|
        0 <= i < first.len() && 0 <= k < first[i].states.len() ==> (
        #[trigger] first[i].states[k]).handle == second[i].states[k].handle
}

/// Recording a comparison that is not due changes nothing.
pub proof fn lemma_recorded_settled(entries: Seq<EntryView>, item: PendingUpdate)
    requires
        !item_due(entries, item),
    ensures
        recorded(entries, item) == entries,
{
    if item_valid(entries, item) {
        let entry = entries[item.entry as int];
        let state = entry.states[item.slot as int];
        assert(state.with_state(item.transparency, item.enabled) == state);
        assert(entry.states.update(item.slot as int, state) =~= entry.states);
        assert(recorded(entries, item) =~= entries);
    }
}

/// Recording keeps the windows and changes one record at most.
pub proof fn lemma_recorded_shape(entries: Seq<EntryView>, item: PendingUpdate)
    ensures
        same_windows(recorded(entries, item), entries),
        forall|i: int, k: int|
            0 <= i < entries.len() && 0 <= k < entries[i].states.len() && !(i == item.entry && k
                == item.slot) ==> (#[trigger] recorded(entries, item)[i].states[k])
                == entries[i].states[k],
        item_valid(entries, item) ==> recorded(entries, item)[item.entry as int].states[item.slot as int]
            == entries[item.entry as int].states[item.slot as int].with_state(
            item.transparency,
            item.enabled,
        ),
{
}

/// Passing over the settled comparisons does not change what carrying out
/// the work leaves.
pub proof fn lemma_all_recorded_skips(entries: Seq<EntryView>, work: Seq<PendingUpdate>)
    ensures
        all_recorded(entries, skip_settled(entries, work)) == all_recorded(entries, work),
    decreases work.len(),
{
    if work.len() > 0 && !item_due(entries, work.first()) {
        lemma_recorded_settled(entries, work.first());
        lemma_all_recorded_skips(entries, work.drop_first());
    }
}

/// What is left of the work is never more than the work.
pub proof fn lemma_skip_settled_len(entries: Seq<EntryView>, work: Seq<PendingUpdate>)
    ensures
        skip_settled(entries, work).len() <= work.len(),
    decreases work.len(),
{
    if work.len() > 0 && !item_due(entries, work.first()) {
        lemma_skip_settled_len(entries, work.drop_first());
    }
}

/// A tick whose commands all succeed ends with nothing owed, and with the
/// cache that carrying out every comparison leaves.
pub proof fn lemma_successful_tick(state: MonitorView, steps: nat)
    requires
        state.running,
        steps >= state.work.len(),
    ensures
        after_successes(state, steps).work.len() == 0,
        after_successes(state, steps).cache == all_recorded(state.cache, state.work),
        after_successes(state, steps).rules == state.rules,
        after_successes(state, steps).enabled == state.enabled,
        after_successes(state, steps).running,
    decreases steps,
{
    if steps > 0 {
        let next = state.on_applied(true);
        if state.work.len() > 0 {
            let cache = recorded(state.cache, state.work.first());
            lemma_skip_settled_len(cache, state.work.drop_first());
            lemma_all_recorded_skips(cache, state.work.drop_first());
        }
        lemma_successful_tick(next, (steps - 1) as nat);
    }
}

/// Carrying out work keeps the windows.
pub proof fn lemma_all_recorded_shape(entries: Seq<EntryView>, work: Seq<PendingUpdate>)
    ensures
        same_windows(all_recorded(entries, work), entries),
    decreases work.len(),
{
    if work.len() > 0 {
        lemma_recorded_shape(entries, work.first());
        lemma_all_recorded_shape(recorded(entries, work.first()), work.drop_first());
    }
}

/// Carrying out one piece of work and then another is carrying out both.
pub proof fn lemma_all_recorded_add(
    entries: Seq<EntryView>,
    first: Seq<PendingUpdate>,
    second: Seq<PendingUpdate>,
)
    ensures
        all_recorded(entries, first + second) == all_recorded(all_recorded(entries, first), second),
    decreases first.len(),
{
    if first.len() == 0 {
        assert(first + second =~= second);
    } else {
        assert((first + second).first() == first.first());
        assert((first + second).drop_first() =~= first.drop_first() + second);
        lemma_all_recorded_add(recorded(entries, first.first()), first.drop_first(), second);
    }
}

/// Work that points at one entry only leaves every other entry as it was,
/// and leaves in that entry what the last comparison of each window asked
/// for.
proof fn lemma_all_recorded_entry(
    entries: Seq<EntryView>,
    work: Seq<PendingUpdate>,
    at: int,
    transparency: u8,
    enabled: bool,
    from: int,
)
    requires
        0 <= at < entries.len(),
        0 <= from,
        from + work.len() == entries[at].states.len(),
        forall|k: int|
            0 <= k < work.len() ==> (#[trigger] work[k]) == (PendingUpdate {
                entry: at as usize,
                slot: (from + k) as usize,
                transparency,
                enabled,
            }),
        at <= usize::MAX,
        entries[at].states.len() <= usize::MAX,
    ensures
        same_windows(all_recorded(entries, work), entries),
        forall|i: int|
            0 <= i < entries.len() && i != at ==> (#[trigger] all_recorded(entries, work)[i])
                == entries[i],
        forall|k: int|
            0 <= k < from ==> (#[trigger] all_recorded(entries, work)[at].states[k])
                == entries[at].states[k],
        forall|k: int|
            from <= k < entries[at].states.len() ==> (#[trigger] all_recorded(
                entries,
                work,
            )[at].states[k]) == entries[at].states[k].with_state(transparency, enabled),
    decreases work.len(),
{
    lemma_all_recorded_shape(entries, work);
    if work.len() > 0 {
        let item = work.first();
        let next = recorded(entries, item);
        let rest = work.drop_first();
        assert(item == work[0]);
        assert(item_valid(entries, item));
        lemma_recorded_shape(entries, item);
        assert forall|k: int| 0 <= k < rest.len() implies (#[trigger] rest[k]) == (PendingUpdate {
            entry: at as usize,
            slot: (from + 1 + k) as usize,
            transparency,
            enabled,
        }) by {
            assert(rest[k] == work[k + 1]);
        }
        lemma_all_recorded_entry(next, rest, at, transparency, enabled, from + 1);
        let after = all_recorded(entries, work);
        assert(after == all_recorded(next, rest));
        assert forall|i: int| 0 <= i < entries.len() && i != at implies (#[trigger] after[i])
            == entries[i] by {
            assert(after[i] == next[i]);
            assert(next[i] =~= entries[i]);
        }
        assert forall|k: int| 0 <= k < from implies (#[trigger] after[at].states[k])
            == entries[at].states[k] by {
            assert(after[at].states[k] == next[at].states[k]);
        }
        assert forall|k: int| from <= k < entries[at].states.len() implies (
        #[trigger] after[at].states[k]) == entries[at].states[k].with_state(
            transparency,
            enabled,
        ) by {
            if k == from {
                assert(after[at].states[k] == next[at].states[k]);
            } else {
                assert(next[at].states[k] == entries[at].states[k]);
            }
        }
    }
}

/// The comparisons of one rule, carried out on a cache with the windows of
/// the cache they were planned on, leave every window of the rule's class
/// recorded with what the rule asks for, and every other class as it was.
pub proof fn lemma_rule_plan_recorded(entries: Seq<EntryView>, cache: Seq<EntryView>, rule: RuleView)
    requires
        fits(cache),
        same_windows(entries, cache),
    ensures
        same_windows(all_recorded(entries, rule_plan(rule, cache)), cache),
        forall|i: int|
            0 <= i < entries.len() && i != class_index(cache, rule.window_class) ==> (
            #[trigger] all_recorded(entries, rule_plan(rule, cache))[i]) == entries[i],
        forall|k: int|
            class_index(cache, rule.window_class) < cache.len() && 0 <= k < cache[class_index(
                cache,
                rule.window_class,
            )].states.len() ==> (#[trigger] all_recorded(
                entries,
                rule_plan(rule, cache),
            )[class_index(cache, rule.window_class)].states[k]) == entries[class_index(
                cache,
                rule.window_class,
            )].states[k].with_state(rule.transparency, rule.enabled),
{
    let at = class_index(cache, rule.window_class);
    lemma_first_index(cache, of_class(rule.window_class));
    let work = rule_plan(rule, cache);
    lemma_all_recorded_shape(entries, work);
    if at < cache.len() {
        assert(cache[at].states.len() == entries[at].states.len());
        lemma_all_recorded_entry(entries, work, at, rule.transparency, rule.enabled, 0);
    }
}

/// The values that the last rule of a class asks for, or `otherwise` where
/// no rule targets the class.
pub open spec fn last_asked(rules: Seq<RuleView>, class: Seq<char>, otherwise: (u8, bool)) -> (
    u8,
    bool,
)
    decreases rules.len(),
{
    if rules.len() == 0 {
        otherwise
    } else if rules.last().window_class == class {
        (rules.last().transparency, rules.last().enabled)
    } else {
        last_asked(rules.drop_last(), class, otherwise)
    }
}

/// A tick brings every cached window to what its rule asks for. Once every
/// comparison of every rule was carried out with success, the cache holds
/// the same windows as before, and each window is recorded with the values
/// of the last rule that targets its class.
pub proof fn lemma_planned_recorded(rules: Seq<RuleView>, cache: Seq<EntryView>)
    requires
        fits(cache),
        distinct_classes(cache),
    ensures
        same_windows(all_recorded(cache, planned(rules, cache)), cache),
        forall|i: int, k: int|
            0 <= i < cache.len() && 0 <= k < cache[i].states.len() ==> {
                let before = cache[i].states[k];
                let asked = last_asked(rules, cache[i].class, (before.transparency, before.enabled));
                (#[trigger] all_recorded(cache, planned(rules, cache))[i].states[k])
                    == before.with_state(asked.0, asked.1)
            },
    decreases rules.len(),
{
    let after = all_recorded(cache, planned(rules, cache));
    if rules.len() == 0 {
        assert forall|i: int, k: int|
            0 <= i < cache.len() && 0 <= k < cache[i].states.len() implies {
            let before = cache[i].states[k];
            let asked = last_asked(rules, cache[i].class, (before.transparency, before.enabled));
            (#[trigger] after[i].states[k]) == before.with_state(asked.0, asked.1)
        } by {}
    } else {
        let shorter = rules.drop_last();
        let rule = rules.last();
        let middle = all_recorded(cache, planned(shorter, cache));
        lemma_planned_recorded(shorter, cache);
        lemma_all_recorded_add(cache, planned(shorter, cache), rule_plan(rule, cache));
        lemma_rule_plan_recorded(middle, cache, rule);
        lemma_first_index(cache, of_class(rule.window_class));
        let at = class_index(cache, rule.window_class);
        assert forall|i: int, k: int|
            0 <= i < cache.len() && 0 <= k < cache[i].states.len() implies {
            let before = cache[i].states[k];
            let asked = last_asked(rules, cache[i].class, (before.transparency, before.enabled));
            (#[trigger] after[i].states[k]) == before.with_state(asked.0, asked.1)
        } by {
            let before = cache[i].states[k];
            assert(middle[i].states[k] == before.with_state(
                last_asked(shorter, cache[i].class, (before.transparency, before.enabled)).0,
                last_asked(shorter, cache[i].class, (before.transparency, before.enabled)).1,
            ));
            if i == at {
                assert(cache[i].class == rule.window_class);
            } else {
                assert(after[i] == middle[i]);
                if cache[i].class == rule.window_class {
                    assert(of_class(rule.window_class)(cache[i]));
                    assert(at < i);
                    assert(cache[at].class != cache[i].class);
                }
            }
        }
    }
}

/// Where a rule targets the class, the values asked for last are those of
/// a rule of that class.
pub proof fn lemma_last_asked(rules: Seq<RuleView>, class: Seq<char>, otherwise: (u8, bool))
    requires
        has_class(rules, class),
    ensures
        exists|r: int|
            0 <= r < rules.len() && (#[trigger] rules[r]).window_class == class && last_asked(
                rules,
                class,
                otherwise,
            ) == (rules[r].transparency, rules[r].enabled),
    decreases rules.len(),
{
    let at = choose|i: int| 0 <= i < rules.len() && (#[trigger] rules[i]).window_class == class;
    if rules.last().window_class == class {
        assert(rules[rules.len() - 1].window_class == class);
    } else {
        let shorter = rules.drop_last();
        assert(shorter[at].window_class == class);
        lemma_last_asked(shorter, class, otherwise);
        let r = choose|r: int|
            0 <= r < shorter.len() && (#[trigger] shorter[r]).window_class == class && last_asked(
                shorter,
                class,
                otherwise,
            ) == (shorter[r].transparency, shorter[r].enabled);
        assert(rules[r] == shorter[r]);
    }
}

/// A tick reconciles every cached window with its rule. When every command
/// of a tick has succeeded nothing is owed any more, the cache holds the
/// windows that the refresh left, and each of them is recorded with the
/// values of a rule that targets its class: of the last such rule.
pub proof fn lemma_tick_reconciles(state: MonitorView, live: Seq<LiveWindow>, steps: nat)
    requires
        state.running,
        state.enabled,
        distinct_classes(state.cache),
        fits(refreshed(state.cache, state.rules, live)),
        steps >= planned(state.rules, refreshed(state.cache, state.rules, live)).len(),
    ensures
        ({
            let cache = refreshed(state.cache, state.rules, live);
            let end = after_successes(state.on_tick(live), steps);
            &&& end.work.len() == 0
            &&& same_windows(end.cache, cache)
            &&& forall|i: int, k: int|
                0 <= i < cache.len() && 0 <= k < cache[i].states.len() ==> {
                    let before = cache[i].states[k];
                    let asked = last_asked(
                        state.rules,
                        cache[i].class,
                        (before.transparency, before.enabled),
                    );
                    &&& has_class(state.rules, cache[i].class)
                    &&& (#[trigger] end.cache[i].states[k]) == before.with_state(asked.0, asked.1)
                }
        }),
{
    let cache = refreshed(state.cache, state.rules, live);
    let plan = planned(state.rules, cache);
    lemma_refreshed_is_tidy(state.cache, state.rules, live);
    lemma_skip_settled_len(cache, plan);
    lemma_all_recorded_skips(cache, plan);
    lemma_successful_tick(state.on_tick(live), steps);
    lemma_planned_recorded(state.rules, cache);
}

} // verus!
