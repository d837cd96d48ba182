//! What a refresh of the handle cache guarantees.

use vstd::prelude::*;
use crate::monitor::{
    arrivals, class_index, distinct_classes, entry_stays, has_class, holds_handle, lookup,
    never_applied, of_class, pruned, refresh_rule, refresh_rules, refreshed, refreshed_states,
    retained, EntryView, WindowHandleState,
};
use crate::seq_util::{lemma_first_index, lemma_first_index_is};
use crate::win_utils::LiveWindow;
use crate::window_config::RuleView;

verus! {

/// The states of one class after every rule was refreshed: each rule of
/// the class, first rule first, refreshes what the rules before it left.
pub open spec fn class_states(
    states: Seq<WindowHandleState>,
    rules: Seq<RuleView>,
    live: Seq<LiveWindow>,
    class: Seq<char>,
) -> Seq<WindowHandleState>
    decreases rules.len(),
{
    if rules.len() == 0 {
        states
    } else {
        let earlier = class_states(states, rules.drop_last(), live, class);
        if rules.last().window_class == class {
            refreshed_states(earlier, rules.last().matching_handles(live))
        } else {
            earlier
        }
    }
}

/// A window stays cached exactly when it was cached and is still live.
pub proof fn lemma_retained_holds(states: Seq<WindowHandleState>, handles: Seq<isize>, handle: isize)
    ensures
        holds_handle(retained(states, handles), handle) <==> holds_handle(states, handle)
            && handles.contains(handle),
    decreases states.len(),
{
    let kept = retained(states, handles);
    if states.len() > 0 {
        let shorter = states.drop_last();
        let earlier = retained(shorter, handles);
        lemma_retained_holds(shorter, handles, handle);
        if holds_handle(kept, handle) {
            let i = choose|i: int| 0 <= i < kept.len() && kept[i].handle == handle;
            if i < earlier.len() {
                assert(earlier[i].handle == handle);
                let j = choose|j: int| 0 <= j < shorter.len() && shorter[j].handle == handle;
                assert(states[j].handle == handle);
            } else {
                assert(states[states.len() - 1].handle == handle);
            }
        }
        if holds_handle(states, handle) && handles.contains(handle) {
            let j = choose|j: int| 0 <= j < states.len() && states[j].handle == handle;
            if j < shorter.len() {
                assert(shorter[j].handle == handle);
                let i = choose|i: int| 0 <= i < earlier.len() && earlier[i].handle == handle;
                assert(kept[i].handle == handle);
            } else {
                assert(kept[earlier.len() as int].handle == handle);
            }
        }
    }
}

/// Every state that stays cached is one that was cached.
pub proof fn lemma_retained_records(states: Seq<WindowHandleState>, handles: Seq<isize>)
    ensures
        forall|i: int|
            0 <= i < retained(states, handles).len() ==> states.contains(
                #[trigger] retained(states, handles)[i],
            ),
    decreases states.len(),
{
    let kept = retained(states, handles);
    if states.len() > 0 {
        let shorter = states.drop_last();
        let earlier = retained(shorter, handles);
        lemma_retained_records(shorter, handles);
        assert forall|i: int| 0 <= i < kept.len() implies states.contains(#[trigger] kept[i]) by {
            if i < earlier.len() {
                assert(shorter.contains(earlier[i]));
                let j = choose|j: int| 0 <= j < shorter.len() && shorter[j] == earlier[i];
                assert(states[j] == kept[i]);
            } else {
                assert(states[states.len() - 1] == kept[i]);
            }
        }
    }
}

/// A window arrives exactly when it is live and was not cached, and it
/// arrives as never applied.
pub proof fn lemma_arrivals_holds(kept: Seq<WindowHandleState>, handles: Seq<isize>, handle: isize)
    ensures
        holds_handle(arrivals(kept, handles), handle) <==> handles.contains(handle)
            && !holds_handle(kept, handle),
        forall|i: int|
            0 <= i < arrivals(kept, handles).len() ==> (#[trigger] arrivals(kept, handles)[i])
                == never_applied(arrivals(kept, handles)[i].handle),
    decreases handles.len(),
{
    let fresh = arrivals(kept, handles);
    if handles.len() > 0 {
        let shorter = handles.drop_last();
        let earlier = arrivals(kept, shorter);
        lemma_arrivals_holds(kept, shorter, handle);
        if holds_handle(fresh, handle) {
            let i = choose|i: int| 0 <= i < fresh.len() && fresh[i].handle == handle;
            if i < earlier.len() {
                assert(earlier[i].handle == handle);
                let j = choose|j: int| 0 <= j < shorter.len() && shorter[j] == handle;
                assert(handles[j] == handle);
            } else {
                assert(handles[handles.len() - 1] == handle);
            }
        }
        if handles.contains(handle) && !holds_handle(kept, handle) {
            let j = choose|j: int| 0 <= j < handles.len() && handles[j] == handle;
            if j < shorter.len() {
                assert(shorter[j] == handle);
                let i = choose|i: int| 0 <= i < earlier.len() && earlier[i].handle == handle;
                assert(fresh[i].handle == handle);
            } else {
                assert(fresh[earlier.len() as int].handle == handle);
            }
        }
        assert forall|i: int| 0 <= i < fresh.len() implies (#[trigger] fresh[i]) == never_applied(
            fresh[i].handle,
        ) by {
            if i < earlier.len() {
                assert(fresh[i] == earlier[i]);
            }
        }
    }
}

/// After a refresh of one class the cached windows are exactly the live
/// ones: a window is cached if and only if its handle is among the live
/// handles.
pub proof fn lemma_refreshed_states_are_live(
    states: Seq<WindowHandleState>,
    handles: Seq<isize>,
    handle: isize,
)
    ensures
        holds_handle(refreshed_states(states, handles), handle) <==> handles.contains(handle),
{
    let kept = retained(states, handles);
    let fresh = arrivals(kept, handles);
    let all = kept + fresh;
    lemma_retained_holds(states, handles, handle);
    lemma_arrivals_holds(kept, handles, handle);
    if holds_handle(all, handle) {
        let i = choose|i: int| 0 <= i < all.len() && all[i].handle == handle;
        if i < kept.len() {
            assert(kept[i].handle == handle);
        } else {
            assert(fresh[i - kept.len()].handle == handle);
        }
    }
    if holds_handle(kept, handle) {
        let i = choose|i: int| 0 <= i < kept.len() && kept[i].handle == handle;
        assert(all[i].handle == handle);
    }
    if holds_handle(fresh, handle) {
        let i = choose|i: int| 0 <= i < fresh.len() && fresh[i].handle == handle;
        assert(all[kept.len() + i].handle == handle);
    }
}

/// After a refresh of one class every cached state is either the record
/// that was cached for its window or the record of a window to which
/// nothing was applied yet.
pub proof fn lemma_refreshed_states_records(states: Seq<WindowHandleState>, handles: Seq<isize>)
    ensures
        forall|i: int|
            0 <= i < refreshed_states(states, handles).len() ==> {
                let state = #[trigger] refreshed_states(states, handles)[i];
                states.contains(state) || (state == never_applied(state.handle) && !holds_handle(
                    states,
                    state.handle,
                ))
            },
{
    let kept = retained(states, handles);
    let fresh = arrivals(kept, handles);
    let all = kept + fresh;
    lemma_retained_records(states, handles);
    assert forall|i: int| 0 <= i < all.len() implies {
        let state = #[trigger] all[i];
        states.contains(state) || (state == never_applied(state.handle) && !holds_handle(
            states,
            state.handle,
        ))
    } by {
        if i < kept.len() {
            assert(all[i] == kept[i]);
        } else {
            let state = fresh[i - kept.len()];
            assert(all[i] == state);
            lemma_arrivals_holds(kept, handles, state.handle);
            lemma_retained_holds(states, handles, state.handle);
            assert(holds_handle(fresh, state.handle));
        }
    }
}

/// Refreshing one rule changes the states of the rule's class and of no
/// other.
pub proof fn lemma_refresh_rule_lookup(
    entries: Seq<EntryView>,
    rule: RuleView,
    live: Seq<LiveWindow>,
    class: Seq<char>,
)
    ensures
        lookup(refresh_rule(entries, rule, live), class) == if rule.window_class == class {
            refreshed_states(lookup(entries, class), rule.matching_handles(live))
        } else {
            lookup(entries, class)
        },
{
    let handles = rule.matching_handles(live);
    let after = refresh_rule(entries, rule, live);
    let at = class_index(entries, rule.window_class);
    let i = class_index(entries, class);
    lemma_first_index(entries, of_class(rule.window_class));
    lemma_first_index(entries, of_class(class));
    if at < entries.len() {
        assert forall|j: int| 0 <= j < i implies !of_class(class)(#[trigger] after[j]) by {
            assert(!of_class(class)(entries[j]));
        }
        lemma_first_index_is(after, of_class(class), i);
    } else if handles.len() > 0 {
        if rule.window_class == class {
            assert forall|j: int| 0 <= j < entries.len() implies !of_class(class)(
                #[trigger] after[j],
            ) by {
                assert(!of_class(class)(entries[j]));
            }
            lemma_first_index_is(after, of_class(class), entries.len() as int);
        } else {
            let k = if i < entries.len() {
                i
            } else {
                after.len() as int
            };
            assert forall|j: int| 0 <= j < k implies !of_class(class)(#[trigger] after[j]) by {
                if j < entries.len() {
                    assert(!of_class(class)(entries[j]));
                }
            }
            lemma_first_index_is(after, of_class(class), k);
        }
    } else {
        if rule.window_class == class {
            assert(refreshed_states(Seq::<WindowHandleState>::empty(), handles)
                =~= Seq::<WindowHandleState>::empty());
        }
    }
}

/// Refreshing every rule leaves under each class what the rules of that
/// class, one after the other, make of what was cached under it.
pub proof fn lemma_refresh_rules_lookup(
    entries: Seq<EntryView>,
    rules: Seq<RuleView>,
    live: Seq<LiveWindow>,
    class: Seq<char>,
)
    ensures
        lookup(refresh_rules(entries, rules, live), class) == class_states(
            lookup(entries, class),
            rules,
            live,
            class,
        ),
    decreases rules.len(),
{
    if rules.len() > 0 {
        lemma_refresh_rules_lookup(entries, rules.drop_last(), live, class);
        lemma_refresh_rule_lookup(
            refresh_rules(entries, rules.drop_last(), live),
            rules.last(),
            live,
            class,
        );
    }
}

/// Refreshing one rule gives no class a second entry.
pub proof fn lemma_refresh_rule_distinct(entries: Seq<EntryView>, rule: RuleView, live: Seq<LiveWindow>)
    requires
        distinct_classes(entries),
    ensures
        distinct_classes(refresh_rule(entries, rule, live)),
{
    let after = refresh_rule(entries, rule, live);
    lemma_first_index(entries, of_class(rule.window_class));
    assert forall|i: int, j: int| 0 <= i < j < after.len() implies (#[trigger] after[i]).class != (
    #[trigger] after[j]).class by {
        if j < entries.len() {
            assert(after[i].class == entries[i].class);
            assert(after[j].class == entries[j].class);
        } else {
            assert(!of_class(rule.window_class)(entries[i]));
            assert(after[i].class == entries[i].class);
        }
    }
}

/// Refreshing every rule gives no class a second entry.
pub proof fn lemma_refresh_rules_distinct(
    entries: Seq<EntryView>,
    rules: Seq<RuleView>,
    live: Seq<LiveWindow>,
)
    requires
        distinct_classes(entries),
    ensures
        distinct_classes(refresh_rules(entries, rules, live)),
    decreases rules.len(),
{
    if rules.len() > 0 {
        lemma_refresh_rules_distinct(entries, rules.drop_last(), live);
        lemma_refresh_rule_distinct(
            refresh_rules(entries, rules.drop_last(), live),
            rules.last(),
            live,
        );
    }
}

/// What pruning keeps: every kept entry is an entry that stays, in the old
/// order, and every entry that stays is kept.
pub proof fn lemma_pruned(entries: Seq<EntryView>, rules: Seq<RuleView>)
    ensures
        forall|i: int|
            0 <= i < pruned(entries, rules).len() ==> entry_stays(
                #[trigger] pruned(entries, rules)[i],
                rules,
            ) && entries.contains(pruned(entries, rules)[i]),
        forall|j: int|
            0 <= j < entries.len() && entry_stays(entries[j], rules) ==> pruned(
                entries,
                rules,
            ).contains(#[trigger] entries[j]),
        distinct_classes(entries) ==> distinct_classes(pruned(entries, rules)),
    decreases entries.len(),
{
    let kept = pruned(entries, rules);
    if entries.len() > 0 {
        let shorter = entries.drop_last();
        let earlier = pruned(shorter, rules);
        lemma_pruned(shorter, rules);
        assert forall|i: int| 0 <= i < kept.len() implies entry_stays(#[trigger] kept[i], rules)
            && entries.contains(kept[i]) by {
            if i < earlier.len() {
                assert(kept[i] == earlier[i]);
                let j = choose|j: int| 0 <= j < shorter.len() && shorter[j] == earlier[i];
                assert(entries[j] == kept[i]);
            } else {
                assert(entries[entries.len() - 1] == kept[i]);
            }
        }
        assert forall|j: int| 0 <= j < entries.len() && entry_stays(entries[j], rules) implies kept.contains(
            #[trigger] entries[j],
        ) by {
            if j < shorter.len() {
                assert(shorter[j] == entries[j]);
                let i = choose|i: int| 0 <= i < earlier.len() && earlier[i] == shorter[j];
                assert(kept[i] == entries[j]);
            } else {
                assert(kept[earlier.len() as int] == entries[j]);
            }
        }
        if distinct_classes(entries) {
            assert(distinct_classes(shorter)) by {
                assert forall|i: int, j: int| 0 <= i < j < shorter.len() implies (
                #[trigger] shorter[i]).class != (#[trigger] shorter[j]).class by {
                    assert(entries[i].class != entries[j].class);
                }
            }
            assert forall|i: int, j: int| 0 <= i < j < kept.len() implies (#[trigger] kept[i]).class
                != (#[trigger] kept[j]).class by {
                if j < earlier.len() {
                    assert(earlier[i].class != earlier[j].class);
                } else {
                    assert(kept[i] == earlier[i]);
                    let k = choose|k: int| 0 <= k < shorter.len() && shorter[k] == earlier[i];
                    assert(entries[k].class != entries[entries.len() - 1].class);
                }
            }
        }
    }
}

/// Pruning leaves the states of a class that a rule targets as they were,
/// and leaves none under a class that no rule targets.
pub proof fn lemma_pruned_lookup(entries: Seq<EntryView>, rules: Seq<RuleView>, class: Seq<char>)
    requires
        distinct_classes(entries),
    ensures
        lookup(pruned(entries, rules), class) == if has_class(rules, class) {
            lookup(entries, class)
        } else {
            Seq::empty()
        },
{
    let kept = pruned(entries, rules);
    lemma_pruned(entries, rules);
    lemma_first_index(entries, of_class(class));
    lemma_first_index(kept, of_class(class));
    let i = class_index(entries, class);
    let k = class_index(kept, class);
    if k < kept.len() {
        assert(entry_stays(kept[k], rules) && entries.contains(kept[k]));
        let j = choose|j: int| 0 <= j < entries.len() && entries[j] == kept[k];
        if j != i {
            if i < j {
                assert(entries[i].class != entries[j].class);
            } else {
                assert(!of_class(class)(entries[j]));
            }
        }
    } else if i < entries.len() && entry_stays(entries[i], rules) {
        assert(kept.contains(entries[i]));
        let m = choose|m: int| 0 <= m < kept.len() && kept[m] == entries[i];
        assert(!of_class(class)(kept[m]));
    }
}

/// After a refresh cycle no class has two entries, no entry is empty, and
/// every entry's class is targeted by a rule.
pub proof fn lemma_refreshed_is_tidy(
    entries: Seq<EntryView>,
    rules: Seq<RuleView>,
    live: Seq<LiveWindow>,
)
    requires
        distinct_classes(entries),
    ensures
        distinct_classes(refreshed(entries, rules, live)),
        forall|i: int|
            0 <= i < refreshed(entries, rules, live).len() ==> entry_stays(
                #[trigger] refreshed(entries, rules, live)[i],
                rules,
            ),
{
    lemma_refresh_rules_distinct(entries, rules, live);
    lemma_pruned(refresh_rules(entries, rules, live), rules);
}

/// After a refresh cycle the states under a class are what the rules of
/// that class made of what was cached under it; a class that no rule
/// targets has none.
pub proof fn lemma_refreshed_lookup(
    entries: Seq<EntryView>,
    rules: Seq<RuleView>,
    live: Seq<LiveWindow>,
    class: Seq<char>,
)
    requires
        distinct_classes(entries),
    ensures
        lookup(refreshed(entries, rules, live), class) == if has_class(rules, class) {
            class_states(lookup(entries, class), rules, live, class)
        } else {
            Seq::empty()
        },
{
    lemma_refresh_rules_distinct(entries, rules, live);
    lemma_refresh_rules_lookup(entries, rules, live, class);
    lemma_pruned_lookup(refresh_rules(entries, rules, live), rules, class);
}

/// Where one rule alone targets a class, the rules together make of that
/// class what this rule makes of it.
pub proof fn lemma_class_states_single(
    states: Seq<WindowHandleState>,
    rules: Seq<RuleView>,
    live: Seq<LiveWindow>,
    at: int,
)
    requires
        0 <= at < rules.len(),
        forall|j: int|
            0 <= j < rules.len() && j != at ==> (#[trigger] rules[j]).window_class
                != rules[at].window_class,
    ensures
        class_states(states, rules, live, rules[at].window_class) == refreshed_states(
            states,
            rules[at].matching_handles(live),
        ),
    decreases rules.len(),
{
    let class = rules[at].window_class;
    let shorter = rules.drop_last();
    if at == rules.len() - 1 {
        lemma_class_states_untouched(states, shorter, live, class);
    } else {
        assert(rules[rules.len() - 1].window_class != class);
        assert(shorter[at] == rules[at]);
        assert forall|j: int| 0 <= j < shorter.len() && j != at implies (
        #[trigger] shorter[j]).window_class != shorter[at].window_class by {
            assert(shorter[j] == rules[j]);
        }
        lemma_class_states_single(states, shorter, live, at);
    }
}

/// Rules that do not target a class leave its states as they were.
pub proof fn lemma_class_states_untouched(
    states: Seq<WindowHandleState>,
    rules: Seq<RuleView>,
    live: Seq<LiveWindow>,
    class: Seq<char>,
)
    requires
        forall|j: int| 0 <= j < rules.len() ==> (#[trigger] rules[j]).window_class != class,
    ensures
        class_states(states, rules, live, class) == states,
    decreases rules.len(),
{
    if rules.len() > 0 {
        let shorter = rules.drop_last();
        assert(rules[rules.len() - 1].window_class != class);
        assert forall|j: int| 0 <= j < shorter.len() implies (#[trigger] shorter[j]).window_class
            != class by {
            assert(shorter[j] == rules[j]);
        }
        lemma_class_states_untouched(states, shorter, live, class);
    }
}

/// A refresh converges on the live windows. Where one rule alone targets a
/// class, the windows cached under that class after a refresh cycle are
/// exactly the live windows the rule targets: a window that is gone is
/// dropped, a window that is new is cached, and nothing else is.
pub proof fn lemma_refresh_converges(
    entries: Seq<EntryView>,
    rules: Seq<RuleView>,
    live: Seq<LiveWindow>,
    at: int,
    handle: isize,
)
    requires
        distinct_classes(entries),
        0 <= at < rules.len(),
        forall|j: int|
            0 <= j < rules.len() && j != at ==> (#[trigger] rules[j]).window_class
                != rules[at].window_class,
    ensures
        lookup(refreshed(entries, rules, live), rules[at].window_class) == refreshed_states(
            lookup(entries, rules[at].window_class),
            rules[at].matching_handles(live),
        ),
        holds_handle(lookup(refreshed(entries, rules, live), rules[at].window_class), handle)
            <==> rules[at].matching_handles(live).contains(handle),
{
    let class = rules[at].window_class;
    assert(has_class(rules, class));
    lemma_refreshed_lookup(entries, rules, live, class);
    lemma_class_states_single(lookup(entries, class), rules, live, at);
    lemma_refreshed_states_are_live(lookup(entries, class), rules[at].matching_handles(live), handle);
}

/// What holds of every cached record and of a window to which nothing was
/// applied yet holds of every record after one rule was refreshed.
pub proof fn lemma_refresh_rule_all(
    entries: Seq<EntryView>,
    rule: RuleView,
    live: Seq<LiveWindow>,
    holds: spec_fn(WindowHandleState) -> bool,
)
    requires
        forall|i: int, k: int|
            0 <= i < entries.len() && 0 <= k < entries[i].states.len() ==> holds(
                #[trigger] entries[i].states[k],
            ),
        forall|handle: isize| holds(#[trigger] never_applied(handle)),
    ensures
        forall|i: int, k: int|
            0 <= i < refresh_rule(entries, rule, live).len() && 0 <= k < refresh_rule(
                entries,
                rule,
                live,
            )[i].states.len() ==> holds(#[trigger] refresh_rule(entries, rule, live)[i].states[k]),
{
    let after = refresh_rule(entries, rule, live);
    let handles = rule.matching_handles(live);
    let at = class_index(entries, rule.window_class);
    lemma_first_index(entries, of_class(rule.window_class));
    assert forall|i: int, k: int|
        0 <= i < after.len() && 0 <= k < after[i].states.len() implies holds(
        #[trigger] after[i].states[k],
    ) by {
        if i < entries.len() && i != at {
            assert(after[i].states[k] == entries[i].states[k]);
        } else {
            let before = if at < entries.len() {
                entries[at].states
            } else {
                Seq::empty()
            };
            assert(after[i].states == refreshed_states(before, handles));
            lemma_refreshed_states_records(before, handles);
            let state = refreshed_states(before, handles)[k];
            if before.contains(state) {
                let m = choose|m: int| 0 <= m < before.len() && before[m] == state;
                assert(entries[at].states[m] == state);
            } else {
                assert(state == never_applied(state.handle));
            }
        }
    }
}

/// What holds of every cached record and of a window to which nothing was
/// applied yet holds of every record after a refresh cycle.
pub proof fn lemma_refreshed_all(
    entries: Seq<EntryView>,
    rules: Seq<RuleView>,
    live: Seq<LiveWindow>,
    holds: spec_fn(WindowHandleState) -> bool,
)
    requires
        forall|i: int, k: int|
            0 <= i < entries.len() && 0 <= k < entries[i].states.len() ==> holds(
                #[trigger] entries[i].states[k],
            ),
        forall|handle: isize| holds(#[trigger] never_applied(handle)),
    ensures
        forall|i: int, k: int|
            0 <= i < refreshed(entries, rules, live).len() && 0 <= k < refreshed(
                entries,
                rules,
                live,
            )[i].states.len() ==> holds(#[trigger] refreshed(entries, rules, live)[i].states[k]),
{
    lemma_refresh_rules_all(entries, rules, live, holds);
    let middle = refresh_rules(entries, rules, live);
    let after = refreshed(entries, rules, live);
    lemma_pruned(middle, rules);
    assert forall|i: int, k: int|
        0 <= i < after.len() && 0 <= k < after[i].states.len() implies holds(
        #[trigger] after[i].states[k],
    ) by {
        assert(middle.contains(after[i]));
        let m = choose|m: int| 0 <= m < middle.len() && middle[m] == after[i];
        assert(holds(middle[m].states[k]));
    }
}

proof fn lemma_refresh_rules_all(
    entries: Seq<EntryView>,
    rules: Seq<RuleView>,
    live: Seq<LiveWindow>,
    holds: spec_fn(WindowHandleState) -> bool,
)
    requires
        forall|i: int, k: int|
            0 <= i < entries.len() && 0 <= k < entries[i].states.len() ==> holds(
                #[trigger] entries[i].states[k],
            ),
        forall|handle: isize| holds(#[trigger] never_applied(handle)),
    ensures
        forall|i: int, k: int|
            0 <= i < refresh_rules(entries, rules, live).len() && 0 <= k < refresh_rules(
                entries,
                rules,
                live,
            )[i].states.len() ==> holds(#[trigger] refresh_rules(entries, rules, live)[i].states[k]),
    decreases rules.len(),
{
    if rules.len() > 0 {
        lemma_refresh_rules_all(entries, rules.drop_last(), live, holds);
        lemma_refresh_rule_all(
            refresh_rules(entries, rules.drop_last(), live),
            rules.last(),
            live,
            holds,
        );
    }
}

} // verus!
