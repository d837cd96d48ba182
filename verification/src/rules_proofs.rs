//! What the edits of the rule set guarantee about its keys.

use vstd::prelude::*;
use crate::app_state::{
    demoted, lookup_class, promoted, rebound, remembers, with_window_config, without_existing,
};
use crate::seq_util::{first_index, lemma_first_index, lemma_first_index_is};
use crate::app_state::original_class;
use crate::util::{
    distinct_keys, has_key, inserted, key_index, removed, stored_under, under_key,
};
use crate::window_config::{key_of, RuleView};

verus! {

/// After a rule was stored it is what is found under its key.
pub proof fn lemma_inserted_holds(rules: Seq<RuleView>, rule: RuleView)
    ensures
        stored_under(inserted(rules, rule), rule.key()) == Some(rule),
{
    let after = inserted(rules, rule);
    let i = key_index(rules, rule.key());
    lemma_first_index(rules, under_key(rule.key()));
    assert forall|j: int| 0 <= j < i implies !under_key(rule.key())(#[trigger] after[j]) by {
        assert(!under_key(rule.key())(rules[j]));
    }
    lemma_first_index_is(after, under_key(rule.key()), i);
}

/// Storing a rule changes nothing under any other key.
pub proof fn lemma_inserted_other(rules: Seq<RuleView>, rule: RuleView, key: Seq<char>)
    requires
        key != rule.key(),
    ensures
        stored_under(inserted(rules, rule), key) == stored_under(rules, key),
{
    let after = inserted(rules, rule);
    let i = key_index(rules, rule.key());
    let k = key_index(rules, key);
    lemma_first_index(rules, under_key(rule.key()));
    lemma_first_index(rules, under_key(key));
    let at = if k < rules.len() {
        k
    } else {
        after.len() as int
    };
    assert forall|j: int| 0 <= j < at implies !under_key(key)(#[trigger] after[j]) by {
        if j < rules.len() && j != i {
            assert(!under_key(key)(rules[j]));
        }
    }
    lemma_first_index_is(after, under_key(key), at);
}

/// Storing a rule gives no key a second rule.
pub proof fn lemma_inserted_distinct(rules: Seq<RuleView>, rule: RuleView)
    requires
        distinct_keys(rules),
    ensures
        distinct_keys(inserted(rules, rule)),
{
    let after = inserted(rules, rule);
    let i = key_index(rules, rule.key());
    lemma_first_index(rules, under_key(rule.key()));
    assert forall|a: int, b: int| 0 <= a < b < after.len() implies (#[trigger] after[a]).key() != (
    #[trigger] after[b]).key() by {
        if i < rules.len() {
            assert(rules[a].key() != rules[b].key());
        } else if b < rules.len() {
            assert(rules[a].key() != rules[b].key());
        } else {
            assert(!under_key(rule.key())(rules[a]));
        }
    }
}

/// What a removal leaves: the rules under other keys, in their old order.
pub proof fn lemma_removed(rules: Seq<RuleView>, key: Seq<char>)
    ensures
        forall|i: int|
            0 <= i < removed(rules, key).len() ==> (#[trigger] removed(rules, key)[i]).key() != key
                && rules.contains(removed(rules, key)[i]),
        forall|j: int|
            0 <= j < rules.len() && rules[j].key() != key ==> removed(rules, key).contains(
                #[trigger] rules[j],
            ),
        stored_under(removed(rules, key), key) is None,
        distinct_keys(rules) ==> distinct_keys(removed(rules, key)),
    decreases rules.len(),
{
    let kept = removed(rules, key);
    if rules.len() > 0 {
        let shorter = rules.drop_last();
        let earlier = removed(shorter, key);
        lemma_removed(shorter, key);
        assert forall|i: int| 0 <= i < kept.len() implies (#[trigger] kept[i]).key() != key
            && rules.contains(kept[i]) by {
            if i < earlier.len() {
                assert(kept[i] == earlier[i]);
                let j = choose|j: int| 0 <= j < shorter.len() && shorter[j] == earlier[i];
                assert(rules[j] == kept[i]);
            } else {
                assert(rules[rules.len() - 1] == kept[i]);
            }
        }
        assert forall|j: int| 0 <= j < rules.len() && rules[j].key() != key implies kept.contains(
            #[trigger] rules[j],
        ) by {
            if j < shorter.len() {
                assert(shorter[j] == rules[j]);
                let i = choose|i: int| 0 <= i < earlier.len() && earlier[i] == shorter[j];
                assert(kept[i] == rules[j]);
            } else {
                assert(kept[earlier.len() as int] == rules[j]);
            }
        }
        if distinct_keys(rules) {
            assert(distinct_keys(shorter)) by {
                assert forall|a: int, b: int| 0 <= a < b < shorter.len() implies (
                #[trigger] shorter[a]).key() != (#[trigger] shorter[b]).key() by {
                    assert(rules[a].key() != rules[b].key());
                }
            }
            assert forall|a: int, b: int| 0 <= a < b < kept.len() implies (#[trigger] kept[a]).key()
                != (#[trigger] kept[b]).key() by {
                if b < earlier.len() {
                    assert(earlier[a].key() != earlier[b].key());
                } else {
                    assert(kept[a] == earlier[a]);
                    let m = choose|m: int| 0 <= m < shorter.len() && shorter[m] == earlier[a];
                    assert(rules[m].key() != rules[rules.len() - 1].key());
                }
            }
        }
    }
    lemma_first_index(kept, under_key(key));
    if key_index(kept, key) < kept.len() {
        assert(kept[key_index(kept, key)].key() != key);
    }
}

/// An edit of a rule gives no key a second rule.
pub proof fn lemma_edit_keeps_keys_distinct(rules: Seq<RuleView>, edit: RuleView)
    requires
        distinct_keys(rules),
    ensures
        distinct_keys(with_window_config(rules, edit)),
{
    let after = with_window_config(rules, edit);
    let i = first_index(rules, remembers(edit.process_name, edit.window_class));
    lemma_first_index(rules, remembers(edit.process_name, edit.window_class));
    if i < rules.len() {
        assert forall|a: int, b: int| 0 <= a < b < after.len() implies (#[trigger] after[a]).key()
            != (#[trigger] after[b]).key() by {
            assert(after[a].key() == rules[a].key());
            assert(after[b].key() == rules[b].key());
        }
    } else {
        lemma_inserted_distinct(rules, edit);
    }
}

/// A rebind gives no key a second rule: promotion and demotion change the
/// key of one rule and leave at most one rule under every key.
pub proof fn lemma_rebind_keeps_keys_distinct(
    rules: Seq<RuleView>,
    rule: RuleView,
    ancestor_class: Seq<char>,
)
    requires
        distinct_keys(rules),
    ensures
        distinct_keys(rebound(rules, rule, ancestor_class)),
{
    if rule.force {
        let first = removed(rules, rule.key());
        lemma_removed(rules, rule.key());
        match rule.old_class {
            Some(old_class) => {
                lemma_removed(first, key_of(rule.process_name, old_class));
            },
            None => {},
        }
        lemma_inserted_distinct(without_existing(rules, rule), promoted(rule, ancestor_class));
    } else {
        let key = key_of(rule.process_name, ancestor_class);
        lemma_removed(rules, key);
        lemma_inserted_distinct(removed(rules, key), demoted(rule));
    }
}

/// A promotion can be undone. Promoting a direct rule to an ancestor's
/// class stores it under the ancestor's key; demoting what was stored
/// resolves from the rule's own class again, restores the rule as it was
/// under its own key, not forced and remembering no class, and leaves
/// nothing under the ancestor's key.
pub proof fn lemma_promotion_is_reversible(
    rules: Seq<RuleView>,
    rule: RuleView,
    ancestor_class: Seq<char>,
)
    requires
        rule.is_direct(),
        ancestor_class != rule.window_class,
    ensures
        ({
            let request = RuleView { force: true, ..rule };
            let held = promoted(request, ancestor_class);
            let up = rebound(rules, request, ancestor_class);
            let release = RuleView { force: false, ..held };
            let down = rebound(up, release, ancestor_class);
            &&& held.is_promoted()
            &&& stored_under(up, held.key()) == Some(held)
            &&& lookup_class(release) == rule.window_class
            &&& stored_under(down, rule.key()) == Some(rule)
            &&& stored_under(down, held.key()) is None
        }),
{
    let request = RuleView { force: true, ..rule };
    let held = promoted(request, ancestor_class);
    let up = rebound(rules, request, ancestor_class);
    let release = RuleView { force: false, ..held };
    let down = rebound(up, release, ancestor_class);
    lemma_inserted_holds(without_existing(rules, request), held);
    assert(demoted(release) == rule);
    lemma_key_of_class(rule.process_name, ancestor_class, rule.window_class);
    lemma_removed(up, held.key());
    lemma_inserted_holds(removed(up, held.key()), rule);
    lemma_inserted_other(removed(up, held.key()), rule, held.key());
}

/// Two classes of one process have two keys.
pub proof fn lemma_key_of_class(name: Seq<char>, first: Seq<char>, second: Seq<char>)
    requires
        first != second,
    ensures
        key_of(name, first) != key_of(name, second),
{
    let a = key_of(name, first);
    let b = key_of(name, second);
    if a == b {
        assert(first =~= a.skip(name.len() as int + 1));
        assert(second =~= b.skip(name.len() as int + 1));
    }
}

/// A key is in use exactly when some rule has it.
pub proof fn lemma_has_key(rules: Seq<RuleView>, key: Seq<char>)
    ensures
        has_key(rules, key) <==> exists|i: int| 0 <= i < rules.len() && (#[trigger] rules[i]).key() == key,
{
    lemma_first_index(rules, under_key(key));
    let at = key_index(rules, key);
    if at < rules.len() {
        assert(rules[at].key() == key);
    }
    if exists|i: int| 0 <= i < rules.len() && (#[trigger] rules[i]).key() == key {
        let i = choose|i: int| 0 <= i < rules.len() && (#[trigger] rules[i]).key() == key;
        if at >= rules.len() {
            assert(!under_key(key)(rules[i]));
        }
    }
}

/// A removal puts no key to use that was not in use.
pub proof fn lemma_removed_keeps_absent(rules: Seq<RuleView>, key: Seq<char>, absent: Seq<char>)
    requires
        !has_key(rules, absent),
    ensures
        !has_key(removed(rules, key), absent),
{
    let kept = removed(rules, key);
    lemma_removed(rules, key);
    lemma_has_key(rules, absent);
    lemma_has_key(kept, absent);
    if has_key(kept, absent) {
        let i = choose|i: int| 0 <= i < kept.len() && (#[trigger] kept[i]).key() == absent;
        assert(rules.contains(kept[i]));
        let j = choose|j: int| 0 <= j < rules.len() && rules[j] == kept[i];
        assert(rules[j].key() == absent);
    }
}

/// What a rebind leaves in the rule set. A promotion stores the rule under
/// the ancestor's key, forced and remembering the class it had, and leaves
/// nothing under the key it had. A demotion stores the rule under the key
/// of its original class, not forced and remembering nothing, and leaves
/// nothing under the ancestor's key.
pub proof fn lemma_rebind_stores(rules: Seq<RuleView>, rule: RuleView, ancestor_class: Seq<char>)
    ensures
        rule.force ==> {
            let held = promoted(rule, ancestor_class);
            &&& held.is_promoted()
            &&& held.key() == key_of(rule.process_name, ancestor_class)
            &&& stored_under(rebound(rules, rule, ancestor_class), held.key()) == Some(held)
            &&& ancestor_class != rule.window_class ==> stored_under(
                rebound(rules, rule, ancestor_class),
                rule.key(),
            ) is None
        },
        !rule.force ==> {
            let free = demoted(rule);
            &&& free.is_direct()
            &&& free.key() == key_of(rule.process_name, original_class(rule))
            &&& stored_under(rebound(rules, rule, ancestor_class), free.key()) == Some(free)
            &&& ancestor_class != original_class(rule) ==> stored_under(
                rebound(rules, rule, ancestor_class),
                key_of(rule.process_name, ancestor_class),
            ) is None
        },
{
    if rule.force {
        let held = promoted(rule, ancestor_class);
        let cleared = without_existing(rules, rule);
        lemma_inserted_holds(cleared, held);
        if ancestor_class != rule.window_class {
            lemma_key_of_class(rule.process_name, ancestor_class, rule.window_class);
            lemma_removed(rules, rule.key());
            match rule.old_class {
                Some(old_class) => {
                    lemma_removed_keeps_absent(
                        removed(rules, rule.key()),
                        key_of(rule.process_name, old_class),
                        rule.key(),
                    );
                },
                None => {},
            }
            lemma_inserted_other(cleared, held, rule.key());
        }
    } else {
        let free = demoted(rule);
        let key = key_of(rule.process_name, ancestor_class);
        let cleared = removed(rules, key);
        lemma_inserted_holds(cleared, free);
        if ancestor_class != original_class(rule) {
            lemma_key_of_class(rule.process_name, ancestor_class, original_class(rule));
            lemma_removed(rules, key);
            lemma_inserted_other(cleared, free, key);
        }
    }
}

} // verus!
