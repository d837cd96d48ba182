//! The rule set and the messages of the tray menu.

use vstd::prelude::*;
use vstd::string::*;
use crate::seq_util::{first_index, lemma_first_index_is};
use crate::window_config::{RuleView, WindowConfig};

verus! {

/// What the tray menu can ask for.
#[derive(Clone, Copy, Debug, PartialEq, Eq, Structural)]
pub enum Message {
    Quit,
    Add,
    Rules,
    Enable,
    Disable,
    Startup,
}

/// The views of a sequence of rules.
pub open spec fn rule_views(rules: Seq<WindowConfig>) -> Seq<RuleView> {
    rules.map_values(|rule: WindowConfig| rule@)
}

/// The rule set: every rule is stored under its key, and the rules stand
/// in the order in which their keys were first stored.
#[derive(Debug)]
pub struct Config {
    windows: Vec<WindowConfig>,
}

impl View for Config {
    type V = Seq<RuleView>;

    closed spec fn view(&self) -> Seq<RuleView> {
        rule_views(self.windows@)
    }
}

/// The test a rule passes when it is stored under `key`.
pub open spec fn under_key(key: Seq<char>) -> spec_fn(RuleView) -> bool {
    |rule: RuleView| rule.key() == key
}

/// The position of the first rule stored under `key`, or the number of
/// rules where there is none.
pub open spec fn key_index(rules: Seq<RuleView>, key: Seq<char>) -> int {
    first_index(rules, under_key(key))
}

/// Whether a rule is stored under `key`.
pub open spec fn has_key(rules: Seq<RuleView>, key: Seq<char>) -> bool {
    key_index(rules, key) < rules.len()
}

/// The rule stored under `key`.
pub open spec fn stored_under(rules: Seq<RuleView>, key: Seq<char>) -> Option<RuleView> {
    if has_key(rules, key) {
        Some(rules[key_index(rules, key)])
    } else {
        None
    }
}

/// No two rules share a key.
pub open spec fn distinct_keys(rules: Seq<RuleView>) -> bool {
    forall|i: int, j: int|
        0 <= i < j < rules.len() ==> (#[trigger] rules[i]).key() != (#[trigger] rules[j]).key()
}

/// The rule set after `rule` was stored under its key: it takes the place
/// of the rule that had the key, or comes last.
pub open spec fn inserted(rules: Seq<RuleView>, rule: RuleView) -> Seq<RuleView> {
    let i = key_index(rules, rule.key());
    if i < rules.len() {
        rules.update(i, rule)
    } else {
        rules.push(rule)
    }
}

/// The rule set without the rules stored under `key`.
pub open spec fn removed(rules: Seq<RuleView>, key: Seq<char>) -> Seq<RuleView>
    decreases rules.len(),
{
    if rules.len() == 0 {
        Seq::empty()
    } else {
        let earlier = removed(rules.drop_last(), key);
        if rules.last().key() == key {
            earlier
        } else {
            earlier.push(rules.last())
        }
    }
}

impl Clone for Config {
    fn clone(&self) -> (copy: Self)
        ensures
            copy@ == self@,
    {
        let mut windows: Vec<WindowConfig> = Vec::new();
        let mut i: usize = 0;
        assert(rule_views(windows@) =~= self@.take(0));
        while i < self.windows.len()
            invariant
                i <= self.windows.len(),
                rule_views(windows@) == self@.take(i as int),
            decreases self.windows.len() - i,
        {
            let ghost before = rule_views(windows@);
            let copy = self.windows[i].clone();
            assert(copy@ == self@[i as int]);
            windows.push(copy);
            assert(rule_views(windows@) =~= before.push(copy@));
            assert(rule_views(windows@) =~= self@.take(i + 1));
            i += 1;
        }
        assert(self@.take(self@.len() as int) =~= self@);
        Config { windows }
    }
}

impl Config {
    pub fn new() -> (config: Self)
        ensures
            config@ == Seq::<RuleView>::empty(),
    {
        let config = Config { windows: Vec::new() };
        assert(config@ =~= Seq::<RuleView>::empty());
        config
    }

    pub fn get_windows_non_mut(&self) -> (windows: &Vec<WindowConfig>)
        ensures
            rule_views(windows@) == self@,
    {
        &self.windows
    }

    /// The rules, open to change in place. The caller answers for the
    /// keys: one that changes a rule's name or class moves it to another
    /// key without looking for a rule that has it.
    pub fn get_windows(&mut self) -> (windows: &mut Vec<WindowConfig>)
        ensures
            rule_views(windows@) == old(self)@,
            final(self)@ == rule_views(final(windows)@),
    {
        &mut self.windows
    }

    /// The number of rules.
    pub fn len(&self) -> (count: usize)
        ensures
            count == self@.len(),
    {
        self.windows.len()
    }

    fn find(&self, key: &String) -> (i: usize)
        ensures
            i == key_index(self@, key@),
            i <= self.windows.len(),
    {
        let mut i: usize = 0;
        while i < self.windows.len()
            invariant
                i <= self.windows.len(),
                forall|j: int| 0 <= j < i ==> (#[trigger] self@[j]).key() != key@,
            decreases self.windows.len() - i,
        {
            let stored = self.windows[i].get_key();
            assert(self@[i as int] == self.windows[i as int]@);
            if stored == *key {
                proof {
                    lemma_first_index_is(self@, under_key(key@), i as int);
                }
                return i;
            }
            i += 1;
        }
        proof {
            lemma_first_index_is(self@, under_key(key@), i as int);
        }
        i
    }

    /// Whether a rule is stored under `key`.
    pub fn contains_key(&self, key: &str) -> (found: bool)
        ensures
            found == has_key(self@, key@),
    {
        self.find(&String::from_str(key)) < self.windows.len()
    }

    /// The rule stored under `key`.
    pub fn get(&self, key: &str) -> (rule: Option<&WindowConfig>)
        ensures
            match rule {
                Some(found) => stored_under(self@, key@) == Some(found@),
                None => stored_under(self@, key@) is None,
            },
    {
        let i = self.find(&String::from_str(key));
        if i < self.windows.len() {
            Some(&self.windows[i])
        } else {
            None
        }
    }

    /// Stores a rule under its key, in place of the rule that had the key.
    pub fn insert(&mut self, rule: WindowConfig)
        ensures
            final(self)@ == inserted(old(self)@, rule@),
    {
        let key = rule.get_key();
        let i = self.find(&key);
        if i < self.windows.len() {
            self.windows[i] = rule;
        } else {
            self.windows.push(rule);
        }
        assert(self@ =~= inserted(old(self)@, rule@));
    }

    /// Removes what is stored under `key`.
    pub fn remove(&mut self, key: &str)
        ensures
            final(self)@ == removed(old(self)@, key@),
    {
        let key = String::from_str(key);
        let mut kept: Vec<WindowConfig> = Vec::new();
        let mut i: usize = 0;
        assert(self@.take(0) =~= Seq::<RuleView>::empty());
        assert(rule_views(kept@) =~= Seq::<RuleView>::empty());
        while i < self.windows.len()
            invariant
                i <= self.windows.len(),
                rule_views(kept@) == removed(self@.take(i as int), key@),
            decreases self.windows.len() - i,
        {
            proof {
                assert(self@.take(i + 1).drop_last() =~= self@.take(i as int));
                assert(self@.take(i + 1).last() == self.windows[i as int]@);
            }
            let stored = self.windows[i].get_key();
            if !(stored == key) {
                let ghost before = rule_views(kept@);
                kept.push(self.windows[i].clone());
                assert(rule_views(kept@) =~= before.push(self.windows[i as int]@));
            }
            i += 1;
        }
        assert(self@.take(self@.len() as int) =~= self@);
        self.windows = kept;
    }
}

} // verus!
