//! The rule store: the rule set, the global toggle, and the two edits that
//! change a rule's binding between its own class and an ancestor's.

use vstd::prelude::*;
use vstd::string::*;
use crate::seq_util::{first_index, lemma_first_index_is};
use crate::util::{inserted, removed, rule_views, Config};
use crate::win_utils::{commands_at, AlphaCommand, DesktopWindow, LiveWindow};
use crate::window_config::{
    find_parent_from_child_class, key_of, resolve_ancestor, shown, RuleView, TransparencyRule,
    WindowConfig,
};

verus! {

/// The test a stored rule passes when it belongs to process `name` and
/// remembers `class` as the class it was promoted from.
pub open spec fn remembers(name: Seq<char>, class: Seq<char>) -> spec_fn(RuleView) -> bool {
    |rule: RuleView| rule.old_class == Some(class) && rule.process_name == name
}

/// The rule set after an edit: where a promoted rule of the same process
/// remembers the edited class, that rule takes the edit's level and enabled
/// flag; otherwise the edit is stored under its own key.
pub open spec fn with_window_config(rules: Seq<RuleView>, edit: RuleView) -> Seq<RuleView> {
    let i = first_index(rules, remembers(edit.process_name, edit.window_class));
    if i < rules.len() {
        rules.update(
            i,
            RuleView { enabled: edit.enabled, transparency: edit.transparency, ..rules[i] },
        )
    } else {
        inserted(rules, edit)
    }
}

/// The rule set without what is stored under the rule's key and, where the
/// rule remembers a class, under the key of that class.
pub open spec fn without_existing(rules: Seq<RuleView>, rule: RuleView) -> Seq<RuleView> {
    let rest = removed(rules, rule.key());
    match rule.old_class {
        Some(old_class) => removed(rest, key_of(rule.process_name, old_class)),
        None => rest,
    }
}

/// A rule rebound to an ancestor's class; it remembers the class it had.
pub open spec fn promoted(rule: RuleView, ancestor_class: Seq<char>) -> RuleView {
    RuleView {
        window_class: ancestor_class,
        old_class: Some(rule.window_class),
        force: true,
        ..rule
    }
}

/// The class a rule stood for before any promotion: the class it
/// remembers, or its own where it remembers none.
pub open spec fn original_class(rule: RuleView) -> Seq<char> {
    match rule.old_class {
        Some(class) => class,
        None => rule.window_class,
    }
}

/// A rule bound to its original class again.
pub open spec fn demoted(rule: RuleView) -> RuleView {
    RuleView { window_class: original_class(rule), old_class: None, force: false, ..rule }
}

/// The class whose ancestor a rebind looks for: a promotion starts from the
/// rule's current class, a demotion from its original class.
pub open spec fn lookup_class(rule: RuleView) -> Seq<char> {
    if rule.force {
        rule.window_class
    } else {
        original_class(rule)
    }
}

/// The rule set after a rebind that found the ancestor class. A promotion
/// removes what the rule was stored under and stores it under the
/// ancestor's class; a demotion removes what is stored under the ancestor's
/// class and stores the rule under its original class.
pub open spec fn rebound(rules: Seq<RuleView>, rule: RuleView, ancestor_class: Seq<char>) -> Seq<
    RuleView,
> {
    if rule.force {
        inserted(without_existing(rules, rule), promoted(rule, ancestor_class))
    } else {
        inserted(removed(rules, key_of(rule.process_name, ancestor_class)), demoted(rule))
    }
}

/// What a rebind asks of the platform at once. A promotion of an enabled
/// rule sets every live window of the ancestor's class that belongs to the
/// rule's process to the rule's level; a demotion puts those windows back
/// to fully opaque.
pub open spec fn rebind_commands(rule: RuleView, ancestor_class: Seq<char>, live: Seq<LiveWindow>) -> Seq<
    AlphaCommand,
> {
    let handles = (RuleView { window_class: ancestor_class, ..rule }).matching_handles(live);
    if !rule.force {
        commands_at(handles, 255)
    } else if rule.enabled {
        commands_at(handles, rule.transparency)
    } else {
        Seq::empty()
    }
}

/// What the store holds.
pub struct StoreView {
    pub rules: Seq<RuleView>,
    pub config_path: Seq<char>,
    pub enabled: bool,
}

/// The rule store.
pub struct AppState {
    config: Config,
    config_path: String,
    enabled: bool,
}

impl View for AppState {
    type V = StoreView;

    closed spec fn view(&self) -> StoreView {
        StoreView { rules: self.config@, config_path: self.config_path@, enabled: self.enabled }
    }
}

impl AppState {
    /// A store with the given rules, enabled.
    pub fn new(config: Config, config_path: String) -> (state: Self)
        ensures
            state@ == (StoreView { rules: config@, config_path: config_path@, enabled: true }),
    {
        AppState { config, config_path, enabled: true }
    }

    /// A snapshot of the rule set.
    pub fn get_config(&self) -> (config: Config)
        ensures
            config@ == self@.rules,
    {
        self.config.clone()
    }

    pub fn get_config_path(&self) -> (path: String)
        ensures
            path@ == self@.config_path,
    {
        self.config_path.clone()
    }

    /// The rule set, open to change in place.
    pub fn get_config_mut(&mut self) -> (config: &mut Config)
        ensures
            config@ == old(self)@.rules,
            final(self)@ == (StoreView { rules: final(config)@, ..old(self)@ }),
    {
        &mut self.config
    }

    /// Every rule as the rules window shows it, in the order of the set.
    pub fn get_window_rules(&self) -> (rules: Vec<TransparencyRule>)
        ensures
            rules@.len() == self@.rules.len(),
            forall|i: int| 0 <= i < rules@.len() ==> (#[trigger] rules@[i])@ == shown(self@.rules[i]),
    {
        let stored = self.config.get_windows_non_mut();
        let mut rules: Vec<TransparencyRule> = Vec::new();
        let mut i: usize = 0;
        while i < stored.len()
            invariant
                i <= stored.len(),
                rule_views(stored@) == self@.rules,
                rules@.len() == i,
                forall|j: int| 0 <= j < i ==> (#[trigger] rules@[j])@ == shown(self@.rules[j]),
            decreases stored.len() - i,
        {
            assert(self@.rules[i as int] == stored@[i as int]@);
            rules.push(TransparencyRule::from(&stored[i]));
            i += 1;
        }
        rules
    }

    pub fn is_enabled(&self) -> (enabled: bool)
        ensures
            enabled == self@.enabled,
    {
        self.enabled
    }

    /// Sets the global toggle and returns the value to publish.
    fn set_enable_state(&mut self, new_state: bool) -> (published: bool)
        ensures
            final(self)@ == (StoreView { enabled: new_state, ..old(self)@ }),
            published == new_state,
    {
        self.enabled = new_state;
        new_state
    }

    /// Switches the engine on and returns the value to publish.
    pub fn enabled(&mut self) -> (published: bool)
        ensures
            final(self)@ == (StoreView { enabled: true, ..old(self)@ }),
            published,
    {
        self.set_enable_state(true)
    }

    /// Switches the engine off and returns the value to publish.
    pub fn disable(&mut self) -> (published: bool)
        ensures
            final(self)@ == (StoreView { enabled: false, ..old(self)@ }),
            !published,
    {
        self.set_enable_state(false)
    }

    /// Takes an edit of a rule into the rule set.
    pub fn add_window_config(&mut self, window_config: WindowConfig)
        ensures
            final(self)@ == (StoreView {
                rules: with_window_config(old(self)@.rules, window_config@),
                ..old(self)@
            }),
    {
        let name = window_config.get_name();
        let count = self.config.len();
        let mut i: usize = 0;
        while i < count
            invariant
                i <= count,
                count == self@.rules.len(),
                *self == *old(self),
                name@ == window_config@.process_name,
                forall|j: int|
                    0 <= j < i ==> !remembers(
                        window_config@.process_name,
                        window_config@.window_class,
                    )(#[trigger] self@.rules[j]),
            decreases count - i,
        {
            let found = {
                let stored = self.config.get_windows_non_mut();
                assert(self@.rules[i as int] == stored@[i as int]@);
                match stored[i].get_old_classname() {
                    Some(old_class) => stored[i].get_name() == name
                        && *window_config.get_window_class() == *old_class,
                    None => false,
                }
            };
            if found {
                proof {
                    lemma_first_index_is(
                        self@.rules,
                        remembers(window_config@.process_name, window_config@.window_class),
                        i as int,
                    );
                }
                let stored = self.config.get_windows();
                stored[i].set_enabled(window_config.is_enabled());
                stored[i].set_transparency(window_config.get_transparency());
                assert(self@.rules =~= with_window_config(old(self)@.rules, window_config@));
                return ;
            }
            i += 1;
        }
        proof {
            lemma_first_index_is(
                self@.rules,
                remembers(window_config@.process_name, window_config@.window_class),
                i as int,
            );
        }
        self.config.insert(window_config);
    }

    /// Removes from the rule set what stands in the way of a promotion: the
    /// rule's own entry and the entry of the class it remembers.
    pub fn remove_existing_config(config: &mut Config, window_config: &WindowConfig)
        ensures
            final(config)@ == without_existing(old(config)@, window_config@),
    {
        config.remove(window_config.get_key().as_str());
        if let Some(old_class) = window_config.get_old_classname() {
            let mut key = window_config.get_name();
            proof {
                reveal_strlit("|");
            }
            key.append("|");
            key.append(old_class.as_str());
            assert(key@ =~= key_of(window_config@.process_name, old_class@));
            config.remove(key.as_str());
        }
    }

    /// Rebinds a rule. A rule marked forced is promoted to the class of its
    /// nearest ancestor window; a rule not marked forced is demoted to its
    /// original class. Where the desktop holds no ancestor nothing changes
    /// and `None` is returned; otherwise the commands to carry out at once
    /// are returned.
    pub fn add_force_config(
        &mut self,
        window_config: WindowConfig,
        desktop: &Vec<DesktopWindow>,
        live: &Vec<LiveWindow>,
    ) -> (commands: Option<Vec<AlphaCommand>>)
        ensures
            match resolve_ancestor(desktop@, lookup_class(window_config@)) {
                Some((handle, ancestor_class)) => final(self)@ == (StoreView {
                    rules: rebound(old(self)@.rules, window_config@, ancestor_class),
                    ..old(self)@
                }) && commands is Some && commands->0@ == rebind_commands(
                    window_config@,
                    ancestor_class,
                    live@,
                ),
                None => final(self)@ == old(self)@ && commands is None,
            },
    {
        let mut rule = window_config;
        if rule.is_forced() {
            let child_class = rule.get_window_class().clone();
            let parent_class = match find_parent_from_child_class(child_class.as_str(), desktop) {
                Some(ancestor) => ancestor.1,
                None => {
                    return None;
                },
            };
            Self::remove_existing_config(&mut self.config, &rule);
            rule.set_window_class(parent_class.as_str());
            let commands = if rule.is_enabled() {
                rule.refresh_config(live)
            } else {
                Vec::new()
            };
            rule.set_old_classname(Some(child_class));
            assert(rule@ == promoted(window_config@, parent_class@));
            self.config.insert(rule);
            Some(commands)
        } else {
            let child_class = match rule.get_old_classname() {
                Some(class) => class.clone(),
                None => rule.get_window_class().clone(),
            };
            let parent_class = match find_parent_from_child_class(child_class.as_str(), desktop) {
                Some(ancestor) => ancestor.1,
                None => {
                    return None;
                },
            };
            rule.set_window_class(parent_class.as_str());
            let commands = rule.reset_config(live);
            self.config.remove(rule.get_key().as_str());
            rule.set_window_class(child_class.as_str());
            rule.set_old_classname(None);
            rule.set_forced(false);
            assert(rule@ == demoted(window_config@));
            self.config.insert(rule);
            Some(commands)
        }
    }
}

} // verus!
