//! The handle cache and the reconciliation of each cached window with the
//! rule that targets it.

use vstd::prelude::*;
use vstd::string::*;
use crate::seq_util::{first_index, lemma_first_index_is};
use crate::util::{rule_views, Config};
use crate::win_utils::{AlphaCommand, LiveWindow};
use crate::window_config::{RuleView, WindowConfig};

verus! {

/// The level last applied to one window, and whether its rule was enabled
/// then.
#[derive(Clone, Copy, Debug, PartialEq, Eq, Structural)]
pub struct WindowHandleState {
    pub handle: isize,
    pub transparency: u8,
    pub enabled: bool,
}

/// The state of a window to which nothing was applied yet. It says "not
/// enabled", so the first comparison with an enabled rule differs and the
/// rule is applied to the window at least once.
pub open spec fn never_applied(handle: isize) -> WindowHandleState {
    WindowHandleState { handle, transparency: 1, enabled: false }
}

/// The state of a window that was put back to fully opaque.
pub open spec fn made_opaque(state: WindowHandleState) -> WindowHandleState {
    WindowHandleState { handle: state.handle, transparency: 255, enabled: false }
}

/// The level owed to a window whose rule asks for `transparency` and is
/// `enabled` or not.
pub open spec fn owed_alpha(transparency: u8, enabled: bool) -> u8 {
    if enabled {
        transparency
    } else {
        255u8
    }
}

impl WindowHandleState {
    /// Whether the last applied state is what a rule now asks for.
    pub open spec fn matches(self, transparency: u8, enabled: bool) -> bool {
        self.transparency == transparency && self.enabled == enabled
    }

    /// The state after `transparency` and `enabled` were applied.
    pub open spec fn with_state(self, transparency: u8, enabled: bool) -> WindowHandleState {
        WindowHandleState { handle: self.handle, transparency, enabled }
    }

    pub fn new(handle: isize) -> (state: Self)
        ensures
            state == never_applied(handle),
    {
        WindowHandleState { handle, transparency: 1, enabled: false }
    }

    pub fn get_handle(&self) -> (handle: isize)
        ensures
            handle == self.handle,
    {
        self.handle
    }

    pub fn get_transparency(&self) -> (transparency: u8)
        ensures
            transparency == self.transparency,
    {
        self.transparency
    }

    pub fn update_state(&mut self, transparency: u8, enabled: bool)
        ensures
            *final(self) == old(self).with_state(transparency, enabled),
    {
        self.transparency = transparency;
        self.enabled = enabled;
    }

    pub fn is_enabled(&self) -> (enabled: bool)
        ensures
            enabled == self.enabled,
    {
        self.enabled
    }

    /// The level this window is to be shown at, going by its own record.
    pub fn apply_alpha(&self) -> (alpha: u8)
        ensures
            alpha == owed_alpha(self.transparency, self.enabled),
    {
        if self.enabled {
            self.transparency
        } else {
            255
        }
    }

    /// Records the window as fully opaque and returns the level to set.
    pub fn refresh_window(&mut self) -> (alpha: u8)
        ensures
            *final(self) == made_opaque(*old(self)),
            alpha == 255,
    {
        self.transparency = 255;
        self.enabled = false;
        self.apply_alpha()
    }

    /// Compares the record with what a rule asks for. Where they agree
    /// nothing changes and no level is returned; where they differ the
    /// record takes the rule's values and the level to set is returned.
    pub fn update_window(&mut self, new_transparency: u8, enabled: bool) -> (alpha: Option<u8>)
        ensures
            old(self).matches(new_transparency, enabled) ==> alpha is None && *final(self) == *old(
                self,
            ),
            !old(self).matches(new_transparency, enabled) ==> alpha == Some(
                owed_alpha(new_transparency, enabled),
            ) && *final(self) == old(self).with_state(new_transparency, enabled),
    {
        if self.get_transparency() != new_transparency || self.is_enabled() != enabled {
            self.update_state(new_transparency, enabled);
            Some(self.apply_alpha())
        } else {
            None
        }
    }
}

/// One class of the cache: the windows of that class that were live at the
/// last refresh, each with what was last applied to it.
pub struct EntryView {
    pub class: Seq<char>,
    pub states: Seq<WindowHandleState>,
}

/// Whether one of `states` belongs to the window `handle`.
pub open spec fn holds_handle(states: Seq<WindowHandleState>, handle: isize) -> bool {
    exists|i: int| 0 <= i < states.len() && states[i].handle == handle
}

/// The states whose window is still among `handles`, in their old order.
pub open spec fn retained(states: Seq<WindowHandleState>, handles: Seq<isize>) -> Seq<
    WindowHandleState,
>
    decreases states.len(),
{
    if states.len() == 0 {
        Seq::empty()
    } else {
        let earlier = retained(states.drop_last(), handles);
        if handles.contains(states.last().handle) {
            earlier.push(states.last())
        } else {
            earlier
        }
    }
}

/// A never-applied state for each of `handles` that `kept` does not hold,
/// in the order of `handles`.
pub open spec fn arrivals(kept: Seq<WindowHandleState>, handles: Seq<isize>) -> Seq<
    WindowHandleState,
>
    decreases handles.len(),
{
    if handles.len() == 0 {
        Seq::empty()
    } else {
        let earlier = arrivals(kept, handles.drop_last());
        if holds_handle(kept, handles.last()) {
            earlier
        } else {
            earlier.push(never_applied(handles.last()))
        }
    }
}

/// The states of one class after a refresh against the live `handles`:
/// what was cached and is still live keeps its record, what is gone is
/// dropped, what is new arrives as never applied.
pub open spec fn refreshed_states(states: Seq<WindowHandleState>, handles: Seq<isize>) -> Seq<
    WindowHandleState,
> {
    let kept = retained(states, handles);
    kept + arrivals(kept, handles)
}

/// The test an entry passes when it is the entry of `class`.
pub open spec fn of_class(class: Seq<char>) -> spec_fn(EntryView) -> bool {
    |entry: EntryView| entry.class == class
}

/// The position of the first entry of `class`, or the number of entries
/// where there is none.
pub open spec fn class_index(entries: Seq<EntryView>, class: Seq<char>) -> int {
    first_index(entries, of_class(class))
}

/// The states cached under `class`; none where the class has no entry.
pub open spec fn lookup(entries: Seq<EntryView>, class: Seq<char>) -> Seq<WindowHandleState> {
    let i = class_index(entries, class);
    if i < entries.len() {
        entries[i].states
    } else {
        Seq::empty()
    }
}

/// No class has two entries.
pub open spec fn distinct_classes(entries: Seq<EntryView>) -> bool {
    forall|i: int, j: int|
        0 <= i < j < entries.len() ==> (#[trigger] entries[i]).class != (#[trigger] entries[j]).class
}

/// Whether some rule targets `class`.
pub open spec fn has_class(rules: Seq<RuleView>, class: Seq<char>) -> bool {
    exists|i: int| 0 <= i < rules.len() && (#[trigger] rules[i]).window_class == class
}

/// The cache after one rule was refreshed against the live windows.
pub open spec fn refresh_rule(entries: Seq<EntryView>, rule: RuleView, live: Seq<LiveWindow>) -> Seq<
    EntryView,
> {
    let handles = rule.matching_handles(live);
    let i = class_index(entries, rule.window_class);
    if i < entries.len() {
        entries.update(
            i,
            EntryView {
                class: entries[i].class,
                states: refreshed_states(entries[i].states, handles),
            },
        )
    } else if handles.len() > 0 {
        entries.push(
            EntryView {
                class: rule.window_class,
                states: refreshed_states(Seq::empty(), handles),
            },
        )
    } else {
        entries
    }
}

/// The cache after every rule was refreshed, first rule first.
pub open spec fn refresh_rules(entries: Seq<EntryView>, rules: Seq<RuleView>, live: Seq<LiveWindow>) -> Seq<
    EntryView,
>
    decreases rules.len(),
{
    if rules.len() == 0 {
        entries
    } else {
        refresh_rule(refresh_rules(entries, rules.drop_last(), live), rules.last(), live)
    }
}

/// Whether an entry stays in the cache: it holds a window and a rule
/// targets its class.
pub open spec fn entry_stays(entry: EntryView, rules: Seq<RuleView>) -> bool {
    entry.states.len() > 0 && has_class(rules, entry.class)
}

/// The entries that stay, in their old order.
pub open spec fn pruned(entries: Seq<EntryView>, rules: Seq<RuleView>) -> Seq<EntryView>
    decreases entries.len(),
{
    if entries.len() == 0 {
        Seq::empty()
    } else {
        let earlier = pruned(entries.drop_last(), rules);
        if entry_stays(entries.last(), rules) {
            earlier.push(entries.last())
        } else {
            earlier
        }
    }
}

/// The cache after a whole refresh cycle.
pub open spec fn refreshed(entries: Seq<EntryView>, rules: Seq<RuleView>, live: Seq<LiveWindow>) -> Seq<
    EntryView,
> {
    pruned(refresh_rules(entries, rules, live), rules)
}

struct CacheEntry {
    class: String,
    states: Vec<WindowHandleState>,
}

impl View for CacheEntry {
    type V = EntryView;

    closed spec fn view(&self) -> EntryView {
        EntryView { class: self.class@, states: self.states@ }
    }
}

/// The handle cache: for each window class, the live windows of that class
/// and what was last applied to each.
pub struct WindowCache {
    entries: Vec<CacheEntry>,
}

impl View for WindowCache {
    type V = Seq<EntryView>;

    closed spec fn view(&self) -> Seq<EntryView> {
        self.entries@.map_values(|entry: CacheEntry| entry@)
    }
}

fn has_handle(handles: &Vec<isize>, handle: isize) -> (found: bool)
    ensures
        found == handles@.contains(handle),
{
    let mut i: usize = 0;
    while i < handles.len()
        invariant
            i <= handles.len(),
            forall|j: int| 0 <= j < i ==> handles@[j] != handle,
        decreases handles.len() - i,
    {
        if handles[i] == handle {
            return true;
        }
        i += 1;
    }
    false
}

fn refresh_states(states: &Vec<WindowHandleState>, handles: &Vec<isize>) -> (fresh: Vec<
    WindowHandleState,
>)
    ensures
        fresh@ == refreshed_states(states@, handles@),
{
    let mut fresh: Vec<WindowHandleState> = Vec::new();
    let mut i: usize = 0;
    assert(states@.take(0) =~= Seq::<WindowHandleState>::empty());
    while i < states.len()
        invariant
            i <= states.len(),
            fresh@ == retained(states@.take(i as int), handles@),
        decreases states.len() - i,
    {
        proof {
            assert(states@.take(i + 1).drop_last() =~= states@.take(i as int));
        }
        if has_handle(handles, states[i].handle) {
            fresh.push(states[i]);
        }
        i += 1;
    }
    assert(states@.take(states@.len() as int) =~= states@);
    let ghost kept = fresh@;
    let kept_len = fresh.len();
    let mut k: usize = 0;
    assert(handles@.take(0) =~= Seq::<isize>::empty());
    assert(fresh@ =~= kept + arrivals(kept, handles@.take(0)));
    while k < handles.len()
        invariant
            k <= handles.len(),
            kept == retained(states@, handles@),
            kept_len == kept.len(),
            fresh@ == kept + arrivals(kept, handles@.take(k as int)),
        decreases handles.len() - k,
    {
        let handle = handles[k];
        proof {
            assert(handles@.take(k + 1).drop_last() =~= handles@.take(k as int));
        }
        let mut known = false;
        let mut j: usize = 0;
        while j < kept_len
            invariant
                j <= kept_len,
                kept_len == kept.len(),
                kept_len <= fresh.len(),
                fresh@.take(kept_len as int) == kept,
                !known ==> forall|m: int| 0 <= m < j ==> kept[m].handle != handle,
                known ==> holds_handle(kept, handle),
            decreases kept_len - j,
        {
            if fresh[j].handle == handle {
                assert(kept[j as int].handle == handle);
                known = true;
            }
            j += 1;
        }
        if !known {
            fresh.push(WindowHandleState::new(handle));
        }
        assert(fresh@ =~= kept + arrivals(kept, handles@.take(k + 1)));
        k += 1;
    }
    assert(handles@.take(handles@.len() as int) =~= handles@);
    fresh
}

impl WindowCache {
    /// An empty cache.
    pub fn new() -> (cache: Self)
        ensures
            cache@ == Seq::<EntryView>::empty(),
    {
        let cache = WindowCache { entries: Vec::new() };
        assert(cache@ =~= Seq::<EntryView>::empty());
        cache
    }

    /// The number of classes that have an entry.
    pub fn len(&self) -> (count: usize)
        ensures
            count == self@.len(),
    {
        self.entries.len()
    }

    fn find(&self, class: &String) -> (i: usize)
        ensures
            i == class_index(self@, class@),
            i <= self.entries.len(),
    {
        let mut i: usize = 0;
        while i < self.entries.len()
            invariant
                i <= self.entries.len(),
                forall|j: int| 0 <= j < i ==> (#[trigger] self@[j]).class != class@,
            decreases self.entries.len() - i,
        {
            if self.entries[i].class == *class {
                proof {
                    assert(self@[i as int].class == class@);
                    lemma_first_index_is(self@, of_class(class@), i as int);
                }
                return i;
            }
            assert(self@[i as int].class != class@);
            i += 1;
        }
        proof {
            lemma_first_index_is(self@, of_class(class@), i as int);
        }
        i
    }

    /// The states cached under a class; none where the class has no entry.
    pub fn get(&self, cache_key: &str) -> (states: &[WindowHandleState])
        ensures
            states@ == lookup(self@, cache_key@),
    {
        let i = self.find(&String::from_str(cache_key));
        if i < self.entries.len() {
            assert(self@[i as int].states == self.entries[i as int].states@);
            self.entries[i].states.as_slice()
        } else {
            &[]
        }
    }

    fn refresh_rule(&mut self, rule: &WindowConfig, live: &Vec<LiveWindow>)
        ensures
            final(self)@ == refresh_rule(old(self)@, rule@, live@),
    {
        let handles = rule.get_window_hwnds(live);
        let i = self.find(rule.get_window_class());
        if i < self.entries.len() {
            let fresh = refresh_states(&self.entries[i].states, &handles);
            assert(old(self)@[i as int].states == self.entries[i as int].states@);
            self.entries[i].states = fresh;
            assert(self@ =~= refresh_rule(old(self)@, rule@, live@));
        } else if handles.len() > 0 {
            let none: Vec<WindowHandleState> = Vec::new();
            let fresh = refresh_states(&none, &handles);
            self.entries.push(CacheEntry { class: rule.get_cache_key(), states: fresh });
            assert(self@ =~= refresh_rule(old(self)@, rule@, live@));
        }
    }

    fn prune(&mut self, rules: &Vec<WindowConfig>)
        ensures
            final(self)@ == pruned(old(self)@, rule_views(rules@)),
    {
        let mut kept: Vec<CacheEntry> = Vec::new();
        let mut i: usize = 0;
        let ghost before = self@;
        assert(before.take(0) =~= Seq::<EntryView>::empty());
        assert(kept@.map_values(|entry: CacheEntry| entry@) =~= Seq::<EntryView>::empty());
        while i < self.entries.len()
            invariant
                i <= self.entries.len(),
                self@ == before,
                kept@.map_values(|entry: CacheEntry| entry@) == pruned(
                    before.take(i as int),
                    rule_views(rules@),
                ),
            decreases self.entries.len() - i,
        {
            proof {
                assert(before.take(i + 1).drop_last() =~= before.take(i as int));
                assert(before[i as int] == self.entries[i as int]@);
            }
            let entry = &self.entries[i];
            if entry.states.len() > 0 && targets_class(rules, &entry.class) {
                let ghost old_kept = kept@;
                let mut states: Vec<WindowHandleState> = Vec::new();
                let mut k: usize = 0;
                while k < entry.states.len()
                    invariant
                        k <= entry.states.len(),
                        states@ == entry.states@.take(k as int),
                    decreases entry.states.len() - k,
                {
                    states.push(entry.states[k]);
                    assert(states@ =~= entry.states@.take(k + 1));
                    k += 1;
                }
                assert(entry.states@.take(entry.states@.len() as int) =~= entry.states@);
                kept.push(CacheEntry { class: entry.class.clone(), states });
                assert(kept@.map_values(|entry: CacheEntry| entry@) =~= old_kept.map_values(
                    |entry: CacheEntry| entry@,
                ).push(before[i as int]));
            }
            i += 1;
        }
        assert(before.take(before.len() as int) =~= before);
        self.entries = kept;
    }
}

fn targets_class(rules: &Vec<WindowConfig>, class: &String) -> (found: bool)
    ensures
        found == has_class(rule_views(rules@), class@),
{
    let mut i: usize = 0;
    while i < rules.len()
        invariant
            i <= rules.len(),
            forall|j: int| 0 <= j < i ==> (#[trigger] rule_views(rules@)[j]).window_class != class@,
        decreases rules.len() - i,
    {
        if *rules[i].get_window_class() == *class {
            assert(rule_views(rules@)[i as int].window_class == class@);
            return true;
        }
        assert(rule_views(rules@)[i as int].window_class != class@);
        i += 1;
    }
    false
}

/// Brings the cache up to date with the live windows: under each rule's
/// class stand exactly the live windows that the rule targets, and no entry
/// is left that is empty or whose class no rule targets.
pub fn refresh_window_cache(config: &Config, cache: &mut WindowCache, live: &Vec<LiveWindow>)
    ensures
        final(cache)@ == refreshed(old(cache)@, config@, live@),
{
    let rules = config.get_windows_non_mut();
    let mut i: usize = 0;
    assert(rule_views(rules@).take(0) =~= Seq::<RuleView>::empty());
    while i < rules.len()
        invariant
            i <= rules.len(),
            rule_views(rules@) == config@,
            cache@ == refresh_rules(old(cache)@, config@.take(i as int), live@),
        decreases rules.len() - i,
    {
        proof {
            assert(config@.take(i + 1).drop_last() =~= config@.take(i as int));
            assert(config@.take(i + 1).last() == rules@[i as int]@);
        }
        cache.refresh_rule(&rules[i], live);
        i += 1;
    }
    assert(config@.take(config@.len() as int) =~= config@);
    cache.prune(rules);
}

/// The states of one class after each was put back to opaque.
pub open spec fn reset_states(states: Seq<WindowHandleState>) -> Seq<WindowHandleState> {
    states.map_values(|state: WindowHandleState| made_opaque(state))
}

/// The cache after every window was put back to opaque.
pub open spec fn reset_entries(entries: Seq<EntryView>) -> Seq<EntryView> {
    entries.map_values(
        |entry: EntryView| EntryView { class: entry.class, states: reset_states(entry.states) },
    )
}

/// One command per window of a class: set it to fully opaque.
pub open spec fn opaque_commands(states: Seq<WindowHandleState>) -> Seq<AlphaCommand> {
    states.map_values(|state: WindowHandleState| AlphaCommand { handle: state.handle, alpha: 255 })
}

/// One command per cached window, entry by entry: set it to fully opaque.
pub open spec fn reset_commands(entries: Seq<EntryView>) -> Seq<AlphaCommand>
    decreases entries.len(),
{
    if entries.len() == 0 {
        Seq::empty()
    } else {
        reset_commands(entries.drop_last()) + opaque_commands(entries.last().states)
    }
}

fn reset_class(states: &Vec<WindowHandleState>, commands: &mut Vec<AlphaCommand>) -> (fresh: Vec<
    WindowHandleState,
>)
    ensures
        fresh@ == reset_states(states@),
        final(commands)@ == old(commands)@ + opaque_commands(states@),
{
    let mut fresh: Vec<WindowHandleState> = Vec::new();
    let mut k: usize = 0;
    assert(commands@ =~= old(commands)@ + opaque_commands(states@.take(0)));
    while k < states.len()
        invariant
            k <= states.len(),
            fresh@ == reset_states(states@.take(k as int)),
            commands@ == old(commands)@ + opaque_commands(states@.take(k as int)),
        decreases states.len() - k,
    {
        let mut state = states[k];
        let alpha = state.refresh_window();
        fresh.push(state);
        commands.push(AlphaCommand { handle: state.handle, alpha });
        proof {
            assert(states@.take(k + 1) =~= states@.take(k as int).push(states@[k as int]));
            assert(fresh@ =~= reset_states(states@.take(k + 1)));
            assert(commands@ =~= old(commands)@ + opaque_commands(states@.take(k + 1)));
        }
        k += 1;
    }
    assert(states@.take(states@.len() as int) =~= states@);
    fresh
}

/// Records every cached window as fully opaque and returns the commands
/// that make it so, one per window.
pub fn reset_windows(window_cache: &mut WindowCache) -> (commands: Vec<AlphaCommand>)
    ensures
        final(window_cache)@ == reset_entries(old(window_cache)@),
        commands@ == reset_commands(old(window_cache)@),
{
    let mut commands: Vec<AlphaCommand> = Vec::new();
    let mut i: usize = 0;
    let ghost before = window_cache@;
    assert(before.take(0) =~= Seq::<EntryView>::empty());
    while i < window_cache.entries.len()
        invariant
            i <= window_cache.entries.len(),
            window_cache@.len() == before.len(),
            forall|j: int| 0 <= j < i ==> (#[trigger] window_cache@[j]) == reset_entries(before)[j],
            forall|j: int| i <= j < before.len() ==> (#[trigger] window_cache@[j]) == before[j],
            commands@ == reset_commands(before.take(i as int)),
        decreases window_cache.entries.len() - i,
    {
        let ghost cache_before = window_cache@;
        assert(cache_before[i as int] == before[i as int]);
        assert(cache_before[i as int].states == window_cache.entries[i as int].states@);
        let fresh = reset_class(&window_cache.entries[i].states, &mut commands);
        window_cache.entries[i].states = fresh;
        proof {
            assert(before.take(i + 1).drop_last() =~= before.take(i as int));
            assert(window_cache@[i as int] == reset_entries(before)[i as int]);
            assert forall|j: int| 0 <= j < i + 1 implies (#[trigger] window_cache@[j])
                == reset_entries(before)[j] by {
                if j < i {
                    assert(window_cache@[j] == cache_before[j]);
                }
            }
            assert forall|j: int| i + 1 <= j < before.len() implies (#[trigger] window_cache@[j])
                == before[j] by {
                assert(window_cache@[j] == cache_before[j]);
            }
        }
        i += 1;
    }
    assert(before.take(before.len() as int) =~= before);
    assert(window_cache@ =~= reset_entries(before));
    commands
}

/// One comparison a tick owes: the window in `slot` of cache entry `entry`
/// against the state its rule asks for.
#[derive(Clone, Copy, Debug, PartialEq, Eq, Structural)]
pub struct PendingUpdate {
    pub entry: usize,
    pub slot: usize,
    pub transparency: u8,
    pub enabled: bool,
}

/// The comparisons one rule owes: one for every window cached under its
/// class, in cache order.
pub open spec fn rule_plan(rule: RuleView, entries: Seq<EntryView>) -> Seq<PendingUpdate> {
    let i = class_index(entries, rule.window_class);
    if i < entries.len() {
        Seq::new(
            entries[i].states.len(),
            |k: int|
                PendingUpdate {
                    entry: i as usize,
                    slot: k as usize,
                    transparency: rule.transparency,
                    enabled: rule.enabled,
                },
        )
    } else {
        Seq::empty()
    }
}

/// The comparisons a tick owes: those of every rule, first rule first.
pub open spec fn planned(rules: Seq<RuleView>, entries: Seq<EntryView>) -> Seq<PendingUpdate>
    decreases rules.len(),
{
    if rules.len() == 0 {
        Seq::empty()
    } else {
        planned(rules.drop_last(), entries) + rule_plan(rules.last(), entries)
    }
}

/// Lists, for every rule and every window cached under its class, the
/// comparison that a tick owes.
pub fn update_windows(config: &Config, window_cache: &WindowCache) -> (plan: Vec<PendingUpdate>)
    ensures
        plan@ == planned(config@, window_cache@),
{
    let rules = config.get_windows_non_mut();
    let mut plan: Vec<PendingUpdate> = Vec::new();
    let mut i: usize = 0;
    assert(config@.take(0) =~= Seq::<RuleView>::empty());
    while i < rules.len()
        invariant
            i <= rules.len(),
            rule_views(rules@) == config@,
            plan@ == planned(config@.take(i as int), window_cache@),
        decreases rules.len() - i,
    {
        let rule = &rules[i];
        proof {
            assert(config@.take(i + 1).drop_last() =~= config@.take(i as int));
            assert(config@.take(i + 1).last() == rule@);
        }
        let at = window_cache.find(rule.get_window_class());
        if at < window_cache.entries.len() {
            let count = window_cache.entries[at].states.len();
            assert(window_cache@[at as int].states.len() == count);
            let ghost plan_before = plan@;
            let mut k: usize = 0;
            while k < count
                invariant
                    k <= count,
                    at == class_index(window_cache@, rule@.window_class),
                    at < window_cache@.len(),
                    window_cache@[at as int].states.len() == count,
                    plan@ == plan_before + rule_plan(rule@, window_cache@).take(k as int),
                decreases count - k,
            {
                plan.push(
                    PendingUpdate {
                        entry: at,
                        slot: k,
                        transparency: rule.get_transparency(),
                        enabled: rule.is_enabled(),
                    },
                );
                assert(plan@ =~= plan_before + rule_plan(rule@, window_cache@).take(k + 1));
                k += 1;
            }
            assert(rule_plan(rule@, window_cache@).take(count as int) =~= rule_plan(
                rule@,
                window_cache@,
            ));
        } else {
            assert(plan@ =~= plan@ + rule_plan(rule@, window_cache@));
        }
        i += 1;
    }
    assert(config@.take(config@.len() as int) =~= config@);
    plan
}

/// The cache is one that a machine can hold: the number of its entries and
/// of the windows of each entry can be counted in a `usize`.
pub open spec fn fits(entries: Seq<EntryView>) -> bool {
    &&& entries.len() <= usize::MAX
    &&& forall|i: int| 0 <= i < entries.len() ==> (#[trigger] entries[i]).states.len() <= usize::MAX
}

/// Whether a comparison points at a window that the cache holds.
pub open spec fn item_valid(entries: Seq<EntryView>, item: PendingUpdate) -> bool {
    item.entry < entries.len() && item.slot < entries[item.entry as int].states.len()
}

/// Whether a comparison calls for the platform: its window is cached and
/// was last set to something else than its rule asks for.
pub open spec fn item_due(entries: Seq<EntryView>, item: PendingUpdate) -> bool {
    item_valid(entries, item) && !entries[item.entry as int].states[item.slot as int].matches(
        item.transparency,
        item.enabled,
    )
}

/// The command that carries out a comparison.
pub open spec fn command_for(entries: Seq<EntryView>, item: PendingUpdate) -> AlphaCommand {
    AlphaCommand {
        handle: entries[item.entry as int].states[item.slot as int].handle,
        alpha: owed_alpha(item.transparency, item.enabled),
    }
}

/// The cache after the command of a comparison succeeded: its window is
/// recorded with what the rule asked for.
pub open spec fn recorded(entries: Seq<EntryView>, item: PendingUpdate) -> Seq<EntryView> {
    if item_valid(entries, item) {
        let entry = entries[item.entry as int];
        entries.update(
            item.entry as int,
            EntryView {
                class: entry.class,
                states: entry.states.update(
                    item.slot as int,
                    entry.states[item.slot as int].with_state(item.transparency, item.enabled),
                ),
            },
        )
    } else {
        entries
    }
}

impl WindowCache {
    /// Every cache fits.
    pub proof fn lemma_fits(&self)
        ensures
            fits(self@),
    {
        let count: usize = self.entries.len();
        assert(count == self@.len());
        assert forall|i: int| 0 <= i < self@.len() implies (#[trigger] self@[i]).states.len()
            <= usize::MAX by {
            let windows: usize = self.entries@[i].states.len();
            assert(self@[i].states == self.entries@[i].states@);
            assert(windows == self@[i].states.len());
        }
    }

    /// The command a comparison calls for, if it calls for one.
    pub fn command(&self, item: &PendingUpdate) -> (command: Option<AlphaCommand>)
        ensures
            item_due(self@, *item) ==> command == Some(command_for(self@, *item)),
            !item_due(self@, *item) ==> command is None,
    {
        if item.entry < self.entries.len() {
            assert(self@[item.entry as int].states == self.entries[item.entry as int].states@);
            if item.slot < self.entries[item.entry].states.len() {
                let mut probe = self.entries[item.entry].states[item.slot];
                return match probe.update_window(item.transparency, item.enabled) {
                    Some(alpha) => Some(AlphaCommand { handle: probe.handle, alpha }),
                    None => None,
                };
            }
        }
        None
    }

    /// Records that the command of a comparison succeeded.
    pub fn record(&mut self, item: &PendingUpdate)
        ensures
            final(self)@ == recorded(old(self)@, *item),
    {
        if item.entry < self.entries.len() {
            assert(self@[item.entry as int].states == self.entries[item.entry as int].states@);
            if item.slot < self.entries[item.entry].states.len() {
                let mut state = self.entries[item.entry].states[item.slot];
                state.update_state(item.transparency, item.enabled);
                self.entries[item.entry].states[item.slot] = state;
                assert(self@ =~= recorded(old(self)@, *item));
            }
        }
    }
}

} // verus!
