//! A translucency rule: the window it targets, the level it asks for, and
//! whether it is bound to its own class or to an ancestor's.

use vstd::prelude::*;
use vstd::string::*;
use crate::seq_util::{first_index, lemma_first_index_is};
use crate::win_utils::{
    alpha_to_percent, commands_at, convert_to_full, convert_to_human, make_window_transparent,
    percent_to_alpha, AlphaCommand, DesktopWindow, LiveWindow, WindowInfo,
};

verus! {

/// What a rule says, with its strings as sequences of characters.
pub struct RuleView {
    pub process_name: Seq<char>,
    pub window_class: Seq<char>,
    pub transparency: u8,
    pub enabled: bool,
    pub force: bool,
    pub old_class: Option<Seq<char>>,
}

/// The key under which a process name and a window class are stored.
pub open spec fn key_of(process_name: Seq<char>, window_class: Seq<char>) -> Seq<char> {
    process_name + seq!['|'] + window_class
}

impl RuleView {
    /// The identity key, always taken from the current class.
    pub open spec fn key(self) -> Seq<char> {
        key_of(self.process_name, self.window_class)
    }

    /// The key under which handles of this rule are cached: its class.
    pub open spec fn cache_key(self) -> Seq<char> {
        self.window_class
    }

    /// Whether a live window is one this rule targets: its class is the
    /// rule's class and its owner is the rule's process.
    pub open spec fn targets(self, window: LiveWindow) -> bool {
        window.class_name@ == self.window_class && window.process_name@ == self.process_name
    }

    /// The handles of the live windows this rule targets, in the order the
    /// platform reported them.
    pub open spec fn matching_handles(self, live: Seq<LiveWindow>) -> Seq<isize>
        decreases live.len(),
    {
        if live.len() == 0 {
            Seq::empty()
        } else {
            let earlier = self.matching_handles(live.drop_last());
            if self.targets(live.last()) {
                earlier.push(live.last().handle)
            } else {
                earlier
            }
        }
    }

    /// A rule bound to its own class.
    pub open spec fn is_direct(self) -> bool {
        !self.force && self.old_class is None
    }

    /// A rule bound to an ancestor's class, which remembers its own.
    pub open spec fn is_promoted(self) -> bool {
        self.force && self.old_class is Some
    }
}

/// The view of an optional string.
pub open spec fn option_view(s: Option<String>) -> Option<Seq<char>> {
    match s {
        Some(text) => Some(text@),
        None => None,
    }
}

/// One translucency rule.
#[derive(Debug)]
pub struct WindowConfig {
    process_name: String,
    window_class: String,
    transparency: u8,
    enabled: bool,
    force: bool,
    old_class: Option<String>,
}

impl View for WindowConfig {
    type V = RuleView;

    closed spec fn view(&self) -> RuleView {
        RuleView {
            process_name: self.process_name@,
            window_class: self.window_class@,
            transparency: self.transparency,
            enabled: self.enabled,
            force: self.force,
            old_class: option_view(self.old_class),
        }
    }
}

impl Clone for WindowConfig {
    fn clone(&self) -> (copy: Self)
        ensures
            copy@ == self@,
    {
        let old_class = match &self.old_class {
            Some(text) => Some(text.clone()),
            None => None,
        };
        WindowConfig {
            process_name: self.process_name.clone(),
            window_class: self.window_class.clone(),
            transparency: self.transparency,
            enabled: self.enabled,
            force: self.force,
            old_class,
        }
    }
}

impl Default for WindowConfig {
    fn default() -> (rule: Self)
        ensures
            rule@ == (RuleView {
                process_name: Seq::<char>::empty(),
                window_class: Seq::<char>::empty(),
                transparency: 255,
                enabled: false,
                force: false,
                old_class: None,
            }),
    {
        WindowConfig {
            process_name: String::new(),
            window_class: String::new(),
            transparency: 255,
            enabled: false,
            force: false,
            old_class: None,
        }
    }
}

impl WindowConfig {
    /// A direct, enabled rule for a picked window.
    pub fn new(info: &WindowInfo, transparency: u8) -> (rule: Self)
        ensures
            rule@ == (RuleView {
                process_name: info.process_name@,
                window_class: info.class_name@,
                transparency,
                enabled: true,
                force: false,
                old_class: None,
            }),
    {
        WindowConfig {
            process_name: info.process_name.clone(),
            window_class: info.class_name.clone(),
            transparency,
            enabled: true,
            force: false,
            old_class: None,
        }
    }

    /// The identity key: process name, a bar, window class.
    pub fn get_key(&self) -> (key: String)
        ensures
            key@ == self@.key(),
    {
        let mut key = self.process_name.clone();
        proof {
            reveal_strlit("|");
        }
        key.append("|");
        key.append(self.window_class.as_str());
        assert(key@ =~= self@.key());
        key
    }

    pub fn get_name(&self) -> (name: String)
        ensures
            name@ == self@.process_name,
    {
        self.process_name.clone()
    }

    pub fn set_name(&mut self, new_process_name: String)
        ensures
            final(self)@ == (RuleView { process_name: new_process_name@, ..old(self)@ }),
    {
        self.process_name = new_process_name;
    }

    pub fn set_old_classname(&mut self, old_classname: Option<String>)
        ensures
            final(self)@ == (RuleView { old_class: option_view(old_classname), ..old(self)@ }),
    {
        self.old_class = old_classname;
    }

    pub fn get_old_classname(&self) -> (old_class: &Option<String>)
        ensures
            option_view(*old_class) == self@.old_class,
    {
        &self.old_class
    }

    pub fn get_transparency(&self) -> (transparency: u8)
        ensures
            transparency == self@.transparency,
    {
        self.transparency
    }

    pub fn set_transparency(&mut self, new_transparency: u8)
        ensures
            final(self)@ == (RuleView { transparency: new_transparency, ..old(self)@ }),
    {
        self.transparency = new_transparency;
    }

    pub fn get_window_class(&self) -> (class: &String)
        ensures
            class@ == self@.window_class,
    {
        &self.window_class
    }

    pub fn set_window_class(&mut self, new_class_name: &str)
        ensures
            final(self)@ == (RuleView { window_class: new_class_name@, ..old(self)@ }),
    {
        self.window_class = String::from_str(new_class_name);
    }

    pub fn set_enabled(&mut self, new_state: bool)
        ensures
            final(self)@ == (RuleView { enabled: new_state, ..old(self)@ }),
    {
        self.enabled = new_state;
    }

    pub fn is_enabled(&self) -> (enabled: bool)
        ensures
            enabled == self@.enabled,
    {
        self.enabled
    }

    pub fn set_forced(&mut self, new_state: bool)
        ensures
            final(self)@ == (RuleView { force: new_state, ..old(self)@ }),
    {
        self.force = new_state;
    }

    pub fn is_forced(&self) -> (forced: bool)
        ensures
            forced == self@.force,
    {
        self.force
    }

    /// The handles of all live windows of this rule's class that belong to
    /// this rule's process.
    pub fn get_window_hwnds(&self, live: &Vec<LiveWindow>) -> (handles: Vec<isize>)
        ensures
            handles@ == self@.matching_handles(live@),
    {
        let mut handles: Vec<isize> = Vec::new();
        let mut i: usize = 0;
        assert(live@.take(0) =~= Seq::<LiveWindow>::empty());
        while i < live.len()
            invariant
                i <= live.len(),
                handles@ == self@.matching_handles(live@.take(i as int)),
            decreases live.len() - i,
        {
            let window = &live[i];
            proof {
                assert(live@.take(i + 1).drop_last() =~= live@.take(i as int));
            }
            if window.class_name == self.window_class && window.process_name == self.process_name {
                handles.push(window.handle);
            }
            i += 1;
        }
        assert(live@.take(live@.len() as int) =~= live@);
        handles
    }

    /// The commands that put every live window of this rule back to fully
    /// opaque.
    pub fn reset_config(&self, live: &Vec<LiveWindow>) -> (commands: Vec<AlphaCommand>)
        ensures
            commands@ == commands_at(self@.matching_handles(live@), 255),
    {
        let handles = self.get_window_hwnds(live);
        make_window_transparent(&handles, 255)
    }

    /// The commands that set every live window of this rule to the rule's
    /// level, whatever was applied to it before.
    pub fn refresh_config(&self, live: &Vec<LiveWindow>) -> (commands: Vec<AlphaCommand>)
        ensures
            commands@ == commands_at(self@.matching_handles(live@), self@.transparency),
    {
        let handles = self.get_window_hwnds(live);
        make_window_transparent(&handles, self.get_transparency())
    }

    /// The key under which this rule's handles are cached: its class.
    pub fn get_cache_key(&self) -> (key: String)
        ensures
            key@ == self@.cache_key(),
    {
        self.window_class.clone()
    }
}

/// The test a window of the walk passes when it is a descendant whose class
/// could be read and is `class`.
pub open spec fn descendant_of_class(class: Seq<char>) -> spec_fn(DesktopWindow) -> bool {
    |window: DesktopWindow| !window.top_level && option_view(window.class_name) == Some(class)
}

/// The test a window passes when its handle is `handle`.
pub open spec fn with_handle(handle: isize) -> spec_fn(DesktopWindow) -> bool {
    |window: DesktopWindow| window.handle == handle
}

/// The parent of the first descendant of class `target_class` that the walk
/// met; `None` where it met none or the platform names no parent for it.
pub open spec fn parent_of_first(desktop: Seq<DesktopWindow>, target_class: Seq<char>) -> Option<
    isize,
> {
    let i = first_index(desktop, descendant_of_class(target_class));
    if i < desktop.len() {
        desktop[i].parent
    } else {
        None
    }
}

/// The class of the window `handle`; `None` where the walk did not meet it
/// or its class could not be read.
pub open spec fn class_of(desktop: Seq<DesktopWindow>, handle: isize) -> Option<Seq<char>> {
    let i = first_index(desktop, with_handle(handle));
    if i < desktop.len() {
        option_view(desktop[i].class_name)
    } else {
        None
    }
}

/// The nearest ancestor of a class: the immediate parent of the first
/// descendant of that class, with the parent's own class.
pub open spec fn resolve_ancestor(desktop: Seq<DesktopWindow>, child_class: Seq<char>) -> Option<
    (isize, Seq<char>),
> {
    match parent_of_first(desktop, child_class) {
        Some(parent) => match class_of(desktop, parent) {
            Some(class) => Some((parent, class)),
            None => None,
        },
        None => None,
    }
}

/// The class name of a window of the walk.
pub fn get_window_class_name(hwnd: isize, desktop: &Vec<DesktopWindow>) -> (class: Option<String>)
    ensures
        option_view(class) == class_of(desktop@, hwnd),
{
    let mut i: usize = 0;
    while i < desktop.len()
        invariant
            i <= desktop.len(),
            forall|j: int| 0 <= j < i ==> !with_handle(hwnd)(#[trigger] desktop@[j]),
        decreases desktop.len() - i,
    {
        if desktop[i].handle == hwnd {
            proof {
                lemma_first_index_is(desktop@, with_handle(hwnd), i as int);
            }
            return match &desktop[i].class_name {
                Some(name) => Some(name.clone()),
                None => None,
            };
        }
        i += 1;
    }
    proof {
        lemma_first_index_is(desktop@, with_handle(hwnd), i as int);
    }
    None
}

/// Looks for a descendant window of class `target_class`, first match
/// wins, and returns the handle of its immediate parent. A window whose
/// class could not be read is no match.
pub fn find_window_by_class(target_class: &str, desktop: &Vec<DesktopWindow>) -> (parent: Option<
    isize,
>)
    ensures
        parent == parent_of_first(desktop@, target_class@),
{
    let target = String::from_str(target_class);
    let mut i: usize = 0;
    while i < desktop.len()
        invariant
            i <= desktop.len(),
            target@ == target_class@,
            forall|j: int|
                0 <= j < i ==> !descendant_of_class(target_class@)(#[trigger] desktop@[j]),
        decreases desktop.len() - i,
    {
        let window = &desktop[i];
        if !window.top_level {
            let found = match &window.class_name {
                Some(name) => *name == target,
                None => false,
            };
            if found {
                proof {
                    lemma_first_index_is(desktop@, descendant_of_class(target_class@), i as int);
                }
                return window.parent;
            }
        }
        i += 1;
    }
    proof {
        lemma_first_index_is(desktop@, descendant_of_class(target_class@), i as int);
    }
    None
}

/// Resolves a class to its nearest ancestor window: the handle of the
/// immediate parent of the first descendant of that class, and the
/// parent's class name.
pub fn find_parent_from_child_class(child_class: &str, desktop: &Vec<DesktopWindow>) -> (ancestor:
    Option<(isize, String)>)
    ensures
        match ancestor {
            Some((handle, class)) => resolve_ancestor(desktop@, child_class@) == Some(
                (handle, class@),
            ),
            None => resolve_ancestor(desktop@, child_class@) is None,
        },
{
    let parent = match find_window_by_class(child_class, desktop) {
        Some(handle) => handle,
        None => {
            return None;
        },
    };
    match get_window_class_name(parent, desktop) {
        Some(class) => Some((parent, class)),
        None => None,
    }
}

/// A rule as the rules window shows it: the level as a percentage, and the
/// remembered class as a string that is empty where there is none.
#[derive(Debug)]
pub struct TransparencyRule {
    pub process_name: String,
    pub window_class: String,
    pub transparency: i32,
    pub enabled: bool,
    pub force: bool,
    pub old_class: String,
}

/// A shown rule, with its strings as sequences of characters.
pub struct ShownRuleView {
    pub process_name: Seq<char>,
    pub window_class: Seq<char>,
    pub transparency: i32,
    pub enabled: bool,
    pub force: bool,
    pub old_class: Seq<char>,
}

impl View for TransparencyRule {
    type V = ShownRuleView;

    open spec fn view(&self) -> ShownRuleView {
        ShownRuleView {
            process_name: self.process_name@,
            window_class: self.window_class@,
            transparency: self.transparency,
            enabled: self.enabled,
            force: self.force,
            old_class: self.old_class@,
        }
    }
}

/// How a stored rule is shown.
pub open spec fn shown(rule: RuleView) -> ShownRuleView {
    ShownRuleView {
        process_name: rule.process_name,
        window_class: rule.window_class,
        transparency: alpha_to_percent(rule.transparency as int) as i32,
        enabled: rule.enabled,
        force: rule.force,
        old_class: match rule.old_class {
            Some(class) => class,
            None => Seq::empty(),
        },
    }
}

/// How a shown rule is stored.
pub open spec fn stored(rule: ShownRuleView) -> RuleView {
    RuleView {
        process_name: rule.process_name,
        window_class: rule.window_class,
        transparency: percent_to_alpha(rule.transparency as int) as u8,
        enabled: rule.enabled,
        force: rule.force,
        old_class: if rule.old_class.len() == 0 {
            None
        } else {
            Some(rule.old_class)
        },
    }
}

impl From<&WindowConfig> for TransparencyRule {
    /// The rule as the rules window shows it.
    fn from(config: &WindowConfig) -> (rule: Self)
        ensures
            rule@ == shown(config@),
    {
        let old_class = match &config.old_class {
            Some(class) => class.clone(),
            None => String::new(),
        };
        let percent: u8 = convert_to_human(config.transparency);
        TransparencyRule {
            process_name: config.process_name.clone(),
            window_class: config.window_class.clone(),
            transparency: percent as i32,
            enabled: config.enabled,
            force: config.force,
            old_class,
        }
    }
}

/// The conversion is stated by the `ensures` of `from`, over views: a fresh
/// string is equal to another only in what it holds.
impl vstd::std_specs::convert::FromSpecImpl<&WindowConfig> for TransparencyRule {
    open spec fn obeys_from_spec() -> bool {
        false
    }

    open spec fn from_spec(config: &WindowConfig) -> TransparencyRule {
        arbitrary()
    }
}

impl From<TransparencyRule> for WindowConfig {
    /// The rule as the rule set stores it.
    fn from(config: TransparencyRule) -> (rule: Self)
        ensures
            rule@ == stored(config@),
    {
        let old_class = if config.old_class.as_str().unicode_len() == 0 {
            None
        } else {
            Some(config.old_class)
        };
        WindowConfig {
            process_name: config.process_name,
            window_class: config.window_class,
            transparency: convert_to_full(config.transparency),
            enabled: config.enabled,
            force: config.force,
            old_class,
        }
    }
}

/// The conversion is stated by the `ensures` of `from`, over views.
impl vstd::std_specs::convert::FromSpecImpl<TransparencyRule> for WindowConfig {
    open spec fn obeys_from_spec() -> bool {
        false
    }

    open spec fn from_spec(config: TransparencyRule) -> WindowConfig {
        arbitrary()
    }
}

} // verus!
