//! The reconciliation loop as a state machine: each event yields the next
//! state and what the caller is to do with the platform.

use vstd::prelude::*;
use crate::monitor::{
    command_for, item_due, planned, recorded, refresh_window_cache, refreshed, reset_commands,
    reset_entries, reset_windows, update_windows, EntryView, PendingUpdate,
    WindowCache,
};
use crate::util::Config;
use crate::win_utils::{AlphaCommand, LiveWindow};
use crate::window_config::RuleView;

verus! {

/// What the loop waits for.
pub enum MonitorEvent {
    /// The shutdown signal fired.
    Shutdown,
    /// A new snapshot of the rule set was published.
    ConfigUpdate(Config),
    /// The global toggle was published with this value.
    Toggle(bool),
    /// The timer fired; these are the live top-level windows.
    Tick(Vec<LiveWindow>),
    /// The command handed out last was carried out, with or without success.
    Applied(bool),
}

/// What the caller is to do after an event.
pub enum MonitorAction {
    /// Nothing; wait for the next event.
    Idle,
    /// Carry out the command and report its outcome as `Applied`.
    Apply(AlphaCommand),
    /// Carry out every command, whatever each outcome, and go on waiting.
    Reset(Vec<AlphaCommand>),
    /// Carry out every command, whatever each outcome, and leave the loop.
    Exit(Vec<AlphaCommand>),
}

/// An action with its commands as a sequence.
pub enum ActionView {
    Idle,
    Apply(AlphaCommand),
    Reset(Seq<AlphaCommand>),
    Exit(Seq<AlphaCommand>),
}

impl View for MonitorAction {
    type V = ActionView;

    open spec fn view(&self) -> ActionView {
        match *self {
            MonitorAction::Idle => ActionView::Idle,
            MonitorAction::Apply(command) => ActionView::Apply(command),
            MonitorAction::Reset(commands) => ActionView::Reset(commands@),
            MonitorAction::Exit(commands) => ActionView::Exit(commands@),
        }
    }
}

/// The comparisons that are left once those that call for nothing were
/// passed over: empty, or headed by one that is due.
pub open spec fn skip_settled(entries: Seq<EntryView>, work: Seq<PendingUpdate>) -> Seq<
    PendingUpdate,
>
    decreases work.len(),
{
    if work.len() == 0 {
        work
    } else if item_due(entries, work.first()) {
        work
    } else {
        skip_settled(entries, work.drop_first())
    }
}

/// The state of the loop.
pub struct MonitorView {
    /// The rule set that ticks work on.
    pub rules: Seq<RuleView>,
    /// The global toggle as last observed.
    pub enabled: bool,
    /// False once the shutdown signal was handled.
    pub running: bool,
    /// The handle cache.
    pub cache: Seq<EntryView>,
    /// The comparisons of the tick in progress that are still owed. Where it
    /// is not empty its head is due, and its command is with the caller. A
    /// tick is meant to run to its end before the next event is taken; an
    /// event other than an outcome that comes earlier ends the tick, drops
    /// what it still owed, and leaves it to the next tick to compare afresh.
    pub work: Seq<PendingUpdate>,
}

impl MonitorView {
    /// What the caller is asked once the state has settled: the command of
    /// the comparison at the head of the work, or nothing.
    pub open spec fn request(self) -> ActionView {
        if !self.running {
            ActionView::Exit(Seq::empty())
        } else if self.work.len() == 0 {
            ActionView::Idle
        } else {
            ActionView::Apply(command_for(self.cache, self.work.first()))
        }
    }

    /// After the shutdown signal: every cached window is recorded opaque,
    /// nothing is owed any more, the loop has ended.
    pub open spec fn on_shutdown(self) -> MonitorView {
        if !self.running {
            self
        } else {
            MonitorView {
                cache: reset_entries(self.cache),
                work: Seq::empty(),
                running: false,
                ..self
            }
        }
    }

    /// What the shutdown signal asks of the caller.
    pub open spec fn shutdown_action(self) -> ActionView {
        if !self.running {
            ActionView::Exit(Seq::empty())
        } else {
            ActionView::Exit(reset_commands(self.cache))
        }
    }

    /// After a new snapshot: later ticks work on it; nothing is applied now.
    pub open spec fn on_config(self, rules: Seq<RuleView>) -> MonitorView {
        if !self.running {
            self
        } else {
            MonitorView { rules, work: Seq::empty(), ..self }
        }
    }

    /// What a new snapshot asks of the caller.
    pub open spec fn config_action(self) -> ActionView {
        if !self.running {
            ActionView::Exit(Seq::empty())
        } else {
            ActionView::Idle
        }
    }

    /// After a toggle: going from enabled to disabled records every cached
    /// window opaque; every other toggle only sets the flag.
    pub open spec fn on_toggle(self, state: bool) -> MonitorView {
        if !self.running {
            self
        } else {
            MonitorView {
                cache: if self.enabled && !state {
                    reset_entries(self.cache)
                } else {
                    self.cache
                },
                enabled: state,
                work: Seq::empty(),
                ..self
            }
        }
    }

    /// What a toggle asks of the caller.
    pub open spec fn toggle_action(self, state: bool) -> ActionView {
        if !self.running {
            ActionView::Exit(Seq::empty())
        } else if self.enabled && !state {
            ActionView::Reset(reset_commands(self.cache))
        } else {
            ActionView::Idle
        }
    }

    /// After a tick: while enabled the cache is refreshed against the live
    /// windows and the comparisons of every rule are owed; while disabled
    /// nothing happens.
    pub open spec fn on_tick(self, live: Seq<LiveWindow>) -> MonitorView {
        if !self.running {
            self
        } else if !self.enabled {
            MonitorView { work: Seq::empty(), ..self }
        } else {
            let cache = refreshed(self.cache, self.rules, live);
            MonitorView { cache, work: skip_settled(cache, planned(self.rules, cache)), ..self }
        }
    }

    /// After the outcome of a command: on success the window is recorded
    /// with what its rule asked for, on failure its record stays; either
    /// way the comparison is done and is not taken up again in this tick.
    pub open spec fn on_applied(self, success: bool) -> MonitorView {
        if !self.running || self.work.len() == 0 {
            self
        } else {
            let cache = if success {
                recorded(self.cache, self.work.first())
            } else {
                self.cache
            };
            MonitorView { cache, work: skip_settled(cache, self.work.drop_first()), ..self }
        }
    }
}

/// The reconciliation loop's state: the rule set and toggle it last saw,
/// the handle cache, and the comparisons of the tick in progress.
pub struct Monitor {
    config: Config,
    enabled: bool,
    running: bool,
    cache: WindowCache,
    work: Vec<PendingUpdate>,
    cursor: usize,
}

impl View for Monitor {
    type V = MonitorView;

    closed spec fn view(&self) -> MonitorView {
        MonitorView {
            rules: self.config@,
            enabled: self.enabled,
            running: self.running,
            cache: self.cache@,
            work: if self.cursor <= self.work@.len() {
                self.work@.skip(self.cursor as int)
            } else {
                Seq::empty()
            },
        }
    }
}

impl Monitor {
    /// A running loop with an empty cache.
    pub fn new(config: Config, enabled: bool) -> (monitor: Self)
        ensures
            monitor@ == (MonitorView {
                rules: config@,
                enabled,
                running: true,
                cache: Seq::empty(),
                work: Seq::empty(),
            }),
    {
        let monitor = Monitor {
            config,
            enabled,
            running: true,
            cache: WindowCache::new(),
            work: Vec::new(),
            cursor: 0,
        };
        assert(monitor@.work =~= Seq::<PendingUpdate>::empty());
        monitor
    }

    pub fn is_enabled(&self) -> (enabled: bool)
        ensures
            enabled == self@.enabled,
    {
        self.enabled
    }

    pub fn is_running(&self) -> (running: bool)
        ensures
            running == self@.running,
    {
        self.running
    }

    pub fn get_config(&self) -> (config: &Config)
        ensures
            config@ == self@.rules,
    {
        &self.config
    }

    pub fn get_cache(&self) -> (cache: &WindowCache)
        ensures
            cache@ == self@.cache,
    {
        &self.cache
    }

    fn drop_work(&mut self)
        ensures
            final(self)@ == (MonitorView { work: Seq::empty(), ..old(self)@ }),
    {
        self.work = Vec::new();
        self.cursor = 0;
        assert(self@.work =~= Seq::<PendingUpdate>::empty());
    }

    /// Passes over the comparisons that call for nothing and asks for the
    /// command of the first that is due.
    fn settle(&mut self) -> (action: MonitorAction)
        requires
            old(self)@.running,
        ensures
            final(self)@ == (MonitorView {
                work: skip_settled(old(self)@.cache, old(self)@.work),
                ..old(self)@
            }),
            action@ == final(self)@.request(),
    {
        while self.cursor < self.work.len()
            invariant
                self.config@ == old(self).config@,
                self.enabled == old(self).enabled,
                self.running == old(self).running,
                self.running,
                self.cache@ == old(self).cache@,
                skip_settled(self@.cache, self@.work) == skip_settled(
                    old(self)@.cache,
                    old(self)@.work,
                ),
            decreases self.work.len() - self.cursor,
        {
            let item = self.work[self.cursor];
            assert(self@.work.first() == item);
            match self.cache.command(&item) {
                Some(command) => {
                    return MonitorAction::Apply(command);
                },
                None => {
                    assert(self@.work.drop_first() =~= self.work@.skip(self.cursor + 1));
                    self.cursor += 1;
                },
            }
        }
        assert(self@.work.len() == 0);
        MonitorAction::Idle
    }

    /// Handles the shutdown signal.
    pub fn on_shutdown(&mut self) -> (action: MonitorAction)
        ensures
            final(self)@ == old(self)@.on_shutdown(),
            action@ == old(self)@.shutdown_action(),
    {
        if !self.running {
            return MonitorAction::Exit(Vec::new());
        }
        let commands = reset_windows(&mut self.cache);
        self.drop_work();
        self.running = false;
        MonitorAction::Exit(commands)
    }

    /// Takes a new snapshot of the rule set.
    pub fn on_config(&mut self, config: Config) -> (action: MonitorAction)
        ensures
            final(self)@ == old(self)@.on_config(config@),
            action@ == old(self)@.config_action(),
    {
        if !self.running {
            return MonitorAction::Exit(Vec::new());
        }
        self.config = config;
        self.drop_work();
        MonitorAction::Idle
    }

    /// Takes a new value of the global toggle.
    pub fn on_toggle(&mut self, state: bool) -> (action: MonitorAction)
        ensures
            final(self)@ == old(self)@.on_toggle(state),
            action@ == old(self)@.toggle_action(state),
    {
        if !self.running {
            return MonitorAction::Exit(Vec::new());
        }
        let mut action = MonitorAction::Idle;
        if state != self.enabled && self.enabled {
            let commands = reset_windows(&mut self.cache);
            action = MonitorAction::Reset(commands);
        }
        self.enabled = state;
        self.drop_work();
        action
    }

    /// Starts a tick on the live windows.
    pub fn on_tick(&mut self, live: &Vec<LiveWindow>) -> (action: MonitorAction)
        ensures
            final(self)@ == old(self)@.on_tick(live@),
            action@ == final(self)@.request(),
    {
        if !self.running {
            return MonitorAction::Exit(Vec::new());
        }
        if !self.enabled {
            self.drop_work();
            return MonitorAction::Idle;
        }
        refresh_window_cache(&self.config, &mut self.cache, live);
        self.work = update_windows(&self.config, &self.cache);
        self.cursor = 0;
        assert(self@.work =~= planned(self@.rules, self@.cache));
        self.settle()
    }

    /// Takes the outcome of the command handed out last.
    pub fn on_applied(&mut self, success: bool) -> (action: MonitorAction)
        ensures
            final(self)@ == old(self)@.on_applied(success),
            action@ == final(self)@.request(),
    {
        if !self.running {
            return MonitorAction::Exit(Vec::new());
        }
        if self.cursor < self.work.len() {
            let item = self.work[self.cursor];
            assert(self@.work.first() == item);
            if success {
                self.cache.record(&item);
            }
            assert(old(self)@.work.drop_first() =~= self.work@.skip(self.cursor + 1));
            self.cursor += 1;
            self.settle()
        } else {
            assert(self@.work.len() == 0);
            MonitorAction::Idle
        }
    }

    /// The loop's one decision: from the state and an event to the next
    /// state and what the caller is to do.
    pub fn step(&mut self, event: MonitorEvent) -> (action: MonitorAction)
        ensures
            match event {
                MonitorEvent::Shutdown => final(self)@ == old(self)@.on_shutdown() && action@
                    == old(self)@.shutdown_action(),
                MonitorEvent::ConfigUpdate(config) => final(self)@ == old(self)@.on_config(config@)
                    && action@ == old(self)@.config_action(),
                MonitorEvent::Toggle(state) => final(self)@ == old(self)@.on_toggle(state)
                    && action@ == old(self)@.toggle_action(state),
                MonitorEvent::Tick(live) => final(self)@ == old(self)@.on_tick(live@) && action@
                    == final(self)@.request(),
                MonitorEvent::Applied(success) => final(self)@ == old(self)@.on_applied(success)
                    && action@ == final(self)@.request(),
            },
    {
        match event {
            MonitorEvent::Shutdown => self.on_shutdown(),
            MonitorEvent::ConfigUpdate(config) => self.on_config(config),
            MonitorEvent::Toggle(state) => self.on_toggle(state),
            MonitorEvent::Tick(live) => self.on_tick(&live),
            MonitorEvent::Applied(success) => self.on_applied(success),
        }
    }
}

} // verus!
