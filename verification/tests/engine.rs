use winalpha::engine::{Monitor, MonitorAction, MonitorEvent};
use winalpha::monitor::WindowHandleState;
use winalpha::util::Config;
use winalpha::win_utils::{AlphaCommand, LiveWindow, WindowInfo};
use winalpha::window_config::WindowConfig;

fn rule(process: &str, class: &str, transparency: u8, enabled: bool) -> WindowConfig {
    let info = WindowInfo { class_name: class.to_string(), process_name: process.to_string() };
    let mut rule = WindowConfig::new(&info, transparency);
    rule.set_enabled(enabled);
    rule
}

fn config(rules: Vec<WindowConfig>) -> Config {
    let mut config = Config::new();
    for rule in rules {
        config.insert(rule);
    }
    config
}

fn live(handle: isize, class: &str, process: &str) -> LiveWindow {
    LiveWindow::new(handle, class.to_string(), process.to_string())
}

fn applied(handle: isize, transparency: u8, enabled: bool) -> WindowHandleState {
    WindowHandleState { handle, transparency, enabled }
}

fn cached(monitor: &Monitor, class: &str) -> Vec<WindowHandleState> {
    monitor.get_cache().get(class).to_vec()
}

/// Carries an action through as the caller does: every command is recorded
/// and answered with the outcome that `fails` decides.
fn carry_out(monitor: &mut Monitor, first: MonitorAction, fails: &[isize]) -> Vec<AlphaCommand> {
    let mut issued = Vec::new();
    let mut action = first;
    loop {
        match action {
            MonitorAction::Apply(command) => {
                issued.push(command);
                action = monitor.on_applied(!fails.contains(&command.handle));
            }
            MonitorAction::Idle => return issued,
            MonitorAction::Reset(commands) => {
                issued.extend(commands);
                return issued;
            }
            MonitorAction::Exit(commands) => {
                issued.extend(commands);
                return issued;
            }
        }
    }
}

fn tick(monitor: &mut Monitor, windows: &Vec<LiveWindow>, fails: &[isize]) -> Vec<AlphaCommand> {
    let first = monitor.on_tick(windows);
    carry_out(monitor, first, fails)
}

fn notepad_windows() -> Vec<LiveWindow> {
    vec![live(10, "Edit", "notepad"), live(11, "Edit", "notepad"), live(12, "Edit", "other")]
}

#[test]
fn new_monitor_is_running_with_an_empty_cache() {
    let monitor = Monitor::new(config(vec![rule("notepad", "Edit", 128, true)]), true);
    assert!(monitor.is_running());
    assert!(monitor.is_enabled());
    assert_eq!(monitor.get_cache().len(), 0);
    assert_eq!(monitor.get_config().len(), 1);
}

#[test]
fn tick_sets_both_windows_of_the_process_and_leaves_the_third() {
    let mut monitor = Monitor::new(config(vec![rule("notepad", "Edit", 128, true)]), true);
    let issued = tick(&mut monitor, &notepad_windows(), &[]);
    assert_eq!(
        issued,
        vec![AlphaCommand { handle: 10, alpha: 128 }, AlphaCommand { handle: 11, alpha: 128 }]
    );
    assert_eq!(cached(&monitor, "Edit"), vec![applied(10, 128, true), applied(11, 128, true)]);
}

#[test]
fn second_tick_on_a_matching_state_issues_no_call() {
    let mut monitor = Monitor::new(config(vec![rule("notepad", "Edit", 128, true)]), true);
    tick(&mut monitor, &notepad_windows(), &[]);
    assert!(matches!(monitor.on_tick(&notepad_windows()), MonitorAction::Idle));
    assert_eq!(tick(&mut monitor, &notepad_windows(), &[]), Vec::new());
    assert_eq!(cached(&monitor, "Edit"), vec![applied(10, 128, true), applied(11, 128, true)]);
}

#[test]
fn disabled_rule_sets_its_windows_opaque_once() {
    let mut monitor = Monitor::new(config(vec![rule("notepad", "Edit", 128, false)]), true);
    let issued = tick(&mut monitor, &notepad_windows(), &[]);
    assert_eq!(
        issued,
        vec![AlphaCommand { handle: 10, alpha: 255 }, AlphaCommand { handle: 11, alpha: 255 }]
    );
    assert_eq!(cached(&monitor, "Edit"), vec![applied(10, 128, false), applied(11, 128, false)]);
    assert_eq!(tick(&mut monitor, &notepad_windows(), &[]), Vec::new());
}

#[test]
fn failed_call_is_not_retried_in_the_tick_but_in_the_next() {
    let mut monitor = Monitor::new(config(vec![rule("notepad", "Edit", 128, true)]), true);
    let issued = tick(&mut monitor, &notepad_windows(), &[10]);
    assert_eq!(
        issued,
        vec![AlphaCommand { handle: 10, alpha: 128 }, AlphaCommand { handle: 11, alpha: 128 }]
    );
    assert_eq!(cached(&monitor, "Edit"), vec![WindowHandleState::new(10), applied(11, 128, true)]);
    let issued = tick(&mut monitor, &notepad_windows(), &[]);
    assert_eq!(issued, vec![AlphaCommand { handle: 10, alpha: 128 }]);
    assert_eq!(cached(&monitor, "Edit"), vec![applied(10, 128, true), applied(11, 128, true)]);
}

#[test]
fn closed_window_is_pruned_by_the_next_tick() {
    let mut monitor = Monitor::new(config(vec![rule("notepad", "Edit", 128, true)]), true);
    tick(&mut monitor, &notepad_windows(), &[10]);
    let issued = tick(&mut monitor, &vec![live(11, "Edit", "notepad")], &[]);
    assert_eq!(issued, Vec::new());
    assert_eq!(cached(&monitor, "Edit"), vec![applied(11, 128, true)]);
}

#[test]
fn new_snapshot_is_applied_by_the_next_tick_only() {
    let mut monitor = Monitor::new(config(vec![rule("notepad", "Edit", 128, true)]), true);
    tick(&mut monitor, &notepad_windows(), &[]);
    let action = monitor.on_config(config(vec![rule("notepad", "Edit", 200, true)]));
    assert!(matches!(action, MonitorAction::Idle));
    assert_eq!(cached(&monitor, "Edit"), vec![applied(10, 128, true), applied(11, 128, true)]);
    let issued = tick(&mut monitor, &notepad_windows(), &[]);
    assert_eq!(
        issued,
        vec![AlphaCommand { handle: 10, alpha: 200 }, AlphaCommand { handle: 11, alpha: 200 }]
    );
}

#[test]
fn disabling_resets_every_cached_window_at_once() {
    let mut monitor = Monitor::new(
        config(vec![rule("notepad", "Edit", 128, true), rule("calc", "Calc", 90, true)]),
        true,
    );
    let mut windows = notepad_windows();
    windows.push(live(30, "Calc", "calc"));
    tick(&mut monitor, &windows, &[]);
    let action = monitor.on_toggle(false);
    let commands = match action {
        MonitorAction::Reset(commands) => commands,
        _ => panic!("a reset was owed"),
    };
    assert_eq!(
        commands,
        vec![
            AlphaCommand { handle: 10, alpha: 255 },
            AlphaCommand { handle: 11, alpha: 255 },
            AlphaCommand { handle: 30, alpha: 255 },
        ]
    );
    assert!(!monitor.is_enabled());
    assert!(monitor.is_running());
    assert_eq!(cached(&monitor, "Edit"), vec![applied(10, 255, false), applied(11, 255, false)]);
    assert_eq!(cached(&monitor, "Calc"), vec![applied(30, 255, false)]);
}

#[test]
fn tick_while_disabled_does_nothing() {
    let mut monitor = Monitor::new(config(vec![rule("notepad", "Edit", 128, true)]), false);
    assert!(matches!(monitor.on_tick(&notepad_windows()), MonitorAction::Idle));
    assert_eq!(monitor.get_cache().len(), 0);
    assert!(matches!(monitor.on_applied(true), MonitorAction::Idle));
}

#[test]
fn enabling_asks_nothing_and_the_next_tick_applies_again() {
    let mut monitor = Monitor::new(config(vec![rule("notepad", "Edit", 128, true)]), true);
    tick(&mut monitor, &notepad_windows(), &[]);
    let action = monitor.on_toggle(false);
    carry_out(&mut monitor, action, &[]);
    assert_eq!(tick(&mut monitor, &notepad_windows(), &[]), Vec::new());
    assert!(matches!(monitor.on_toggle(true), MonitorAction::Idle));
    assert!(monitor.is_enabled());
    let issued = tick(&mut monitor, &notepad_windows(), &[]);
    assert_eq!(
        issued,
        vec![AlphaCommand { handle: 10, alpha: 128 }, AlphaCommand { handle: 11, alpha: 128 }]
    );
    assert_eq!(cached(&monitor, "Edit"), vec![applied(10, 128, true), applied(11, 128, true)]);
}

#[test]
fn repeated_toggle_values_ask_nothing() {
    let mut monitor = Monitor::new(config(vec![rule("notepad", "Edit", 128, true)]), true);
    tick(&mut monitor, &notepad_windows(), &[]);
    assert!(matches!(monitor.on_toggle(true), MonitorAction::Idle));
    assert_eq!(cached(&monitor, "Edit"), vec![applied(10, 128, true), applied(11, 128, true)]);
    let action = monitor.on_toggle(false);
    assert!(matches!(action, MonitorAction::Reset(_)));
    assert!(matches!(monitor.on_toggle(false), MonitorAction::Idle));
}

#[test]
fn shutdown_resets_every_cached_window_and_ends_the_loop() {
    let mut monitor = Monitor::new(config(vec![rule("notepad", "Edit", 128, true)]), true);
    tick(&mut monitor, &notepad_windows(), &[]);
    let commands = match monitor.on_shutdown() {
        MonitorAction::Exit(commands) => commands,
        _ => panic!("the loop was to end"),
    };
    assert_eq!(
        commands,
        vec![AlphaCommand { handle: 10, alpha: 255 }, AlphaCommand { handle: 11, alpha: 255 }]
    );
    assert!(!monitor.is_running());
    assert_eq!(cached(&monitor, "Edit"), vec![applied(10, 255, false), applied(11, 255, false)]);
}

#[test]
fn shutdown_while_disabled_still_resets() {
    let mut monitor = Monitor::new(config(vec![rule("notepad", "Edit", 128, true)]), true);
    tick(&mut monitor, &notepad_windows(), &[]);
    monitor.on_toggle(false);
    let commands = match monitor.on_shutdown() {
        MonitorAction::Exit(commands) => commands,
        _ => panic!("the loop was to end"),
    };
    assert_eq!(commands.len(), 2);
    assert!(commands.iter().all(|command| command.alpha == 255));
}

#[test]
fn stopped_monitor_stays_stopped() {
    let mut monitor = Monitor::new(config(vec![rule("notepad", "Edit", 128, true)]), true);
    tick(&mut monitor, &notepad_windows(), &[]);
    monitor.on_shutdown();
    for event in vec![
        MonitorEvent::Tick(notepad_windows()),
        MonitorEvent::Toggle(false),
        MonitorEvent::Toggle(true),
        MonitorEvent::ConfigUpdate(Config::new()),
        MonitorEvent::Applied(true),
        MonitorEvent::Shutdown,
    ] {
        match monitor.step(event) {
            MonitorAction::Exit(commands) => assert_eq!(commands, Vec::new()),
            _ => panic!("a stopped loop asks for nothing but to stop"),
        }
    }
    assert!(!monitor.is_running());
    assert!(monitor.is_enabled());
    assert_eq!(monitor.get_config().len(), 1);
    assert_eq!(cached(&monitor, "Edit"), vec![applied(10, 255, false), applied(11, 255, false)]);
}

#[test]
fn step_dispatches_every_event() {
    let mut monitor = Monitor::new(Config::new(), true);
    assert!(matches!(
        monitor.step(MonitorEvent::ConfigUpdate(config(vec![rule("notepad", "Edit", 128, true)]))),
        MonitorAction::Idle
    ));
    let first = monitor.step(MonitorEvent::Tick(notepad_windows()));
    match first {
        MonitorAction::Apply(command) => {
            assert_eq!(command, AlphaCommand { handle: 10, alpha: 128 })
        }
        _ => panic!("a command was owed"),
    }
    match monitor.step(MonitorEvent::Applied(true)) {
        MonitorAction::Apply(command) => {
            assert_eq!(command, AlphaCommand { handle: 11, alpha: 128 })
        }
        _ => panic!("a command was owed"),
    }
    assert!(matches!(monitor.step(MonitorEvent::Applied(true)), MonitorAction::Idle));
    assert!(matches!(monitor.step(MonitorEvent::Toggle(false)), MonitorAction::Reset(_)));
    assert!(matches!(monitor.step(MonitorEvent::Shutdown), MonitorAction::Exit(_)));
}

#[test]
fn outcome_without_a_command_is_ignored() {
    let mut monitor = Monitor::new(config(vec![rule("notepad", "Edit", 128, true)]), true);
    assert!(matches!(monitor.on_applied(true), MonitorAction::Idle));
    tick(&mut monitor, &notepad_windows(), &[]);
    assert!(matches!(monitor.on_applied(true), MonitorAction::Idle));
    assert_eq!(cached(&monitor, "Edit"), vec![applied(10, 128, true), applied(11, 128, true)]);
}

#[test]
fn event_during_a_tick_abandons_what_is_owed() {
    let mut monitor = Monitor::new(config(vec![rule("notepad", "Edit", 128, true)]), true);
    assert!(matches!(monitor.on_tick(&notepad_windows()), MonitorAction::Apply(_)));
    assert!(matches!(
        monitor.on_config(config(vec![rule("notepad", "Edit", 64, true)])),
        MonitorAction::Idle
    ));
    assert!(matches!(monitor.on_applied(true), MonitorAction::Idle));
    assert_eq!(
        cached(&monitor, "Edit"),
        vec![WindowHandleState::new(10), WindowHandleState::new(11)]
    );
    let issued = tick(&mut monitor, &notepad_windows(), &[]);
    assert_eq!(
        issued,
        vec![AlphaCommand { handle: 10, alpha: 64 }, AlphaCommand { handle: 11, alpha: 64 }]
    );
}

#[test]
fn rules_of_one_class_are_applied_one_after_the_other() {
    let mut monitor = Monitor::new(
        config(vec![rule("notepad", "Edit", 128, true), rule("wordpad", "Edit", 90, true)]),
        true,
    );
    let windows = vec![live(20, "Edit", "wordpad")];
    let issued = tick(&mut monitor, &windows, &[]);
    assert_eq!(
        issued,
        vec![AlphaCommand { handle: 20, alpha: 128 }, AlphaCommand { handle: 20, alpha: 90 }]
    );
    assert_eq!(cached(&monitor, "Edit"), vec![applied(20, 90, true)]);
}

#[test]
fn disabled_rule_of_level_one_finds_a_new_window_as_it_asks() {
    let mut monitor = Monitor::new(config(vec![rule("notepad", "Edit", 1, false)]), true);
    assert_eq!(tick(&mut monitor, &notepad_windows(), &[]), Vec::new());
    assert_eq!(
        cached(&monitor, "Edit"),
        vec![WindowHandleState::new(10), WindowHandleState::new(11)]
    );
    monitor.on_config(config(vec![rule("notepad", "Edit", 1, true)]));
    assert_eq!(
        tick(&mut monitor, &notepad_windows(), &[]),
        vec![AlphaCommand { handle: 10, alpha: 1 }, AlphaCommand { handle: 11, alpha: 1 }]
    );
}

#[test]
fn new_window_is_applied_while_old_ones_are_left_alone() {
    let mut monitor = Monitor::new(config(vec![rule("notepad", "Edit", 128, true)]), true);
    tick(&mut monitor, &vec![live(10, "Edit", "notepad")], &[]);
    let issued = tick(&mut monitor, &notepad_windows(), &[]);
    assert_eq!(issued, vec![AlphaCommand { handle: 11, alpha: 128 }]);
}
