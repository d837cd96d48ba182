use winalpha::monitor::{
    refresh_window_cache, reset_windows, update_windows, PendingUpdate, WindowCache,
    WindowHandleState,
};
use winalpha::util::Config;
use winalpha::win_utils::{AlphaCommand, LiveWindow, WindowInfo};
use winalpha::window_config::WindowConfig;

fn rule(process: &str, class: &str, transparency: u8) -> WindowConfig {
    let info = WindowInfo { class_name: class.to_string(), process_name: process.to_string() };
    WindowConfig::new(&info, transparency)
}

fn config(rules: Vec<WindowConfig>) -> Config {
    let mut config = Config::new();
    for rule in rules {
        config.insert(rule);
    }
    config
}

fn live(handle: isize, class: &str, process: &str) -> LiveWindow {
    LiveWindow::new(handle, class.to_string(), process.to_string())
}

fn applied(handle: isize, transparency: u8, enabled: bool) -> WindowHandleState {
    WindowHandleState { handle, transparency, enabled }
}

fn cached(cache: &WindowCache, class: &str) -> Vec<WindowHandleState> {
    cache.get(class).to_vec()
}

#[test]
fn new_state_is_never_applied() {
    let state = WindowHandleState::new(42);
    assert_eq!(state.get_handle(), 42);
    assert_eq!(state.get_transparency(), 1);
    assert!(!state.is_enabled());
    assert_eq!(state.apply_alpha(), 255);
}

#[test]
fn update_window_on_a_matching_state_asks_nothing() {
    let mut state = applied(42, 128, true);
    assert_eq!(state.update_window(128, true), None);
    assert_eq!(state, applied(42, 128, true));
}

#[test]
fn update_window_on_a_differing_state_asks_for_the_owed_level() {
    let mut state = WindowHandleState::new(42);
    assert_eq!(state.update_window(128, true), Some(128));
    assert_eq!(state, applied(42, 128, true));
    assert_eq!(state.update_window(128, false), Some(255));
    assert_eq!(state, applied(42, 128, false));
    assert_eq!(state.update_window(90, false), Some(255));
    assert_eq!(state, applied(42, 90, false));
    assert_eq!(state.update_window(90, false), None);
}

#[test]
fn first_comparison_with_an_enabled_rule_always_differs() {
    let mut state = WindowHandleState::new(7);
    assert_eq!(state.update_window(1, true), Some(1));
}

#[test]
fn apply_alpha_is_the_level_or_opaque() {
    assert_eq!(applied(1, 128, true).apply_alpha(), 128);
    assert_eq!(applied(1, 128, false).apply_alpha(), 255);
    assert_eq!(applied(1, 0, true).apply_alpha(), 0);
}

#[test]
fn refresh_window_records_opaque() {
    let mut state = applied(42, 128, true);
    assert_eq!(state.refresh_window(), 255);
    assert_eq!(state, applied(42, 255, false));
}

#[test]
fn update_state_overwrites_the_record() {
    let mut state = WindowHandleState::new(5);
    state.update_state(200, true);
    assert_eq!(state, applied(5, 200, true));
}

#[test]
fn refresh_caches_live_windows_of_the_rule() {
    let rules = config(vec![rule("notepad", "Edit", 128)]);
    let mut cache = WindowCache::new();
    let windows = vec![
        live(10, "Edit", "notepad"),
        live(11, "Edit", "notepad"),
        live(12, "Edit", "wordpad"),
    ];
    refresh_window_cache(&rules, &mut cache, &windows);
    assert_eq!(cache.len(), 1);
    assert_eq!(cached(&cache, "Edit"), vec![WindowHandleState::new(10), WindowHandleState::new(11)]);
    assert_eq!(cached(&cache, "Other"), Vec::new());
}

#[test]
fn refresh_converges_on_the_live_set() {
    let rules = config(vec![rule("app", "Main", 128)]);
    let mut cache = WindowCache::new();
    // A and C are live and get applied.
    refresh_window_cache(&rules, &mut cache, &vec![live(1, "Main", "app"), live(3, "Main", "app")]);
    let plan = update_windows(&rules, &cache);
    for item in &plan {
        cache.record(item);
    }
    assert_eq!(cached(&cache, "Main"), vec![applied(1, 128, true), applied(3, 128, true)]);
    // C is destroyed, B appears.
    refresh_window_cache(&rules, &mut cache, &vec![live(1, "Main", "app"), live(2, "Main", "app")]);
    assert_eq!(cached(&cache, "Main"), vec![applied(1, 128, true), WindowHandleState::new(2)]);
}

#[test]
fn refresh_removes_empty_entries() {
    let rules = config(vec![rule("app", "Main", 128)]);
    let mut cache = WindowCache::new();
    refresh_window_cache(&rules, &mut cache, &vec![live(1, "Main", "app")]);
    assert_eq!(cache.len(), 1);
    refresh_window_cache(&rules, &mut cache, &Vec::new());
    assert_eq!(cache.len(), 0);
    assert_eq!(cached(&cache, "Main"), Vec::new());
}

#[test]
fn refresh_removes_classes_without_a_rule() {
    let mut cache = WindowCache::new();
    let windows = vec![live(1, "Main", "app"), live(2, "Side", "app")];
    refresh_window_cache(
        &config(vec![rule("app", "Main", 128), rule("app", "Side", 90)]),
        &mut cache,
        &windows,
    );
    assert_eq!(cache.len(), 2);
    refresh_window_cache(&config(vec![rule("app", "Side", 90)]), &mut cache, &windows);
    assert_eq!(cache.len(), 1);
    assert_eq!(cached(&cache, "Main"), Vec::new());
    assert_eq!(cached(&cache, "Side"), vec![WindowHandleState::new(2)]);
}

#[test]
fn refresh_with_no_rules_empties_the_cache() {
    let mut cache = WindowCache::new();
    let windows = vec![live(1, "Main", "app")];
    refresh_window_cache(&config(vec![rule("app", "Main", 128)]), &mut cache, &windows);
    refresh_window_cache(&Config::new(), &mut cache, &windows);
    assert_eq!(cache.len(), 0);
}

#[test]
fn refresh_keeps_new_windows_in_platform_order() {
    let rules = config(vec![rule("app", "Main", 128)]);
    let mut cache = WindowCache::new();
    refresh_window_cache(&rules, &mut cache, &vec![live(5, "Main", "app")]);
    refresh_window_cache(
        &rules,
        &mut cache,
        &vec![live(9, "Main", "app"), live(5, "Main", "app"), live(7, "Main", "app")],
    );
    assert_eq!(
        cached(&cache, "Main"),
        vec![WindowHandleState::new(5), WindowHandleState::new(9), WindowHandleState::new(7)]
    );
}

#[test]
fn rules_of_one_class_share_an_entry_and_the_last_rule_wins() {
    let rules = config(vec![rule("notepad", "Edit", 128), rule("wordpad", "Edit", 90)]);
    let mut cache = WindowCache::new();
    let windows = vec![live(10, "Edit", "notepad"), live(20, "Edit", "wordpad")];
    refresh_window_cache(&rules, &mut cache, &windows);
    assert_eq!(cache.len(), 1);
    assert_eq!(cached(&cache, "Edit"), vec![WindowHandleState::new(20)]);
}

#[test]
fn update_windows_lists_every_rule_and_cached_window() {
    let rules = config(vec![rule("app", "Main", 128), rule("app", "Side", 90), rule("app", "None", 50)]);
    let mut cache = WindowCache::new();
    let windows = vec![live(1, "Side", "app"), live(2, "Main", "app"), live(3, "Main", "app")];
    refresh_window_cache(&rules, &mut cache, &windows);
    assert_eq!(
        update_windows(&rules, &cache),
        vec![
            PendingUpdate { entry: 0, slot: 0, transparency: 128, enabled: true },
            PendingUpdate { entry: 0, slot: 1, transparency: 128, enabled: true },
            PendingUpdate { entry: 1, slot: 0, transparency: 90, enabled: true },
        ]
    );
    assert_eq!(update_windows(&Config::new(), &cache), Vec::new());
}

#[test]
fn command_is_asked_only_where_the_record_differs() {
    let rules = config(vec![rule("app", "Main", 128)]);
    let mut cache = WindowCache::new();
    refresh_window_cache(&rules, &mut cache, &vec![live(2, "Main", "app")]);
    let item = PendingUpdate { entry: 0, slot: 0, transparency: 128, enabled: true };
    assert_eq!(cache.command(&item), Some(AlphaCommand { handle: 2, alpha: 128 }));
    cache.record(&item);
    assert_eq!(cache.command(&item), None);
    assert_eq!(cached(&cache, "Main"), vec![applied(2, 128, true)]);
    let disabled = PendingUpdate { entry: 0, slot: 0, transparency: 128, enabled: false };
    assert_eq!(cache.command(&disabled), Some(AlphaCommand { handle: 2, alpha: 255 }));
}

#[test]
fn comparisons_outside_the_cache_ask_nothing_and_record_nothing() {
    let rules = config(vec![rule("app", "Main", 128)]);
    let mut cache = WindowCache::new();
    refresh_window_cache(&rules, &mut cache, &vec![live(2, "Main", "app")]);
    let wrong_entry = PendingUpdate { entry: 1, slot: 0, transparency: 128, enabled: true };
    let wrong_slot = PendingUpdate { entry: 0, slot: 1, transparency: 128, enabled: true };
    assert_eq!(cache.command(&wrong_entry), None);
    assert_eq!(cache.command(&wrong_slot), None);
    cache.record(&wrong_entry);
    cache.record(&wrong_slot);
    assert_eq!(cached(&cache, "Main"), vec![WindowHandleState::new(2)]);
}

#[test]
fn reset_makes_every_cached_window_opaque() {
    let rules = config(vec![rule("app", "Main", 128), rule("app", "Side", 90)]);
    let mut cache = WindowCache::new();
    let windows = vec![live(1, "Side", "app"), live(2, "Main", "app"), live(3, "Main", "app")];
    refresh_window_cache(&rules, &mut cache, &windows);
    for item in &update_windows(&rules, &cache) {
        cache.record(item);
    }
    let commands = reset_windows(&mut cache);
    assert_eq!(
        commands,
        vec![
            AlphaCommand { handle: 2, alpha: 255 },
            AlphaCommand { handle: 3, alpha: 255 },
            AlphaCommand { handle: 1, alpha: 255 },
        ]
    );
    assert_eq!(cached(&cache, "Main"), vec![applied(2, 255, false), applied(3, 255, false)]);
    assert_eq!(cached(&cache, "Side"), vec![applied(1, 255, false)]);
}

#[test]
fn reset_of_an_empty_cache_asks_nothing() {
    let mut cache = WindowCache::new();
    assert_eq!(reset_windows(&mut cache), Vec::new());
    assert_eq!(cache.len(), 0);
}
