use winalpha::win_utils::{
    get_process_name, make_window_transparent, AlphaCommand, LiveWindow, WindowInfo,
};
use winalpha::window_config::{TransparencyRule, WindowConfig};

fn info(process: &str, class: &str) -> WindowInfo {
    WindowInfo { class_name: class.to_string(), process_name: process.to_string() }
}

fn live(handle: isize, class: &str, process: &str) -> LiveWindow {
    LiveWindow::new(handle, class.to_string(), process.to_string())
}

#[test]
fn new_rule_is_direct_and_enabled() {
    let rule = WindowConfig::new(&info("notepad", "Edit"), 128);
    assert_eq!(rule.get_name(), "notepad");
    assert_eq!(rule.get_window_class(), "Edit");
    assert_eq!(rule.get_transparency(), 128);
    assert!(rule.is_enabled());
    assert!(!rule.is_forced());
    assert_eq!(rule.get_old_classname(), &None);
}

#[test]
fn default_rule_is_opaque_and_disabled() {
    let rule = WindowConfig::default();
    assert_eq!(rule.get_name(), "");
    assert_eq!(rule.get_window_class(), "");
    assert_eq!(rule.get_transparency(), 255);
    assert!(!rule.is_enabled());
    assert!(!rule.is_forced());
    assert_eq!(rule.get_old_classname(), &None);
}

#[test]
fn key_is_process_bar_class() {
    let rule = WindowConfig::new(&info("notepad", "Edit"), 128);
    assert_eq!(rule.get_key(), "notepad|Edit");
    assert_eq!(rule.get_cache_key(), "Edit");
}

#[test]
fn key_follows_the_current_class() {
    let mut rule = WindowConfig::new(&info("notepad", "Edit"), 128);
    rule.set_window_class("Notepad");
    assert_eq!(rule.get_key(), "notepad|Notepad");
    assert_eq!(rule.get_cache_key(), "Notepad");
    rule.set_name("wordpad".to_string());
    assert_eq!(rule.get_key(), "wordpad|Notepad");
}

#[test]
fn key_of_empty_rule_is_a_bar() {
    assert_eq!(WindowConfig::default().get_key(), "|");
}

#[test]
fn setters_change_one_field() {
    let mut rule = WindowConfig::new(&info("notepad", "Edit"), 128);
    rule.set_transparency(77);
    rule.set_enabled(false);
    rule.set_forced(true);
    rule.set_old_classname(Some("Old".to_string()));
    assert_eq!(rule.get_transparency(), 77);
    assert!(!rule.is_enabled());
    assert!(rule.is_forced());
    assert_eq!(rule.get_old_classname(), &Some("Old".to_string()));
    assert_eq!(rule.get_name(), "notepad");
    assert_eq!(rule.get_window_class(), "Edit");
}

#[test]
fn clone_keeps_every_field() {
    let mut rule = WindowConfig::new(&info("notepad", "Edit"), 128);
    rule.set_forced(true);
    rule.set_old_classname(Some("Old".to_string()));
    let copy = rule.clone();
    assert_eq!(copy.get_key(), "notepad|Edit");
    assert_eq!(copy.get_transparency(), 128);
    assert!(copy.is_enabled());
    assert!(copy.is_forced());
    assert_eq!(copy.get_old_classname(), &Some("Old".to_string()));
}

#[test]
fn handles_are_filtered_by_class_and_process() {
    let rule = WindowConfig::new(&info("notepad", "Edit"), 128);
    let windows = vec![
        live(10, "Edit", "notepad"),
        live(11, "Edit", "wordpad"),
        live(12, "Button", "notepad"),
        live(13, "Edit", "notepad"),
    ];
    assert_eq!(rule.get_window_hwnds(&windows), vec![10, 13]);
}

#[test]
fn handles_of_no_window_are_none() {
    let rule = WindowConfig::new(&info("notepad", "Edit"), 128);
    assert_eq!(rule.get_window_hwnds(&Vec::new()), Vec::<isize>::new());
    assert_eq!(rule.get_window_hwnds(&vec![live(1, "edit", "notepad")]), Vec::<isize>::new());
}

#[test]
fn reset_config_asks_for_opaque() {
    let rule = WindowConfig::new(&info("notepad", "Edit"), 128);
    let windows = vec![live(10, "Edit", "notepad"), live(11, "Edit", "wordpad")];
    assert_eq!(rule.reset_config(&windows), vec![AlphaCommand { handle: 10, alpha: 255 }]);
}

#[test]
fn refresh_config_asks_for_the_rule_level() {
    let mut rule = WindowConfig::new(&info("notepad", "Edit"), 128);
    rule.set_enabled(false);
    let windows = vec![live(10, "Edit", "notepad"), live(13, "Edit", "notepad")];
    assert_eq!(
        rule.refresh_config(&windows),
        vec![AlphaCommand { handle: 10, alpha: 128 }, AlphaCommand { handle: 13, alpha: 128 }]
    );
}

#[test]
fn commands_follow_the_handles() {
    assert_eq!(make_window_transparent(&Vec::new(), 9), Vec::<AlphaCommand>::new());
    assert_eq!(
        make_window_transparent(&vec![3, 3, -1], 9),
        vec![
            AlphaCommand { handle: 3, alpha: 9 },
            AlphaCommand { handle: 3, alpha: 9 },
            AlphaCommand { handle: -1, alpha: 9 }
        ]
    );
}

#[test]
fn shown_rule_has_percentage_and_plain_old_class() {
    let mut rule = WindowConfig::new(&info("notepad", "Edit"), 128);
    let shown = TransparencyRule::from(&rule);
    assert_eq!(shown.process_name, "notepad");
    assert_eq!(shown.window_class, "Edit");
    assert_eq!(shown.transparency, 50);
    assert!(shown.enabled);
    assert!(!shown.force);
    assert_eq!(shown.old_class, "");
    rule.set_old_classname(Some("Child".to_string()));
    rule.set_forced(true);
    rule.set_transparency(255);
    let shown = TransparencyRule::from(&rule);
    assert_eq!(shown.transparency, 100);
    assert!(shown.force);
    assert_eq!(shown.old_class, "Child");
}

#[test]
fn stored_rule_has_level_and_optional_old_class() {
    let shown = TransparencyRule {
        process_name: "notepad".to_string(),
        window_class: "Edit".to_string(),
        transparency: 50,
        enabled: true,
        force: false,
        old_class: String::new(),
    };
    let rule = WindowConfig::from(shown);
    assert_eq!(rule.get_key(), "notepad|Edit");
    assert_eq!(rule.get_transparency(), 128);
    assert!(rule.is_enabled());
    assert!(!rule.is_forced());
    assert_eq!(rule.get_old_classname(), &None);
    let shown = TransparencyRule {
        process_name: "notepad".to_string(),
        window_class: "Notepad".to_string(),
        transparency: 10,
        enabled: false,
        force: true,
        old_class: "Edit".to_string(),
    };
    let rule = WindowConfig::from(shown);
    assert_eq!(rule.get_transparency(), 77);
    assert!(!rule.is_enabled());
    assert!(rule.is_forced());
    assert_eq!(rule.get_old_classname(), &Some("Edit".to_string()));
}

#[test]
fn stored_rule_clamps_the_percentage() {
    let shown = TransparencyRule {
        process_name: "p".to_string(),
        window_class: "c".to_string(),
        transparency: 1000,
        enabled: true,
        force: false,
        old_class: String::new(),
    };
    assert_eq!(WindowConfig::from(shown).get_transparency(), 255);
}

#[test]
fn process_name_is_file_name_without_extension() {
    assert_eq!(get_process_name("C:\\Windows\\System32\\notepad.exe"), "notepad");
    assert_eq!(get_process_name("notepad.exe"), "notepad");
    assert_eq!(get_process_name("C:\\tools\\archive.tar.gz"), "archive");
    assert_eq!(get_process_name("C:\\tools\\noextension"), "noextension");
}

#[test]
fn process_name_edge_cases() {
    assert_eq!(get_process_name(""), "");
    assert_eq!(get_process_name("C:\\dir\\"), "");
    assert_eq!(get_process_name("C:\\dir.d\\name"), "name");
    assert_eq!(get_process_name("C:\\dir\\.hidden"), "");
    assert_eq!(get_process_name("\\Device\\HarddiskVolume1\\Programme\\Über.exe"), "Über");
    assert_eq!(get_process_name("a/b\\c/d.exe"), "c/d");
}
