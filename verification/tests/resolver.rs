use winalpha::win_utils::DesktopWindow;
use winalpha::window_config::{
    find_parent_from_child_class, find_window_by_class, get_window_class_name,
};

fn top(handle: isize, class: &str) -> DesktopWindow {
    DesktopWindow::new(handle, Some(class.to_string()), None, true)
}

fn child(handle: isize, class: &str, parent: isize) -> DesktopWindow {
    DesktopWindow::new(handle, Some(class.to_string()), Some(parent), false)
}

fn desktop() -> Vec<DesktopWindow> {
    vec![
        top(1, "Shell"),
        child(2, "Tray", 1),
        top(10, "Notepad"),
        child(11, "Frame", 10),
        child(12, "Pane", 11),
        child(13, "Edit", 12),
        top(20, "Notepad"),
        child(21, "Edit", 20),
    ]
}

#[test]
fn first_match_wins() {
    assert_eq!(find_window_by_class("Edit", &desktop()), Some(12));
    assert_eq!(
        find_parent_from_child_class("Edit", &desktop()),
        Some((12, "Pane".to_string()))
    );
}

#[test]
fn promotion_goes_one_level_up_only() {
    assert_eq!(
        find_parent_from_child_class("Pane", &desktop()),
        Some((11, "Frame".to_string()))
    );
    assert_eq!(
        find_parent_from_child_class("Frame", &desktop()),
        Some((10, "Notepad".to_string()))
    );
}

#[test]
fn no_descendant_of_the_class_is_a_miss() {
    assert_eq!(find_window_by_class("Missing", &desktop()), None);
    assert_eq!(find_parent_from_child_class("Missing", &desktop()), None);
    assert_eq!(find_parent_from_child_class("Edit", &Vec::new()), None);
}

#[test]
fn top_level_windows_are_no_match() {
    assert_eq!(find_window_by_class("Notepad", &desktop()), None);
    assert_eq!(find_parent_from_child_class("Shell", &desktop()), None);
}

#[test]
fn unreadable_class_is_skipped_and_the_walk_goes_on() {
    let windows = vec![
        top(1, "Main"),
        DesktopWindow::new(2, None, Some(1), false),
        child(3, "Edit", 1),
    ];
    assert_eq!(find_parent_from_child_class("Edit", &windows), Some((1, "Main".to_string())));
}

#[test]
fn match_without_parent_is_a_miss() {
    let windows = vec![
        top(1, "Main"),
        DesktopWindow::new(2, Some("Edit".to_string()), None, false),
        child(3, "Edit", 1),
    ];
    assert_eq!(find_window_by_class("Edit", &windows), None);
    assert_eq!(find_parent_from_child_class("Edit", &windows), None);
}

#[test]
fn parent_with_unreadable_class_is_a_miss() {
    let windows = vec![DesktopWindow::new(1, None, None, true), child(2, "Edit", 1)];
    assert_eq!(find_window_by_class("Edit", &windows), Some(1));
    assert_eq!(find_parent_from_child_class("Edit", &windows), None);
}

#[test]
fn parent_outside_the_walk_is_a_miss() {
    let windows = vec![top(1, "Main"), child(2, "Edit", 99)];
    assert_eq!(find_window_by_class("Edit", &windows), Some(99));
    assert_eq!(find_parent_from_child_class("Edit", &windows), None);
}

#[test]
fn class_name_of_a_window() {
    assert_eq!(get_window_class_name(12, &desktop()), Some("Pane".to_string()));
    assert_eq!(get_window_class_name(20, &desktop()), Some("Notepad".to_string()));
    assert_eq!(get_window_class_name(99, &desktop()), None);
    let windows = vec![DesktopWindow::new(1, None, None, true), top(1, "Later")];
    assert_eq!(get_window_class_name(1, &windows), None);
}

#[test]
fn class_names_are_compared_exactly() {
    assert_eq!(find_parent_from_child_class("edit", &desktop()), None);
    assert_eq!(find_parent_from_child_class("Edit ", &desktop()), None);
    assert_eq!(find_parent_from_child_class("", &desktop()), None);
}
