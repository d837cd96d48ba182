use winalpha::win_utils::{convert_to_full, convert_to_human};

#[test]
fn percentage_to_level_rounds_to_nearest() {
    assert_eq!(convert_to_full(100), 255);
    assert_eq!(convert_to_full(50), 128);
    assert_eq!(convert_to_full(30), 77);
    assert_eq!(convert_to_full(31), 79);
    assert_eq!(convert_to_full(70), 179);
    assert_eq!(convert_to_full(90), 230);
}

#[test]
fn percentage_is_clamped() {
    assert_eq!(convert_to_full(0), 77);
    assert_eq!(convert_to_full(-5), 77);
    assert_eq!(convert_to_full(29), 77);
    assert_eq!(convert_to_full(101), 255);
    assert_eq!(convert_to_full(i32::MAX), 255);
    assert_eq!(convert_to_full(i32::MIN), 77);
}

#[test]
fn level_to_percentage_rounds_to_nearest() {
    assert_eq!(convert_to_human(255), 100);
    assert_eq!(convert_to_human(0), 0);
    assert_eq!(convert_to_human(128), 50);
    assert_eq!(convert_to_human(77), 30);
    assert_eq!(convert_to_human(1), 0);
    assert_eq!(convert_to_human(2), 1);
    assert_eq!(convert_to_human(254), 100);
}
