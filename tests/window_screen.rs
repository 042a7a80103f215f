use uterm::screen::ScreenId;
use uterm::window::{handle_global_click, is_window_visible_flag, set_window_visible, WindowVisibility};

#[test]
fn visibility_flag_round_trip() {
    let mut w = WindowVisibility::new();
    assert!(!is_window_visible_flag(&w));
    set_window_visible(&mut w, true);
    assert!(is_window_visible_flag(&w));
    set_window_visible(&mut w, false);
    assert!(!is_window_visible_flag(&w));
}

#[test]
fn click_outside_an_open_window_hides_it() {
    let mut w = WindowVisibility::new();
    set_window_visible(&mut w, true);
    assert!(!handle_global_click(&mut w, true, true));
    assert!(is_window_visible_flag(&w));
    assert!(handle_global_click(&mut w, true, false));
    assert!(!is_window_visible_flag(&w));
    // closed: nothing happens
    assert!(!handle_global_click(&mut w, true, false));
}

#[test]
fn window_hidden_by_the_system_is_recorded() {
    let mut w = WindowVisibility::new();
    set_window_visible(&mut w, true);
    assert!(!handle_global_click(&mut w, false, false));
    assert!(!is_window_visible_flag(&w));
}

#[test]
fn screen_ids() {
    assert_eq!(ScreenId::from_rounded(1920, 1080).as_str(), "1920x1080");
    assert_eq!(ScreenId::from_rounded(2561, 1441).as_str(), "2561x1441");
    assert_eq!(ScreenId::from_rounded(0, 0).as_str(), "0x0");
    assert_eq!(ScreenId::from_rounded(-5, i32::MIN).as_str(), "-5x-2147483648");
    assert_eq!(ScreenId::from_display_id(69733378).as_str(), "display-69733378");
    assert_eq!(ScreenId::from_rounded(1920, 1080), ScreenId::from_rounded(1920, 1080));
    assert_ne!(ScreenId::from_rounded(1920, 1080), ScreenId::from_rounded(2560, 1440));
}

#[test]
fn decimal_rendering() {
    assert_eq!(ScreenId::from_display_id(0).as_str(), "display-0");
    assert_eq!(ScreenId::from_display_id(7).as_str(), "display-7");
    assert_eq!(ScreenId::from_display_id(10).as_str(), "display-10");
    assert_eq!(ScreenId::from_display_id(u32::MAX).as_str(), "display-4294967295");
}
