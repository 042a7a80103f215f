use uterm::settings::{
    clamp_font_size, default_font_size, default_pin_shortcut, default_shortcut, default_true,
    validate_font_size,
};

#[test]
fn test_validate_font_size_valid() {
    assert!(validate_font_size(10).is_ok());
    assert!(validate_font_size(13).is_ok());
    assert!(validate_font_size(20).is_ok());
    assert!(validate_font_size(24).is_ok());
}

#[test]
fn test_validate_font_size_invalid_below_min() {
    let result = validate_font_size(9);
    assert!(result.is_err());
    let err_msg = result.unwrap_err();
    assert!(err_msg.contains("Font size must be between 10 and 24"));
    assert!(err_msg.contains("9"));

    assert!(validate_font_size(0).is_err());
    assert!(validate_font_size(5).is_err());
}

#[test]
fn test_validate_font_size_invalid_above_max() {
    let result = validate_font_size(25);
    assert!(result.is_err());
    let err_msg = result.unwrap_err();
    assert!(err_msg.contains("Font size must be between 10 and 24"));
    assert!(err_msg.contains("25"));

    assert!(validate_font_size(30).is_err());
    assert!(validate_font_size(100).is_err());
}

#[test]
fn font_size_message_is_exact() {
    assert_eq!(validate_font_size(5).unwrap_err(), "Font size must be between 10 and 24, got 5");
    assert_eq!(validate_font_size(255).unwrap_err(), "Font size must be between 10 and 24, got 255");
}

#[test]
fn font_size_is_clamped() {
    assert_eq!(clamp_font_size(5), 10);
    assert_eq!(clamp_font_size(30), 24);
    assert_eq!(clamp_font_size(15), 15);
    assert_eq!(clamp_font_size(10), 10);
    assert_eq!(clamp_font_size(24), 24);
}

#[test]
fn defaults() {
    assert_eq!(default_font_size(), 13);
    assert_eq!(default_shortcut(), "CommandOrControl+Shift+T");
    assert_eq!(default_pin_shortcut(), "CommandOrControl+Backquote");
    assert!(default_true());
}

#[test]
fn test_validation_error_messages() {
    // the opacity half of this check is floating point and stays with the settings store
    let font_err = validate_font_size(5).unwrap_err();
    assert!(font_err.contains("Font size"));
    assert!(font_err.contains("10"));
    assert!(font_err.contains("24"));
    assert!(font_err.contains("5"));
}

#[test]
fn test_validation_boundary_values() {
    // the opacity half of this check is floating point and stays with the settings store
    assert!(validate_font_size(10).is_ok());
    assert!(validate_font_size(24).is_ok());
    assert!(validate_font_size(9).is_err());
    assert!(validate_font_size(25).is_err());
}
