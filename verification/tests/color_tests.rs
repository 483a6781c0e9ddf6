use specan::utils::{frect_new, str_to_color, Color, ColorParseError, Rect};

#[test]
fn parses_default_foreground() {
    let c = str_to_color("FFBBB6A5").unwrap();
    assert_eq!(c, Color { r: 0xBB, g: 0xB6, b: 0xA5, a: 0xFF });
}

#[test]
fn parses_default_background() {
    let c = str_to_color("FF2A2F33").unwrap();
    assert_eq!(c, Color { r: 0x2A, g: 0x2F, b: 0x33, a: 0xFF });
}

#[test]
fn parses_lower_and_mixed_case() {
    assert_eq!(str_to_color("ffbbb6a5").unwrap(), Color { r: 0xBB, g: 0xB6, b: 0xA5, a: 0xFF });
    assert_eq!(str_to_color("DeadBeef").unwrap(), Color { r: 0xAD, g: 0xBE, b: 0xEF, a: 0xDE });
}

#[test]
fn short_strings_fill_low_bytes() {
    assert_eq!(str_to_color("1").unwrap(), Color { r: 0, g: 0, b: 1, a: 0 });
    assert_eq!(str_to_color("ABC").unwrap(), Color { r: 0, g: 0x0A, b: 0xBC, a: 0 });
}

#[test]
fn leading_plus_is_accepted() {
    // the sign integer parsing allows: "+1" is the color of value 1
    assert_eq!(str_to_color("+1").unwrap(), Color { r: 0, g: 0, b: 1, a: 0 });
    assert_eq!(
        str_to_color("+FFBBB6A5").unwrap(),
        Color { r: 0xBB, g: 0xB6, b: 0xA5, a: 0xFF }
    );
}

#[test]
fn plus_needs_at_least_one_digit() {
    assert_eq!(str_to_color("+"), Err(ColorParseError::InvalidDigit));
    assert_eq!(str_to_color("++1"), Err(ColorParseError::InvalidDigit));
    assert_eq!(str_to_color("1+"), Err(ColorParseError::InvalidDigit));
}

#[test]
fn empty_string_is_rejected() {
    assert_eq!(str_to_color(""), Err(ColorParseError::Empty));
}

#[test]
fn non_hex_characters_are_rejected() {
    assert_eq!(str_to_color("XYZ"), Err(ColorParseError::InvalidDigit));
    assert_eq!(str_to_color("12 34"), Err(ColorParseError::InvalidDigit));
    assert_eq!(str_to_color("-1"), Err(ColorParseError::InvalidDigit));
}

#[test]
fn more_than_32_bits_overflows() {
    assert_eq!(str_to_color("123456789"), Err(ColorParseError::Overflow));
    assert_eq!(str_to_color("FFFFFFFFF"), Err(ColorParseError::Overflow));
}

#[test]
fn leading_zeros_do_not_overflow() {
    // nine digits, but the value itself fits in 32 bits
    assert_eq!(str_to_color("00000000F").unwrap(), Color { r: 0, g: 0, b: 0x0F, a: 0 });
}

#[test]
fn frect_new_is_zeroed() {
    assert_eq!(frect_new(), Rect { x: 0, y: 0, w: 0, h: 0 });
}
