use chip8::color::{parse_color, verify_color};

#[test]
fn hex_with_either_prefix() {
    assert_eq!(parse_color("#FF0A2B1D"), Ok(0xFF0A2B1D));
    assert_eq!(parse_color("0xFF0A2B1D"), Ok(0xFF0A2B1D));
    assert_eq!(parse_color("ff0a2b1d"), Ok(0xFF0A2B1D));
    assert_eq!(parse_color("0x000000"), Ok(0));
    assert_eq!(parse_color("+1A"), Ok(0x1A));
}

#[test]
fn decimal_when_hex_overflows() {
    assert_eq!(parse_color("999999999"), Ok(999_999_999));
    assert_eq!(parse_color("4294967295"), Ok(u32::MAX));
    assert!(parse_color("4294967296").is_err());
}

#[test]
fn invalid_colors_are_rejected() {
    for s in ["", "#", "0x", "+", "xyz", "#0x12", "-1", "12 ", "0x1FFFFFFFF"] {
        assert!(parse_color(s).is_err(), "{:?}", s);
    }
    assert_eq!(
        parse_color("zz"),
        Err(String::from("zz is not a valid color in RGBA8888 format"))
    );
}

#[test]
fn verify_color_hands_text_back() {
    assert_eq!(verify_color("0x000000"), Ok(String::from("0x000000")));
    assert!(verify_color("nope").is_err());
}
