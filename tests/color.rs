use thrust_ui::color::{Color, ColorError};

fn channels(c: Color) -> (f32, f32, f32, f32) {
    (c.r as f32 / 255.0, c.g as f32 / 255.0, c.b as f32 / 255.0, c.a as f32 / 255.0)
}

#[test]
fn long_form_red() {
    let c = Color::parse("ff0000").unwrap();
    assert_eq!(c, Color { r: 255, g: 0, b: 0, a: 255 });
    assert_eq!(channels(c), (1.0, 0.0, 0.0, 1.0));
}

#[test]
fn short_form_red_matches_long_form() {
    let c = Color::parse("f00").unwrap();
    assert_eq!(channels(c), (1.0, 0.0, 0.0, 1.0));
    assert_eq!(c, Color::parse("ff0000").unwrap());
}

#[test]
fn non_hex_is_an_error() {
    assert_eq!(Color::parse("zz0000"), Err(ColorError::InvalidDigit));
    assert_eq!(Color::parse("12g"), Err(ColorError::InvalidDigit));
    assert_eq!(Color::parse("+f0"), Err(ColorError::InvalidDigit));
}

#[test]
fn bad_lengths_are_errors() {
    assert_eq!(Color::parse(""), Err(ColorError::InvalidLength));
    assert_eq!(Color::parse("12"), Err(ColorError::InvalidLength));
    assert_eq!(Color::parse("12345"), Err(ColorError::InvalidLength));
    assert_eq!(Color::parse("1234567"), Err(ColorError::InvalidLength));
    assert_eq!(Color::parse("123456789"), Err(ColorError::InvalidLength));
}

#[test]
fn alpha_forms() {
    assert_eq!(Color::parse("1234").unwrap(), Color { r: 0x11, g: 0x22, b: 0x33, a: 0x44 });
    assert_eq!(Color::parse("0A0b0C80").unwrap(), Color { r: 10, g: 11, b: 12, a: 128 });
    assert_eq!(Color::parse("abc").unwrap(), Color { r: 0xaa, g: 0xbb, b: 0xcc, a: 255 });
}

#[test]
fn default_is_opaque_white() {
    assert_eq!(Color::default(), Color { r: 255, g: 255, b: 255, a: 255 });
}
