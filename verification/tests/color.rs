use smearor_wrot_pie_menu::color::{ParseHexError, Rgb8, Rgba8};

fn rgb(red: u8, green: u8, blue: u8) -> Rgb8 {
    Rgb8 { red, green, blue }
}

#[test]
fn rgb_parse_with_and_without_hash() {
    assert_eq!(Rgb8::parse_hex("#FF0000"), Ok(rgb(255, 0, 0)));
    assert_eq!(Rgb8::parse_hex("00ff00"), Ok(rgb(0, 255, 0)));
    assert_eq!(Rgb8::parse_hex("##1a2B3c"), Ok(rgb(0x1a, 0x2b, 0x3c)));
}

#[test]
fn rgb_parse_errors_name_the_channel() {
    assert_eq!(Rgb8::parse_hex("#FF00"), Err(ParseHexError::InvalidSize));
    assert_eq!(Rgb8::parse_hex(""), Err(ParseHexError::InvalidSize));
    assert_eq!(Rgb8::parse_hex("#GG0000"), Err(ParseHexError::InvalidRed));
    assert_eq!(Rgb8::parse_hex("#00GG00"), Err(ParseHexError::InvalidGreen));
    assert_eq!(Rgb8::parse_hex("#0000GG"), Err(ParseHexError::InvalidBlue));
}

#[test]
fn rgb_parse_refuses_a_sign_in_a_channel() {
    assert_eq!(Rgb8::parse_hex("+F+F+F"), Err(ParseHexError::InvalidRed));
    assert_eq!(Rgb8::parse_hex("FF+F00"), Err(ParseHexError::InvalidGreen));
    assert_eq!(Rgb8::parse_hex("F+0000"), Err(ParseHexError::InvalidRed));
    assert_eq!(Rgba8::parse_hex("FFFFFF+F"), Err(ParseHexError::InvalidAlpha));
    assert_eq!(Rgba8::parse_hex_with_optional_alpha("00+F00"), Err(ParseHexError::InvalidGreen));
}

#[test]
fn rgba_parse_reads_alpha_first() {
    assert_eq!(Rgba8::parse_hex("#FF000077"), Ok(Rgba8 { color: rgb(255, 0, 0), alpha: 0x77 }));
    assert_eq!(Rgba8::parse_hex("#FF0000GG"), Err(ParseHexError::InvalidAlpha));
    assert_eq!(Rgba8::parse_hex("#GG0000GG"), Err(ParseHexError::InvalidAlpha));
    assert_eq!(Rgba8::parse_hex("#GG000077"), Err(ParseHexError::InvalidRed));
    assert_eq!(Rgba8::parse_hex("#FF0000"), Err(ParseHexError::InvalidSize));
}

#[test]
fn rgba_optional_alpha_falls_back_to_opaque_rgb() {
    assert_eq!(Rgba8::parse_hex_with_optional_alpha("#FF0000"), Ok(Rgba8 { color: rgb(255, 0, 0), alpha: 255 }));
    assert_eq!(Rgba8::parse_hex_with_optional_alpha("#00FF00"), Ok(Rgba8 { color: rgb(0, 255, 0), alpha: 255 }));
    assert_eq!(Rgba8::parse_hex_with_optional_alpha("#0000FF"), Ok(Rgba8 { color: rgb(0, 0, 255), alpha: 255 }));
    assert_eq!(Rgba8::parse_hex_with_optional_alpha("#FF000077"), Ok(Rgba8 { color: rgb(255, 0, 0), alpha: 0x77 }));
    assert_eq!(Rgba8::parse_hex_with_optional_alpha("invalid"), Err(ParseHexError::InvalidSize));
    assert_eq!(Rgba8::parse_hex_with_optional_alpha("#FF00GG"), Err(ParseHexError::InvalidBlue));
    assert_eq!(Rgba8::parse_hex_with_optional_alpha("#FF0000GG"), Err(ParseHexError::InvalidSize));
}

#[test]
fn non_ascii_text_is_an_error() {
    assert_eq!(Rgb8::parse_hex("a\u{e9}\u{e9}b"), Err(ParseHexError::InvalidRed));
    assert_eq!(Rgb8::parse_hex("0\u{e9}000"), Err(ParseHexError::InvalidRed));
    assert_eq!(Rgb8::parse_hex("00\u{e9}00"), Err(ParseHexError::InvalidGreen));
    assert_eq!(Rgb8::parse_hex("\u{e9}0000"), Err(ParseHexError::InvalidRed));
    assert_eq!(Rgba8::parse_hex("00000\u{e9}0"), Err(ParseHexError::InvalidAlpha));
    assert_eq!(Rgba8::parse_hex_with_optional_alpha("0\u{e9}000"), Err(ParseHexError::InvalidRed));
    assert_eq!(Rgb8::parse_hex("\u{e9}\u{e9}"), Err(ParseHexError::InvalidSize));
}
