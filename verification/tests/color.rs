use slate::color::{Color, ColorError};

#[test]
fn six_digits_give_full_alpha() {
    let c = Color::from_hex("#1A2b3C").unwrap();
    assert_eq!(c.hex(), "#1a2b3c");
    assert_eq!(c.rofi(), "#1a2b3cff");
    assert_eq!(c.plymouth(), "0x1a2b3c");
    assert_eq!(c.hyprland(), "1a2b3cff");
    assert_eq!(c.css_rgba(), "rgba(26, 43, 60, 1.00)");
}

#[test]
fn hash_is_optional() {
    assert_eq!(Color::from_hex("0b0c10"), Color::from_hex("#0b0c10"));
    assert_eq!(Color::from_hex("0b0c10").unwrap().hex(), "#0b0c10");
}

#[test]
fn lowercase_six_digits_round_trip() {
    for text in ["#000000", "#ffffff", "#0b0c10", "#7aa2cf", "#aeb3c2"] {
        assert_eq!(Color::from_hex(text).unwrap().hex(), text);
    }
}

#[test]
fn eight_digits_keep_alpha() {
    let c = Color::from_hex("#0b0c1099").unwrap();
    assert_eq!(c.rofi(), "#0b0c1099");
    assert_eq!(c.hyprland(), "0b0c1099");
    assert_eq!(c.hex(), "#0b0c10");
    assert_eq!(c.plymouth(), "0x0b0c10");
    assert_eq!(c.css_rgba(), "rgba(11, 12, 16, 0.60)");
    assert_eq!(Color::from_hex(&c.rofi()), Ok(c));
    assert_eq!(Color::from_hex(&c.hyprland()), Ok(c));
}

#[test]
fn alpha_is_rounded_to_hundredths() {
    assert_eq!(Color::from_hex("00000000").unwrap().css_rgba(), "rgba(0, 0, 0, 0.00)");
    assert_eq!(Color::from_hex("00000001").unwrap().css_rgba(), "rgba(0, 0, 0, 0.00)");
    assert_eq!(Color::from_hex("00000002").unwrap().css_rgba(), "rgba(0, 0, 0, 0.01)");
    assert_eq!(Color::from_hex("00000033").unwrap().css_rgba(), "rgba(0, 0, 0, 0.20)");
    assert_eq!(Color::from_hex("00000080").unwrap().css_rgba(), "rgba(0, 0, 0, 0.50)");
    assert_eq!(Color::from_hex("000000fe").unwrap().css_rgba(), "rgba(0, 0, 0, 1.00)");
    assert_eq!(Color::from_hex("ff6409ff").unwrap().css_rgba(), "rgba(255, 100, 9, 1.00)");
}

#[test]
fn every_alpha_matches_the_nearest_hundredth() {
    for a in 0u32..=255 {
        let text = format!("000000{:02x}", a);
        let nearest = (200 * a + 255) / 510;
        let want = format!("rgba(0, 0, 0, {}.{:02})", nearest / 100, nearest % 100);
        assert_eq!(Color::from_hex(&text).unwrap().css_rgba(), want);
    }
}

#[test]
fn wrong_length_is_invalid_format() {
    for text in ["", "#", "#12345", "1234567", "#123456789", "12345g7", "##ffffff", "#fff"] {
        assert_eq!(Color::from_hex(text), Err(ColorError::InvalidFormat));
    }
}

#[test]
fn other_characters_are_parse_errors() {
    for text in ["#12345g", "zzzzzz", "#1234567g", "+f+f+f", "12 456", "#-12345", "12345é"] {
        assert_eq!(Color::from_hex(text), Err(ColorError::ParseError));
    }
}

#[test]
fn color_errors_in_words() {
    assert_eq!(
        ColorError::InvalidFormat.message(),
        "Invalid color format (expected #RRGGBB or #RRGGBBAA)"
    );
    assert_eq!(
        ColorError::ParseError.message(),
        "Failed to parse hex value: invalid digit found in string"
    );
}
