use pereplyot::color::{annotation_rgba, HIGHLIGHT_RGBA};

#[test]
fn parses_hex_colours() {
    assert_eq!(annotation_rgba(Some("#8bc34a")), [0x8b, 0xc3, 0x4a, 140]);
    assert_eq!(annotation_rgba(Some("4A90D9")), [0x4a, 0x90, 0xd9, 140]);
    assert_eq!(annotation_rgba(Some("##e74c3c")), [0xe7, 0x4c, 0x3c, 140]);
}

#[test]
fn falls_back_to_amber() {
    assert_eq!(annotation_rgba(None), HIGHLIGHT_RGBA);
    assert_eq!(annotation_rgba(Some("#fff")), HIGHLIGHT_RGBA);
    assert_eq!(annotation_rgba(Some("#gggggg")), HIGHLIGHT_RGBA);
    assert_eq!(annotation_rgba(Some("")), HIGHLIGHT_RGBA);
    assert_eq!(annotation_rgba(Some("#-1-1-1")), HIGHLIGHT_RGBA);
    assert_eq!(annotation_rgba(Some("#ééé")), HIGHLIGHT_RGBA);
}

#[test]
fn plus_sign_digits_parse_like_from_str_radix() {
    assert_eq!(annotation_rgba(Some("#+f+f+f")), [15, 15, 15, 140]);
    assert_eq!(annotation_rgba(Some("#++ffff")), HIGHLIGHT_RGBA);
}

#[test]
fn multibyte_colours_fall_back_to_amber() {
    // Six bytes once the '#' is gone, but not six hex digits.
    assert_eq!(annotation_rgba(Some("#aé€")), HIGHLIGHT_RGBA);
    assert_eq!(annotation_rgba(Some("#aébcd")), HIGHLIGHT_RGBA);
    assert_eq!(annotation_rgba(Some("ffaéb")), HIGHLIGHT_RGBA);
}
