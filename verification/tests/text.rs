use wonderdraft_asset_studio::text::is_whitespace;

#[test]
fn whitespace_agrees_with_std_on_every_char() {
    for code in 0..=0x10FFFFu32 {
        if let Some(c) = char::from_u32(code) {
            assert_eq!(is_whitespace(c), c.is_whitespace(), "U+{code:04X}");
        }
    }
}

#[test]
fn whitespace_examples() {
    for c in [' ', '\t', '\n', '\u{b}', '\u{c}', '\r', '\u{85}', '\u{a0}', '\u{2003}', '\u{3000}'] {
        assert!(is_whitespace(c), "{c:?}");
    }
    for c in ['a', '_', '\u{0}', '\u{200b}', '\u{feff}', '\u{1c}'] {
        assert!(!is_whitespace(c), "{c:?}");
    }
}
