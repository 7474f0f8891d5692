use minishell::text::{characters, is_blank, is_whitespace};

#[test]
fn whitespace_is_unicode_white_space() {
    for code in 0..=0x10ffff_u32 {
        if let Some(c) = char::from_u32(code) {
            assert_eq!(is_whitespace(c), c.is_whitespace(), "{:x}", code);
        }
    }
}

#[test]
fn blank_text_is_white_space_only() {
    assert!(is_blank(""));
    assert!(is_blank(" \t\n\u{3000}"));
    assert!(!is_blank("  a  "));
}

#[test]
fn characters_come_in_order() {
    assert_eq!(characters("aé😀"), vec!['a', 'é', '😀']);
    assert_eq!(characters(""), Vec::<char>::new());
}
