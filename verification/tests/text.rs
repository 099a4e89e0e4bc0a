use doc_photos::text::{chars_of, is_white_space, same_text, text_less, trim};

#[test]
fn trimming_removes_unicode_white_space_at_both_ends_only() {
    assert_eq!(trim("  a b  "), "a b");
    assert_eq!(trim("\t\n\u{2003}x\u{3000}"), "x");
    assert_eq!(trim("   "), "");
    assert_eq!(trim(""), "");
    assert_eq!(trim("\u{200b}x"), "\u{200b}x", "a zero-width space is not white space");
}

#[test]
fn white_space_is_the_unicode_property() {
    for c in ['\t', '\n', '\u{b}', '\u{c}', '\r', ' ', '\u{85}', '\u{a0}', '\u{1680}', '\u{2000}', '\u{200a}', '\u{2028}', '\u{2029}', '\u{202f}', '\u{205f}', '\u{3000}'] {
        assert!(is_white_space(c), "{c:?}");
        assert_eq!(is_white_space(c), c.is_whitespace());
    }
    for c in ['a', '\u{200b}', '\u{feff}', '_', '\u{1f600}'] {
        assert!(!is_white_space(c));
        assert_eq!(is_white_space(c), c.is_whitespace());
    }
}

#[test]
fn text_order_is_lexicographic_by_character() {
    assert!(text_less("Osobna", "Putovnica"));
    assert!(!text_less("Putovnica", "Osobna"));
    assert!(text_less("A", "AB"));
    assert!(!text_less("AB", "AB"));
    assert!(text_less("", "a"));
    assert!(text_less("Z", "a"));
    assert!(text_less("z", "č"));
    // The same order std gives strings.
    let mut v = vec!["č", "c", "Z", "", "ab", "a"];
    v.sort();
    for w in v.windows(2) {
        assert!(text_less(w[0], w[1]));
    }
}

#[test]
fn characters_and_equality() {
    assert_eq!(chars_of("ač"), vec!['a', 'č']);
    assert!(same_text("x", "x"));
    assert!(!same_text("x", "xy"));
}
