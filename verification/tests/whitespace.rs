use swc_plugin_formatjs::normalize_whitespace;
use swc_plugin_formatjs::whitespace::white_space;

#[test]
fn collapses_runs_and_trims() {
    assert_eq!(normalize_whitespace("  hello   world  "), "hello world");
}

#[test]
fn newlines_become_spaces() {
    assert_eq!(normalize_whitespace("a\n\nb\tc"), "a b c");
}

#[test]
fn empty_and_blank_messages_normalize_to_empty() {
    assert_eq!(normalize_whitespace(""), "");
    assert_eq!(normalize_whitespace(" \t\r\n "), "");
}

#[test]
fn unicode_whitespace_is_collapsed() {
    assert_eq!(normalize_whitespace("\u{3000}a\u{a0}\u{2028}b\u{85}"), "a b");
}

#[test]
fn normalization_is_idempotent_on_examples() {
    for s in ["  a  b ", "x", "\tHello,\n  {name}!  ", "a\u{2003}\u{2003}b"] {
        let once = normalize_whitespace(s);
        assert_eq!(normalize_whitespace(&once), once);
    }
}

#[test]
fn matches_split_whitespace_on_examples() {
    for s in ["  a  b ", "x", "\u{feff}a b", "a\u{200b}b", "\u{1680}z\u{205f}"] {
        let expected = s.split_whitespace().collect::<Vec<_>>().join(" ");
        assert_eq!(normalize_whitespace(s), expected);
    }
}

#[test]
fn white_space_class_agrees_with_std() {
    for u in 0u32..=0x10FFFF {
        if let Some(c) = char::from_u32(u) {
            assert_eq!(white_space(c), c.is_whitespace(), "U+{:04X}", u);
        }
    }
}
