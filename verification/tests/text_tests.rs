use ghcheck::text::{decimal_string, sanitize, trim};

const CF_SAMPLES: &[(&str, char)] = &[
    ("U+202E RLO", '\u{202E}'),
    ("U+202D LRO", '\u{202D}'),
    ("U+202A LRE", '\u{202A}'),
    ("U+2066 LRI", '\u{2066}'),
    ("U+2067 RLI", '\u{2067}'),
    ("U+2069 PDI", '\u{2069}'),
    ("U+200B ZWSP", '\u{200B}'),
    ("U+200E LRM", '\u{200E}'),
    ("U+00AD SHY", '\u{00AD}'),
    ("U+061C ALM", '\u{061C}'),
    ("U+180E MVS", '\u{180E}'),
    ("U+FEFF BOM", '\u{FEFF}'),
    ("U+2060 WJ", '\u{2060}'),
    ("U+FFF9 IAA", '\u{FFF9}'),
    ("U+E0001 TAG", '\u{E0001}'),
];

#[test]
fn sanitize_neutralizes_every_format_character() {
    for (name, ch) in CF_SAMPLES {
        let out = sanitize(&format!("safe{ch}payload"));
        assert!(
            !out.contains(*ch),
            "{name} survived sanitize() and would reach the terminal: {out:?}"
        );
    }
}

#[test]
fn sanitize_still_neutralizes_control_characters() {
    let out = sanitize("safe\u{1b}[31mattacker\u{7}");
    assert!(!out.contains('\u{1b}'), "ESC survived: {out:?}");
    assert!(!out.contains('\u{7}'), "BEL survived: {out:?}");
}

#[test]
fn sanitize_preserves_ordinary_text() {
    let s = "Bump lodash 4.17.21 — Café 日本語 🎉";
    assert_eq!(sanitize(s), s);
}

#[test]
fn sanitize_makes_an_unterminated_override_impossible() {
    let title = format!("{}{}", '\u{202E}', "a".repeat(200));
    assert!(
        !sanitize(&title).contains('\u{202E}'),
        "RLO survived: would bleed into adjacent cells"
    );
}

#[test]
fn sanitize_replaces_in_place_including_tab() {
    assert_eq!(sanitize("a\u{1b}b\tc\u{202E}d"), "a\u{b7}b\u{b7}c\u{b7}d");
    assert_eq!(sanitize("\u{85}\u{9f}\u{7f}"), "\u{b7}\u{b7}\u{b7}");
    let once = sanitize("x\u{7}y");
    assert_eq!(sanitize(&once), once);
}

#[test]
fn trim_strips_unicode_white_space() {
    assert_eq!(trim("  gh: not authenticated  "), "gh: not authenticated");
    assert_eq!(trim("\u{3000}\t\nx y\u{2028}\r"), "x y");
    assert_eq!(trim(" \u{a0} "), "");
    assert_eq!(trim("\u{200B}x"), "\u{200B}x");
}

#[test]
fn decimal_string_writes_plain_decimals() {
    assert_eq!(decimal_string(0), "0");
    assert_eq!(decimal_string(7), "7");
    assert_eq!(decimal_string(1234567890), "1234567890");
    assert_eq!(decimal_string(u64::MAX), u64::MAX.to_string());
}
