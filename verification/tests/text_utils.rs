use meetily_asr::text::{str_chars, trim_text};

#[test]
fn trim_matches_str_trim() {
    for s in ["", "  ", " a ", "\u{3000}全角\u{3000}", "\t\nx y\r\n", "\u{85}z\u{a0}", "no"] {
        assert_eq!(trim_text(s), s.trim());
    }
}

#[test]
fn chars_in_order() {
    assert_eq!(str_chars("a我b"), vec!['a', '我', 'b']);
}
