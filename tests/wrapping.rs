use flashcards::wrap::{max_chars_for, wrap_text, wrap_to_width};

fn strs(v: &[&str]) -> Vec<String> {
    v.iter().map(|s| s.to_string()).collect()
}

#[test]
fn single_word_longer_than_limit_stays_whole() {
    // 18 pt characters are 3.1752 mm wide: 18 of them fit in 60 mm.
    assert_eq!(max_chars_for(18, 600_000), 18);
    let lines = wrap_text("INTERNATIONALIZATION", 18, 600_000);
    assert_eq!(lines, strs(&["INTERNATIONALIZATION"]));
}

#[test]
fn greedy_packing_fills_lines_up_to_the_limit() {
    assert_eq!(wrap_to_width("a b c d e f g", 5), strs(&["a b c", "d e f", "g"]));
    assert_eq!(wrap_to_width("a b c d e f g", 4), strs(&["a b", "c d", "e f", "g"]));
    assert_eq!(wrap_to_width("a b c d e f g", 3), strs(&["a b", "c d", "e f", "g"]));
}

#[test]
fn text_that_fits_is_returned_unchanged() {
    assert_eq!(wrap_to_width("  two  spaces ", 14), strs(&["  two  spaces "]));
    assert_eq!(wrap_to_width("exact", 5), strs(&["exact"]));
}

#[test]
fn empty_text_gives_one_empty_line() {
    assert_eq!(wrap_to_width("", 0), strs(&[""]));
    assert_eq!(wrap_text("", 18, 517_500), strs(&[""]));
}

#[test]
fn zero_limit_puts_one_word_per_line() {
    assert_eq!(wrap_to_width("ab cd e", 0), strs(&["ab", "cd", "e"]));
}

#[test]
fn whitespace_only_text_over_the_limit_is_kept() {
    assert_eq!(wrap_to_width("     ", 2), strs(&["     "]));
}

#[test]
fn runs_of_whitespace_collapse_between_words() {
    assert_eq!(wrap_to_width("a \t\n b", 3), strs(&["a b"]));
    assert_eq!(wrap_to_width("one\u{a0}two\u{3000}three", 3), strs(&["one", "two", "three"]));
}

#[test]
fn limit_counts_characters_not_bytes() {
    assert_eq!(wrap_to_width("été", 3), strs(&["été"]));
    assert_eq!(wrap_to_width("été là", 5), strs(&["été", "là"]));
}

#[test]
fn character_limit_from_font_and_span() {
    // A cell of the A4 grid leaves 51.75 mm for text; 18 pt gives 16 characters.
    assert_eq!(max_chars_for(18, 517_500), 16);
    assert_eq!(max_chars_for(12, 517_500), 24);
    assert_eq!(max_chars_for(18, 0), 0);
    assert_eq!(max_chars_for(0, 10), usize::MAX);
}

#[test]
fn rewrapping_joined_lines_is_stable() {
    let texts = [
        "the quick brown fox jumps over the lazy dog",
        "a  b   c    d",
        "INTERNATIONALIZATION is a long word indeed",
        "   ",
        "",
    ];
    for t in texts.iter() {
        for max in 0..20usize {
            let lines = wrap_to_width(t, max);
            let again = wrap_to_width(&lines.join(" "), max);
            assert_eq!(again, lines);
        }
    }
}

#[test]
fn wrapping_keeps_every_word_whole() {
    let t = "flash cards are printed double sided with mirrored backs";
    for max in 0..30usize {
        let lines = wrap_to_width(t, max);
        assert!(!lines.is_empty());
        let joined = lines.join(" ");
        let got: Vec<&str> = joined.split_whitespace().collect();
        let want: Vec<&str> = t.split_whitespace().collect();
        assert_eq!(got, want);
    }
}

#[test]
fn whitespace_test_agrees_with_std() {
    for u in 0..=0x10FFFFu32 {
        if let Some(c) = char::from_u32(u) {
            assert_eq!(flashcards::wrap::is_whitespace(c), c.is_whitespace(), "{:x}", u);
        }
    }
}
