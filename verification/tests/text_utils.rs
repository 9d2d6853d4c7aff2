use catmd::style::{push_styled_text, InlineStyle, ListState};
use catmd::events::markdown_options;
use catmd::paths::exit_status;
use catmd::text::{blank, char_is_whitespace, eq_ascii_lowercase, eq_ignore_ascii_case, lower_matches, push_repeated, str_ends_with_newline, u64_to_decimal};

#[test]
fn decimal_formatting_matches_std() {
    for n in [0u64, 7, 10, 99, 100, 1234567890, u64::MAX] {
        assert_eq!(u64_to_decimal(n), format!("{}", n));
    }
}

#[test]
fn ascii_case_is_ignored_only_for_letters() {
    assert!(lower_matches('A', 'a'));
    assert!(lower_matches('a', 'a'));
    assert!(!lower_matches('a', 'A'));
    assert!(!lower_matches('[', '{'));
    assert!(eq_ascii_lowercase("MarkDown", "markdown"));
    assert!(!eq_ascii_lowercase("MarkDown", "markdow"));
    assert!(!eq_ascii_lowercase("mdx", "md"));
}

#[test]
fn blank_means_only_white_space() {
    assert!(blank(""));
    assert!(blank(" \t\n"));
    assert!(blank("\u{3000}"));
    assert!(!blank(" rust "));
}

#[test]
fn newline_ending_is_detected() {
    assert!(str_ends_with_newline("a\n"));
    assert!(!str_ends_with_newline("a"));
    assert!(!str_ends_with_newline(""));
}

#[test]
fn repeated_indentation() {
    let mut out = String::from(">");
    push_repeated(&mut out, "  ", 3);
    assert_eq!(out, ">      ");
}

#[test]
fn ansi_prefixes_follow_the_style() {
    assert_eq!(InlineStyle::plain().ansi_prefix(), None);
    let heading = InlineStyle { strong: 0, emphasis: 0, strikethrough: 0, heading: true };
    assert_eq!(heading.ansi_prefix().unwrap(), "\x1b[1;38;5;39m");
    let strong_em = InlineStyle { strong: 2, emphasis: 1, strikethrough: 0, heading: false };
    assert_eq!(strong_em.ansi_prefix().unwrap(), "\x1b[1;3m");
    let all = InlineStyle { strong: 1, emphasis: 1, strikethrough: 1, heading: true };
    assert_eq!(all.ansi_prefix().unwrap(), "\x1b[1;38;5;39;1;3;9m");
}

#[test]
fn styled_text_is_wrapped_in_a_reset() {
    let mut out = String::from("x");
    push_styled_text(&mut out, "hi", InlineStyle::plain());
    assert_eq!(out, "xhi");
    let strike = InlineStyle { strong: 0, emphasis: 0, strikethrough: 1, heading: false };
    push_styled_text(&mut out, "no", strike);
    assert_eq!(out, "xhi\x1b[9mno\x1b[0m");
}

#[test]
fn ordered_lists_count_up_from_their_start() {
    let mut list = ListState::new(Some(3));
    assert_eq!(list.marker(), "3. ");
    assert_eq!(list.marker(), "4. ");
    assert_eq!(list.next, 5);
    let mut zero = ListState::new(Some(0));
    assert_eq!(zero.marker(), "0. ");
}

#[test]
fn bulleted_lists_use_dashes() {
    let mut list = ListState::new(None);
    assert!(!list.ordered);
    assert_eq!(list.next, 1);
    assert_eq!(list.marker(), "- ");
    assert_eq!(list.marker(), "- ");
    assert_eq!(list.next, 1);
}

#[test]
fn white_space_matches_std() {
    for u in 0u32..0x3100 {
        if let Some(c) = char::from_u32(u) {
            assert_eq!(char_is_whitespace(c), c.is_whitespace(), "{:x}", u);
        }
    }
    assert!(!char_is_whitespace('\u{feff}'));
}

#[test]
fn case_insensitive_comparison() {
    assert!(eq_ignore_ascii_case("Rust", "rUST"));
    assert!(!eq_ignore_ascii_case("Rust", "rusty"));
    assert!(eq_ignore_ascii_case("é", "é"));
    assert!(!eq_ignore_ascii_case("É", "é"));
}

#[test]
fn exit_status_reports_failures() {
    assert_eq!(exit_status(false), 0);
    assert_eq!(exit_status(true), 1);
}

#[test]
fn parser_options_are_the_four_extensions() {
    assert_eq!(markdown_options(), 2 | 4 | 8 | 16);
}
