use scp_script_anthology::text::{
    chars_of, contains, join, remove_all, split, starts_with, text_of, trim,
};

fn owned(parts: &[&str]) -> Vec<String> {
    parts.iter().map(|s| s.to_string()).collect()
}

#[test]
fn split_gives_one_piece_more_than_separators() {
    assert_eq!(split("wikidotInfo.createdBy.name", '.'), owned(&["wikidotInfo", "createdBy", "name"]));
    assert_eq!(split("url", '.'), owned(&["url"]));
    assert_eq!(split("", '.'), owned(&[""]));
    assert_eq!(split("a..b.", '.'), owned(&["a", "", "b", ""]));
}

#[test]
fn join_puts_the_separator_between_neighbours() {
    assert_eq!(join(&owned(&["a", "b", "c"]), "\n"), "a\nb\nc");
    assert_eq!(join(&owned(&["a"]), ", "), "a");
    assert_eq!(join(&owned(&[]), ", "), "");
    assert_eq!(join(&owned(&["", ""]), ","), ",");
}

#[test]
fn contains_finds_a_text_anywhere() {
    assert!(contains("http://site/fragment:scp-1-1", "fragment:"));
    assert!(contains("fragment:", "fragment:"));
    assert!(!contains("http://site/scp-1", "fragment:"));
    assert!(!contains("frag", "fragment:"));
    assert!(contains("anything", ""));
    assert!(contains("", ""));
}

#[test]
fn starts_with_looks_at_the_beginning_only() {
    assert!(starts_with("--info", "-"));
    assert!(!starts_with("info-", "-"));
    assert!(!starts_with("", "-"));
    assert!(starts_with("", ""));
}

#[test]
fn remove_all_takes_out_every_occurrence() {
    assert_eq!(remove_all("a<b>x</b>c<b>x</b>", "<b>x</b>"), "ac");
    assert_eq!(remove_all("aaa", "aa"), "a");
    assert_eq!(remove_all("abc", ""), "abc");
    assert_eq!(remove_all("abc", "abcd"), "abc");
    assert_eq!(remove_all("", "x"), "");
    assert_eq!(remove_all("héllo wörld", "ö"), "héllo wrld");
}

#[test]
fn trim_takes_white_space_off_both_ends() {
    assert_eq!(trim("  1.5 kB \n"), "1.5 kB");
    assert_eq!(trim("\u{a0}x\u{3000}"), "x");
    assert_eq!(trim(" \t "), "");
    assert_eq!(trim(""), "");
    assert_eq!(trim("a b"), "a b");
}

#[test]
fn characters_and_text_are_the_same_thing() {
    let chars = chars_of("añ€");
    assert_eq!(chars, vec!['a', 'ñ', '€']);
    assert_eq!(text_of(&chars), "añ€");
}
