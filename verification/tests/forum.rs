use scp_script_anthology::forum::{
    forum_address, link_target, page_address, page_count, parse_i32, threads_match,
};

#[test]
fn the_forum_has_its_address() {
    assert_eq!(forum_address("http://site/", "forum:start", false), "http://site/forum:start");
    assert_eq!(forum_address("http://site/", "forum:start", true), "http://site/forum:start/hidden/show");
}

#[test]
fn pages_of_a_listing_are_numbered() {
    assert_eq!(page_address("http://site/forum/c-1", 3), "http://site/forum/c-1/p/3");
    assert_eq!(page_address("x", 120), "x/p/120");
}

#[test]
fn links_lose_their_slash_and_their_last_piece() {
    assert_eq!(
        link_target("http://site/", "/forum/t-123/some-title"),
        Some("http://site/forum/t-123".to_string())
    );
    assert_eq!(link_target("http://site/", "/forum/"), Some("http://site/forum".to_string()));
    assert_eq!(link_target("http://site/", "//"), Some("http://site/".to_string()));
    assert_eq!(link_target("http://site/", "/forum"), None);
    assert_eq!(link_target("http://site/", "forum/t-1/x"), None);
    assert_eq!(link_target("http://site/", "/"), None);
    assert_eq!(link_target("http://site/", ""), None);
}

#[test]
fn whole_numbers_are_read_within_their_range() {
    assert_eq!(parse_i32("0"), Some(0));
    assert_eq!(parse_i32("12"), Some(12));
    assert_eq!(parse_i32("+12"), Some(12));
    assert_eq!(parse_i32("-12"), Some(-12));
    assert_eq!(parse_i32("007"), Some(7));
    assert_eq!(parse_i32("2147483647"), Some(i32::MAX));
    assert_eq!(parse_i32("2147483648"), None);
    assert_eq!(parse_i32("-2147483648"), Some(i32::MIN));
    assert_eq!(parse_i32("-2147483649"), None);
    assert_eq!(parse_i32("99999999999999999999999"), None);
    assert_eq!(parse_i32(""), None);
    assert_eq!(parse_i32("-"), None);
    assert_eq!(parse_i32("+"), None);
    assert_eq!(parse_i32("1 "), None);
    assert_eq!(parse_i32("1.5"), None);
    assert_eq!(parse_i32("--1"), None);
    assert_eq!(parse_i32("twelve"), None);
}

#[test]
fn the_pager_says_how_many_pages_there_are() {
    assert_eq!(page_count(Some("page 1 of 12")), 12);
    assert_eq!(page_count(Some("7")), 7);
    assert_eq!(page_count(Some("page 1 of many")), 1);
    assert_eq!(page_count(Some("")), 1);
    assert_eq!(page_count(None), 1);
}

#[test]
fn announced_threads_are_compared_with_those_found() {
    assert!(threads_match(Some(3), 3));
    assert!(!threads_match(Some(3), 4));
    assert!(!threads_match(Some(-1), 0));
    assert!(threads_match(None, 9));
}
