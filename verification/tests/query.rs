use scp_script_anthology::crom::Crom;
use scp_script_anthology::query::{fragment_query, page_filter, rate_limit_request, tags_filter};

fn owned(parts: &[&str]) -> Vec<String> {
    parts.iter().map(|s| s.to_string()).collect()
}

#[test]
fn listing_query_of_a_site() {
    let query = Crom::build_crom_query("http://scp-wiki.wikidot.com/", None, None, "url,", None);
    assert_eq!(
        query,
        "query {
                pages(  filter: {  url:{startsWith:\"http://scp-wiki.wikidot.com/\"}}) {
                    edges {
          node { url, }
        },
        pageInfo {
          endCursor,
          hasNextPage
        }
                }
            }"
    );
}

#[test]
fn listing_query_with_filter_and_cursor() {
    let query = Crom::build_crom_query(
        "http://site/",
        Some("{ tags: { eq: \"scp\" } }"),
        None,
        "url,",
        Some("abc"),
    );
    assert_eq!(
        query,
        "query {
                pages( after: \"abc\", filter: { wikidotInfo: { tags: { eq: \"scp\" } }, url:{startsWith:\"http://site/\"}}) {
                    edges {
          node { url, }
        },
        pageInfo {
          endCursor,
          hasNextPage
        }
                }
            }"
    );
}

#[test]
fn listing_query_of_an_author() {
    let query = Crom::build_crom_query("http://site/", None, Some("someone"), "url,", Some("c1"));
    assert_eq!(
        query,
        "query {\
                user(name: \"someone\") {
                    attributedPages( after: \"c1\", filter: {  url: {startsWith: \"http://site/\"} }) {
                        edges {
          node { url, }
        },
        pageInfo {
          endCursor,
          hasNextPage
        }
                    }
                }
            }"
    );
}

#[test]
fn filter_of_tags_nests_from_the_last_tag() {
    assert_eq!(tags_filter(&owned(&[]), "and"), "");
    assert_eq!(tags_filter(&owned(&["scp"]), "and"), "{ tags: { eq: \"scp\" } }");
    assert_eq!(
        tags_filter(&owned(&["a", "b", "c"]), "or"),
        "{ _or: [{ tags: { eq: \"c\" } }, { _or: [{ tags: { eq: \"b\" } }, { tags: { eq: \"a\" } }] }] }"
    );
}

#[test]
fn filter_of_a_page_joins_both_lists() {
    assert_eq!(page_filter(&owned(&[]), &owned(&[])), None);
    assert_eq!(page_filter(&owned(&["a"]), &owned(&[])), Some("{ tags: { eq: \"a\" } }".to_string()));
    assert_eq!(page_filter(&owned(&[]), &owned(&["b"])), Some("{ tags: { eq: \"b\" } }".to_string()));
    assert_eq!(
        page_filter(&owned(&["a"]), &owned(&["b"])),
        Some("{ _and: [ { tags: { eq: \"a\" } }, { tags: { eq: \"b\" } } ] }".to_string())
    );
}

#[test]
fn fragment_query_asks_for_the_source() {
    assert_eq!(
        fragment_query("\"http://site/fragment:x\""),
        "
                        query {
                            page(url:\"http://site/fragment:x\"){
                                wikidotInfo { source }
                            }
                        }
                   "
    );
}

#[test]
fn quota_probe_is_a_fixed_query() {
    assert_eq!(rate_limit_request(), "query {rateLimit{remaining, resetAt}}");
}
