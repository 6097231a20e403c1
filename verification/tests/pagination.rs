use scp_script_anthology::crom::{Crom, Step};
use scp_script_anthology::rate_limit::Outcome;
use scp_script_anthology::pagination::{
    progress_mark, read_page, PaginationWalker, WalkError, WalkState,
};
use scp_script_anthology::record::Record;

fn text(s: &str) -> Record {
    Record::Text(s.to_string())
}

fn object(members: Vec<(&str, Record)>) -> Record {
    Record::Object(members.into_iter().map(|(k, v)| (k.to_string(), v)).collect())
}

fn listing(first: usize, count: usize, next: Option<&str>) -> Record {
    let edges = (first..first + count)
        .map(|n| object(vec![("node", object(vec![("url", text(&format!("http://site/page-{}", n)))]))]))
        .collect();
    let mut info = vec![("hasNextPage", Record::Bool(next.is_some()))];
    if let Some(cursor) = next {
        info.push(("endCursor", text(cursor)));
    }
    object(vec![("edges", Record::List(edges)), ("pageInfo", object(info))])
}

fn page(first: usize, count: usize, next: Option<&str>) -> Record {
    object(vec![("data", object(vec![("pages", listing(first, count, next))]))])
}

fn quota() -> Record {
    object(vec![("data", object(vec![("rateLimit", object(vec![("remaining", Record::Whole(7))]))]))])
}

#[test]
fn three_pages_give_their_records_in_order() {
    let mut service = vec![page(0, 10, Some("c1")), page(10, 10, Some("c2")), page(20, 4, None)].into_iter();
    let mut walker = PaginationWalker::new();
    let mut crom = Crom::new(false);
    let mut probes = 0;
    let mut queries: Vec<String> = Vec::new();
    while let Some(query) = walker.next_query("http://site/", None, None, "url,") {
        let mut step = crom.query(&query);
        let answer = loop {
            match step {
                Step::Post { query: sent, after_seconds } => {
                    assert_eq!(after_seconds, 0);
                    if sent == query {
                        queries.push(sent);
                        step = crom.advance(Outcome::Answer(service.next().unwrap()));
                    } else {
                        probes += 1;
                        step = crom.advance(Outcome::Answer(quota()));
                    }
                }
                Step::Deliver(answer) => break answer,
                Step::Abort(why) => panic!("the query was given up: {:?}", why),
            }
        };
        walker.accept(&answer, false).unwrap();
    }
    assert!(walker.is_done());
    assert_eq!(walker.pages_read, 3);
    assert_eq!(queries.len(), 3);
    assert_eq!(probes, 3);
    assert!(!queries[0].contains("after:"));
    assert!(queries[1].contains("after: \"c1\","));
    assert!(queries[2].contains("after: \"c2\","));
    let records = walker.into_records();
    assert_eq!(records.len(), 24);
    for (n, record) in records.iter().enumerate() {
        assert_eq!(
            record.get("url").and_then(|u| u.as_str()),
            Some(format!("http://site/page-{}", n).as_str())
        );
    }
}

#[test]
fn the_first_request_has_no_cursor() {
    let walker = PaginationWalker::new();
    assert!(matches!(walker.state, WalkState::Fetching(None)));
    assert!(!walker.is_done());
    assert!(walker.records.is_empty());
}

#[test]
fn listing_of_an_author_is_looked_for_under_the_user() {
    let answer = object(vec![(
        "data",
        object(vec![("user", object(vec![("attributedPages", listing(0, 2, None))]))]),
    )]);
    let found = read_page(&answer, true).unwrap();
    assert_eq!(found.nodes.len(), 2);
    assert_eq!(found.next, None);
    assert_eq!(read_page(&answer, false).unwrap_err(), WalkError::NoListing);
    assert_eq!(read_page(&page(0, 1, None), true).unwrap_err(), WalkError::NoListing);
}

#[test]
fn what_a_page_lacks_is_said() {
    let no_edges = object(vec![("data", object(vec![("pages", object(vec![("pageInfo", object(vec![]))]))]))]);
    assert_eq!(read_page(&no_edges, false).unwrap_err(), WalkError::NoEdges);
    let edges_no_list = object(vec![("data", object(vec![("pages", object(vec![("edges", text("x"))]))]))]);
    assert_eq!(read_page(&edges_no_list, false).unwrap_err(), WalkError::NoEdges);
    let no_node = object(vec![(
        "data",
        object(vec![(
            "pages",
            object(vec![
                ("edges", Record::List(vec![object(vec![("cursor", text("c"))])])),
                ("pageInfo", object(vec![("hasNextPage", Record::Bool(false))])),
            ]),
        )]),
    )]);
    assert_eq!(read_page(&no_node, false).unwrap_err(), WalkError::NoNode);
    let no_info = object(vec![("data", object(vec![("pages", object(vec![("edges", Record::List(vec![]))]))]))]);
    assert_eq!(read_page(&no_info, false).unwrap_err(), WalkError::NoPageInfo);
    let no_cursor = object(vec![(
        "data",
        object(vec![(
            "pages",
            object(vec![
                ("edges", Record::List(vec![])),
                ("pageInfo", object(vec![("hasNextPage", Record::Bool(true))])),
            ]),
        )]),
    )]);
    assert_eq!(read_page(&no_cursor, false).unwrap_err(), WalkError::NoEndCursor);
    assert_eq!(read_page(&Record::Null, false).unwrap_err(), WalkError::NoListing);
}

#[test]
fn a_bad_answer_changes_nothing() {
    let mut walker = PaginationWalker::new();
    walker.accept(&page(0, 2, Some("c1")), false).unwrap();
    assert_eq!(walker.accept(&Record::Null, false), Err(WalkError::NoListing));
    assert_eq!(walker.records.len(), 2);
    assert!(matches!(&walker.state, WalkState::Fetching(Some(c)) if c == "c1"));
    assert_eq!(walker.pages_read, 1);
}

#[test]
fn a_finished_walk_takes_no_answer() {
    let mut walker = PaginationWalker::new();
    walker.accept(&page(0, 1, None), false).unwrap();
    assert!(walker.is_done());
    assert_eq!(walker.accept(&page(1, 1, None), false), Err(WalkError::NotFetching));
    assert_eq!(walker.records.len(), 1);
    assert_eq!(walker.next_query("s", None, None, "url,"), None);
}

#[test]
fn progress_is_marked_by_a_moving_star() {
    assert_eq!(progress_mark(""), "__________");
    assert_eq!(progress_mark("\u{1}"), "*_________");
    assert_eq!(progress_mark("a"), "______*___");
    assert_eq!(progress_mark("ab"), "____*_____");
    assert_eq!(progress_mark("d"), "__________");
    assert_eq!(progress_mark("é"), "___*______");
}
