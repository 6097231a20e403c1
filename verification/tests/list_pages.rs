use scp_script_anthology::crom::{Crom, Step};
use scp_script_anthology::rate_limit::Outcome;
use scp_script_anthology::enrichment::{Fetched, Plan};
use scp_script_anthology::field_tree::QueryTree;
use scp_script_anthology::list_pages::{document_path, format_info, ListPages};
use scp_script_anthology::pagination::PaginationWalker;
use scp_script_anthology::params::{ConfigError, ListPagesParameters};
use scp_script_anthology::projection::project;
use scp_script_anthology::record::Record;

fn owned(parts: &[&str]) -> Vec<String> {
    parts.iter().map(|s| s.to_string()).collect()
}

fn text(s: &str) -> Record {
    Record::Text(s.to_string())
}

fn object(members: Vec<(&str, Record)>) -> Record {
    Record::Object(members.into_iter().map(|(k, v)| (k.to_string(), v)).collect())
}

fn parameters(info: &[&str]) -> ListPagesParameters {
    ListPagesParameters {
        info: owned(info),
        all_tags: Vec::new(),
        one_of_tags: Vec::new(),
        author: None,
        content: false,
        download_html: None,
        gather_fragments_sources: false,
        source_contains: Vec::new(),
        source_contains_one: false,
        source_contains_ignore_case: false,
        txm: false,
        files: false,
    }
}

fn node(n: usize) -> Record {
    object(vec![
        ("url", text(&format!("http://site/page-{}", n))),
        ("wikidotInfo", object(vec![("title", text(&format!("Page {}", n)))])),
    ])
}

fn answer(first: usize, count: usize, next: Option<&str>) -> Record {
    let edges = (first..first + count).map(|n| object(vec![("node", node(n))])).collect();
    let mut info = vec![("hasNextPage", Record::Bool(next.is_some()))];
    if let Some(cursor) = next {
        info.push(("endCursor", text(cursor)));
    }
    object(vec![(
        "data",
        object(vec![("pages", object(vec![("edges", Record::List(edges)), ("pageInfo", object(info))]))]),
    )])
}

fn quota() -> Record {
    object(vec![("data", object(vec![("rateLimit", object(vec![("remaining", Record::Whole(7))]))]))])
}

fn keys(record: &Record) -> Vec<String> {
    match record {
        Record::Object(members) => members.iter().map(|(k, _)| k.clone()).collect(),
        _ => panic!("an object was expected"),
    }
}

#[test]
fn listing_from_the_field_list_to_the_final_records() {
    let mut params = parameters(&["url", "wikidotInfo.title"]);
    params.apply_inferences();
    let settings = ListPages::new(false, "http://site/", 4, &params).unwrap();
    assert_eq!(settings.requested_data, "url,wikidotInfo { title, },");
    assert_eq!(settings.filter, None);

    let mut service = vec![answer(0, 2, Some("c1")), answer(2, 2, None)].into_iter();
    let mut walker = PaginationWalker::new();
    let mut crom = Crom::new(settings.verbose);
    while let Some(query) = settings.search_query(&walker) {
        assert!(query.contains("node { url,wikidotInfo { title, }, }"));
        let mut step = crom.query(&query);
        let response = loop {
            match step {
                Step::Post { query: sent, .. } => {
                    step = if sent == query {
                        crom.advance(Outcome::Answer(service.next().unwrap()))
                    } else {
                        crom.advance(Outcome::Answer(quota()))
                    };
                }
                Step::Deliver(response) => break response,
                Step::Abort(why) => panic!("the query was given up: {:?}", why),
            }
        };
        settings.accept_page(&mut walker, &response).unwrap();
    }
    let pages = walker.into_records();
    assert_eq!(pages.len(), 4);
    assert!(!settings.gathers_sources(&pages));
    assert!(!settings.fetches_documents());
    for page in &pages {
        let requests = settings.requests_for(page, false);
        assert!(requests.fragment_queries.is_empty());
        assert!(requests.document_urls.is_none());
    }

    let (records, warnings) = settings.execute(pages, &Vec::new()).unwrap();
    assert!(warnings.is_empty());
    assert_eq!(records.len(), 4);
    let no_filter: Vec<QueryTree> = QueryTree::from_vec(Vec::new());
    let by_fields = QueryTree::from_vec(vec!["url", "wikidotInfo.title"]);
    for (n, record) in records.iter().enumerate() {
        for filters in [&no_filter, &by_fields] {
            let out = project(filters, record);
            assert_eq!(keys(&out), vec!["url", "wikidotInfo"]);
            assert_eq!(keys(out.get("wikidotInfo").unwrap()), vec!["title"]);
            assert_eq!(out.get("url").and_then(|u| u.as_str()), Some(format!("http://site/page-{}", n).as_str()));
            assert_eq!(
                out.get2("wikidotInfo", "title").and_then(|t| t.as_str()),
                Some(format!("Page {}", n).as_str())
            );
        }
    }
}

#[test]
fn settings_carry_the_parameters() {
    let mut params = parameters(&["url"]);
    params.all_tags = owned(&["scp"]);
    params.one_of_tags = owned(&["safe", "euclid"]);
    params.author = Some("someone".to_string());
    params.content = true;
    params.files = true;
    params.gather_fragments_sources = true;
    params.download_html = Some("pages".to_string());
    params.source_contains = owned(&["foo"]);
    params.source_contains_one = true;
    params.source_contains_ignore_case = true;
    params.apply_inferences();
    let settings = ListPages::new(true, "http://site/", 8, &params).unwrap();
    assert!(settings.verbose);
    assert_eq!(settings.site, "http://site/");
    assert_eq!(settings.threads, 8);
    assert_eq!(settings.author, Some("someone".to_string()));
    assert_eq!(
        settings.filter,
        Some(
            "{ _and: [ { tags: { eq: \"scp\" } }, { _or: [{ tags: { eq: \"euclid\" } }, { tags: { eq: \"safe\" } }] } ] }"
                .to_string()
        )
    );
    assert_eq!(settings.requested_data, "url,wikidotInfo { children { url, },source, },");
    assert_eq!(settings.plan, Plan { gather_fragments_sources: true, content: true, files: true });
    assert_eq!(settings.download_html, Some("pages".to_string()));
    assert_eq!(settings.source_filter.patterns, owned(&["foo"]));
    assert!(settings.source_filter.any);
    assert!(settings.source_filter.ignore_case);
    assert!(settings.fetches_documents());
}

#[test]
fn inconsistent_parameters_are_refused_before_anything_is_sent() {
    let mut params = parameters(&["url"]);
    params.source_contains = owned(&["foo"]);
    assert_eq!(ListPages::new(false, "s", 1, &params).unwrap_err(), ConfigError::SourceNotRequested);
    params.apply_inferences();
    assert!(ListPages::new(false, "s", 1, &params).is_ok());
    params.source_contains = owned(&["(unclosed"]);
    assert_eq!(ListPages::new(false, "s", 1, &params).unwrap_err(), ConfigError::BadPattern);
}

#[test]
fn what_to_fetch_follows_the_plan() {
    let mut params = parameters(&["url"]);
    params.content = true;
    params.gather_fragments_sources = true;
    params.apply_inferences();
    let settings = ListPages::new(false, "http://site/", 2, &params).unwrap();
    let page = object(vec![
        ("url", text("http://site/whole")),
        (
            "wikidotInfo",
            object(vec![
                ("source", text("s")),
                (
                    "children",
                    Record::List(vec![
                        object(vec![("url", text("http://site/fragment:two"))]),
                        object(vec![("url", text("http://site/fragment:one"))]),
                    ]),
                ),
            ]),
        ),
    ]);
    let plain = object(vec![("url", text("http://site/plain"))]);
    let pages = vec![plain, page];
    assert!(settings.gathers_sources(&pages));
    let requests = settings.requests_for(&pages[1], true);
    assert_eq!(requests.fragment_queries.len(), 2);
    assert!(requests.fragment_queries[0].contains("\"http://site/fragment:one\""));
    assert_eq!(
        requests.document_urls,
        Some(owned(&["http://site/fragment:one", "http://site/fragment:two"]))
    );
    let requests = settings.requests_for(&pages[0], true);
    assert!(requests.fragment_queries.is_empty());
    assert_eq!(requests.document_urls, Some(owned(&["http://site/plain"])));
    let sourceless = object(vec![
        ("url", text("http://site/bare")),
        (
            "wikidotInfo",
            object(vec![(
                "children",
                Record::List(vec![object(vec![("url", text("http://site/fragment:only"))])]),
            )]),
        ),
    ]);
    let requests = settings.requests_for(&sourceless, true);
    assert!(requests.fragment_queries.is_empty());
    assert_eq!(requests.document_urls, Some(owned(&["http://site/fragment:only"])));
    assert!(settings.requests_for(&pages[1], false).fragment_queries.is_empty());

    let fetched = vec![
        Fetched { sources: Vec::new(), document: Some("<div id=\"page-content\">plain text</div>".to_string()) },
        Fetched {
            sources: owned(&["first", "second"]),
            document: Some("<div id=\"page-content\">one</div>\n<p>two</p>".to_string()),
        },
    ];
    let (records, warnings) = settings.execute(pages, &fetched).unwrap();
    assert!(warnings.is_empty());
    assert_eq!(records.len(), 2);
    assert_eq!(records[0].get("content").and_then(|c| c.as_str()), Some("plain text"));
    assert_eq!(records[1].get("content").and_then(|c| c.as_str()), Some("one"));
    assert_eq!(records[1].get2("wikidotInfo", "source").and_then(|c| c.as_str()), Some("first\nsecond"));
}

#[test]
fn records_are_filtered_after_their_enrichment() {
    let mut params = parameters(&["url"]);
    params.gather_fragments_sources = true;
    params.source_contains = owned(&["needle"]);
    params.apply_inferences();
    let settings = ListPages::new(false, "http://site/", 2, &params).unwrap();
    let page = |n: usize, source: &str| {
        object(vec![
            ("url", text(&format!("http://site/{}", n))),
            ("wikidotInfo", object(vec![("source", text(source))])),
        ])
    };
    let pages = vec![page(0, "needle"), page(1, "hay"), page(2, "hay")];
    let fetched = vec![
        Fetched { sources: owned(&["only hay"]), document: None },
        Fetched { sources: Vec::new(), document: None },
        Fetched { sources: owned(&["a needle", "in hay"]), document: None },
    ];
    let (records, _) = settings.execute(pages, &fetched).unwrap();
    let urls: Vec<&str> = records.iter().map(|r| r.get("url").and_then(|u| u.as_str()).unwrap()).collect();
    assert_eq!(urls, vec!["http://site/2"]);
}

#[test]
fn field_list_is_written_as_query_text() {
    assert_eq!(format_info(&owned(&["url", "wikidotInfo.title"])), "url,wikidotInfo { title, },");
    assert_eq!(format_info(&owned(&["wikidotInfo.title", "url"])), "url,wikidotInfo { title, },");
    assert_eq!(format_info(&Vec::new()), "");
}

#[test]
fn documents_are_stored_under_the_name_of_their_page() {
    let page = object(vec![("url", text("http://site/scp-173"))]);
    assert_eq!(document_path("out", &page), Some("out/scp-173.html".to_string()));
    let odd = object(vec![("url", text("scp-1"))]);
    assert_eq!(document_path("out", &odd), Some("out/scp-1.html".to_string()));
    assert_eq!(document_path("out", &object(vec![])), None);
}
