use scp_script_anthology::enrichment::{
    document_urls, enrich, enrich_all, fetched_document, fragment_queries, fragment_source,
    list_children, merge_documents, splice_sources, EnrichWarning, Fetched, Plan,
};
use scp_script_anthology::file_size::SizeWarning;
use scp_script_anthology::record::Record;

fn text(s: &str) -> Record {
    Record::Text(s.to_string())
}

fn object(members: Vec<(&str, Record)>) -> Record {
    Record::Object(members.into_iter().map(|(k, v)| (k.to_string(), v)).collect())
}

fn child(url: &str) -> Record {
    object(vec![("url", text(url))])
}

fn fragmented() -> Record {
    object(vec![
        ("url", text("http://site/scp-1")),
        (
            "wikidotInfo",
            object(vec![
                ("source", text("[[include fragments]]")),
                (
                    "children",
                    Record::List(vec![
                        child("http://site/fragment:scp-1-3"),
                        child("http://site/scp-1-offset"),
                        child("http://site/fragment:scp-1-2"),
                        object(vec![("url", Record::Whole(3))]),
                        object(vec![("title", text("no url"))]),
                        child("http://site/fragment:scp-1-1"),
                    ]),
                ),
            ]),
        ),
    ])
}

fn simple(n: usize) -> Record {
    object(vec![("url", text(&format!("http://site/page-{}", n)))])
}

fn document(body: &str) -> String {
    format!("<html><body><div id=\"page-content\"><p>{}</p></div></body></html>", body)
}

const ALL: Plan = Plan { gather_fragments_sources: true, content: true, files: true };
const CONTENT: Plan = Plan { gather_fragments_sources: false, content: true, files: false };

#[test]
fn fragments_are_the_marked_children_in_reverse() {
    assert_eq!(
        list_children(&fragmented()),
        vec!["http://site/fragment:scp-1-1", "http://site/fragment:scp-1-2", "http://site/fragment:scp-1-3"]
    );
    assert!(list_children(&simple(0)).is_empty());
    let no_list = object(vec![("wikidotInfo", object(vec![("children", text("x"))]))]);
    assert!(list_children(&no_list).is_empty());
}

#[test]
fn each_fragment_gets_a_query_with_its_quoted_address() {
    let queries = fragment_queries(&fragmented());
    assert_eq!(queries.len(), 3);
    assert!(queries[0].contains("page(url:\"http://site/fragment:scp-1-1\"){"));
    assert!(queries[2].contains("page(url:\"http://site/fragment:scp-1-3\"){"));
    assert!(queries[0].contains("wikidotInfo { source }"));
}

#[test]
fn addresses_are_quoted_as_json_does() {
    let page = object(vec![(
        "wikidotInfo",
        object(vec![("children", Record::List(vec![child("http://site/fragment:a\"b\\c")]))]),
    )]);
    let queries = fragment_queries(&page);
    assert!(queries[0].contains("page(url:\"http://site/fragment:a\\\"b\\\\c\"){"));
    let odd = object(vec![(
        "wikidotInfo",
        object(vec![("children", Record::List(vec![child("fragment:\u{1}\t\n\u{1f}\u{7f}é\u{8}\u{c}\r/")]))]),
    )]);
    let queries = fragment_queries(&odd);
    assert!(queries[0].contains("page(url:\"fragment:\\u0001\\t\\n\\u001f\u{7f}é\\b\\f\\r/\"){"));
}

#[test]
fn the_source_of_a_fragment_is_read_from_its_answer() {
    let answer = object(vec![(
        "data",
        object(vec![("page", object(vec![("wikidotInfo", object(vec![("source", text("part one"))]))]))]),
    )]);
    assert_eq!(fragment_source(&answer), Some("part one".to_string()));
    let null = object(vec![(
        "data",
        object(vec![("page", object(vec![("wikidotInfo", object(vec![("source", Record::Null)]))]))]),
    )]);
    assert_eq!(fragment_source(&null), None);
    assert_eq!(fragment_source(&object(vec![("data", Record::Null)])), None);
}

#[test]
fn sources_of_fragments_replace_the_source_of_the_page() {
    let sources = vec!["one".to_string(), "two".to_string(), "three".to_string()];
    let page = splice_sources(fragmented(), &sources);
    assert_eq!(page.get2("wikidotInfo", "source").and_then(|s| s.as_str()), Some("one\ntwo\nthree"));
    let untouched = splice_sources(fragmented(), &Vec::new());
    assert_eq!(
        untouched.get2("wikidotInfo", "source").and_then(|s| s.as_str()),
        Some("[[include fragments]]")
    );
    let without = splice_sources(simple(1), &sources);
    assert!(without.get("wikidotInfo").is_none());
}

#[test]
fn documents_of_fragments_stand_for_that_of_the_page() {
    assert_eq!(
        document_urls(&fragmented(), true),
        Some(vec![
            "http://site/fragment:scp-1-1".to_string(),
            "http://site/fragment:scp-1-2".to_string(),
            "http://site/fragment:scp-1-3".to_string(),
        ])
    );
    assert_eq!(document_urls(&fragmented(), false), Some(vec!["http://site/scp-1".to_string()]));
    assert_eq!(document_urls(&simple(4), true), Some(vec!["http://site/page-4".to_string()]));
    assert_eq!(document_urls(&object(vec![("title", text("t"))]), true), None);
}

#[test]
fn documents_are_joined_by_line_breaks() {
    let fetched = vec![Some("<p>a</p>".to_string()), None, Some("<p>c</p>".to_string())];
    assert_eq!(merge_documents(&fetched), "<p>a</p>\n\n<p>c</p>");
    assert_eq!(merge_documents(&Vec::new()), "");
}

#[test]
fn enrichment_adds_what_the_plan_asks_for() {
    let fetched = Fetched {
        sources: vec!["one".to_string(), "two".to_string()],
        document: Some(
            "<div id=\"page-content\">body</div><table class=\"page-files\"><tbody>\
<tr><td><a>f.txt</a></td><td><span>text</span></td><td>3 kB</td></tr></tbody></table>"
                .to_string(),
        ),
    };
    let (page, warnings) = enrich(fragmented(), ALL, &fetched);
    assert!(warnings.is_empty());
    assert_eq!(page.get2("wikidotInfo", "source").and_then(|s| s.as_str()), Some("one\ntwo"));
    assert_eq!(page.get("content").and_then(|s| s.as_str()), Some("body"));
    let files = page.get("files").and_then(|f| f.as_list()).unwrap();
    assert_eq!(files.len(), 1);
    assert_eq!(files[0].get("size").and_then(|s| s.as_i64()), Some(3000));
    let nothing = Plan { gather_fragments_sources: false, content: false, files: false };
    let (same, warnings) = enrich(fragmented(), nothing, &fetched);
    assert!(warnings.is_empty());
    assert_eq!(format!("{:?}", same), format!("{:?}", fragmented()));
}

#[test]
fn a_failed_fetch_leaves_the_fields_empty() {
    let fetched = Fetched { sources: Vec::new(), document: None };
    let (page, warnings) = enrich(simple(0), ALL, &fetched);
    assert_eq!(page.get("content").and_then(|s| s.as_str()), Some(""));
    assert_eq!(page.get("files").and_then(|f| f.as_list()).map(|f| f.len()), Some(0));
    assert_eq!(warnings, vec![EnrichWarning::NoDocument, EnrichWarning::NoContent]);
}

#[test]
fn records_keep_their_order_whatever_was_fetched() {
    let pages: Vec<Record> = (0..5).map(simple).collect();
    let fetched: Vec<Fetched> = (0..5)
        .map(|n| Fetched {
            sources: Vec::new(),
            document: if n == 4 { None } else { Some(document(&format!("content {}", n))) },
        })
        .collect();
    let (done, warnings) = enrich_all(pages, CONTENT, &fetched);
    assert_eq!(done.len(), 5);
    for (n, page) in done.iter().enumerate() {
        assert_eq!(
            page.get("url").and_then(|u| u.as_str()),
            Some(format!("http://site/page-{}", n).as_str())
        );
    }
    for n in 0..4 {
        assert_eq!(
            done[n].get("content").and_then(|c| c.as_str()),
            Some(format!("content {}", n).as_str())
        );
    }
    assert_eq!(done[4].get("content").and_then(|c| c.as_str()), Some(""));
    assert_eq!(warnings, vec![(4, EnrichWarning::NoDocument), (4, EnrichWarning::NoContent)]);
}

#[test]
fn records_without_anything_fetched_are_enriched_as_from_nothing() {
    let pages: Vec<Record> = (0..3).map(simple).collect();
    let fetched = vec![Fetched { sources: Vec::new(), document: Some(document("only")) }];
    let (done, _) = enrich_all(pages, CONTENT, &fetched);
    assert_eq!(done.len(), 3);
    assert_eq!(done[0].get("content").and_then(|c| c.as_str()), Some("only"));
    assert_eq!(done[1].get("content").and_then(|c| c.as_str()), Some(""));
    assert_eq!(done[2].get("content").and_then(|c| c.as_str()), Some(""));
}

#[test]
fn a_document_needs_one_fetch_that_went_well() {
    assert_eq!(fetched_document(&vec![None, Some("x".to_string())]), Some("\nx".to_string()));
    assert_eq!(fetched_document(&vec![Some(String::new())]), Some(String::new()));
    assert_eq!(fetched_document(&vec![None, None]), None);
    assert_eq!(fetched_document(&Vec::new()), None);
}

#[test]
fn badly_written_sizes_are_warned_of() {
    let fetched = Fetched {
        sources: Vec::new(),
        document: Some(
            "<div id=\"page-content\">x</div><table class=\"page-files\"><tbody>\
<tr><td><a>a</a></td><td><span>t</span></td><td>1 kB</td></tr>\
<tr><td><a>b</a></td><td><span>t</span></td><td>many</td></tr>\
<tr><td><a>c</a></td><td><span>t</span></td><td>3 GB</td></tr>\
</tbody></table>"
                .to_string(),
        ),
    };
    let files_only = Plan { gather_fragments_sources: false, content: false, files: true };
    let (page, warnings) = enrich(simple(7), files_only, &fetched);
    assert!(page.get("content").is_none());
    assert_eq!(page.get("files").and_then(|f| f.as_list()).map(|f| f.len()), Some(3));
    assert_eq!(
        warnings,
        vec![
            EnrichWarning::FileSize(SizeWarning::BadNumber),
            EnrichWarning::FileSize(SizeWarning::UnknownUnit),
        ]
    );
    let (_, all) = enrich_all(vec![simple(0), simple(1)], files_only, &vec![
        Fetched { sources: Vec::new(), document: Some(String::new()) },
        fetched,
    ]);
    assert_eq!(
        all,
        vec![
            (1, EnrichWarning::FileSize(SizeWarning::BadNumber)),
            (1, EnrichWarning::FileSize(SizeWarning::UnknownUnit)),
        ]
    );
}

#[test]
fn the_address_of_a_record_stays() {
    let fetched = Fetched { sources: vec!["s".to_string()], document: Some(document("d")) };
    let (page, _) = enrich(fragmented(), ALL, &fetched);
    assert_eq!(page.get("url").and_then(|u| u.as_str()), Some("http://site/scp-1"));
}
