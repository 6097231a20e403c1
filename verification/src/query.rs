//! The text of the requests that are sent to the service: the listing query
//! with its filter and cursor, the filter for a choice of tags, and the query
//! for the source of one fragment.
use vstd::prelude::*;
use vstd::string::StringExecFns;
use crate::text::{copy_text, texts};

verus! {

/// The part of a listing query that asks for the records of a page and for
/// where the next page begins.
pub open spec fn query_body_text(requested_data: Seq<char>) -> Seq<char> {
    "edges {\n          node { "@ + requested_data
        + " }\n        },\n        pageInfo {\n          endCursor,\n          hasNextPage\n        }"@
}

/// The filter clause of a listing query: empty without a filter.
pub open spec fn filter_clause_text(filter: Option<Seq<char>>) -> Seq<char> {
    match filter {
        Some(f) => "wikidotInfo: "@ + f + ","@,
        None => Seq::empty(),
    }
}

/// The cursor clause of a listing query: empty on the first page.
pub open spec fn after_clause_text(after: Option<Seq<char>>) -> Seq<char> {
    match after {
        Some(cursor) => "after: \""@ + cursor + "\","@,
        None => Seq::empty(),
    }
}

/// The listing query: the pages of `site`, or those attributed to `author`
/// among them, that pass `filter`, from the cursor `after` on, each with the
/// fields of `requested_data`.
pub open spec fn crom_query_text(
    site: Seq<char>,
    filter: Option<Seq<char>>,
    author: Option<Seq<char>>,
    requested_data: Seq<char>,
    after: Option<Seq<char>>,
) -> Seq<char> {
    match author {
        None => "query {\n                pages( "@ + after_clause_text(after) + " filter: { "@
            + filter_clause_text(filter) + " url:{startsWith:\""@ + site + "\"}}) {\n                    "@
            + query_body_text(requested_data) + "\n                }\n            }"@,
        Some(name) => "query {user(name: \""@ + name
            + "\") {\n                    attributedPages( "@ + after_clause_text(after)
            + " filter: { "@ + filter_clause_text(filter) + " url: {startsWith: \""@ + site
            + "\"} }) {\n                        "@ + query_body_text(requested_data)
            + "\n                    }\n                }\n            }"@,
    }
}

/// The view of an optional text.
pub open spec fn opt_text(s: Option<&str>) -> Option<Seq<char>> {
    match s {
        Some(t) => Some(t@),
        None => None,
    }
}

/// The text of the listing query.
pub fn build_crom_query(
    site: &str,
    filter: Option<&str>,
    author: Option<&str>,
    requested_data: &str,
    after: Option<&str>,
) -> (query: String)
    ensures
        query@ == crom_query_text(
            site@,
            opt_text(filter),
            opt_text(author),
            requested_data@,
            opt_text(after),
        ),
{
    let query_body = copy_text("edges {\n          node { ").concat(requested_data).concat(
        " }\n        },\n        pageInfo {\n          endCursor,\n          hasNextPage\n        }",
    );
    let wikidot_info_filter = match filter {
        Some(f) => copy_text("wikidotInfo: ").concat(f).concat(","),
        None => String::new(),
    };
    let after_query = match after {
        Some(cursor) => copy_text("after: \"").concat(cursor).concat("\","),
        None => String::new(),
    };
    match author {
        None => copy_text("query {\n                pages( ").concat(after_query.as_str()).concat(
            " filter: { ",
        ).concat(wikidot_info_filter.as_str()).concat(" url:{startsWith:\"").concat(site).concat(
            "\"}}) {\n                    ",
        ).concat(query_body.as_str()).concat("\n                }\n            }"),
        Some(name) => copy_text("query {user(name: \"").concat(name).concat(
            "\") {\n                    attributedPages( ",
        ).concat(after_query.as_str()).concat(" filter: { ").concat(
            wikidot_info_filter.as_str(),
        ).concat(" url: {startsWith: \"").concat(site).concat(
            "\"} }) {\n                        ",
        ).concat(query_body.as_str()).concat("\n                    }\n                }\n            }"),
    }
}

/// The filter that asks for one tag.
pub open spec fn tag_clause_text(tag: Seq<char>) -> Seq<char> {
    "{ tags: { eq: \""@ + tag + "\" } }"@
}

/// The filter that joins the clauses of `tags` with `operation` (`and` or
/// `or`): empty for no tag, the one clause for one tag, and for more the
/// clause of the last tag joined to the filter of those before it.
pub open spec fn tags_filter_text(tags: Seq<Seq<char>>, operation: Seq<char>) -> Seq<char>
    decreases tags.len(),
{
    if tags.len() == 0 {
        Seq::empty()
    } else {
        let before = tags_filter_text(tags.drop_last(), operation);
        if before.len() == 0 {
            tag_clause_text(tags.last())
        } else {
            "{ _"@ + operation + ": ["@ + tag_clause_text(tags.last()) + ", "@ + before + "] }"@
        }
    }
}

/// The filter for a choice of tags, joined with `operation`.
pub fn tags_filter(tags: &Vec<String>, operation: &str) -> (filter: String)
    ensures
        filter@ == tags_filter_text(texts(tags@), operation@),
{
    let mut acc = String::new();
    let mut i: usize = 0;
    assert(texts(tags@).take(0) == Seq::<Seq<char>>::empty());
    while i < tags.len()
        invariant
            i <= tags.len(),
            acc@ == tags_filter_text(texts(tags@).take(i as int), operation@),
        decreases tags.len() - i,
    {
        proof {
            let next = texts(tags@).take(i + 1);
            assert(next.drop_last() == texts(tags@).take(i as int));
            assert(next.last() == tags@[i as int]@);
        }
        let tag_filter = copy_text("{ tags: { eq: \"").concat(tags[i].as_str()).concat("\" } }");
        if acc.as_str().is_empty() {
            acc = tag_filter;
        } else {
            acc = copy_text("{ _").concat(operation).concat(": [").concat(
                tag_filter.as_str(),
            ).concat(", ").concat(acc.as_str()).concat("] }");
        }
        i += 1;
    }
    assert(texts(tags@).take(tags@.len() as int) == texts(tags@));
    acc
}

/// The filter for pages that bear all of `all_tags` and one of `one_of_tags`:
/// none where both lists are empty, the filter of the one list where the
/// other is empty, and else both joined by `_and`.
pub open spec fn page_filter_text(all_tags: Seq<Seq<char>>, one_of_tags: Seq<Seq<char>>) -> Option<
    Seq<char>,
> {
    let and = tags_filter_text(all_tags, "and"@);
    let or = tags_filter_text(one_of_tags, "or"@);
    if or.len() == 0 && and.len() == 0 {
        None
    } else if or.len() == 0 {
        Some(and)
    } else if and.len() == 0 {
        Some(or)
    } else {
        Some("{ _and: [ "@ + and + ", "@ + or + " ] }"@)
    }
}

/// The filter of a listing query for the tags asked for.
pub fn page_filter(all_tags: &Vec<String>, one_of_tags: &Vec<String>) -> (filter: Option<String>)
    ensures
        match filter {
            Some(f) => page_filter_text(texts(all_tags@), texts(one_of_tags@)) == Some(f@),
            None => page_filter_text(texts(all_tags@), texts(one_of_tags@)) is None,
        },
{
    let filter_and = tags_filter(all_tags, "and");
    let filter_or = tags_filter(one_of_tags, "or");
    if filter_or.as_str().is_empty() && filter_and.as_str().is_empty() {
        None
    } else if filter_or.as_str().is_empty() {
        Some(filter_and)
    } else if filter_and.as_str().is_empty() {
        Some(filter_or)
    } else {
        Some(
            copy_text("{ _and: [ ").concat(filter_and.as_str()).concat(", ").concat(
                filter_or.as_str(),
            ).concat(" ] }"),
        )
    }
}

/// The query for the source of one fragment; `quoted_url` is the address of
/// the fragment, written as a quoted text of the query language.
pub open spec fn fragment_query_text(quoted_url: Seq<char>) -> Seq<char> {
    "\n                        query {\n                            page(url:"@ + quoted_url
        + "){\n                                wikidotInfo { source }\n                            }\n                        }\n                   "@
}

/// The text of the query for the source of one fragment.
pub fn fragment_query(quoted_url: &str) -> (query: String)
    ensures
        query@ == fragment_query_text(quoted_url@),
{
    copy_text("\n                        query {\n                            page(url:").concat(
        quoted_url,
    ).concat(
        "){\n                                wikidotInfo { source }\n                            }\n                        }\n                   ",
    )
}

/// The query that asks the service how much of the quota is left.
pub fn rate_limit_request() -> (query: &'static str)
    ensures
        query@ == "query {rateLimit{remaining, resetAt}}"@,
{
    "query {rateLimit{remaining, resetAt}}"
}

} // verus!
