//! The enrichment of harvested records: the sources of the fragments of a
//! page are put together, and its content and its files are read out of its
//! rendered document.
//!
//! The library says what to fetch for a record and what becomes of the record
//! once it was fetched. Whatever was fetched belongs to the record at the same
//! position, so that the records keep their order.
use vstd::prelude::*;
use vstd::string::StringExecFns;
use crate::file_size::SizeWarning;
use crate::html::{
    content_of, file_list, file_rows_of, file_values, files_of, files_record, parse_content,
    size_warnings,
};
use crate::query::{fragment_query, fragment_query_text};
use crate::record::{
    lemma_view_list, lemma_with_member_other, lemma_with_nested_other, member, member_at, values,
    with_member, with_nested, Record, Value,
};
use crate::text::{contains, contains_text, copy_text, join, join_with, texts};

verus! {

/// The character of a hexadecimal digit, in lower case.
pub open spec fn hex_char(d: int) -> char {
    if d == 0 {
        '0'
    } else if d == 1 {
        '1'
    } else if d == 2 {
        '2'
    } else if d == 3 {
        '3'
    } else if d == 4 {
        '4'
    } else if d == 5 {
        '5'
    } else if d == 6 {
        '6'
    } else if d == 7 {
        '7'
    } else if d == 8 {
        '8'
    } else if d == 9 {
        '9'
    } else if d == 10 {
        'a'
    } else if d == 11 {
        'b'
    } else if d == 12 {
        'c'
    } else if d == 13 {
        'd'
    } else if d == 14 {
        'e'
    } else {
        'f'
    }
}

/// What stands for a character inside a quoted text of JSON: an escape for
/// the double quote, the backslash and the control characters, the character
/// itself for any other.
pub open spec fn json_escaped_char(c: char) -> Seq<char> {
    if c == '"' {
        seq!['\\', '"']
    } else if c == '\\' {
        seq!['\\', '\\']
    } else if c == '\u{8}' {
        seq!['\\', 'b']
    } else if c == '\t' {
        seq!['\\', 't']
    } else if c == '\n' {
        seq!['\\', 'n']
    } else if c == '\u{c}' {
        seq!['\\', 'f']
    } else if c == '\r' {
        seq!['\\', 'r']
    } else if c <= '\u{1f}' {
        seq!['\\', 'u', '0', '0', hex_char(c as int / 16), hex_char(c as int % 16)]
    } else {
        seq![c]
    }
}

/// The characters of a text, each as it stands inside a quoted text of JSON.
pub open spec fn json_escaped(text: Seq<char>) -> Seq<char>
    decreases text.len(),
{
    if text.len() == 0 {
        Seq::empty()
    } else {
        json_escaped(text.drop_last()) + json_escaped_char(text.last())
    }
}

/// A text as the query language quotes it, which is as JSON does: between
/// double quotes, with its characters escaped.
pub open spec fn json_quoted(text: Seq<char>) -> Seq<char> {
    seq!['"'] + json_escaped(text) + seq!['"']
}

/// `Display` of `serde_json::Value`, for a text value: the text between
/// double quotes, with the double quote, the backslash and the control
/// characters escaped as JSON asks.
#[verifier::external_body]
fn quote(text: &str) -> (r: String)
    ensures
        r@ == json_quoted(text@),
{
    serde_json::Value::String(text.to_owned()).to_string()
}

/// The marker in the address of a page that is a fragment of another.
pub open spec fn fragment_marker() -> Seq<char> {
    "fragment:"@
}

/// The address of a child that is a fragment: a text that holds the marker.
pub open spec fn fragment_url_of(child: Value) -> Option<Seq<char>> {
    match member(child, "url"@) {
        Some(Value::Text(url)) => if contains_text(url, fragment_marker()) {
            Some(url)
        } else {
            None
        },
        _ => None,
    }
}

/// The addresses of the fragments among some children, the last child first.
pub open spec fn fragment_urls_among(children: Seq<Value>) -> Seq<Seq<char>>
    decreases children.len(),
{
    if children.len() == 0 {
        Seq::empty()
    } else {
        let before = fragment_urls_among(children.drop_last());
        match fragment_url_of(children.last()) {
            Some(url) => seq![url] + before,
            None => before,
        }
    }
}

/// The children of a page, at `wikidotInfo.children`; none where that is no
/// list.
pub open spec fn children_of_page(page: Value) -> Seq<Value> {
    match member_at(page, seq!["wikidotInfo"@, "children"@]) {
        Some(Value::List(children)) => children,
        _ => Seq::empty(),
    }
}

/// The addresses of the fragments of a page, in the order in which they make
/// up the page: the reverse of the order of its children.
pub open spec fn fragment_urls_of(page: Value) -> Seq<Seq<char>> {
    fragment_urls_among(children_of_page(page))
}

/// The addresses of the fragments of a page.
pub fn list_children(page: &Record) -> (urls: Vec<String>)
    ensures
        texts(urls@) == fragment_urls_of(page@),
{
    let children = match page.get2("wikidotInfo", "children") {
        Some(found) => match found.as_list() {
            Some(children) => children,
            None => {
                return Vec::new();
            },
        },
        None => {
            return Vec::new();
        },
    };
    let ghost all = values(children@);
    let mut urls: Vec<String> = Vec::new();
    let mut left: usize = children.len();
    assert(all.take(left as int) == all);
    assert(texts(urls@) =~= Seq::<Seq<char>>::empty());
    while left > 0
        invariant
            left <= children.len(),
            all == values(children@),
            texts(urls@) + fragment_urls_among(all.take(left as int)) == fragment_urls_among(all),
        decreases left,
    {
        let child = &children[left - 1];
        let ghost before = texts(urls@);
        proof {
            let part = all.take(left as int);
            assert(part.last() == child@);
            assert(part.drop_last() == all.take(left - 1));
        }
        match child.get("url") {
            Some(found) => match found.as_str() {
                Some(url) => {
                    if contains(url, "fragment:") {
                        urls.push(copy_text(url));
                        assert(texts(urls@) =~= before + seq![url@]);
                        assert(before + (seq![url@] + fragment_urls_among(all.take(left - 1)))
                            == (before + seq![url@]) + fragment_urls_among(all.take(left - 1)));
                    }
                },
                None => {},
            },
            None => {},
        }
        left -= 1;
    }
    assert(all.take(0) == Seq::<Value>::empty());
    assert(texts(urls@) + Seq::<Seq<char>>::empty() == texts(urls@));
    urls
}

/// The queries for the sources of fragments, one for each address.
pub open spec fn fragment_queries_for(urls: Seq<Seq<char>>) -> Seq<Seq<char>> {
    Seq::new(urls.len(), |i: int| fragment_query_text(json_quoted(urls[i])))
}

/// The queries for the sources of the fragments of a page, in the order of
/// the fragments.
pub fn fragment_queries(page: &Record) -> (queries: Vec<String>)
    ensures
        texts(queries@) == fragment_queries_for(fragment_urls_of(page@)),
{
    let urls = list_children(page);
    let mut queries: Vec<String> = Vec::new();
    let mut i: usize = 0;
    while i < urls.len()
        invariant
            i <= urls.len(),
            texts(queries@) == fragment_queries_for(texts(urls@)).take(i as int),
        decreases urls.len() - i,
    {
        let ghost before = texts(queries@);
        let quoted = quote(urls[i].as_str());
        let query = fragment_query(quoted.as_str());
        queries.push(query);
        assert(texts(queries@) =~= before.push(query@));
        assert(fragment_queries_for(texts(urls@)).take(i + 1) =~= fragment_queries_for(
            texts(urls@),
        ).take(i as int).push(query@));
        i += 1;
    }
    assert(fragment_queries_for(texts(urls@)).take(urls@.len() as int) == fragment_queries_for(
        texts(urls@),
    ));
    queries
}

/// The source that the answer to a fragment query gives, at
/// `data.page.wikidotInfo.source`.
pub open spec fn fragment_source_of(answer: Value) -> Option<Seq<char>> {
    match member_at(answer, seq!["data"@, "page"@, "wikidotInfo"@, "source"@]) {
        Some(Value::Text(source)) => Some(source),
        _ => None,
    }
}

/// Reads the source of a fragment out of the answer to its query; an answer
/// without a source text is no answer of the service.
pub fn fragment_source(answer: &Record) -> (source: Option<String>)
    ensures
        match source {
            Some(text) => fragment_source_of(answer@) == Some(text@),
            None => fragment_source_of(answer@) is None,
        },
{
    let ghost keys = seq!["data"@, "page"@, "wikidotInfo"@, "source"@];
    proof {
        reveal_with_fuel(member_at, 5);
        assert(keys.skip(1) =~= seq!["page"@, "wikidotInfo"@, "source"@]);
        assert(keys.skip(1).skip(1) =~= seq!["wikidotInfo"@, "source"@]);
        assert(keys.skip(1).skip(1).skip(1) =~= seq!["source"@]);
        assert(keys.skip(1).skip(1).skip(1).skip(1) =~= Seq::<Seq<char>>::empty());
        let pair = seq!["wikidotInfo"@, "source"@];
        assert(pair.skip(1) =~= seq!["source"@]);
        assert(pair.skip(1).skip(1) =~= Seq::<Seq<char>>::empty());
    }
    match answer.get2("data", "page") {
        Some(page) => match page.get2("wikidotInfo", "source") {
            Some(found) => match found.as_str() {
                Some(text) => Some(copy_text(text)),
                None => None,
            },
            None => None,
        },
        None => None,
    }
}

/// A page with the sources of its fragments in the place of its own: they are
/// joined by line breaks. A page for which no sources were gathered, or that
/// has no source of its own, stays as it is.
pub open spec fn with_sources(page: Value, sources: Seq<Seq<char>>) -> Value {
    if sources.len() == 0 {
        page
    } else {
        with_nested(page, "wikidotInfo"@, "source"@, Value::Text(join_with(sources, "\n"@)))
    }
}

/// Puts the sources of the fragments of a page in the place of its own.
pub fn splice_sources(page: Record, sources: &Vec<String>) -> (r: Record)
    ensures
        r@ == with_sources(page@, texts(sources@)),
{
    if sources.len() == 0 {
        page
    } else {
        let joined = join(sources, "\n");
        page.replace_nested("wikidotInfo", "source", Record::Text(joined))
    }
}

/// The addresses of the documents to fetch for a page: those of its
/// fragments, in their order, where their sources are gathered and there are
/// any; else its own. Nothing where the page has no address.
pub open spec fn document_urls_of(page: Value, gather: bool) -> Option<Seq<Seq<char>>> {
    if gather && fragment_urls_of(page).len() > 0 {
        Some(fragment_urls_of(page))
    } else {
        match member(page, "url"@) {
            Some(Value::Text(url)) => Some(seq![url]),
            _ => None,
        }
    }
}

/// The addresses of the documents to fetch for a page.
pub fn document_urls(page: &Record, gather: bool) -> (urls: Option<Vec<String>>)
    ensures
        match urls {
            Some(list) => document_urls_of(page@, gather) == Some(texts(list@)),
            None => document_urls_of(page@, gather) is None,
        },
{
    if gather {
        let fragments = list_children(page);
        if fragments.len() > 0 {
            return Some(fragments);
        }
    }
    match page.get("url") {
        Some(found) => match found.as_str() {
            Some(url) => {
                let mut list: Vec<String> = Vec::new();
                list.push(copy_text(url));
                assert(texts(list@) =~= seq![url@]);
                Some(list)
            },
            None => None,
        },
        None => None,
    }
}

/// The documents that were fetched, where a fetch that failed counts as an
/// empty document.
pub open spec fn fetched_texts(documents: Seq<Option<String>>) -> Seq<Seq<char>> {
    Seq::new(
        documents.len(),
        |i: int|
            match documents[i] {
                Some(text) => text@,
                None => Seq::empty(),
            },
    )
}

/// Puts the documents of one page together, joined by line breaks, in the
/// order in which they were asked for. A fetch that failed gives an empty
/// document.
pub fn merge_documents(documents: &Vec<Option<String>>) -> (merged: String)
    ensures
        merged@ == join_with(fetched_texts(documents@), "\n"@),
{
    let mut parts: Vec<String> = Vec::new();
    let mut i: usize = 0;
    while i < documents.len()
        invariant
            i <= documents.len(),
            texts(parts@) == fetched_texts(documents@).take(i as int),
        decreases documents.len() - i,
    {
        let ghost before = texts(parts@);
        let part = match &documents[i] {
            Some(text) => copy_text(text.as_str()),
            None => String::new(),
        };
        parts.push(part);
        assert(texts(parts@) =~= before.push(part@));
        assert(fetched_texts(documents@).take(i + 1) =~= fetched_texts(documents@).take(
            i as int,
        ).push(part@));
        i += 1;
    }
    assert(fetched_texts(documents@).take(documents@.len() as int) == fetched_texts(documents@));
    join(&parts, "\n")
}

/// Whether every fetch of a list failed; so it is for an empty list.
pub open spec fn all_failed(documents: Seq<Option<String>>) -> bool {
    forall|i: int| 0 <= i < documents.len() ==> (#[trigger] documents[i]) is None
}

/// The document of a page, from the documents that were fetched for it: they
/// are put together where one fetch at least went well; where all failed,
/// there is no document.
pub fn fetched_document(documents: &Vec<Option<String>>) -> (document: Option<String>)
    ensures
        match document {
            Some(text) => !all_failed(documents@) && text@ == join_with(
                fetched_texts(documents@),
                "\n"@,
            ),
            None => all_failed(documents@),
        },
{
    let mut i: usize = 0;
    while i < documents.len()
        invariant
            i <= documents.len(),
            forall|k: int| 0 <= k < i ==> (#[trigger] documents@[k]) is None,
        decreases documents.len() - i,
    {
        if documents[i].is_some() {
            return Some(merge_documents(documents));
        }
        i += 1;
    }
    None
}

/// What is done to every record.
#[derive(Debug, Clone, Copy, PartialEq, Eq, Structural)]
pub struct Plan {
    /// Whether the sources of fragments are put in the place of the source of
    /// their page.
    pub gather_fragments_sources: bool,
    /// Whether the content is read out of the document.
    pub content: bool,
    /// Whether the files are read out of the document.
    pub files: bool,
}

/// What was fetched for one record.
#[derive(Debug)]
pub struct Fetched {
    /// The sources of the fragments of the page, in their order; none where
    /// none were gathered.
    pub sources: Vec<String>,
    /// The document of the page; nothing where none was fetched, or where the
    /// fetch failed.
    pub document: Option<String>,
}

/// What went wrong while a record was enriched. The record is enriched all
/// the same, with the field in question empty.
#[derive(Debug, Clone, Copy, PartialEq, Eq, Structural)]
pub enum EnrichWarning {
    /// No document was there for the record.
    NoDocument,
    /// The document has no main content.
    NoContent,
    /// The size of a file was not well written.
    FileSize(SizeWarning),
}

/// The document that is read for a record: the one fetched, or an empty one.
pub open spec fn document_text(document: Option<String>) -> Seq<char> {
    match document {
        Some(text) => text@,
        None => Seq::empty(),
    }
}

/// A page with its content: the member `content` holds the content of the
/// document, or the empty text where it has none.
pub open spec fn with_content(page: Value, document: Seq<char>) -> Value {
    with_member(
        page,
        "content"@,
        Value::Text(
            match content_of(document) {
                Some(text) => text,
                None => Seq::empty(),
            },
        ),
    )
}

/// A page with its files: the member `files` holds the list of the files of
/// the document.
pub open spec fn with_files(page: Value, document: Seq<char>) -> Value {
    with_member(page, "files"@, Value::List(file_values(files_of(document))))
}

/// A record after its enrichment: first the sources, then the content, then
/// the files, each only where the plan asks for it.
pub open spec fn enriched(page: Value, plan: Plan, sources: Seq<Seq<char>>, document: Seq<char>) -> Value {
    let a = if plan.gather_fragments_sources {
        with_sources(page, sources)
    } else {
        page
    };
    let b = if plan.content {
        with_content(a, document)
    } else {
        a
    };
    if plan.files {
        with_files(b, document)
    } else {
        b
    }
}

/// The enrichment touches the members `wikidotInfo`, `content` and `files`
/// only: every other member of a record is after it what it was before. So is
/// the address of the record, by which it is known.
pub proof fn lemma_enriched_keeps(
    page: Value,
    plan: Plan,
    sources: Seq<Seq<char>>,
    document: Seq<char>,
    key: Seq<char>,
)
    requires
        key != "wikidotInfo"@,
        key != "content"@,
        key != "files"@,
    ensures
        member(enriched(page, plan, sources, document), key) == member(page, key),
{
    let a = if plan.gather_fragments_sources {
        with_sources(page, sources)
    } else {
        page
    };
    let b = if plan.content {
        with_content(a, document)
    } else {
        a
    };
    if plan.gather_fragments_sources && sources.len() > 0 {
        lemma_with_nested_other(
            page,
            "wikidotInfo"@,
            "source"@,
            Value::Text(join_with(sources, "\n"@)),
            key,
        );
    }
    if plan.content {
        lemma_with_member_other(
            a,
            "content"@,
            Value::Text(
                match content_of(document) {
                    Some(text) => text,
                    None => Seq::empty(),
                },
            ),
            key,
        );
    }
    if plan.files {
        lemma_with_member_other(b, "files"@, Value::List(file_values(files_of(document))), key);
    }
}

/// A record keeps its address through the enrichment.
pub proof fn lemma_enriched_keeps_url(
    page: Value,
    plan: Plan,
    sources: Seq<Seq<char>>,
    document: Seq<char>,
)
    ensures
        member(enriched(page, plan, sources, document), "url"@) == member(page, "url"@),
{
    reveal_strlit("url");
    reveal_strlit("wikidotInfo");
    reveal_strlit("content");
    reveal_strlit("files");
    assert("url"@.len() == 3 && "wikidotInfo"@.len() == 11 && "content"@.len() == 7
        && "files"@.len() == 5);
    lemma_enriched_keeps(page, plan, sources, document, "url"@);
}

/// The warnings for the sizes of files.
pub open spec fn size_warnings_of(warnings: Seq<SizeWarning>) -> Seq<EnrichWarning> {
    Seq::new(warnings.len(), |i: int| EnrichWarning::FileSize(warnings[i]))
}

/// The warnings that the enrichment of a record gives: that no document was
/// there though the plan needs one, that the document has no content though
/// the plan asks for it, and those for the sizes of the files.
pub open spec fn enrich_warnings(plan: Plan, document: Option<String>) -> Seq<EnrichWarning> {
    let text = document_text(document);
    let a = if (plan.content || plan.files) && document is None {
        seq![EnrichWarning::NoDocument]
    } else {
        Seq::empty()
    };
    let b = if plan.content && content_of(text) is None {
        a.push(EnrichWarning::NoContent)
    } else {
        a
    };
    if plan.files {
        b + size_warnings_of(size_warnings(file_rows_of(text)))
    } else {
        b
    }
}

/// Enriches one record with what was fetched for it. A fetch that failed
/// leaves the field empty and gives a warning; it is no error.
pub fn enrich(page: Record, plan: Plan, fetched: &Fetched) -> (r: (Record, Vec<EnrichWarning>))
    ensures
        r.0@ == enriched(page@, plan, texts(fetched.sources@), document_text(fetched.document)),
        r.1@ == enrich_warnings(plan, fetched.document),
{
    let mut warnings: Vec<EnrichWarning> = Vec::new();
    let page = if plan.gather_fragments_sources {
        splice_sources(page, &fetched.sources)
    } else {
        page
    };
    let document: &str = match &fetched.document {
        Some(text) => text.as_str(),
        None => {
            assert(""@ =~= Seq::<char>::empty()) by {
                reveal_strlit("");
            }
            ""
        },
    };
    if (plan.content || plan.files) && fetched.document.is_none() {
        warnings.push(EnrichWarning::NoDocument);
    }
    let page = if plan.content {
        let content = match parse_content(document) {
            Some(text) => text,
            None => {
                warnings.push(EnrichWarning::NoContent);
                String::new()
            },
        };
        page.insert("content", Record::Text(content))
    } else {
        page
    };
    if plan.files {
        let (files, sizes) = file_list(document);
        let ghost before = warnings@;
        let mut i: usize = 0;
        while i < sizes.len()
            invariant
                i <= sizes.len(),
                warnings@ == before + size_warnings_of(sizes@).take(i as int),
            decreases sizes.len() - i,
        {
            warnings.push(EnrichWarning::FileSize(sizes[i]));
            i += 1;
        }
        assert(size_warnings_of(sizes@).take(sizes@.len() as int) == size_warnings_of(sizes@));
        let page = page.insert("files", files_record(files));
        (page, warnings)
    } else {
        (page, warnings)
    }
}

/// What was fetched for the record at `at`; nothing where the list is too
/// short.
pub open spec fn sources_at(fetched: Seq<Fetched>, at: int) -> Seq<Seq<char>> {
    if 0 <= at < fetched.len() {
        texts(fetched[at].sources@)
    } else {
        Seq::empty()
    }
}

/// The document fetched for the record at `at`.
pub open spec fn document_at(fetched: Seq<Fetched>, at: int) -> Option<String> {
    if 0 <= at < fetched.len() {
        fetched[at].document
    } else {
        None
    }
}

/// Warnings, each with the position of the record that it is about.
pub open spec fn tagged(at: usize, warnings: Seq<EnrichWarning>) -> Seq<(usize, EnrichWarning)> {
    Seq::new(warnings.len(), |k: int| (at, warnings[k]))
}

/// The warnings that the enrichment of the first `n` records gives, in the
/// order of the records.
pub open spec fn warnings_upto(plan: Plan, fetched: Seq<Fetched>, n: nat) -> Seq<
    (usize, EnrichWarning),
>
    decreases n,
{
    if n == 0 {
        Seq::empty()
    } else {
        warnings_upto(plan, fetched, (n - 1) as nat) + tagged(
            (n - 1) as usize,
            enrich_warnings(plan, document_at(fetched, n - 1)),
        )
    }
}

/// Enriches every record with what was fetched for the record at its
/// position. The records keep their number and their order, whatever was
/// fetched and whatever failed; the warnings come in the order of the
/// records, each with the position of its record.
pub fn enrich_all(pages: Vec<Record>, plan: Plan, fetched: &Vec<Fetched>) -> (r: (
    Vec<Record>,
    Vec<(usize, EnrichWarning)>,
))
    ensures
        r.0@.len() == pages@.len(),
        forall|i: int|
            0 <= i < pages@.len() ==> (#[trigger] r.0@[i])@ == enriched(
                pages@[i]@,
                plan,
                sources_at(fetched@, i),
                document_text(document_at(fetched@, i)),
            ),
        r.1@ == warnings_upto(plan, fetched@, pages@.len()),
{
    let ghost all = pages@;
    let mut out: Vec<Record> = Vec::new();
    let mut warnings: Vec<(usize, EnrichWarning)> = Vec::new();
    let nothing = Fetched { sources: Vec::new(), document: None };
    assert(texts(nothing.sources@) =~= Seq::<Seq<char>>::empty());
    let mut i: usize = 0;
    let n = pages.len();
    for page in it: pages
        invariant
            it.seq() == all,
            all.len() == n,
            i == it.index(),
            out@.len() == i,
            nothing.document is None,
            texts(nothing.sources@) == Seq::<Seq<char>>::empty(),
            forall|k: int|
                0 <= k < i ==> (#[trigger] out@[k])@ == enriched(
                    all[k]@,
                    plan,
                    sources_at(fetched@, k),
                    document_text(document_at(fetched@, k)),
                ),
            warnings@ == warnings_upto(plan, fetched@, i as nat),
    {
        let what = if i < fetched.len() {
            &fetched[i]
        } else {
            &nothing
        };
        let (done, found) = enrich(page, plan, what);
        out.push(done);
        let ghost before = warnings@;
        let ghost added = tagged(i, found@);
        let mut k: usize = 0;
        while k < found.len()
            invariant
                k <= found.len(),
                added == tagged(i, found@),
                warnings@ == before + added.take(k as int),
            decreases found.len() - k,
        {
            warnings.push((i, found[k]));
            assert(added.take(k + 1) =~= added.take(k as int).push((i, found@[k as int])));
            k += 1;
        }
        assert(added.take(found@.len() as int) == added);
        i += 1;
    }
    (out, warnings)
}

} // verus!
