//! The listing of pages, from the parameters to the final records: what is
//! asked of the service, what is fetched for each record, and what becomes of
//! the records once everything was fetched.
use vstd::prelude::*;
use vstd::string::StringExecFns;
use crate::enrichment::{
    document_at, document_text, document_urls, document_urls_of, enrich_all, enriched,
    fragment_queries, fragment_queries_for, fragment_urls_of, sources_at, warnings_upto,
    EnrichWarning, Fetched, Plan,
};
use crate::field_tree::{render_all, render_forest, selection_of, QueryTree};
use crate::pagination::{page_of, pending_cursor, PageView, PaginationWalker, WalkError};
use crate::params::{ConfigError, ListPagesParameters};
use crate::projection::{all_valid, filter_by_source, kept_pages, SourceFilter};
use crate::query::{crom_query_text, opt_text, page_filter, page_filter_text};
use crate::record::{member, member_at, values, Record, Value};
use crate::text::{copy_text, split, split_on, str_texts, texts};

verus! {

/// The settings of one listing.
#[derive(Debug)]
pub struct ListPages {
    /// Whether requests and answers are printed.
    pub verbose: bool,
    /// The address of the site whose pages are listed.
    pub site: String,
    /// The filter for the tags asked for, if any.
    pub filter: Option<String>,
    /// The author whose pages are listed, if one is asked for.
    pub author: Option<String>,
    /// The fields asked of the service for each page, as query text.
    pub requested_data: String,
    /// What is done to every record.
    pub plan: Plan,
    /// The folder in which the documents are stored, if they are.
    pub download_html: Option<String>,
    /// How many fetches may run at a time.
    pub threads: usize,
    /// The patterns on the source of the pages.
    pub source_filter: SourceFilter,
}

/// The view of an optional text.
pub open spec fn opt_string(s: Option<String>) -> Option<Seq<char>> {
    match s {
        Some(t) => Some(t@),
        None => None,
    }
}

/// The query text for a list of dotted paths.
pub open spec fn requested_text(info: Seq<Seq<char>>) -> Seq<char> {
    render_forest(selection_of(info))
}

/// The query text for the fields of a list of dotted paths.
pub fn format_info(info: &Vec<String>) -> (text: String)
    ensures
        text@ == requested_text(texts(info@)),
{
    let mut paths: Vec<&str> = Vec::new();
    let mut i: usize = 0;
    while i < info.len()
        invariant
            i <= info.len(),
            str_texts(paths@) == texts(info@).take(i as int),
        decreases info.len() - i,
    {
        let ghost before = str_texts(paths@);
        paths.push(info[i].as_str());
        assert(str_texts(paths@) =~= before.push(info@[i as int]@));
        assert(texts(info@).take(i + 1) =~= texts(info@).take(i as int).push(info@[i as int]@));
        i += 1;
    }
    assert(texts(info@).take(info@.len() as int) == texts(info@));
    let forest = QueryTree::from_vec(paths);
    render_all(&forest)
}

/// A copy of an optional text.
pub fn copy_option(s: &Option<String>) -> (r: Option<String>)
    ensures
        opt_string(r) == opt_string(*s),
{
    match s {
        Some(text) => Some(copy_text(text.as_str())),
        None => None,
    }
}

/// A copy of a list of texts.
pub fn copy_texts(list: &Vec<String>) -> (r: Vec<String>)
    ensures
        texts(r@) == texts(list@),
{
    let mut out: Vec<String> = Vec::new();
    let mut i: usize = 0;
    while i < list.len()
        invariant
            i <= list.len(),
            texts(out@) == texts(list@).take(i as int),
        decreases list.len() - i,
    {
        let ghost before = texts(out@);
        out.push(copy_text(list[i].as_str()));
        assert(texts(out@) =~= before.push(list@[i as int]@));
        assert(texts(list@).take(i + 1) =~= texts(list@).take(i as int).push(list@[i as int]@));
        i += 1;
    }
    assert(texts(list@).take(list@.len() as int) == texts(list@));
    out
}

/// The last piece of an address: what follows its last slash, or all of it.
pub open spec fn page_name_of(url: Seq<char>) -> Seq<char> {
    split_on(url, '/').last()
}

/// Where the document of a page is stored: in `folder`, under the last piece
/// of the address of the page, as an HTML file. Nothing where the page has no
/// address.
pub open spec fn document_path_of(folder: Seq<char>, page: Value) -> Option<Seq<char>> {
    match member(page, "url"@) {
        Some(Value::Text(url)) => Some(folder + "/"@ + page_name_of(url) + ".html"@),
        _ => None,
    }
}

/// Where the document of a page is stored.
pub fn document_path(folder: &str, page: &Record) -> (path: Option<String>)
    ensures
        opt_string(path) == document_path_of(folder@, page@),
{
    match page.get("url") {
        Some(found) => match found.as_str() {
            Some(url) => {
                let pieces = split(url, '/');
                let name = &pieces[pieces.len() - 1];
                assert(texts(pieces@).last() == name@);
                Some(copy_text(folder).concat("/").concat(name.as_str()).concat(".html"))
            },
            None => None,
        },
        None => None,
    }
}

/// What is to be fetched for one record.
#[derive(Debug)]
pub struct PageRequests {
    /// The queries for the sources of its fragments, in their order.
    pub fragment_queries: Vec<String>,
    /// The addresses of its documents, in their order; nothing where none can
    /// be fetched because the record has no address.
    pub document_urls: Option<Vec<String>>,
}

/// Whether a record has a member for its source.
pub open spec fn has_source(page: Value) -> bool {
    member_at(page, seq!["wikidotInfo"@, "source"@]) is Some
}

impl ListPages {
    /// Whether the settings can be used: the patterns on the source are
    /// regular expressions.
    pub open spec fn wf(&self) -> bool {
        self.source_filter.wf()
    }

    /// The settings for the given parameters, which are taken as they are: the
    /// inferences must have been applied before.
    ///
    /// It is an error if patterns are given for the source and the source is
    /// not asked for, and if a pattern is no regular expression.
    pub fn new(verbose: bool, site: &str, threads: usize, params: &ListPagesParameters) -> (r:
        Result<ListPages, ConfigError>)
        ensures
            match r {
                Ok(settings) => {
                    &&& params.consistent()
                    &&& all_valid(texts(params.source_contains@), params.source_contains_ignore_case)
                    &&& settings.wf()
                    &&& settings.verbose == verbose
                    &&& settings.site@ == site@
                    &&& settings.threads == threads
                    &&& opt_string(settings.filter) == page_filter_text(
                        texts(params.all_tags@),
                        texts(params.one_of_tags@),
                    )
                    &&& opt_string(settings.author) == opt_string(params.author)
                    &&& settings.requested_data@ == requested_text(texts(params.info@))
                    &&& settings.plan == (Plan {
                        gather_fragments_sources: params.gather_fragments_sources,
                        content: params.content,
                        files: params.files,
                    })
                    &&& opt_string(settings.download_html) == opt_string(params.download_html)
                    &&& texts(settings.source_filter.patterns@) == texts(params.source_contains@)
                    &&& settings.source_filter.ignore_case == params.source_contains_ignore_case
                    &&& settings.source_filter.any == params.source_contains_one
                },
                Err(e) => if !params.consistent() {
                    e == ConfigError::SourceNotRequested
                } else {
                    e == ConfigError::BadPattern && !all_valid(
                        texts(params.source_contains@),
                        params.source_contains_ignore_case,
                    )
                },
            },
    {
        match params.check_source_filter() {
            Ok(()) => {},
            Err(e) => {
                return Err(e);
            },
        }
        let patterns = copy_texts(&params.source_contains);
        let source_filter = match SourceFilter::new(
            patterns,
            params.source_contains_ignore_case,
            params.source_contains_one,
        ) {
            Ok(filter) => filter,
            Err(e) => {
                return Err(e);
            },
        };
        Ok(
            ListPages {
                verbose,
                site: copy_text(site),
                filter: page_filter(&params.all_tags, &params.one_of_tags),
                author: copy_option(&params.author),
                requested_data: format_info(&params.info),
                plan: Plan {
                    gather_fragments_sources: params.gather_fragments_sources,
                    content: params.content,
                    files: params.files,
                },
                download_html: copy_option(&params.download_html),
                threads,
                source_filter,
            },
        )
    }

    /// The text of the next request of a walk through the listing, or nothing
    /// when the walk is over.
    pub fn search_query(&self, walker: &PaginationWalker) -> (query: Option<String>)
        ensures
            match query {
                Some(text) => {
                    &&& pending_cursor(walker.state) matches Some(after)
                    &&& text@ == crom_query_text(
                        self.site@,
                        opt_string(self.filter),
                        opt_string(self.author),
                        self.requested_data@,
                        after,
                    )
                },
                None => pending_cursor(walker.state) is None,
            },
    {
        let filter: Option<&str> = match &self.filter {
            Some(f) => Some(f.as_str()),
            None => None,
        };
        let author: Option<&str> = match &self.author {
            Some(a) => Some(a.as_str()),
            None => None,
        };
        walker.next_query(self.site.as_str(), filter, author, self.requested_data.as_str())
    }

    /// Hands the answer to a request of the walk to the walker: the listing is
    /// looked for where the service puts it, which depends on whether the
    /// pages of one author are listed.
    pub fn accept_page(&self, walker: &mut PaginationWalker, answer: &Record) -> (r: Result<
        (),
        WalkError,
    >)
        ensures
            old(walker).wf() ==> final(walker).wf(),
            match r {
                Ok(()) => {
                    &&& old(walker).state is Fetching
                    &&& page_of(answer@, self.author is Some) matches Ok(page)
                    &&& values(final(walker).records@) == values(old(walker).records@)
                        + page.nodes
                    &&& pending_cursor(final(walker).state) == (match page.next {
                        Some(cursor) => Some(Some(cursor)),
                        None => None,
                    })
                },
                Err(e) => *final(walker) == *old(walker) && if old(walker).state is Done {
                    e == WalkError::NotFetching
                } else {
                    page_of(answer@, self.author is Some) == Err::<PageView, WalkError>(e)
                },
            },
    {
        walker.accept(answer, self.author.is_some())
    }

    /// Whether the sources of fragments are gathered: they are asked for, and
    /// some record has a member for its source.
    pub fn gathers_sources(&self, pages: &Vec<Record>) -> (r: bool)
        ensures
            r == (self.plan.gather_fragments_sources && exists|i: int|
                0 <= i < pages@.len() && has_source(#[trigger] values(pages@)[i])),
    {
        if !self.plan.gather_fragments_sources {
            return false;
        }
        let mut i: usize = 0;
        while i < pages.len()
            invariant
                i <= pages.len(),
                self.plan.gather_fragments_sources,
                forall|k: int| 0 <= k < i ==> !has_source(#[trigger] values(pages@)[k]),
            decreases pages.len() - i,
        {
            assert(values(pages@)[i as int] == pages@[i as int]@);
            if pages[i].get2("wikidotInfo", "source").is_some() {
                assert(has_source(values(pages@)[i as int]));
                return true;
            }
            i += 1;
        }
        false
    }

    /// Whether documents are fetched: the content or the files are asked for,
    /// or the documents are stored.
    pub fn fetches_documents(&self) -> (r: bool)
        ensures
            r == (self.plan.content || self.plan.files || self.download_html is Some),
    {
        self.plan.content || self.plan.files || self.download_html.is_some()
    }

    /// What is to be fetched for one record: the sources of its fragments
    /// where they are gathered and the record has a source of its own to put
    /// them in the place of, and its documents where documents are fetched.
    pub fn requests_for(&self, page: &Record, gather: bool) -> (r: PageRequests)
        ensures
            texts(r.fragment_queries@) == if gather && has_source(page@) {
                fragment_queries_for(fragment_urls_of(page@))
            } else {
                Seq::empty()
            },
            match r.document_urls {
                Some(urls) => (self.plan.content || self.plan.files || self.download_html
                    is Some) && document_urls_of(page@, self.plan.gather_fragments_sources)
                    == Some(texts(urls@)),
                None => !(self.plan.content || self.plan.files || self.download_html is Some)
                    || document_urls_of(page@, self.plan.gather_fragments_sources) is None,
            },
    {
        let queries = if gather && page.get2("wikidotInfo", "source").is_some() {
            fragment_queries(page)
        } else {
            let none: Vec<String> = Vec::new();
            assert(texts(none@) =~= Seq::<Seq<char>>::empty());
            none
        };
        let urls = if self.fetches_documents() {
            document_urls(page, self.plan.gather_fragments_sources)
        } else {
            None
        };
        PageRequests { fragment_queries: queries, document_urls: urls }
    }

    /// The records after their enrichment.
    pub open spec fn enriched_pages(&self, pages: Seq<Record>, fetched: Seq<Fetched>) -> Seq<Value> {
        Seq::new(
            pages.len(),
            |i: int|
                enriched(
                    pages[i]@,
                    self.plan,
                    sources_at(fetched, i),
                    document_text(document_at(fetched, i)),
                ),
        )
    }

    /// Finishes the listing: every record is enriched with what was fetched
    /// for the record at its position, and the records whose source does not
    /// pass the patterns are dropped. The records that stay keep their order;
    /// the warnings of the enrichment come with the positions that the records
    /// had before any was dropped.
    ///
    /// It is an error if there are patterns but no record has a member for
    /// the source.
    pub fn execute(&self, pages: Vec<Record>, fetched: &Vec<Fetched>) -> (r: Result<
        (Vec<Record>, Vec<(usize, EnrichWarning)>),
        ConfigError,
    >)
        ensures
            match r {
                Ok(done) => {
                    &&& self.wf()
                    &&& !self.source_filter.unanswerable(self.enriched_pages(pages@, fetched@))
                    &&& values(done.0@) == kept_pages(
                        self.source_filter,
                        self.enriched_pages(pages@, fetched@),
                    )
                    &&& done.1@ == warnings_upto(self.plan, fetched@, pages@.len())
                },
                Err(e) => if !self.wf() {
                    e == ConfigError::BadPattern
                } else {
                    self.source_filter.unanswerable(self.enriched_pages(pages@, fetched@)) && e
                        == ConfigError::SourceNotRequested
                },
            },
    {
        let (all, warnings) = enrich_all(pages, self.plan, fetched);
        assert(values(all@) =~= self.enriched_pages(pages@, fetched@));
        match filter_by_source(&self.source_filter, all) {
            Ok(kept) => Ok((kept, warnings)),
            Err(e) => Err(e),
        }
    }
}

} // verus!
