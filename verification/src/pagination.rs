//! Walking the pages of a listing: one request after the other, each with the
//! cursor that the answer before it gave, until the service says that no page
//! is left.
use vstd::prelude::*;
use crate::query::{build_crom_query, crom_query_text, opt_text};
use crate::record::{lemma_view_list, member, member_at, values, Record, Value};
use crate::text::{copy_text, push_char};
use vstd::string::StringSliceAdditionalSpecFns;

verus! {

/// Where the walk stands.
#[derive(Debug)]
pub enum WalkState {
    /// The next page is asked for with this cursor; the first page with none.
    Fetching(Option<String>),
    /// The service has no more pages.
    Done,
}

/// What an answer lacks that a page of a listing must have.
#[derive(Debug, Clone, Copy, PartialEq, Eq, Structural)]
pub enum WalkError {
    /// The listing itself: `data.pages`, or `data.user.attributedPages` when
    /// the pages of one author are listed.
    NoListing,
    /// The list `edges` of the listing.
    NoEdges,
    /// The member `node` of an edge.
    NoNode,
    /// The truth value `pageInfo.hasNextPage`.
    NoPageInfo,
    /// The text `pageInfo.endCursor`, when there is a next page.
    NoEndCursor,
    /// Nothing: the walk was over before the answer came.
    NotFetching,
}

/// The listing in an answer.
pub open spec fn listing_of(answer: Value, by_author: bool) -> Option<Value> {
    if by_author {
        member_at(answer, seq!["data"@, "user"@, "attributedPages"@])
    } else {
        member_at(answer, seq!["data"@, "pages"@])
    }
}

/// The edges of a listing.
pub open spec fn edges_of(listing: Value) -> Option<Seq<Value>> {
    match member(listing, "edges"@) {
        Some(Value::List(edges)) => Some(edges),
        _ => None,
    }
}

/// Whether every edge has a node.
pub open spec fn all_have_nodes(edges: Seq<Value>) -> bool {
    forall|i: int| 0 <= i < edges.len() ==> member(#[trigger] edges[i], "node"@) is Some
}

/// The nodes of the edges, in order.
pub open spec fn nodes_of(edges: Seq<Value>) -> Seq<Value> {
    Seq::new(edges.len(), |i: int| member(edges[i], "node"@).unwrap())
}

/// Whether the listing says that a page follows.
pub open spec fn has_next_of(listing: Value) -> Option<bool> {
    match member_at(listing, seq!["pageInfo"@, "hasNextPage"@]) {
        Some(Value::Bool(b)) => Some(b),
        _ => None,
    }
}

/// The cursor at which the next page begins.
pub open spec fn end_cursor_of(listing: Value) -> Option<Seq<char>> {
    match member_at(listing, seq!["pageInfo"@, "endCursor"@]) {
        Some(Value::Text(cursor)) => Some(cursor),
        _ => None,
    }
}

/// One page of a listing: its records, and the cursor of the page after it
/// where there is one.
pub struct PageView {
    pub nodes: Seq<Value>,
    pub next: Option<Seq<char>>,
}

/// What an answer holds, or the first thing it lacks.
pub open spec fn page_of(answer: Value, by_author: bool) -> Result<PageView, WalkError> {
    match listing_of(answer, by_author) {
        None => Err(WalkError::NoListing),
        Some(listing) => match edges_of(listing) {
            None => Err(WalkError::NoEdges),
            Some(edges) => if !all_have_nodes(edges) {
                Err(WalkError::NoNode)
            } else {
                match has_next_of(listing) {
                    None => Err(WalkError::NoPageInfo),
                    Some(false) => Ok(PageView { nodes: nodes_of(edges), next: None }),
                    Some(true) => match end_cursor_of(listing) {
                        None => Err(WalkError::NoEndCursor),
                        Some(cursor) => Ok(
                            PageView { nodes: nodes_of(edges), next: Some(cursor) },
                        ),
                    },
                }
            },
        },
    }
}

/// One page of a listing.
#[derive(Debug)]
pub struct Page {
    pub nodes: Vec<Record>,
    pub next: Option<String>,
}

impl View for Page {
    type V = PageView;

    open spec fn view(&self) -> PageView {
        PageView {
            nodes: values(self.nodes@),
            next: match self.next {
                Some(cursor) => Some(cursor@),
                None => None,
            },
        }
    }
}

/// The listing in an answer.
pub fn find_listing(answer: &Record, by_author: bool) -> (r: Option<&Record>)
    ensures
        match r {
            Some(listing) => listing_of(answer@, by_author) == Some(listing@),
            None => listing_of(answer@, by_author) is None,
        },
{
    proof {
        reveal_with_fuel(member_at, 4);
        let long = seq!["data"@, "user"@, "attributedPages"@];
        assert(long.skip(1) =~= seq!["user"@, "attributedPages"@]);
        assert(long.skip(1).skip(1) =~= seq!["attributedPages"@]);
        assert(long.skip(1).skip(1).skip(1) =~= Seq::<Seq<char>>::empty());
    }
    if by_author {
        match answer.get("data") {
            Some(data) => data.get2("user", "attributedPages"),
            None => None,
        }
    } else {
        answer.get2("data", "pages")
    }
}

/// Copies of the nodes of the edges, or nothing where an edge has none.
pub fn collect_nodes(edges: &Vec<Record>) -> (r: Option<Vec<Record>>)
    ensures
        match r {
            Some(nodes) => all_have_nodes(values(edges@)) && values(nodes@) == nodes_of(
                values(edges@),
            ),
            None => !all_have_nodes(values(edges@)),
        },
{
    let mut nodes: Vec<Record> = Vec::new();
    let ghost all = values(edges@);
    let mut i: usize = 0;
    while i < edges.len()
        invariant
            i <= edges.len(),
            all == values(edges@),
            forall|k: int| 0 <= k < i ==> member(#[trigger] all[k], "node"@) is Some,
            values(nodes@) == nodes_of(all).take(i as int),
        decreases edges.len() - i,
    {
        assert(all[i as int] == edges@[i as int]@);
        match edges[i].get("node") {
            Some(node) => {
                let ghost before = values(nodes@);
                let copy = node.copy();
                nodes.push(copy);
                assert(values(nodes@) =~= before.push(copy@));
                assert(nodes_of(all).take(i + 1) =~= nodes_of(all).take(i as int).push(
                    member(all[i as int], "node"@).unwrap(),
                ));
            },
            None => {
                return None;
            },
        }
        i += 1;
    }
    assert(nodes_of(all).take(edges@.len() as int) == nodes_of(all));
    Some(nodes)
}

/// Reads one page of a listing out of an answer.
pub fn read_page(answer: &Record, by_author: bool) -> (r: Result<Page, WalkError>)
    ensures
        match r {
            Ok(page) => page_of(answer@, by_author) == Ok::<PageView, WalkError>(page@),
            Err(e) => page_of(answer@, by_author) == Err::<PageView, WalkError>(e),
        },
{
    let listing = match find_listing(answer, by_author) {
        Some(listing) => listing,
        None => {
            return Err(WalkError::NoListing);
        },
    };
    let edges = match listing.get("edges") {
        Some(found) => match found.as_list() {
            Some(edges) => edges,
            None => {
                return Err(WalkError::NoEdges);
            },
        },
        None => {
            return Err(WalkError::NoEdges);
        },
    };
    let nodes = match collect_nodes(edges) {
        Some(nodes) => nodes,
        None => {
            return Err(WalkError::NoNode);
        },
    };
    let has_next = match listing.get2("pageInfo", "hasNextPage") {
        Some(found) => match found.as_bool() {
            Some(b) => b,
            None => {
                return Err(WalkError::NoPageInfo);
            },
        },
        None => {
            return Err(WalkError::NoPageInfo);
        },
    };
    if !has_next {
        return Ok(Page { nodes, next: None });
    }
    match listing.get2("pageInfo", "endCursor") {
        Some(found) => match found.as_str() {
            Some(cursor) => Ok(Page { nodes, next: Some(copy_text(cursor)) }),
            None => Err(WalkError::NoEndCursor),
        },
        None => Err(WalkError::NoEndCursor),
    }
}

/// The walk through the pages of one listing, and the records found so far.
#[derive(Debug)]
pub struct PaginationWalker {
    pub state: WalkState,
    /// The records of the pages read so far, in the order of the pages and,
    /// within a page, of its edges.
    pub records: Vec<Record>,
    /// How many pages were read.
    pub pages_read: u64,
}

/// The cursor that the next request carries; nothing when the walk is over.
pub open spec fn pending_cursor(state: WalkState) -> Option<Option<Seq<char>>> {
    match state {
        WalkState::Fetching(Some(cursor)) => Some(Some(cursor@)),
        WalkState::Fetching(None) => Some(None),
        WalkState::Done => None,
    }
}

/// A walk, as a mathematical value: the records found, and the cursor that
/// the next request carries.
pub struct WalkView {
    pub records: Seq<Value>,
    pub pending: Option<Option<Seq<char>>>,
}

/// A walk after it took an answer: the records of the page stand behind those
/// found before, and the cursor is that of the page. A walk that is over
/// takes no answer, and an answer that is no page is an error.
pub open spec fn accepted(walk: WalkView, answer: Value, by_author: bool) -> Result<
    WalkView,
    WalkError,
> {
    if walk.pending is None {
        Err(WalkError::NotFetching)
    } else {
        match page_of(answer, by_author) {
            Err(e) => Err(e),
            Ok(page) => Ok(
                WalkView {
                    records: walk.records + page.nodes,
                    pending: match page.next {
                        Some(cursor) => Some(Some(cursor)),
                        None => None,
                    },
                },
            ),
        }
    }
}

/// A walk after it took a run of answers, one after the other; the first
/// error ends it.
pub open spec fn walked(walk: WalkView, answers: Seq<Value>, by_author: bool) -> Result<
    WalkView,
    WalkError,
>
    decreases answers.len(),
{
    if answers.len() == 0 {
        Ok(walk)
    } else {
        match walked(walk, answers.drop_last(), by_author) {
            Err(e) => Err(e),
            Ok(before) => accepted(before, answers.last(), by_author),
        }
    }
}

/// The records of a run of pages, page after page, and within a page in the
/// order of its edges.
pub open spec fn all_nodes(answers: Seq<Value>, by_author: bool) -> Seq<Value>
    decreases answers.len(),
{
    if answers.len() == 0 {
        Seq::empty()
    } else {
        all_nodes(answers.drop_last(), by_author) + match page_of(answers.last(), by_author) {
            Ok(page) => page.nodes,
            Err(_) => Seq::empty(),
        }
    }
}

/// A walk that took a run of answers holds the records of all their pages,
/// in the order of the pages, behind those it held before; every answer but
/// the last gave a cursor, and the walk goes on with the cursor of the last.
pub proof fn lemma_walk_collects(walk: WalkView, answers: Seq<Value>, by_author: bool)
    requires
        walked(walk, answers, by_author) is Ok,
    ensures
        walked(walk, answers, by_author)->Ok_0.records == walk.records + all_nodes(
            answers,
            by_author,
        ),
        forall|i: int|
            0 <= i < answers.len() ==> page_of(#[trigger] answers[i], by_author) is Ok,
        forall|i: int|
            0 <= i < answers.len() - 1 ==> page_of(#[trigger] answers[i], by_author)->Ok_0.next
                is Some,
        answers.len() > 0 ==> walked(walk, answers, by_author)->Ok_0.pending == (match page_of(
            answers.last(),
            by_author,
        )->Ok_0.next {
            Some(cursor) => Some(Some(cursor)),
            None => None,
        }),
    decreases answers.len(),
{
    if answers.len() > 0 {
        let before = answers.drop_last();
        lemma_walk_collects(walk, before, by_author);
        let mid = walked(walk, before, by_author)->Ok_0;
        assert(mid.records + page_of(answers.last(), by_author)->Ok_0.nodes == walk.records + (
        all_nodes(before, by_author) + page_of(answers.last(), by_author)->Ok_0.nodes));
        assert forall|i: int| 0 <= i < answers.len() implies page_of(
            #[trigger] answers[i],
            by_author,
        ) is Ok by {
            if i < before.len() {
                assert(before[i] == answers[i]);
            }
        }
        assert forall|i: int| 0 <= i < answers.len() - 1 implies page_of(
            #[trigger] answers[i],
            by_author,
        )->Ok_0.next is Some by {
            if i < before.len() - 1 {
                assert(before[i] == answers[i]);
            } else {
                assert(before.last() == answers[i]);
            }
        }
    } else {
        assert(walk.records + Seq::<Value>::empty() == walk.records);
    }
}

impl View for PaginationWalker {
    type V = WalkView;

    open spec fn view(&self) -> WalkView {
        WalkView { records: values(self.records@), pending: pending_cursor(self.state) }
    }
}

impl PaginationWalker {
    /// Only the first request goes without a cursor.
    pub open spec fn wf(&self) -> bool {
        self.state matches WalkState::Fetching(None) ==> self.pages_read == 0
    }

    /// A walk that has not begun: the first request carries no cursor.
    pub fn new() -> (walker: Self)
        ensures
            pending_cursor(walker.state) == Some(None::<Seq<char>>),
            walker.records@.len() == 0,
            walker.pages_read == 0,
            walker.wf(),
    {
        PaginationWalker { state: WalkState::Fetching(None), records: Vec::new(), pages_read: 0 }
    }

    /// Whether the walk is over.
    pub fn is_done(&self) -> (done: bool)
        ensures
            done == (pending_cursor(self.state) is None),
    {
        match self.state {
            WalkState::Done => true,
            _ => false,
        }
    }

    /// The text of the next request, or nothing when the walk is over.
    pub fn next_query(
        &self,
        site: &str,
        filter: Option<&str>,
        author: Option<&str>,
        requested_data: &str,
    ) -> (query: Option<String>)
        ensures
            match query {
                Some(text) => {
                    &&& pending_cursor(self.state) matches Some(after)
                    &&& text@ == crom_query_text(
                        site@,
                        opt_text(filter),
                        opt_text(author),
                        requested_data@,
                        after,
                    )
                },
                None => pending_cursor(self.state) is None,
            },
    {
        match &self.state {
            WalkState::Fetching(Some(cursor)) => Some(
                build_crom_query(site, filter, author, requested_data, Some(cursor.as_str())),
            ),
            WalkState::Fetching(None) => Some(
                build_crom_query(site, filter, author, requested_data, None),
            ),
            WalkState::Done => None,
        }
    }

    /// Takes the answer to the last request. The records of the page are put
    /// behind those found before; the walk goes on with the cursor that the
    /// page gives, or is over where it gives none. An answer that is no page
    /// of a listing changes nothing and is an error.
    pub fn accept(&mut self, answer: &Record, by_author: bool) -> (r: Result<(), WalkError>)
        ensures
            old(self).wf() ==> final(self).wf(),
            match r {
                Ok(()) => accepted(old(self)@, answer@, by_author) == Ok::<
                    WalkView,
                    WalkError,
                >(final(self)@),
                Err(e) => accepted(old(self)@, answer@, by_author) == Err::<
                    WalkView,
                    WalkError,
                >(e),
            },
            match r {
                Ok(()) => {
                    &&& old(self).state is Fetching
                    &&& page_of(answer@, by_author) matches Ok(page)
                    &&& values(final(self).records@) == values(old(self).records@) + page.nodes
                    &&& pending_cursor(final(self).state) == (match page.next {
                        Some(cursor) => Some(Some(cursor)),
                        None => None,
                    })
                },
                Err(e) => *final(self) == *old(self) && if old(self).state is Done {
                    e == WalkError::NotFetching
                } else {
                    page_of(answer@, by_author) == Err::<PageView, WalkError>(e)
                },
            },
    {
        if self.is_done() {
            return Err(WalkError::NotFetching);
        }
        let page = match read_page(answer, by_author) {
            Ok(page) => page,
            Err(e) => {
                return Err(e);
            },
        };
        let ghost before = values(self.records@);
        let ghost added = values(page.nodes@);
        let Page { nodes, next } = page;
        let mut nodes = nodes;
        self.records.append(&mut nodes);
        assert(values(self.records@) =~= before + added);
        self.state = match next {
            Some(cursor) => WalkState::Fetching(Some(cursor)),
            None => WalkState::Done,
        };
        if self.pages_read < u64::MAX {
            self.pages_read = self.pages_read + 1;
        }
        Ok(())
    }

    /// Ends the walk and hands out the records that were found.
    pub fn into_records(self) -> (records: Vec<Record>)
        ensures
            records == self.records,
    {
        self.records
    }
}

/// The bytes of a text, added up.
pub open spec fn byte_sum(bytes: Seq<u8>) -> int
    decreases bytes.len(),
{
    if bytes.len() == 0 {
        0
    } else {
        byte_sum(bytes.drop_last()) + bytes.last()
    }
}

/// The mark that shows the progress of a walk: ten places, of which one bears
/// a star. The place is that of the sum of the bytes of the cursor among ten;
/// where that is none, no place bears the star.
pub open spec fn progress_mark_of(cursor: Seq<u8>) -> Seq<char> {
    let place = byte_sum(cursor) % 10;
    Seq::new(
        10,
        |i: int|
            if i + 1 == place {
                '*'
            } else {
                '_'
            },
    )
}

/// The mark that shows the progress of a walk, for the cursor it has reached.
pub fn progress_mark(cursor: &str) -> (mark: String)
    ensures
        mark@ == progress_mark_of(cursor.spec_bytes()),
{
    let bytes = cursor.as_bytes();
    let mut place: u64 = 0;
    let mut i: usize = 0;
    assert(bytes@.take(0) == Seq::<u8>::empty());
    while i < bytes.len()
        invariant
            i <= bytes.len(),
            place == byte_sum(bytes@.take(i as int)) % 10,
            byte_sum(bytes@.take(i as int)) >= 0,
        decreases bytes.len() - i,
    {
        proof {
            let next = bytes@.take(i + 1);
            assert(next.drop_last() == bytes@.take(i as int));
            assert(next.last() == bytes@[i as int]);
        }
        place = (place + bytes[i] as u64) % 10;
        i += 1;
    }
    assert(bytes@.take(bytes@.len() as int) == bytes@);
    let mut mark = String::new();
    let mut k: u64 = 0;
    while k < 10
        invariant
            k <= 10,
            place < 10,
            mark@ == progress_mark_of(cursor.spec_bytes()).take(k as int),
            place == byte_sum(cursor.spec_bytes()) % 10,
        decreases 10 - k,
    {
        let c = if k + 1 == place {
            '*'
        } else {
            '_'
        };
        push_char(&mut mark, c);
        assert(progress_mark_of(cursor.spec_bytes()).take(k + 1) =~= progress_mark_of(
            cursor.spec_bytes(),
        ).take(k as int).push(c));
        k += 1;
    }
    assert(progress_mark_of(cursor.spec_bytes()).take(10) == progress_mark_of(
        cursor.spec_bytes(),
    ));
    mark
}

} // verus!
