//! After the harvest: which records stay, by patterns on their source, and
//! which of their fields stay, by a forest of field names.
use vstd::prelude::*;
use crate::field_tree::{forest_view, lemma_view_branch, name_of, Field, QueryTree};
use crate::params::ConfigError;
use crate::record::{
    copy_members, lemma_view_object, member_at, member_value, member_values, values, Record,
    Value,
};
use crate::text::{copy_text, same_text, texts};

verus! {

/// Whether the regex crate takes `pattern` for a regular expression, with or
/// without regard to case: whether a `RegexBuilder` for it builds a `Regex`.
pub uninterp spec fn pattern_valid(pattern: Seq<char>, ignore_case: bool) -> bool;

/// Whether the `Regex` built for `pattern` has a match somewhere in `text`.
pub uninterp spec fn pattern_found(pattern: Seq<char>, ignore_case: bool, text: Seq<char>) -> bool;

/// `RegexBuilder::new`, `case_insensitive`, `build` and `Regex::is_match` of
/// the regex crate: builds the regular expression for `pattern` and says
/// whether it has a match anywhere in `text`; nothing where `pattern` does not
/// build.
#[verifier::external_body]
fn search(pattern: &str, ignore_case: bool, text: &str) -> (r: Option<bool>)
    ensures
        r == if pattern_valid(pattern@, ignore_case) {
            Some(pattern_found(pattern@, ignore_case, text@))
        } else {
            None
        },
{
    match regex::RegexBuilder::new(pattern).case_insensitive(ignore_case).build() {
        Ok(built) => Some(built.is_match(text)),
        Err(_) => None,
    }
}

/// The patterns that the source of a record is matched against.
#[derive(Debug)]
pub struct SourceFilter {
    pub patterns: Vec<String>,
    /// Whether the patterns match without regard to case.
    pub ignore_case: bool,
    /// Whether one matching pattern is enough; else all must match.
    pub any: bool,
}

/// Whether all patterns are regular expressions.
pub open spec fn all_valid(patterns: Seq<Seq<char>>, ignore_case: bool) -> bool {
    forall|i: int| 0 <= i < patterns.len() ==> pattern_valid(#[trigger] patterns[i], ignore_case)
}

/// Whether every pattern has a match in `text`.
pub open spec fn matches_all(patterns: Seq<Seq<char>>, ignore_case: bool, text: Seq<char>) -> bool {
    forall|i: int|
        0 <= i < patterns.len() ==> pattern_found(#[trigger] patterns[i], ignore_case, text)
}

/// Whether some pattern has a match in `text`.
pub open spec fn matches_any(patterns: Seq<Seq<char>>, ignore_case: bool, text: Seq<char>) -> bool {
    exists|i: int| 0 <= i < patterns.len() && pattern_found(#[trigger] patterns[i], ignore_case, text)
}

/// What a record shows of its source.
pub enum SourceView {
    /// No source, or one that is neither a text nor null.
    Missing,
    /// The service gave null for the source.
    Null,
    Text(Seq<char>),
}

/// What a record shows of its source, at `wikidotInfo.source`.
pub open spec fn source_of(page: Value) -> SourceView {
    match member_at(page, seq!["wikidotInfo"@, "source"@]) {
        Some(Value::Text(text)) => SourceView::Text(text),
        Some(Value::Null) => SourceView::Null,
        _ => SourceView::Missing,
    }
}

impl SourceFilter {
    /// Whether the filter can be applied: its patterns are regular
    /// expressions.
    pub open spec fn wf(&self) -> bool {
        all_valid(texts(self.patterns@), self.ignore_case)
    }

    /// Whether a source text passes: all patterns match it, or one of them
    /// where one is enough.
    pub open spec fn passes(&self, text: Seq<char>) -> bool {
        if self.any {
            matches_any(texts(self.patterns@), self.ignore_case, text)
        } else {
            matches_all(texts(self.patterns@), self.ignore_case, text)
        }
    }

    /// Whether a record stays: one with a source text stays if the text
    /// passes, one with a null source goes, and one that shows no source stays.
    pub open spec fn keeps(&self, page: Value) -> bool {
        match source_of(page) {
            SourceView::Text(text) => self.passes(text),
            SourceView::Null => false,
            SourceView::Missing => true,
        }
    }

    /// Whether the filter asks for what no record can give: there are
    /// patterns and records, and no record has a member for the source.
    pub open spec fn unanswerable(&self, pages: Seq<Value>) -> bool {
        self.patterns@.len() > 0 && pages.len() > 0 && forall|i: int|
            0 <= i < pages.len() ==> member_at(
                #[trigger] pages[i],
                seq!["wikidotInfo"@, "source"@],
            ) is None
    }

    /// The filter for the given patterns, or an error where one of them is no
    /// regular expression.
    pub fn new(patterns: Vec<String>, ignore_case: bool, any: bool) -> (r: Result<
        SourceFilter,
        ConfigError,
    >)
        ensures
            match r {
                Ok(filter) => all_valid(texts(patterns@), ignore_case) && filter.patterns
                    == patterns && filter.ignore_case == ignore_case && filter.any == any,
                Err(e) => !all_valid(texts(patterns@), ignore_case) && e
                    == ConfigError::BadPattern,
            },
    {
        let mut i: usize = 0;
        while i < patterns.len()
            invariant
                i <= patterns.len(),
                forall|k: int| 0 <= k < i ==> pattern_valid(#[trigger] texts(patterns@)[k], ignore_case),
            decreases patterns.len() - i,
        {
            assert(texts(patterns@)[i as int] == patterns@[i as int]@);
            if search(patterns[i].as_str(), ignore_case, "").is_none() {
                return Err(ConfigError::BadPattern);
            }
            i += 1;
        }
        Ok(SourceFilter { patterns, ignore_case, any })
    }

    /// Whether a source text passes the filter; an error where a pattern is
    /// no regular expression.
    pub fn source_passes(&self, text: &str) -> (r: Result<bool, ConfigError>)
        ensures
            match r {
                Ok(passed) => self.wf() && passed == self.passes(text@),
                Err(e) => !self.wf() && e == ConfigError::BadPattern,
            },
    {
        let ghost patterns = texts(self.patterns@);
        let mut all = true;
        let mut any = false;
        let mut i: usize = 0;
        while i < self.patterns.len()
            invariant
                i <= self.patterns.len(),
                patterns == texts(self.patterns@),
                forall|k: int| 0 <= k < i ==> pattern_valid(#[trigger] patterns[k], self.ignore_case),
                all == matches_all(patterns.take(i as int), self.ignore_case, text@),
                any == matches_any(patterns.take(i as int), self.ignore_case, text@),
            decreases self.patterns.len() - i,
        {
            assert(patterns[i as int] == self.patterns@[i as int]@);
            let ghost before = patterns.take(i as int);
            let ghost next = patterns.take(i + 1);
            match search(self.patterns[i].as_str(), self.ignore_case, text) {
                None => {
                    return Err(ConfigError::BadPattern);
                },
                Some(found) => {
                    proof {
                        assert(next[i as int] == patterns[i as int]);
                        assert forall|k: int| 0 <= k < i implies next[k] == before[k] by {}
                        if matches_any(next, self.ignore_case, text@) {
                            let w = choose|w: int|
                                0 <= w < next.len() && pattern_found(
                                    #[trigger] next[w],
                                    self.ignore_case,
                                    text@,
                                );
                            if w < i {
                                assert(pattern_found(before[w], self.ignore_case, text@));
                            }
                        }
                        if matches_any(before, self.ignore_case, text@) {
                            let w = choose|w: int|
                                0 <= w < before.len() && pattern_found(
                                    #[trigger] before[w],
                                    self.ignore_case,
                                    text@,
                                );
                            assert(pattern_found(next[w], self.ignore_case, text@));
                        }
                        if matches_all(next, self.ignore_case, text@) {
                            assert forall|k: int| 0 <= k < before.len() implies pattern_found(
                                #[trigger] before[k],
                                self.ignore_case,
                                text@,
                            ) by {
                                assert(pattern_found(next[k], self.ignore_case, text@));
                            }
                        }
                        if matches_all(before, self.ignore_case, text@) && found {
                            assert forall|k: int| 0 <= k < next.len() implies pattern_found(
                                #[trigger] next[k],
                                self.ignore_case,
                                text@,
                            ) by {
                                if k < i {
                                    assert(pattern_found(before[k], self.ignore_case, text@));
                                }
                            }
                        }
                    }
                    all = all && found;
                    any = any || found;
                },
            }
            i += 1;
        }
        assert(patterns.take(self.patterns@.len() as int) == patterns);
        Ok(if self.any { any } else { all })
    }

    /// Whether a record stays; an error where a pattern is no regular
    /// expression.
    pub fn keep(&self, page: &Record) -> (r: Result<bool, ConfigError>)
        ensures
            match r {
                Ok(kept) => self.wf() && kept == self.keeps(page@),
                Err(e) => !self.wf() && e == ConfigError::BadPattern,
            },
    {
        match page.get2("wikidotInfo", "source") {
            Some(Record::Text(text)) => self.source_passes(text.as_str()),
            Some(Record::Null) => match self.source_passes("") {
                Ok(_) => Ok(false),
                Err(e) => Err(e),
            },
            _ => match self.source_passes("") {
                Ok(_) => Ok(true),
                Err(e) => Err(e),
            },
        }
    }
}

/// The records that stay, in the order in which they stood.
pub open spec fn kept_pages(filter: SourceFilter, pages: Seq<Value>) -> Seq<Value>
    decreases pages.len(),
{
    if pages.len() == 0 {
        pages
    } else if filter.keeps(pages.last()) {
        kept_pages(filter, pages.drop_last()).push(pages.last())
    } else {
        kept_pages(filter, pages.drop_last())
    }
}

/// Whether a record has a member for its source, whatever it holds.
pub fn shows_source(page: &Record) -> (r: bool)
    ensures
        r == (member_at(page@, seq!["wikidotInfo"@, "source"@]) is Some),
{
    page.get2("wikidotInfo", "source").is_some()
}

/// Drops the records whose source does not pass the filter; the others stay as
/// they are and in their order.
///
/// It is an error if a pattern is no regular expression, and if there are
/// patterns but no record has a member for the source: then the source was
/// not asked of the service.
pub fn filter_by_source(filter: &SourceFilter, pages: Vec<Record>) -> (r: Result<
    Vec<Record>,
    ConfigError,
>)
    ensures
        match r {
            Ok(kept) => filter.wf() && !filter.unanswerable(values(pages@)) && values(kept@)
                == kept_pages(*filter, values(pages@)),
            Err(e) => if !filter.wf() {
                e == ConfigError::BadPattern
            } else {
                filter.unanswerable(values(pages@)) && e == ConfigError::SourceNotRequested
            },
        },
{
    let ghost all = values(pages@);
    if filter.source_passes("").is_err() {
        return Err(ConfigError::BadPattern);
    }
    if filter.patterns.len() > 0 && pages.len() > 0 {
        let mut shown = false;
        let mut i: usize = 0;
        while i < pages.len() && !shown
            invariant
                i <= pages.len(),
                all == values(pages@),
                !shown ==> forall|k: int|
                    0 <= k < i ==> member_at(#[trigger] all[k], seq!["wikidotInfo"@, "source"@])
                        is None,
                shown ==> exists|k: int|
                    0 <= k < pages.len() && member_at(
                        #[trigger] all[k],
                        seq!["wikidotInfo"@, "source"@],
                    ) is Some,
            decreases pages.len() - i, if shown { 0int } else { 1int },
        {
            assert(all[i as int] == pages@[i as int]@);
            if shows_source(&pages[i]) {
                shown = true;
            } else {
                i += 1;
            }
        }
        if !shown {
            return Err(ConfigError::SourceNotRequested);
        }
    }
    let mut kept: Vec<Record> = Vec::new();
    assert(all.take(0) == Seq::<Value>::empty());
    for page in it: pages
        invariant
            filter.wf(),
            all == values(it.seq()),
            values(kept@) == kept_pages(*filter, all.take(it.index() as int)),
    {
        proof {
            let next = all.take(it.index() + 1);
            assert(next.drop_last() == all.take(it.index() as int));
            assert(next.last() == page@);
        }
        let ghost before = values(kept@);
        match filter.keep(&page) {
            Ok(true) => {
                kept.push(page);
                assert(values(kept@) =~= before.push(page@));
            },
            _ => {},
        }
    }
    assert(all.take(all.len() as int) == all);
    Ok(kept)
}

/// The first node of a forest that is named `key`.
pub open spec fn first_named(filters: Seq<Field>, key: Seq<char>) -> Option<Field>
    decreases filters.len(),
{
    if filters.len() == 0 {
        None
    } else if name_of(filters[0]) == Some(key) {
        Some(filters[0])
    } else {
        first_named(filters.skip(1), key)
    }
}

/// What is left of one member: all of it where no filter is given; nothing
/// where no filter bears its name; else its value, of which, if it is an
/// object and the filter a branch, the children of the branch say what is
/// left.
pub open spec fn projected_member(filters: Seq<Field>, member: (Seq<char>, Value)) -> Option<
    (Seq<char>, Value),
>
    decreases member, 0int,
{
    if filters.len() == 0 {
        Some(member)
    } else {
        match first_named(filters, member.0) {
            None => None,
            Some(filter) => match (filter, member.1) {
                (Field::Branch(_, children), Value::Object(inner)) => Some(
                    (member.0, Value::Object(projected(children, inner))),
                ),
                _ => Some(member),
            },
        }
    }
}

/// What is left of the members of an object, in their order.
pub open spec fn projected(filters: Seq<Field>, members: Seq<(Seq<char>, Value)>) -> Seq<
    (Seq<char>, Value),
>
    decreases members, 1int,
{
    if members.len() == 0 {
        members
    } else {
        let before = projected(filters, members.drop_last());
        match projected_member(filters, members.last()) {
            Some(member) => before.push(member),
            None => before,
        }
    }
}

/// What is left of a record: of an object the members that the filters name;
/// anything else whole.
pub open spec fn projected_value(filters: Seq<Field>, v: Value) -> Value {
    match v {
        Value::Object(members) => Value::Object(projected(filters, members)),
        _ => v,
    }
}

/// Finds the first node of a forest that is named `key`.
pub fn find_named<'a>(filters: &'a Vec<QueryTree>, key: &str) -> (r: Option<&'a QueryTree>)
    ensures
        match r {
            Some(node) => first_named(forest_view(filters@), key@) == Some(node@),
            None => first_named(forest_view(filters@), key@) is None,
        },
{
    let ghost all = forest_view(filters@);
    let mut i: usize = 0;
    assert(all.skip(0) == all);
    while i < filters.len()
        invariant
            i <= filters.len(),
            all == forest_view(filters@),
            first_named(all, key@) == first_named(all.skip(i as int), key@),
        decreases filters.len() - i,
    {
        let ghost rest = all.skip(i as int);
        assert(rest[0] == filters@[i as int]@);
        assert(rest.skip(1) == all.skip(i + 1));
        match filters[i].name() {
            Some(name) => {
                if same_text(name.as_str(), key) {
                    return Some(&filters[i]);
                }
            },
            None => {},
        }
        i += 1;
    }
    None
}

/// Keeps of the members of an object what the filters name.
pub fn project_members(filters: &Vec<QueryTree>, members: &Vec<(String, Record)>) -> (out: Vec<
    (String, Record),
>)
    ensures
        member_values(out@) == projected(forest_view(filters@), member_values(members@)),
    decreases members,
{
    let ghost f = forest_view(filters@);
    let ghost all = member_values(members@);
    let mut out: Vec<(String, Record)> = Vec::new();
    let mut i: usize = 0;
    assert(all.take(0) == Seq::<(Seq<char>, Value)>::empty());
    assert(member_values(out@) =~= Seq::<(Seq<char>, Value)>::empty());
    while i < members.len()
        invariant
            i <= members.len(),
            f == forest_view(filters@),
            all == member_values(members@),
            member_values(out@) == projected(f, all.take(i as int)),
        decreases members.len() - i,
    {
        let ghost before = member_values(out@);
        proof {
            let next = all.take(i + 1);
            assert(next.drop_last() == all.take(i as int));
            assert(next.last() == member_value(members@[i as int]));
        }
        let key = &members[i].0;
        let value = &members[i].1;
        if filters.len() == 0 {
            let kept = (copy_text(key.as_str()), value.copy());
            out.push(kept);
            assert(member_values(out@) =~= before.push((key@, value@)));
        } else {
            match find_named(filters, key.as_str()) {
                None => {},
                Some(filter) => {
                    let kept = match (filter, value) {
                        (QueryTree::MotherNode(name, children), Record::Object(inner)) => {
                            proof {
                                lemma_view_branch(*name, *children);
                                lemma_view_object(*inner);
                            }
                            let left = project_members(children, inner);
                            proof {
                                lemma_view_object(left);
                            }
                            Record::Object(left)
                        },
                        _ => value.copy(),
                    };
                    let ghost kept_view = kept@;
                    out.push((copy_text(key.as_str()), kept));
                    assert(member_values(out@) =~= before.push((key@, kept_view)));
                    assert(projected_member(f, (key@, value@)) == Some((key@, kept_view)));
                },
            }
        }
        i += 1;
    }
    assert(all.take(members@.len() as int) == all);
    out
}

/// Keeps of a record what the filters name: of an object the members named,
/// and of those that are objects, where the filter is a branch, what the
/// children of the branch name. With no filter everything stays.
pub fn project(filters: &Vec<QueryTree>, record: &Record) -> (out: Record)
    ensures
        out@ == projected_value(forest_view(filters@), record@),
{
    match record {
        Record::Object(members) => {
            proof {
                lemma_view_object(*members);
            }
            let left = project_members(filters, members);
            proof {
                lemma_view_object(left);
            }
            Record::Object(left)
        },
        other => other.copy(),
    }
}

/// With no filter, every member stays as it is.
pub proof fn lemma_project_nothing(members: Seq<(Seq<char>, Value)>)
    ensures
        projected(Seq::empty(), members) == members,
    decreases members.len(),
{
    if members.len() > 0 {
        lemma_project_nothing(members.drop_last());
        assert(projected_member(Seq::empty(), members.last()) == Some(members.last()));
        assert(members.drop_last().push(members.last()) =~= members);
    }
}

/// With filters, only members stay whose name a filter bears, and no more
/// members than there were.
pub proof fn lemma_projected_names(filters: Seq<Field>, members: Seq<(Seq<char>, Value)>)
    requires
        filters.len() > 0,
    ensures
        projected(filters, members).len() <= members.len(),
        forall|k: int|
            0 <= k < projected(filters, members).len() ==> first_named(
                filters,
                (#[trigger] projected(filters, members)[k]).0,
            ) is Some,
    decreases members.len(),
{
    if members.len() > 0 {
        lemma_projected_names(filters, members.drop_last());
        let before = projected(filters, members.drop_last());
        let out = projected(filters, members);
        let last = projected_member(filters, members.last());
        let name = members.last().0;
        assert(last matches Some(kept) ==> first_named(filters, name) is Some && kept.0 == name);
        assert(out == if last is Some {
            before.push(last->0)
        } else {
            before
        });
        assert forall|k: int| 0 <= k < out.len() implies first_named(
            filters,
            (#[trigger] out[k]).0,
        ) is Some by {
            if k < before.len() {
                assert(out[k] == before[k]);
            }
        }
    }
}

/// Where there are patterns, a text that all of them match is matched by one
/// of them: what passes when all must match passes when one is enough.
pub proof fn lemma_all_implies_any(patterns: Seq<Seq<char>>, ignore_case: bool, text: Seq<char>)
    requires
        patterns.len() > 0,
        matches_all(patterns, ignore_case, text),
    ensures
        matches_any(patterns, ignore_case, text),
{
    assert(pattern_found(patterns[0], ignore_case, text));
}

/// With the same patterns, one at least, a record that stays when all must
/// match stays when one is enough.
pub proof fn lemma_any_keeps_more(all: SourceFilter, any: SourceFilter, page: Value)
    requires
        !all.any,
        any.any,
        texts(all.patterns@) == texts(any.patterns@),
        all.ignore_case == any.ignore_case,
        all.patterns@.len() > 0,
        all.keeps(page),
    ensures
        any.keeps(page),
{
    match source_of(page) {
        SourceView::Text(text) => {
            lemma_all_implies_any(texts(all.patterns@), all.ignore_case, text);
        },
        _ => {},
    }
}

/// The records that stay are never more than there were.
pub proof fn lemma_kept_pages_len(filter: SourceFilter, pages: Seq<Value>)
    ensures
        kept_pages(filter, pages).len() <= pages.len(),
    decreases pages.len(),
{
    if pages.len() > 0 {
        lemma_kept_pages_len(filter, pages.drop_last());
    }
}

/// The records that stay are those of which `keeps` holds, in their order:
/// the list filtered by it.
pub proof fn lemma_kept_is_filter(filter: SourceFilter, pages: Seq<Value>)
    ensures
        kept_pages(filter, pages) == pages.filter(|page: Value| filter.keeps(page)),
    decreases pages.len(),
{
    reveal(Seq::filter);
    if pages.len() > 0 {
        lemma_kept_is_filter(filter, pages.drop_last());
    }
}

} // verus!
