//! What the caller asks for: the parameters of each script, and what some of
//! them imply for the others.
use vstd::prelude::*;
use crate::text::{copy_text, same_text, texts};

verus! {

/// The parameters of the listing of pages.
#[derive(Debug)]
pub struct ListPagesParameters {
    /// The fields asked of the service, as dotted paths.
    pub info: Vec<String>,
    /// Pages must bear all of these tags.
    pub all_tags: Vec<String>,
    /// Pages must bear one of these tags.
    pub one_of_tags: Vec<String>,
    /// Only the pages attributed to this author are listed.
    pub author: Option<String>,
    /// Whether the content of each page is taken from its rendered document.
    pub content: bool,
    /// The folder in which the rendered documents are stored, if they are.
    pub download_html: Option<String>,
    /// Whether the sources of fragmented pages are put together.
    pub gather_fragments_sources: bool,
    /// The patterns that the source of a page must match.
    pub source_contains: Vec<String>,
    /// Whether one matching pattern is enough.
    pub source_contains_one: bool,
    /// Whether the patterns match without regard to case.
    pub source_contains_ignore_case: bool,
    /// Whether the result is written for text analysis: a fixed set of fields
    /// and the content of each page.
    pub txm: bool,
    /// Whether the files of each page are listed.
    pub files: bool,
}

/// The parameters of the download of a forum.
#[derive(Debug)]
pub struct ForumDlParameters {
    /// The path of the forum on the site, without a slash in front.
    pub forum_path: String,
    /// Whether hidden threads are downloaded too.
    pub hidden: bool,
}

/// The parameters of the listing of files.
#[derive(Debug)]
pub struct ListFilesParameters {
    /// The name of the page that lists the pages whose files are wanted.
    pub listpages_location: String,
}

/// The fields that a result for text analysis is made of.
pub open spec fn txm_info() -> Seq<Seq<char>> {
    seq![
        "url"@,
        "wikidotInfo.title"@,
        "wikidotInfo.rating"@,
        "wikidotInfo.tags"@,
        "wikidotInfo.children.url"@,
        "wikidotInfo.createdAt"@,
        "wikidotInfo.createdBy.name"@,
    ]
}

/// A list with `item` at its end, unless it is wanted and missing.
pub open spec fn with_field(info: Seq<Seq<char>>, wanted: bool, item: Seq<char>) -> Seq<Seq<char>> {
    if wanted && !info.contains(item) {
        info.push(item)
    } else {
        info
    }
}

/// The fields to ask for, given what else is asked: the fixed set for text
/// analysis; else the fields named, with the address where the content is
/// wanted, the source where it is matched or put together, and the addresses
/// of the children where the sources of fragments are put together.
pub open spec fn inferred_info(
    info: Seq<Seq<char>>,
    txm: bool,
    content: bool,
    filtered: bool,
    gather: bool,
) -> Seq<Seq<char>> {
    if txm {
        txm_info()
    } else {
        with_field(
            with_field(with_field(info, content, "url"@), filtered || gather, "wikidotInfo.source"@),
            gather,
            "wikidotInfo.children.url"@,
        )
    }
}

/// Whether a list of texts holds `item`.
pub fn list_contains(list: &Vec<String>, item: &str) -> (r: bool)
    ensures
        r == texts(list@).contains(item@),
{
    let mut i: usize = 0;
    while i < list.len()
        invariant
            i <= list.len(),
            forall|k: int| 0 <= k < i ==> texts(list@)[k] != item@,
        decreases list.len() - i,
    {
        if same_text(list[i].as_str(), item) {
            assert(texts(list@)[i as int] == item@);
            return true;
        }
        i += 1;
    }
    false
}

/// Puts `item` at the end of a list that lacks it, if it is wanted.
pub fn add_field(info: &mut Vec<String>, wanted: bool, item: &str)
    ensures
        texts(final(info)@) == with_field(texts(old(info)@), wanted, item@),
{
    if wanted && !list_contains(info, item) {
        let ghost before = texts(info@);
        info.push(copy_text(item));
        assert(texts(info@) =~= before.push(item@));
    }
}

impl ListPagesParameters {
    /// Whether the source of the pages is matched against patterns.
    pub open spec fn filtered(&self) -> bool {
        self.source_contains@.len() > 0
    }

    /// Makes the parameters consistent: what one of them needs of the others
    /// is switched on. Nothing else changes.
    pub fn apply_inferences(&mut self)
        ensures
            texts(final(self).info@) == inferred_info(
                texts(old(self).info@),
                old(self).txm,
                old(self).content,
                old(self).filtered(),
                old(self).gather_fragments_sources,
            ),
            final(self).content == (old(self).content || old(self).txm),
            final(self).all_tags == old(self).all_tags,
            final(self).one_of_tags == old(self).one_of_tags,
            final(self).author == old(self).author,
            final(self).download_html == old(self).download_html,
            final(self).gather_fragments_sources == old(self).gather_fragments_sources,
            final(self).source_contains == old(self).source_contains,
            final(self).source_contains_one == old(self).source_contains_one,
            final(self).source_contains_ignore_case == old(self).source_contains_ignore_case,
            final(self).txm == old(self).txm,
            final(self).files == old(self).files,
    {
        if self.txm {
            let mut info: Vec<String> = Vec::new();
            info.push(copy_text("url"));
            info.push(copy_text("wikidotInfo.title"));
            info.push(copy_text("wikidotInfo.rating"));
            info.push(copy_text("wikidotInfo.tags"));
            info.push(copy_text("wikidotInfo.children.url"));
            info.push(copy_text("wikidotInfo.createdAt"));
            info.push(copy_text("wikidotInfo.createdBy.name"));
            assert(texts(info@) =~= txm_info());
            self.info = info;
            self.content = true;
        } else {
            let filtered = self.source_contains.len() > 0;
            add_field(&mut self.info, self.content, "url");
            add_field(
                &mut self.info,
                filtered || self.gather_fragments_sources,
                "wikidotInfo.source",
            );
            add_field(&mut self.info, self.gather_fragments_sources, "wikidotInfo.children.url");
        }
    }

    /// Whether the source is asked of the service wherever it is matched
    /// against patterns.
    pub open spec fn consistent(&self) -> bool {
        self.filtered() ==> texts(self.info@).contains("wikidotInfo.source"@)
    }

    /// Says whether patterns are given for a source that is not asked for:
    /// such a listing cannot be made, and is refused before anything is sent.
    pub fn check_source_filter(&self) -> (r: Result<(), ConfigError>)
        ensures
            r is Ok <==> self.consistent(),
            r is Err ==> r == Err::<(), ConfigError>(ConfigError::SourceNotRequested),
    {
        if self.source_contains.len() > 0 && !list_contains(&self.info, "wikidotInfo.source") {
            Err(ConfigError::SourceNotRequested)
        } else {
            Ok(())
        }
    }
}

/// What is wrong with what the caller asks for.
#[derive(Debug, Clone, Copy, PartialEq, Eq, Structural)]
pub enum ConfigError {
    /// Patterns are given for the source, and the source is not asked for.
    SourceNotRequested,
    /// A pattern for the source is no regular expression.
    BadPattern,
}

/// After the inferences, parameters that are not for text analysis ask for
/// the source wherever they match it.
pub proof fn lemma_inferences_consistent(
    info: Seq<Seq<char>>,
    content: bool,
    filtered: bool,
    gather: bool,
)
    ensures
        filtered || gather ==> inferred_info(info, false, content, filtered, gather).contains(
            "wikidotInfo.source"@,
        ),
        content ==> inferred_info(info, false, content, filtered, gather).contains("url"@),
        gather ==> inferred_info(info, false, content, filtered, gather).contains(
            "wikidotInfo.children.url"@,
        ),
        forall|x: Seq<char>| info.contains(x) ==> inferred_info(
            info,
            false,
            content,
            filtered,
            gather,
        ).contains(x),
{
    let a = with_field(info, content, "url"@);
    let b = with_field(a, filtered || gather, "wikidotInfo.source"@);
    let c = with_field(b, gather, "wikidotInfo.children.url"@);
    lemma_with_field(info, content, "url"@);
    lemma_with_field(a, filtered || gather, "wikidotInfo.source"@);
    lemma_with_field(b, gather, "wikidotInfo.children.url"@);
}

/// A field that is wanted is in the list afterwards, and so is all that was in
/// it before.
pub proof fn lemma_with_field(info: Seq<Seq<char>>, wanted: bool, item: Seq<char>)
    ensures
        wanted ==> with_field(info, wanted, item).contains(item),
        forall|x: Seq<char>| info.contains(x) ==> with_field(info, wanted, item).contains(x),
{
    let out = with_field(info, wanted, item);
    if wanted && !info.contains(item) {
        assert(out[info.len() as int] == item);
        assert forall|x: Seq<char>| info.contains(x) implies out.contains(x) by {
            let i = choose|i: int| 0 <= i < info.len() && info[i] == x;
            assert(out[i] == x);
        }
    }
}

} // verus!
