//! The export of records for text analysis: one XML element for each page,
//! with what is known of the page as attributes and its content as text.
use std::fmt::Write;
use vstd::prelude::*;
use vstd::string::StringExecFns;
use crate::record::{member, member_at, values, Record, Value};
use crate::text::{chars_of, copy_text, join, join_with, push_char, texts};

verus! {

/// What stands for a character in XML text: an entity for `&`, `<`, `>`, `"`
/// and `'`, the character itself for any other.
pub open spec fn escaped_char(c: char) -> Seq<char> {
    if c == '&' {
        "&amp;"@
    } else if c == '<' {
        "&lt;"@
    } else if c == '>' {
        "&gt;"@
    } else if c == '"' {
        "&quot;"@
    } else if c == '\'' {
        "&apos;"@
    } else {
        seq![c]
    }
}

/// A text with every character replaced by what stands for it in XML.
pub open spec fn xml_escaped(s: Seq<char>) -> Seq<char>
    decreases s.len(),
{
    if s.len() == 0 {
        Seq::empty()
    } else {
        xml_escaped(s.drop_last()) + escaped_char(s.last())
    }
}

/// Makes a text fit for XML: the five characters that XML reserves are
/// replaced by their entities.
pub fn xml_escape(s: &str) -> (r: String)
    ensures
        r@ == xml_escaped(s@),
{
    let chars = chars_of(s);
    let mut out = String::new();
    let mut i: usize = 0;
    assert(chars@.take(0) == Seq::<char>::empty());
    while i < chars.len()
        invariant
            i <= chars.len(),
            out@ == xml_escaped(chars@.take(i as int)),
        decreases chars.len() - i,
    {
        let c = chars[i];
        proof {
            let next = chars@.take(i + 1);
            assert(next.drop_last() == chars@.take(i as int));
            assert(next.last() == c);
        }
        if c == '&' {
            out.append("&amp;");
        } else if c == '<' {
            out.append("&lt;");
        } else if c == '>' {
            out.append("&gt;");
        } else if c == '"' {
            out.append("&quot;");
        } else if c == '\'' {
            out.append("&apos;");
        } else {
            push_char(&mut out, c);
            assert(xml_escaped(chars@.take(i as int)).push(c) == xml_escaped(chars@.take(i as int))
                + seq![c]);
        }
        i += 1;
    }
    assert(chars@.take(chars@.len() as int) == chars@);
    out
}

/// Whether a character can stand in XML text and in a quoted attribute as
/// it is: it is none of `<`, `>`, `"` and `'`.
pub open spec fn is_plain(c: char) -> bool {
    c != '<' && c != '>' && c != '"' && c != '\''
}

/// An escaped text holds none of `<`, `>`, `"` and `'`.
pub proof fn lemma_escaped_is_plain(s: Seq<char>)
    ensures
        forall|i: int| 0 <= i < xml_escaped(s).len() ==> is_plain(#[trigger] xml_escaped(s)[i]),
    decreases s.len(),
{
    if s.len() > 0 {
        lemma_escaped_is_plain(s.drop_last());
        let before = xml_escaped(s.drop_last());
        let last = escaped_char(s.last());
        reveal_strlit("&amp;");
        reveal_strlit("&lt;");
        reveal_strlit("&gt;");
        reveal_strlit("&quot;");
        reveal_strlit("&apos;");
        assert forall|k: int| 0 <= k < last.len() implies is_plain(#[trigger] last[k]) by {}
        assert forall|i: int| 0 <= i < xml_escaped(s).len() implies is_plain(
            #[trigger] xml_escaped(s)[i],
        ) by {
            if i < before.len() {
                assert(xml_escaped(s)[i] == before[i]);
            } else {
                assert(xml_escaped(s)[i] == last[i - before.len()]);
            }
        }
    }
}

/// The character of a decimal digit.
pub open spec fn digit_char(d: int) -> char {
    if d == 0 {
        '0'
    } else if d == 1 {
        '1'
    } else if d == 2 {
        '2'
    } else if d == 3 {
        '3'
    } else if d == 4 {
        '4'
    } else if d == 5 {
        '5'
    } else if d == 6 {
        '6'
    } else if d == 7 {
        '7'
    } else if d == 8 {
        '8'
    } else {
        '9'
    }
}

/// A natural number in decimal digits, without leading zeros.
pub open spec fn natural_text(n: nat) -> Seq<char>
    decreases n,
{
    if n < 10 {
        seq![digit_char(n as int)]
    } else {
        natural_text(n / 10).push(digit_char((n % 10) as int))
    }
}

/// A whole number in decimal digits, with a minus sign if it is negative.
pub open spec fn integer_text(n: int) -> Seq<char> {
    if n < 0 {
        seq!['-'] + natural_text((-n) as nat)
    } else {
        natural_text(n as nat)
    }
}

/// The character of a decimal digit.
fn digit_of(d: u64) -> (c: char)
    requires
        d < 10,
    ensures
        c == digit_char(d as int),
{
    if d == 0 {
        '0'
    } else if d == 1 {
        '1'
    } else if d == 2 {
        '2'
    } else if d == 3 {
        '3'
    } else if d == 4 {
        '4'
    } else if d == 5 {
        '5'
    } else if d == 6 {
        '6'
    } else if d == 7 {
        '7'
    } else if d == 8 {
        '8'
    } else {
        '9'
    }
}

/// Puts the decimal digits of a number at the end of a text.
fn push_natural(out: &mut String, n: u64)
    ensures
        final(out)@ == old(out)@ + natural_text(n as nat),
    decreases n,
{
    if n >= 10 {
        push_natural(out, n / 10);
    }
    let ghost before = out@;
    push_char(out, digit_of(n % 10));
    assert(before.push(digit_char((n % 10) as int)) == before + seq![digit_char((n % 10) as int)]);
    if n >= 10 {
        assert(old(out)@ + natural_text((n / 10) as nat) + seq![digit_char((n % 10) as int)]
            == old(out)@ + natural_text((n / 10) as nat).push(digit_char((n % 10) as int)));
    }
}

/// A whole number in decimal digits.
pub fn decimal_text(n: i64) -> (text: String)
    ensures
        text@ == integer_text(n as int),
{
    let mut out = String::new();
    if n < 0 {
        push_char(&mut out, '-');
        let magnitude: u64 = if n == i64::MIN {
            0x8000_0000_0000_0000u64
        } else {
            (-n) as u64
        };
        assert(out@ == seq!['-']);
        push_natural(&mut out, magnitude);
    } else {
        push_natural(&mut out, n as u64);
        assert(Seq::<char>::empty() + natural_text(n as nat) == natural_text(n as nat));
    }
    out
}

/// What chrono writes for the moment that `date` gives in the form of RFC
/// 3339, with the pattern `pattern`; nothing where `date` is no such moment
/// or the pattern cannot be written.
pub uninterp spec fn formatted_date_of(date: Seq<char>, pattern: Seq<char>) -> Option<Seq<char>>;

/// `DateTime::parse_from_rfc3339` and `DateTime::format` of the chrono crate:
/// reads a moment and writes it with a pattern.
#[verifier::external_body]
fn format_date(date: &str, pattern: &str) -> (r: Option<String>)
    ensures
        match r {
            Some(text) => formatted_date_of(date@, pattern@) == Some(text@),
            None => formatted_date_of(date@, pattern@) is None,
        },
{
    match chrono::DateTime::parse_from_rfc3339(date) {
        Ok(moment) => {
            let mut out = String::new();
            match write!(out, "{}", moment.format(pattern)) {
                Ok(()) => Some(out),
                Err(_) => None,
            }
        },
        Err(_) => None,
    }
}

/// What a record lacks that the export needs.
#[derive(Debug, Clone, Copy, PartialEq, Eq, Structural)]
pub enum TxmError {
    /// The text `content`.
    NoContent,
    /// The member `wikidotInfo`.
    NoWikidotInfo,
    /// The text `wikidotInfo.title`.
    NoTitle,
    /// The whole number `wikidotInfo.rating`.
    NoRating,
    /// The member `wikidotInfo.tags`.
    NoTags,
    /// `wikidotInfo.tags` is no list.
    TagsNotList,
    /// The moment `wikidotInfo.createdAt`, in the form of RFC 3339.
    BadDate,
    /// The text `wikidotInfo.createdBy.name`.
    NoAuthor,
}

/// The text of a tag; empty for a tag that is no text.
pub open spec fn tag_text(tag: Value) -> Seq<char> {
    match tag {
        Value::Text(text) => text,
        _ => Seq::empty(),
    }
}

/// The tags of a list, joined by commas.
pub open spec fn tags_text(tags: Seq<Value>) -> Seq<char> {
    join_with(Seq::new(tags.len(), |i: int| tag_text(tags[i])), ","@)
}

/// The moment of a record, written in the six ways that the export wants:
/// date, time, hour, year, month, day of the week.
pub open spec fn date_parts_of(info: Value) -> Option<Seq<Seq<char>>> {
    match member(info, "createdAt"@) {
        Some(Value::Text(date)) => match (
            formatted_date_of(date, "%Y-%m-%d"@),
            formatted_date_of(date, "%H:%M"@),
            formatted_date_of(date, "%H"@),
            formatted_date_of(date, "%Y"@),
            formatted_date_of(date, "%m"@),
            formatted_date_of(date, "%A"@),
        ) {
            (Some(day), Some(time), Some(hour), Some(year), Some(month), Some(weekday)) => Some(
                seq![day, time, hour, year, month, weekday],
            ),
            _ => None,
        },
        _ => None,
    }
}

/// The element of one page, from its parts.
pub open spec fn entry_text(
    title: Seq<char>,
    rating: int,
    parts: Seq<Seq<char>>,
    author: Seq<char>,
    tags: Seq<char>,
    content: Seq<char>,
) -> Seq<char> {
    "<ecrit title=\""@ + xml_escaped(title) + "\" rating=\""@ + integer_text(rating)
        + "\" date=\""@ + parts[0] + "\" time=\""@ + parts[1] + "\" hour=\""@ + parts[2]
        + "\" year=\""@ + parts[3] + "\" month=\""@ + parts[4] + "\" weekday=\""@ + parts[5]
        + "\" author=\""@ + xml_escaped(author) + "\" tags=\""@ + xml_escaped(tags) + "\">\n"@
        + xml_escaped(content) + "\n</ecrit>"@
}

/// The element of one page, or the first thing that the page lacks.
pub open spec fn txm_entry_of(page: Value) -> Result<Seq<char>, TxmError> {
    match member(page, "content"@) {
        Some(Value::Text(content)) => match member(page, "wikidotInfo"@) {
            None => Err(TxmError::NoWikidotInfo),
            Some(info) => match member(info, "title"@) {
                Some(Value::Text(title)) => match member(info, "rating"@) {
                    Some(Value::Whole(rating)) => if i64::MIN <= rating <= i64::MAX {
                        match member(info, "tags"@) {
                            None => Err(TxmError::NoTags),
                            Some(Value::List(tags)) => match date_parts_of(info) {
                                None => Err(TxmError::BadDate),
                                Some(parts) => match member_at(
                                    info,
                                    seq!["createdBy"@, "name"@],
                                ) {
                                    Some(Value::Text(author)) => Ok(
                                        entry_text(
                                            title,
                                            rating,
                                            parts,
                                            author,
                                            tags_text(tags),
                                            content,
                                        ),
                                    ),
                                    _ => Err(TxmError::NoAuthor),
                                },
                            },
                            Some(_) => Err(TxmError::TagsNotList),
                        }
                    } else {
                        Err(TxmError::NoRating)
                    },
                    _ => Err(TxmError::NoRating),
                },
                _ => Err(TxmError::NoTitle),
            },
        },
        _ => Err(TxmError::NoContent),
    }
}

/// The tags of a list, joined by commas; a tag that is no text counts as
/// empty.
pub fn join_tags(tags: &Vec<Record>) -> (text: String)
    ensures
        text@ == tags_text(values(tags@)),
{
    let ghost all = Seq::new(values(tags@).len(), |i: int| tag_text(values(tags@)[i]));
    let mut names: Vec<String> = Vec::new();
    let mut i: usize = 0;
    while i < tags.len()
        invariant
            i <= tags.len(),
            all == Seq::new(values(tags@).len(), |i: int| tag_text(values(tags@)[i])),
            texts(names@) == all.take(i as int),
        decreases tags.len() - i,
    {
        let ghost before = texts(names@);
        let name = match tags[i].as_str() {
            Some(text) => copy_text(text),
            None => String::new(),
        };
        assert(name@ == tag_text(tags@[i as int]@));
        names.push(name);
        assert(texts(names@) =~= before.push(name@));
        assert(all.take(i + 1) =~= all.take(i as int).push(name@));
        i += 1;
    }
    assert(all.take(tags@.len() as int) == all);
    join(&names, ",")
}

/// The moment of a record, written in the six ways that the export wants.
fn date_parts(info: &Record) -> (r: Option<Vec<String>>)
    ensures
        match r {
            Some(parts) => parts@.len() == 6 && date_parts_of(info@) == Some(texts(parts@)),
            None => date_parts_of(info@) is None,
        },
{
    let date = match info.get("createdAt") {
        Some(found) => match found.as_str() {
            Some(date) => date,
            None => {
                return None;
            },
        },
        None => {
            return None;
        },
    };
    let day = format_date(date, "%Y-%m-%d");
    let time = format_date(date, "%H:%M");
    let hour = format_date(date, "%H");
    let year = format_date(date, "%Y");
    let month = format_date(date, "%m");
    let weekday = format_date(date, "%A");
    match (day, time, hour, year, month, weekday) {
        (Some(day), Some(time), Some(hour), Some(year), Some(month), Some(weekday)) => {
            let mut parts: Vec<String> = Vec::new();
            parts.push(day);
            parts.push(time);
            parts.push(hour);
            parts.push(year);
            parts.push(month);
            parts.push(weekday);
            assert(texts(parts@) =~= seq![day@, time@, hour@, year@, month@, weekday@]);
            Some(parts)
        },
        _ => None,
    }
}

/// Writes the element of one page.
pub fn txm_entry(page: &Record) -> (r: Result<String, TxmError>)
    ensures
        match r {
            Ok(text) => txm_entry_of(page@) == Ok::<Seq<char>, TxmError>(text@),
            Err(e) => txm_entry_of(page@) == Err::<Seq<char>, TxmError>(e),
        },
{
    let content = match page.get("content") {
        Some(found) => match found.as_str() {
            Some(content) => content,
            None => {
                return Err(TxmError::NoContent);
            },
        },
        None => {
            return Err(TxmError::NoContent);
        },
    };
    let info = match page.get("wikidotInfo") {
        Some(info) => info,
        None => {
            return Err(TxmError::NoWikidotInfo);
        },
    };
    let title = match info.get("title") {
        Some(found) => match found.as_str() {
            Some(title) => title,
            None => {
                return Err(TxmError::NoTitle);
            },
        },
        None => {
            return Err(TxmError::NoTitle);
        },
    };
    let rating = match info.get("rating") {
        Some(found) => match found.as_i64() {
            Some(rating) => rating,
            None => {
                return Err(TxmError::NoRating);
            },
        },
        None => {
            return Err(TxmError::NoRating);
        },
    };
    let tags = match info.get("tags") {
        Some(found) => match found.as_list() {
            Some(tags) => tags,
            None => {
                return Err(TxmError::TagsNotList);
            },
        },
        None => {
            return Err(TxmError::NoTags);
        },
    };
    let parts = match date_parts(info) {
        Some(parts) => parts,
        None => {
            return Err(TxmError::BadDate);
        },
    };
    let author = match info.get2("createdBy", "name") {
        Some(found) => match found.as_str() {
            Some(author) => author,
            None => {
                return Err(TxmError::NoAuthor);
            },
        },
        None => {
            return Err(TxmError::NoAuthor);
        },
    };
    assert(forall|k: int| 0 <= k < 6 ==> texts(parts@)[k] == parts@[k]@);
    let tag_list = join_tags(tags);
    Ok(
        copy_text("<ecrit title=\"").concat(xml_escape(title).as_str()).concat(
            "\" rating=\"",
        ).concat(decimal_text(rating).as_str()).concat("\" date=\"").concat(
            parts[0].as_str(),
        ).concat("\" time=\"").concat(parts[1].as_str()).concat("\" hour=\"").concat(
            parts[2].as_str(),
        ).concat("\" year=\"").concat(parts[3].as_str()).concat("\" month=\"").concat(
            parts[4].as_str(),
        ).concat("\" weekday=\"").concat(parts[5].as_str()).concat("\" author=\"").concat(
            xml_escape(author).as_str(),
        ).concat("\" tags=\"").concat(xml_escape(tag_list.as_str()).as_str()).concat(
            "\">\n",
        ).concat(xml_escape(content).as_str()).concat("\n</ecrit>"),
    )
}

/// The elements of the pages of a list, or the first thing that a page lacks.
pub open spec fn txm_entries_of(pages: Seq<Value>) -> Result<Seq<Seq<char>>, TxmError>
    decreases pages.len(),
{
    if pages.len() == 0 {
        Ok(Seq::empty())
    } else {
        match txm_entries_of(pages.drop_last()) {
            Err(e) => Err(e),
            Ok(before) => match txm_entry_of(pages.last()) {
                Err(e) => Err(e),
                Ok(entry) => Ok(before.push(entry)),
            },
        }
    }
}

/// The export of a list of pages: the elements of the pages, one to a line,
/// inside one root element.
pub open spec fn txm_output_of(pages: Seq<Value>) -> Result<Seq<char>, TxmError> {
    match txm_entries_of(pages) {
        Err(e) => Err(e),
        Ok(entries) => Ok(
            "<?xml version=\"1.0\"?>\n<SCP>\n"@ + join_with(entries, "\n"@) + "\n</SCP>"@,
        ),
    }
}

/// Writes the export of a list of pages. Nothing is written where a page
/// lacks something: the error is that of the first such page.
pub fn txm_output(pages: &Vec<Record>) -> (r: Result<String, TxmError>)
    ensures
        match r {
            Ok(text) => txm_output_of(values(pages@)) == Ok::<Seq<char>, TxmError>(text@),
            Err(e) => txm_output_of(values(pages@)) == Err::<Seq<char>, TxmError>(e),
        },
{
    let ghost all = values(pages@);
    let mut entries: Vec<String> = Vec::new();
    let mut i: usize = 0;
    assert(all.take(0) == Seq::<Value>::empty());
    assert(texts(entries@) =~= Seq::<Seq<char>>::empty());
    while i < pages.len()
        invariant
            i <= pages.len(),
            all == values(pages@),
            txm_entries_of(all.take(i as int)) == Ok::<Seq<Seq<char>>, TxmError>(texts(entries@)),
        decreases pages.len() - i,
    {
        let ghost before = texts(entries@);
        proof {
            let next = all.take(i + 1);
            assert(next.drop_last() == all.take(i as int));
            assert(next.last() == pages@[i as int]@);
        }
        match txm_entry(&pages[i]) {
            Ok(entry) => {
                entries.push(entry);
                assert(texts(entries@) =~= before.push(entry@));
            },
            Err(e) => {
                proof {
                    lemma_entries_fail(all, i + 1);
                }
                return Err(e);
            },
        }
        i += 1;
    }
    assert(all.take(pages@.len() as int) == all);
    let body = join(&entries, "\n");
    Ok(copy_text("<?xml version=\"1.0\"?>\n<SCP>\n").concat(body.as_str()).concat("\n</SCP>"))
}

/// An error among the first pages of a list is the error of the whole list.
pub proof fn lemma_entries_fail(pages: Seq<Value>, n: int)
    requires
        0 <= n <= pages.len(),
        txm_entries_of(pages.take(n)) is Err,
    ensures
        txm_entries_of(pages) == txm_entries_of(pages.take(n)),
    decreases pages.len() - n,
{
    if n < pages.len() {
        let next = pages.take(n + 1);
        assert(next.drop_last() == pages.take(n));
        lemma_entries_fail(pages, n + 1);
    } else {
        assert(pages.take(n) == pages);
    }
}

} // verus!
