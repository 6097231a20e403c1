//! What is read out of the rendered document of a page: the text of its main
//! content, and the list of its attached files.
//!
//! The documents are parsed, and their elements selected, by the scraper
//! crate; what it finds is named here and taken on trust. What is done with
//! what it finds is verified.
use vstd::prelude::*;
use crate::file_size::{file_size_of, parse_file_size, ParsedSize, SizeWarning};
use crate::record::{lemma_view_list, lemma_view_object, member_values, values, Record, Value};
use crate::text::{copy_text, remove_all, trim, trimmed, without};

verus! {

/// The selector of the main content of a page.
pub open spec fn content_selector() -> Seq<char> {
    "#page-content"@
}

/// The selector of the body of the table of attached files.
pub open spec fn files_selector() -> Seq<char> {
    "table.page-files tbody"@
}

/// The selectors of what is no content inside the main content: the rating
/// widget, code blocks, and the footer for walking through the wiki.
pub open spec fn noise_selectors() -> Seq<Seq<char>> {
    seq![".creditRate"@, ".code"@, ".footer-wikiwalk-nav"@]
}

/// The HTML of the element that scraper finds at position `index` among the
/// elements of `document` that match `selector`; nothing where the selector
/// is none, or where fewer elements match.
pub uninterp spec fn nth_html_of(document: Seq<char>, selector: Seq<char>, index: int) -> Option<
    Seq<char>,
>;

/// The HTML of each element that scraper finds to match `inner` below the
/// element at position `index` among those of `document` that match `scope`;
/// nothing where a selector is none, or where fewer elements match `scope`.
pub uninterp spec fn nested_html_of(
    document: Seq<char>,
    scope: Seq<char>,
    index: int,
    inner: Seq<char>,
) -> Option<Seq<Seq<char>>>;

/// The text that scraper finds in `fragment`, read as a piece of HTML: the
/// text nodes below its root, one after the other.
pub uninterp spec fn fragment_text_of(fragment: Seq<char>) -> Seq<char>;

/// The rows that scraper finds below the element at position `index` among
/// those of `document` that match `selector`: for each child element its
/// child elements, and for each of these its inner HTML and the inner HTML of
/// its first child element, if it has one. Nothing where the selector is
/// none, or where fewer elements match.
pub uninterp spec fn table_rows_of(document: Seq<char>, selector: Seq<char>, index: int) -> Option<
    Seq<Seq<(Seq<char>, Option<Seq<char>>)>>,
>;

/// One cell of a table.
#[derive(Debug)]
pub struct Cell {
    /// The HTML inside the cell.
    pub inner_html: String,
    /// The HTML inside the first child element of the cell.
    pub first_child: Option<String>,
}

/// A cell, as a mathematical value.
pub open spec fn cell_view(cell: Cell) -> (Seq<char>, Option<Seq<char>>) {
    (
        cell.inner_html@,
        match cell.first_child {
            Some(text) => Some(text@),
            None => None,
        },
    )
}

/// The cells of a row.
pub open spec fn row_view(row: Vec<Cell>) -> Seq<(Seq<char>, Option<Seq<char>>)> {
    Seq::new(row@.len(), |i: int| cell_view(row@[i]))
}

/// The rows of a table.
pub open spec fn rows_view(rows: Seq<Vec<Cell>>) -> Seq<Seq<(Seq<char>, Option<Seq<char>>)>> {
    Seq::new(rows.len(), |i: int| row_view(rows[i]))
}

/// The texts of a list.
pub open spec fn text_views(list: Seq<String>) -> Seq<Seq<char>> {
    Seq::new(list.len(), |i: int| list[i]@)
}

/// `Html::parse_document`, `Selector::parse`, `Html::select` and
/// `ElementRef::html` of the scraper crate: the HTML of the element at
/// position `index` among those of the document that match the selector.
#[verifier::external_body]
fn nth_html(document: &str, selector: &str, index: usize) -> (r: Option<String>)
    ensures
        match r {
            Some(html) => nth_html_of(document@, selector@, index as int) == Some(html@),
            None => nth_html_of(document@, selector@, index as int) is None,
        },
{
    let parsed = scraper::Html::parse_document(document);
    match scraper::Selector::parse(selector) {
        Ok(s) => parsed.select(&s).nth(index).map(|e| e.html()),
        Err(_) => None,
    }
}

/// `Html::parse_document`, `Selector::parse`, `Html::select`,
/// `ElementRef::select` and `ElementRef::html` of the scraper crate: the HTML
/// of the elements that match `inner` below the element at position `index`
/// among those of the document that match `scope`.
#[verifier::external_body]
fn nested_html(document: &str, scope: &str, index: usize, inner: &str) -> (r: Option<Vec<String>>)
    ensures
        match r {
            Some(found) => nested_html_of(document@, scope@, index as int, inner@) == Some(
                text_views(found@),
            ),
            None => nested_html_of(document@, scope@, index as int, inner@) is None,
        },
{
    let parsed = scraper::Html::parse_document(document);
    match (scraper::Selector::parse(scope), scraper::Selector::parse(inner)) {
        (Ok(a), Ok(b)) => parsed.select(&a).nth(index).map(
            |e| e.select(&b).map(|x| x.html()).collect(),
        ),
        _ => None,
    }
}

/// `Html::parse_fragment`, `Html::root_element` and `ElementRef::text` of the
/// scraper crate: the text of a piece of HTML.
#[verifier::external_body]
fn fragment_text(fragment: &str) -> (r: String)
    ensures
        r@ == fragment_text_of(fragment@),
{
    scraper::Html::parse_fragment(fragment).root_element().text().collect()
}

/// `Html::parse_document`, `Selector::parse`, `Html::select`,
/// `ElementRef::child_elements` and `ElementRef::inner_html` of the scraper
/// crate: the cells of the rows below the element at position `index` among
/// those of the document that match the selector.
#[verifier::external_body]
fn table_rows(document: &str, selector: &str, index: usize) -> (r: Option<Vec<Vec<Cell>>>)
    ensures
        match r {
            Some(rows) => table_rows_of(document@, selector@, index as int) == Some(
                rows_view(rows@),
            ),
            None => table_rows_of(document@, selector@, index as int) is None,
        },
{
    let parsed = scraper::Html::parse_document(document);
    let cell = |c: scraper::ElementRef| Cell {
        inner_html: c.inner_html(),
        first_child: c.child_elements().next().map(|e| e.inner_html()),
    };
    match scraper::Selector::parse(selector) {
        Ok(s) => parsed.select(&s).nth(index).map(|body| {
            body.child_elements().map(|row| row.child_elements().map(cell).collect()).collect()
        }),
        Err(_) => None,
    }
}

/// A text without the pieces of a list, taken out one list entry after the
/// other.
pub open spec fn without_all(text: Seq<char>, pieces: Seq<Seq<char>>) -> Seq<char>
    decreases pieces.len(),
{
    if pieces.len() == 0 {
        text
    } else {
        without(without_all(text, pieces.drop_last()), pieces.last())
    }
}

/// The noise of one kind inside the main content of a document: the HTML of
/// the elements that match `selector` there.
pub open spec fn noise_of(document: Seq<char>, selector: Seq<char>) -> Seq<Seq<char>> {
    match nested_html_of(document, content_selector(), 0, selector) {
        Some(pieces) => pieces,
        None => Seq::empty(),
    }
}

/// The HTML of the main content without its noise: the kinds of noise are
/// taken out in their order, and of each kind every element that was found.
pub open spec fn cleaned(document: Seq<char>, html: Seq<char>, kinds: Seq<Seq<char>>) -> Seq<char>
    decreases kinds.len(),
{
    if kinds.len() == 0 {
        html
    } else {
        without_all(cleaned(document, html, kinds.drop_last()), noise_of(document, kinds.last()))
    }
}

/// The content of a page: the text of its main content without the noise;
/// nothing where the document has no main content.
pub open spec fn content_of(document: Seq<char>) -> Option<Seq<char>> {
    match nth_html_of(document, content_selector(), 0) {
        Some(html) => Some(fragment_text_of(cleaned(document, html, noise_selectors()))),
        None => None,
    }
}

/// Takes the pieces out of a text, one after the other.
pub fn strip(text: String, pieces: &Vec<String>) -> (r: String)
    ensures
        r@ == without_all(text@, text_views(pieces@)),
{
    let mut text = text;
    let ghost start = text@;
    let ghost all = text_views(pieces@);
    let mut i: usize = 0;
    assert(all.take(0) == Seq::<Seq<char>>::empty());
    while i < pieces.len()
        invariant
            i <= pieces.len(),
            all == text_views(pieces@),
            text@ == without_all(start, all.take(i as int)),
        decreases pieces.len() - i,
    {
        proof {
            let next = all.take(i + 1);
            assert(next.drop_last() == all.take(i as int));
            assert(next.last() == pieces@[i as int]@);
        }
        text = remove_all(text.as_str(), pieces[i].as_str());
        i += 1;
    }
    assert(all.take(pieces@.len() as int) == all);
    text
}

/// Takes the noise of one kind out of the HTML of the main content.
fn strip_kind(document: &str, html: String, selector: &str) -> (r: String)
    ensures
        r@ == without_all(html@, noise_of(document@, selector@)),
{
    match nested_html(document, "#page-content", 0, selector) {
        Some(pieces) => strip(html, &pieces),
        None => html,
    }
}

/// Reads the content of a page out of its document.
pub fn parse_content(document: &str) -> (content: Option<String>)
    ensures
        match content {
            Some(text) => content_of(document@) == Some(text@),
            None => content_of(document@) is None,
        },
{
    let html = match nth_html(document, "#page-content", 0) {
        Some(html) => html,
        None => {
            return None;
        },
    };
    let ghost kinds = noise_selectors();
    let ghost start = html@;
    proof {
        reveal_with_fuel(cleaned, 4);
        assert(kinds.drop_last() =~= seq![".creditRate"@, ".code"@]);
        assert(kinds.drop_last().drop_last() =~= seq![".creditRate"@]);
        assert(kinds.drop_last().drop_last().drop_last() =~= Seq::<Seq<char>>::empty());
    }
    let html = strip_kind(document, html, ".creditRate");
    let html = strip_kind(document, html, ".code");
    let html = strip_kind(document, html, ".footer-wikiwalk-nav");
    assert(html@ == cleaned(document@, start, kinds));
    Some(fragment_text(html.as_str()))
}

/// One attached file.
#[derive(Debug)]
pub struct File {
    pub name: String,
    pub file_type: String,
    /// The size in bytes.
    pub size: i32,
}

/// A file, as a mathematical value.
pub struct FileView {
    pub name: Seq<char>,
    pub file_type: Seq<char>,
    pub size: int,
}

impl View for File {
    type V = FileView;

    open spec fn view(&self) -> FileView {
        FileView { name: self.name@, file_type: self.file_type@, size: self.size as int }
    }
}

/// The files of a list.
pub open spec fn file_views(files: Seq<File>) -> Seq<FileView> {
    Seq::new(files.len(), |i: int| files[i]@)
}

/// The inner HTML of the first child element of the cell at `at`; empty where
/// the row is too short or the cell has no child element.
pub open spec fn label_at(row: Seq<(Seq<char>, Option<Seq<char>>)>, at: int) -> Seq<char> {
    if 0 <= at < row.len() {
        match row[at].1 {
            Some(text) => text,
            None => Seq::empty(),
        }
    } else {
        Seq::empty()
    }
}

/// The size and the warning that the third cell of a row gives: those of its
/// inner HTML without the white space around it; 0 and no warning where the
/// row has no third cell.
pub open spec fn size_at(row: Seq<(Seq<char>, Option<Seq<char>>)>) -> (int, Option<SizeWarning>) {
    if row.len() > 2 {
        file_size_of(trimmed(row[2].0))
    } else {
        (0, None)
    }
}

/// The file that a row of the table stands for: its name in the first cell,
/// its type in the second, its size in the third.
pub open spec fn file_of_row(row: Seq<(Seq<char>, Option<Seq<char>>)>) -> FileView {
    FileView { name: label_at(row, 0), file_type: label_at(row, 1), size: size_at(row).0 }
}

/// The rows of the table of files of a document; none where it has no such
/// table.
pub open spec fn file_rows_of(document: Seq<char>) -> Seq<Seq<(Seq<char>, Option<Seq<char>>)>> {
    match table_rows_of(document, files_selector(), 0) {
        Some(rows) => rows,
        None => Seq::empty(),
    }
}

/// The files of a document, one for each row of its table of files.
pub open spec fn files_of(document: Seq<char>) -> Seq<FileView> {
    let rows = file_rows_of(document);
    Seq::new(rows.len(), |i: int| file_of_row(rows[i]))
}

/// The warnings that the sizes of the files call for, in the order of the rows.
pub open spec fn size_warnings(rows: Seq<Seq<(Seq<char>, Option<Seq<char>>)>>) -> Seq<SizeWarning>
    decreases rows.len(),
{
    if rows.len() == 0 {
        Seq::empty()
    } else {
        match size_at(rows.last()).1 {
            Some(warning) => size_warnings(rows.drop_last()).push(warning),
            None => size_warnings(rows.drop_last()),
        }
    }
}

/// The inner HTML of the first child element of a cell of a row.
fn label(row: &Vec<Cell>, at: usize) -> (text: String)
    ensures
        text@ == label_at(row_view(*row), at as int),
{
    if at < row.len() {
        match &row[at].first_child {
            Some(text) => copy_text(text.as_str()),
            None => String::new(),
        }
    } else {
        String::new()
    }
}

/// Reads the list of the attached files out of the document of a page, with
/// the warnings that their sizes call for.
pub fn file_list(document: &str) -> (r: (Vec<File>, Vec<SizeWarning>))
    ensures
        file_views(r.0@) == files_of(document@),
        r.1@ == size_warnings(file_rows_of(document@)),
{
    let rows = match table_rows(document, "table.page-files tbody", 0) {
        Some(rows) => rows,
        None => Vec::new(),
    };
    let ghost all = rows_view(rows@);
    assert(all == file_rows_of(document@));
    let mut files: Vec<File> = Vec::new();
    let mut warnings: Vec<SizeWarning> = Vec::new();
    let mut i: usize = 0;
    assert(all.take(0) == Seq::<Seq<(Seq<char>, Option<Seq<char>>)>>::empty());
    while i < rows.len()
        invariant
            i <= rows.len(),
            all == rows_view(rows@),
            files@.len() == i,
            forall|k: int| 0 <= k < i ==> (#[trigger] files@[k])@ == file_of_row(all[k]),
            warnings@ == size_warnings(all.take(i as int)),
        decreases rows.len() - i,
    {
        let row = &rows[i];
        proof {
            let next = all.take(i + 1);
            assert(next.drop_last() == all.take(i as int));
            assert(next.last() == row_view(*row));
        }
        let name = label(row, 0);
        let file_type = label(row, 1);
        let size = if row.len() > 2 {
            assert(row_view(*row)[2].0 == row@[2].inner_html@);
            let text = trim(row[2].inner_html.as_str());
            parse_file_size(text.as_str())
        } else {
            ParsedSize { bytes: 0, warning: None }
        };
        match size.warning {
            Some(warning) => {
                warnings.push(warning);
            },
            None => {},
        }
        files.push(File { name, file_type, size: size.bytes });
        i += 1;
    }
    assert(all.take(rows@.len() as int) == all);
    assert(file_views(files@) =~= files_of(document@));
    (files, warnings)
}

/// The record of a file: an object with its name, its type and its size.
pub open spec fn file_value(file: FileView) -> Value {
    Value::Object(
        seq![
            ("name"@, Value::Text(file.name)),
            ("file_type"@, Value::Text(file.file_type)),
            ("size"@, Value::Whole(file.size)),
        ],
    )
}

/// The records of a list of files.
pub open spec fn file_values(files: Seq<FileView>) -> Seq<Value> {
    Seq::new(files.len(), |i: int| file_value(files[i]))
}

impl File {
    /// The record of the file.
    pub fn into_record(self) -> (r: Record)
        ensures
            r@ == file_value(self@),
    {
        let mut members: Vec<(String, Record)> = Vec::new();
        members.push((copy_text("name"), Record::Text(self.name)));
        members.push((copy_text("file_type"), Record::Text(self.file_type)));
        members.push((copy_text("size"), Record::Whole(self.size as i128)));
        proof {
            lemma_view_object(members);
            assert(member_values(members@) =~= seq![
                ("name"@, Value::Text(self.name@)),
                ("file_type"@, Value::Text(self.file_type@)),
                ("size"@, Value::Whole(self.size as int)),
            ]);
        }
        Record::Object(members)
    }
}

/// The list record of a list of files.
pub fn files_record(files: Vec<File>) -> (r: Record)
    ensures
        r@ == Value::List(file_values(file_views(files@))),
{
    let ghost all = file_views(files@);
    let mut items: Vec<Record> = Vec::new();
    for file in it: files
        invariant
            all == file_views(it.seq()),
            values(items@) == file_values(all).take(it.index() as int),
    {
        let ghost before = values(items@);
        let ghost view = file@;
        let item = file.into_record();
        items.push(item);
        assert(values(items@) =~= before.push(file_value(view)));
        assert(file_values(all).take(it.index() + 1) =~= file_values(all).take(
            it.index() as int,
        ).push(file_value(view)));
    }
    assert(file_values(all).take(all.len() as int) == file_values(all));
    proof {
        lemma_view_list(items);
    }
    Record::List(items)
}

/// The sizes of the files of a list, added up.
pub open spec fn total_size(files: Seq<FileView>) -> int
    decreases files.len(),
{
    if files.len() == 0 {
        0
    } else {
        total_size(files.drop_last()) + files.last().size
    }
}

/// The record of a page and its files: its address, the size of all its
/// files together, and the files. Nothing for a page without files.
pub open spec fn page_files_value(url: Seq<char>, files: Seq<FileView>) -> Option<Value> {
    if files.len() == 0 {
        None
    } else {
        Some(
            Value::Object(
                seq![
                    ("url"@, Value::Text(url)),
                    ("total size"@, Value::Whole(total_size(files))),
                    ("files"@, Value::List(file_values(files))),
                ],
            ),
        )
    }
}

/// The sizes of the files of a list, added up.
pub fn sum_sizes(files: &Vec<File>) -> (total: i128)
    ensures
        total == total_size(file_views(files@)),
{
    let ghost all = file_views(files@);
    let mut total: i128 = 0;
    let mut i: usize = 0;
    assert(all.take(0) == Seq::<FileView>::empty());
    while i < files.len()
        invariant
            i <= files.len(),
            all == file_views(files@),
            total == total_size(all.take(i as int)),
            -(i as int) * 0x8000_0000 <= total <= (i as int) * 0x8000_0000,
        decreases files.len() - i,
    {
        proof {
            let next = all.take(i + 1);
            assert(next.drop_last() == all.take(i as int));
            assert(next.last() == files@[i as int]@);
        }
        total = total + files[i].size as i128;
        i += 1;
    }
    assert(all.take(files@.len() as int) == all);
    total
}

/// The record of a page and its files; nothing for a page without files.
pub fn page_files_record(url: &str, files: Vec<File>) -> (r: Option<Record>)
    ensures
        match r {
            Some(record) => page_files_value(url@, file_views(files@)) == Some(record@),
            None => page_files_value(url@, file_views(files@)) is None,
        },
{
    if files.len() == 0 {
        return None;
    }
    let total = sum_sizes(&files);
    let ghost views = file_views(files@);
    let list = files_record(files);
    let mut members: Vec<(String, Record)> = Vec::new();
    members.push((copy_text("url"), Record::text(url)));
    members.push((copy_text("total size"), Record::Whole(total)));
    members.push((copy_text("files"), list));
    proof {
        lemma_view_object(members);
        assert(member_values(members@) =~= seq![
            ("url"@, Value::Text(url@)),
            ("total size"@, Value::Whole(total_size(views))),
            ("files"@, Value::List(file_values(views))),
        ]);
    }
    Some(Record::Object(members))
}

} // verus!
