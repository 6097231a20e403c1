use scp_script_anthology::file_size::SizeWarning;
use scp_script_anthology::html::{
    file_list, files_record, page_files_record, parse_content, strip, sum_sizes, File,
};

const PAGE: &str = "<html><head><title>t</title></head><body>\
<div id=\"side-bar\">menu</div>\
<div id=\"page-content\">\
<div class=\"creditRate\"><span>rating: +12</span></div>\
<p>First paragraph.</p>\
<div class=\"code\"><pre>let x = 1;</pre></div>\
<p>Second <b>bold</b> paragraph.</p>\
<div class=\"footer-wikiwalk-nav\"><a href=\"/next\">next</a></div>\
</div>\
<div id=\"page-content\">a second container</div>\
</body></html>";

#[test]
fn content_is_the_text_of_the_main_container_without_noise() {
    assert_eq!(
        parse_content(PAGE),
        Some("First paragraph.Second bold paragraph.".to_string())
    );
}

#[test]
fn a_document_without_main_content_has_no_content() {
    assert_eq!(parse_content("<html><body><p>text</p></body></html>"), None);
    assert_eq!(parse_content(""), None);
}

#[test]
fn content_without_noise_is_kept_whole() {
    assert_eq!(
        parse_content("<div id=\"page-content\"><p>only &amp; text</p></div>"),
        Some("only & text".to_string())
    );
}

#[test]
fn every_piece_of_noise_of_a_kind_is_taken_out() {
    let page = "<div id=\"page-content\">a<div class=\"code\">1</div>b<div class=\"code\">2</div>c</div>";
    assert_eq!(parse_content(page), Some("abc".to_string()));
}

#[test]
fn pieces_are_taken_out_one_after_the_other() {
    let pieces = vec!["<i>x</i>".to_string(), "b".to_string()];
    assert_eq!(strip("a<i>x</i>b<i>x</i>cb".to_string(), &pieces), "ac");
    assert_eq!(strip("abc".to_string(), &Vec::new()), "abc");
}

const FILES: &str = "<html><body>\
<table class=\"page-files\"><thead><tr><th>name</th></tr></thead><tbody>\
<tr><td><a href=\"/local--files/a.png\">a.png</a></td><td><span>PNG image</span></td><td> 1.5 kB </td></tr>\
<tr><td><a href=\"/local--files/b.pdf\">b.pdf</a></td><td><span>PDF document</span></td><td>2 MB</td></tr>\
<tr><td>bare</td><td></td><td>100 Bytes</td></tr>\
<tr><td><a>c.bin</a></td><td><span>data</span></td><td>5 XB</td></tr>\
<tr><td><a>d.bin</a></td></tr>\
</tbody></table>\
</body></html>";

#[test]
fn files_are_read_from_the_rows_of_the_table() {
    let (files, warnings) = file_list(FILES);
    let seen: Vec<(&str, &str, i32)> =
        files.iter().map(|f| (f.name.as_str(), f.file_type.as_str(), f.size)).collect();
    assert_eq!(
        seen,
        vec![
            ("a.png", "PNG image", 1500),
            ("b.pdf", "PDF document", 20000000),
            ("", "", 100),
            ("c.bin", "data", 5),
            ("d.bin", "", 0),
        ]
    );
    assert_eq!(warnings, vec![SizeWarning::UnknownUnit]);
}

#[test]
fn a_document_without_the_table_has_no_files() {
    let (files, warnings) = file_list(PAGE);
    assert!(files.is_empty());
    assert!(warnings.is_empty());
}

#[test]
fn unreadable_sizes_count_nothing_and_warn() {
    let page = "<table class=\"page-files\"><tbody>\
<tr><td><a>x</a></td><td><span>t</span></td><td>garbage</td></tr>\
<tr><td><a>y</a></td><td><span>t</span></td><td>12</td></tr>\
</tbody></table>";
    let (files, warnings) = file_list(page);
    assert_eq!(files.iter().map(|f| f.size).collect::<Vec<_>>(), vec![0, 12]);
    assert_eq!(warnings, vec![SizeWarning::BadNumber, SizeWarning::NoUnit]);
}

#[test]
fn a_file_becomes_an_object_of_three_members() {
    let file = File { name: "a.png".to_string(), file_type: "PNG image".to_string(), size: 1500 };
    let record = file.into_record();
    assert_eq!(
        format!("{:?}", record),
        "Object([(\"name\", Text(\"a.png\")), (\"file_type\", Text(\"PNG image\")), (\"size\", Whole(1500))])"
    );
}

#[test]
fn files_become_a_list_in_their_order() {
    let files = vec![
        File { name: "a".to_string(), file_type: "t".to_string(), size: 1 },
        File { name: "b".to_string(), file_type: "u".to_string(), size: 2 },
    ];
    let record = files_record(files);
    let items = record.as_list().unwrap();
    assert_eq!(items.len(), 2);
    assert_eq!(items[0].get("name").and_then(|n| n.as_str()), Some("a"));
    assert_eq!(items[1].get("size").and_then(|n| n.as_i64()), Some(2));
}

#[test]
fn a_page_with_files_gets_their_total_size() {
    let files = vec![
        File { name: "a".to_string(), file_type: "t".to_string(), size: i32::MAX },
        File { name: "b".to_string(), file_type: "u".to_string(), size: i32::MAX },
        File { name: "c".to_string(), file_type: "v".to_string(), size: 2 },
    ];
    assert_eq!(sum_sizes(&files), 4294967296);
    let record = page_files_record("scp-1", files).unwrap();
    assert_eq!(record.get("url").and_then(|u| u.as_str()), Some("scp-1"));
    assert_eq!(record.get("total size").and_then(|u| u.as_u64()), Some(4294967296));
    assert_eq!(record.get("files").and_then(|f| f.as_list()).map(|f| f.len()), Some(3));
    assert!(page_files_record("scp-2", Vec::new()).is_none());
}

#[test]
fn an_empty_container_has_empty_content() {
    assert_eq!(parse_content("<div id=\"page-content\"></div>"), Some(String::new()));
}
