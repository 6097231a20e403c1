use scp_script_anthology::record::Record;

fn text(s: &str) -> Record {
    Record::Text(s.to_string())
}

fn object(members: Vec<(&str, Record)>) -> Record {
    Record::Object(members.into_iter().map(|(k, v)| (k.to_string(), v)).collect())
}

fn names(record: &Record) -> Vec<String> {
    match record {
        Record::Object(members) => members.iter().map(|(k, _)| k.clone()).collect(),
        _ => panic!("an object was expected"),
    }
}

#[test]
fn members_are_found_by_name() {
    let page = object(vec![("url", text("http://site/a")), ("rating", Record::Whole(12))]);
    assert_eq!(page.get("url").and_then(|v| v.as_str()), Some("http://site/a"));
    assert_eq!(page.get("rating").and_then(|v| v.as_i64()), Some(12));
    assert!(page.get("title").is_none());
    assert!(text("x").get("url").is_none());
}

#[test]
fn the_first_member_of_a_name_counts() {
    let page = object(vec![("a", Record::Whole(1)), ("a", Record::Whole(2))]);
    assert_eq!(page.get("a").and_then(|v| v.as_u64()), Some(1));
}

#[test]
fn nested_members_are_followed() {
    let page = object(vec![("wikidotInfo", object(vec![("title", text("T"))]))]);
    assert_eq!(page.get2("wikidotInfo", "title").and_then(|v| v.as_str()), Some("T"));
    assert!(page.get2("wikidotInfo", "rating").is_none());
    assert!(page.get2("other", "title").is_none());
}

#[test]
fn numbers_are_read_within_their_range() {
    assert_eq!(Record::Whole(0).as_u64(), Some(0));
    assert_eq!(Record::Whole(u64::MAX as i128).as_u64(), Some(u64::MAX));
    assert_eq!(Record::Whole(-1).as_u64(), None);
    assert_eq!(Record::Whole(u64::MAX as i128 + 1).as_u64(), None);
    assert_eq!(Record::Whole(i64::MIN as i128).as_i64(), Some(i64::MIN));
    assert_eq!(Record::Whole(i64::MAX as i128 + 1).as_i64(), None);
    assert_eq!(Record::Decimal("1.5".to_string()).as_u64(), None);
    assert_eq!(text("5").as_i64(), None);
}

#[test]
fn kinds_are_told_apart() {
    assert!(Record::Null.is_null());
    assert!(!text("").is_null());
    assert!(object(vec![]).is_object());
    assert!(!Record::List(vec![]).is_object());
    assert_eq!(Record::Bool(true).as_bool(), Some(true));
    assert_eq!(Record::Null.as_bool(), None);
    assert_eq!(Record::List(vec![text("a")]).as_list().map(|l| l.len()), Some(1));
    assert!(text("a").as_list().is_none());
    assert_eq!(Record::text("abc").as_str(), Some("abc"));
}

#[test]
fn insert_replaces_in_place_or_appends() {
    let page = object(vec![("url", text("u")), ("content", text("old")), ("z", Record::Null)]);
    let page = page.insert("content", text("new"));
    assert_eq!(names(&page), vec!["url", "content", "z"]);
    assert_eq!(page.get("content").and_then(|v| v.as_str()), Some("new"));
    let page = page.insert("files", Record::List(vec![]));
    assert_eq!(names(&page), vec!["url", "content", "z", "files"]);
    let other = text("x").insert("a", Record::Null);
    assert_eq!(other.as_str(), Some("x"));
}

#[test]
fn nested_replacement_needs_both_members() {
    let page = object(vec![("wikidotInfo", object(vec![("source", text("old")), ("title", text("T"))]))]);
    let page = page.replace_nested("wikidotInfo", "source", text("new"));
    assert_eq!(page.get2("wikidotInfo", "source").and_then(|v| v.as_str()), Some("new"));
    assert_eq!(page.get2("wikidotInfo", "title").and_then(|v| v.as_str()), Some("T"));
    let bare = object(vec![("wikidotInfo", object(vec![("title", text("T"))]))]);
    let bare = bare.replace_nested("wikidotInfo", "source", text("new"));
    assert!(bare.get2("wikidotInfo", "source").is_none());
    let none = object(vec![("url", text("u"))]).replace_nested("wikidotInfo", "source", text("new"));
    assert_eq!(names(&none), vec!["url"]);
}

#[test]
fn a_copy_has_the_same_value() {
    let page = object(vec![
        ("url", text("u")),
        ("tags", Record::List(vec![text("a"), Record::Null, Record::Bool(false)])),
        ("wikidotInfo", object(vec![("rating", Record::Whole(-3)), ("score", Record::Decimal("0.5".to_string()))])),
    ]);
    let copy = page.copy();
    assert_eq!(format!("{:?}", copy), format!("{:?}", page));
}
