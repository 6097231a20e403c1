use scp_script_anthology::field_tree::{render_all, QueryTree};

fn rendered(paths: Vec<&str>) -> String {
    render_all(&QueryTree::from_vec(paths))
}

#[test]
fn renders_default_selection() {
    assert_eq!(rendered(vec!["url", "wikidotInfo.title"]), "url,wikidotInfo { title, },");
}

#[test]
fn render_does_not_depend_on_order() {
    let forward = rendered(vec!["url", "wikidotInfo.title", "wikidotInfo.rating", "alternateTitles.title"]);
    let backward = rendered(vec!["alternateTitles.title", "wikidotInfo.rating", "wikidotInfo.title", "url"]);
    let mixed = rendered(vec!["wikidotInfo.rating", "url", "alternateTitles.title", "wikidotInfo.title"]);
    assert_eq!(forward, "alternateTitles { title, },url,wikidotInfo { rating,title, },");
    assert_eq!(forward, backward);
    assert_eq!(forward, mixed);
}

#[test]
fn duplicate_path_leaves_one_node() {
    let forest = QueryTree::from_vec(vec!["wikidotInfo.title", "url", "wikidotInfo.title", "url"]);
    assert_eq!(forest.len(), 2);
    assert_eq!(render_all(&forest), "url,wikidotInfo { title, },");
    match &forest[1] {
        QueryTree::MotherNode(name, children) => {
            assert_eq!(name, "wikidotInfo");
            assert_eq!(children.len(), 1);
        }
        _ => panic!("a branch was expected"),
    }
}

#[test]
fn leaf_turns_into_branch() {
    assert_eq!(rendered(vec!["a", "a.b"]), "a { b, },");
    assert_eq!(rendered(vec!["a.b", "a"]), "a { b, },");
}

#[test]
fn empty_text_gives_one_empty_name() {
    assert_eq!(rendered(vec![""]), ",");
}

#[test]
fn empty_path_leaves_a_mark() {
    let forest = QueryTree::insert(Vec::new(), &Vec::new());
    assert_eq!(forest.len(), 1);
    assert!(matches!(forest[0], QueryTree::Empty));
    assert_eq!(render_all(&forest), "");
}

#[test]
fn deep_paths_share_their_prefix() {
    assert_eq!(
        rendered(vec!["wikidotInfo.createdBy.name", "wikidotInfo.children.url", "wikidotInfo.createdAt"]),
        "wikidotInfo { children { url, },createdAt,createdBy { name, }, },"
    );
}

#[test]
fn paths_are_added_one_by_one() {
    let path = |text: &str| text.split('.').map(|s| s.to_string()).collect::<Vec<String>>();
    let mut forest = Vec::new();
    for text in ["b.y", "a", "b.x", "b.y", "a.z"] {
        forest = QueryTree::insert(forest, &path(text));
    }
    assert_eq!(render_all(&forest), "a { z, },b { x,y, },");
    assert_eq!(forest[0].name().map(|n| n.as_str()), Some("a"));
    assert_eq!(forest[1].render(), "b { x,y, },");
    assert_eq!(QueryTree::chain(&path("a.b.c"), 1).render(), "b { c, },");
}

#[test]
fn names_are_ordered_by_their_characters() {
    assert_eq!(rendered(vec!["b", "B", "a", "", "ab", "é", "a.x"]), ",B,a { x, },ab,b,é,");
}
