use scp_script_anthology::params::{add_field, list_contains, ConfigError, ListPagesParameters};

fn owned(parts: &[&str]) -> Vec<String> {
    parts.iter().map(|s| s.to_string()).collect()
}

fn parameters(info: &[&str]) -> ListPagesParameters {
    ListPagesParameters {
        info: owned(info),
        all_tags: Vec::new(),
        one_of_tags: Vec::new(),
        author: None,
        content: false,
        download_html: None,
        gather_fragments_sources: false,
        source_contains: Vec::new(),
        source_contains_one: false,
        source_contains_ignore_case: false,
        txm: false,
        files: false,
    }
}

#[test]
fn nothing_is_inferred_from_nothing() {
    let mut params = parameters(&["url", "wikidotInfo.title"]);
    params.apply_inferences();
    assert_eq!(params.info, owned(&["url", "wikidotInfo.title"]));
    assert!(!params.content);
}

#[test]
fn content_needs_the_address() {
    let mut params = parameters(&["wikidotInfo.title"]);
    params.content = true;
    params.apply_inferences();
    assert_eq!(params.info, owned(&["wikidotInfo.title", "url"]));
    let mut params = parameters(&["url"]);
    params.content = true;
    params.apply_inferences();
    assert_eq!(params.info, owned(&["url"]));
}

#[test]
fn patterns_need_the_source() {
    let mut params = parameters(&["url"]);
    params.source_contains = owned(&["foo"]);
    assert_eq!(params.check_source_filter(), Err(ConfigError::SourceNotRequested));
    params.apply_inferences();
    assert_eq!(params.info, owned(&["url", "wikidotInfo.source"]));
    assert_eq!(params.check_source_filter(), Ok(()));
    assert_eq!(params.source_contains, owned(&["foo"]));
}

#[test]
fn gathering_needs_the_source_and_the_children() {
    let mut params = parameters(&["url", "wikidotInfo.source"]);
    params.gather_fragments_sources = true;
    params.apply_inferences();
    assert_eq!(params.info, owned(&["url", "wikidotInfo.source", "wikidotInfo.children.url"]));
    let mut params = parameters(&["wikidotInfo.children.url"]);
    params.gather_fragments_sources = true;
    params.content = true;
    params.apply_inferences();
    assert_eq!(params.info, owned(&["wikidotInfo.children.url", "url", "wikidotInfo.source"]));
}

#[test]
fn text_analysis_fixes_the_fields() {
    let mut params = parameters(&["alternateTitles.title"]);
    params.txm = true;
    params.files = true;
    params.author = Some("someone".to_string());
    params.apply_inferences();
    assert_eq!(
        params.info,
        owned(&[
            "url",
            "wikidotInfo.title",
            "wikidotInfo.rating",
            "wikidotInfo.tags",
            "wikidotInfo.children.url",
            "wikidotInfo.createdAt",
            "wikidotInfo.createdBy.name",
        ])
    );
    assert!(params.content);
    assert!(params.txm);
    assert!(params.files);
    assert_eq!(params.author, Some("someone".to_string()));
}

#[test]
fn patterns_for_text_analysis_are_refused() {
    let mut params = parameters(&["url"]);
    params.txm = true;
    params.source_contains = owned(&["foo"]);
    params.apply_inferences();
    assert_eq!(params.check_source_filter(), Err(ConfigError::SourceNotRequested));
}

#[test]
fn a_field_is_added_once() {
    let mut info = owned(&["a"]);
    add_field(&mut info, true, "b");
    add_field(&mut info, true, "b");
    add_field(&mut info, false, "c");
    assert_eq!(info, owned(&["a", "b"]));
    assert!(list_contains(&info, "b"));
    assert!(!list_contains(&info, "c"));
    assert!(!list_contains(&Vec::new(), ""));
}
