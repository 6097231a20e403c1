use scp_script_anthology::cli::{parse_parameters, site_of, Branch};

#[test]
fn every_branch_has_its_address() {
    assert_eq!(Branch::FR.get_url(), "http://fondationscp.wikidot.com/");
    assert_eq!(Branch::EN.get_url(), "http://scp-wiki.wikidot.com/");
    assert_eq!(Branch::INT.get_url(), "http://scp-int.wikidot.com/");
}

fn args(list: &[&str]) -> Vec<String> {
    list.iter().map(|s| s.to_string()).collect()
}

#[test]
fn parameters_are_paired_with_their_values() {
    let given = args(&["program", "list-pages", "--info", "url", "-v", "--author", "someone"]);
    assert_eq!(
        parse_parameters(&given),
        vec![("--info", "url"), ("-v", ""), ("--author", "someone")]
    );
}

#[test]
fn values_without_a_parameter_are_passed_over() {
    let given = args(&["program", "script", "stray", "-a", "1", "2", "-b"]);
    assert_eq!(parse_parameters(&given), vec![("-a", "1"), ("-b", "")]);
}

#[test]
fn no_arguments_give_no_parameters() {
    let given = args(&["program", "script"]);
    assert!(parse_parameters(&given).is_empty());
}

#[test]
fn a_branch_overrides_the_site() {
    assert_eq!(
        site_of(Some(Branch::FR), Some("http://other/".to_string())),
        Some("http://fondationscp.wikidot.com/".to_string())
    );
    assert_eq!(site_of(Some(Branch::INT), None), Some("http://scp-int.wikidot.com/".to_string()));
    assert_eq!(site_of(None, Some("http://other/".to_string())), Some("http://other/".to_string()));
    assert_eq!(site_of(None, None), None);
}
