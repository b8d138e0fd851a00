use todo::attr_parser::AttrParser;
use todo::attrs::Attrs;
use todo::error::TodoError;
use todo::find::{all_enabled, all_enabled_lowered, find_setup, issue_matches, Find, FindAttr};
use todo::issue::Issue;
use todo::list::List;
use todo::settings::Settings;

fn pairs(items: &[(&str, &str)]) -> Vec<(String, String)> {
    items.iter().map(|(k, v)| (k.to_string(), v.to_string())).collect()
}

#[test]
fn all_flag_words() {
    for off in ["false", "f", "not", "no", "n", "0", "FALSE", "No"] {
        assert!(!all_enabled(Some(off)), "{}", off);
    }
    assert!(all_enabled(Some("true")));
    assert!(all_enabled(Some("")));
    assert!(!all_enabled(None));
    assert!(all_enabled_lowered(Some("No")));
    assert!(!all_enabled_lowered(Some("no")));
}

#[test]
fn find_attr_keys() {
    assert_eq!("issues_dir", FindAttr::IssuesDir.key());
    assert_eq!("capture", FindAttr::Capture.key());
    assert_eq!("filter", FindAttr::Filter.key());
    assert_eq!("all", FindAttr::All.key());
    assert!(FindAttr::by_key("all") == Some(FindAttr::All));
    assert!(FindAttr::by_key("ext").is_none());
}

#[test]
fn issue_attribute_matching() {
    let parser = AttrParser::new();
    let found = pairs(&[("scope", "cur"), ("state", "open = if done"), ("name", "task")]);
    assert!(issue_matches(&parser, &pairs(&[]), &found));
    assert!(issue_matches(&parser, &pairs(&[("scope", "cur")]), &found));
    assert!(issue_matches(&parser, &pairs(&[("state", "open"), ("name", "task")]), &found));
    assert!(!issue_matches(&parser, &pairs(&[("state", "open = if done")]), &found));
    assert!(!issue_matches(&parser, &pairs(&[("scope", "cur"), ("owner", "me")]), &found));
    assert!(!issue_matches(&parser, &pairs(&[("scope", "new")]), &found));
}

#[test]
fn values_in_order_with_unset_keys_skipped() {
    let mut attrs = Attrs::default();
    attrs.add_key("id");
    attrs.set_attr_value("name", "x");
    attrs.set_attr_value("scope", "");
    assert_eq!(pairs(&[("name", "x"), ("scope", "")]), attrs.values());
    attrs.set_attr_value("name", "y");
    assert_eq!(pairs(&[("scope", ""), ("name", "y")]), attrs.values());
}

#[test]
fn find_settings_registered_in_order() {
    let find = Find::new();
    assert_eq!(
        vec!["issues_dir".to_string(), "capture".to_string(), "filter".to_string(), "all".to_string()],
        find.attrs.keys
    );
    assert_eq!("filter", find.attrs.get_default_key());
    assert!(!find.all());
}

#[test]
fn find_setup_from_settings() {
    let mut settings = Settings::default();
    settings.store.fs.find_all = true;
    let find = find_setup(Find::new(), &settings);
    assert!(find.all());
    assert_eq!("issues", find.attrs.attr_value_as_str("issues_dir"));
    assert_eq!(Some("all".to_string()), find.attrs.key_by_alias("a"));
}

#[test]
fn list_params_are_routed() {
    let settings = Settings::default();
    let mut list = List { find: Some(find_setup(Find::new(), &settings)), issue: Issue::default() };
    assert_eq!(Ok(Some(FindAttr::Filter)), list.set_param("", ".*2"));
    assert_eq!(".*2", list.find.as_ref().unwrap().attrs.attr_value_as_str("filter"));
    assert_eq!(Ok(Some(FindAttr::All)), list.set_param("A", "f"));
    assert!(!list.find.as_ref().unwrap().all());
    assert_eq!(Ok(None), list.set_param("Scope", "cur"));
    assert_eq!("cur", list.issue.attrs.attr_value_as_str("scope"));
    assert_eq!("filter", list.default_param_key());
}

#[test]
fn list_default_param_without_default_setting_fails() {
    let mut find = Find::new();
    find.attrs.set_default_key("missing");
    let mut list = List { find: Some(find), issue: Issue::default() };
    assert_eq!(
        Err(TodoError::UnknownCommandParam { param: "missing".to_string() }),
        list.set_param("", "x")
    );
    let mut empty = List { find: None, issue: Issue::default() };
    assert_eq!(Ok(None), empty.set_param("", "x"));
}
