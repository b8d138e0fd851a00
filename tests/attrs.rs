use todo::attrs::Attrs;
use todo::error::TodoError;

#[test]
fn default_order_keys() {
    let mut attrs = Attrs::default();

    attrs.set_attr_value("key A", "value A");
    attrs.set_attr_value("key B", "value B");
    attrs.set_attr_value("key C", "value C");
    attrs.set_attr_value("key B", "new value B");

    let results = [
        ("key A", "value A"),
        ("key C", "value C"),
        ("key B", "new value B"),
    ];
    for (i, key) in attrs.keys.iter().enumerate() {
        let key = key.as_str();
        let value = attrs.attr_value_as_str(key);
        assert_eq!(results[i], (key, value));
    }
}

#[test]
fn keep_order_keys() {
    let mut attrs = Attrs::default();

    attrs.add_keep_order_key("key B");

    attrs.set_attr_value("key A", "value A");
    attrs.set_attr_value("key B", "value B");
    attrs.set_attr_value("key C", "value C");
    attrs.set_attr_value("key B", "new value B");

    let results = [
        ("key B", "new value B"),
        ("key A", "value A"),
        ("key C", "value C"),
    ];
    for (i, key) in attrs.keys.iter().enumerate() {
        let key = key.as_str();
        let value = attrs.attr_value_as_str(key);
        assert_eq!(results[i], (key, value));
    }
}

#[test]
fn add_key_twice_keeps_one_entry() {
    let mut attrs = Attrs::default();
    let first = attrs.add_key("priority");
    let second = attrs.add_key("priority");
    assert_eq!(first, second);
    assert_eq!(first, "priority");
    assert_eq!(attrs.keys, vec!["priority".to_string()]);
    attrs.add_key("scope");
    attrs.add_key("priority");
    assert_eq!(attrs.keys, vec!["priority".to_string(), "scope".to_string()]);
    assert_eq!(attrs.key_count(), 2);
}

#[test]
fn alias_bound_to_other_key_is_refused() {
    let mut attrs = Attrs::default();
    attrs.add_key("priority");
    attrs.add_key("project");
    assert_eq!(Ok(()), attrs.add_aliases("priority", &["p".to_string()]));
    assert_eq!(
        Err(TodoError::AliasAlreadyExists { alias: "p".to_string(), key: "project".to_string() }),
        attrs.add_aliases("project", &["p".to_string()])
    );
    assert_eq!(Some("priority".to_string()), attrs.key_by_alias("p"));
}

#[test]
fn alias_registration_keeps_earlier_aliases() {
    let mut attrs = Attrs::default();
    attrs.add_key("priority");
    attrs.add_key("project");
    attrs.add_aliases("priority", &["p".to_string()]).unwrap();
    let r = attrs.add_aliases("project", &["pr".to_string(), "p".to_string(), "j".to_string()]);
    assert!(matches!(r, Err(TodoError::AliasAlreadyExists { .. })));
    assert_eq!(Some("project".to_string()), attrs.key_by_alias("pr"));
    assert_eq!(None, attrs.key_by_alias("j"));
}

#[test]
fn alias_again_for_same_key_is_accepted() {
    let mut attrs = Attrs::default();
    attrs.add_key("name");
    assert_eq!(Ok(()), attrs.add_aliases("name", &["n".to_string(), "title".to_string()]));
    assert_eq!(Ok(()), attrs.add_aliases("name", &["n".to_string()]));
    assert_eq!(Some("name".to_string()), attrs.key_by_alias("title"));
}

#[test]
fn alias_for_unknown_key_fails() {
    let mut attrs = Attrs::default();
    assert_eq!(
        Err(TodoError::KeyNotFound { key: "nothing".to_string() }),
        attrs.add_aliases("nothing", &["x".to_string()])
    );
    assert_eq!(None, attrs.key_by_alias("x"));
}

#[test]
fn key_names_win_over_aliases() {
    let mut attrs = Attrs::default();
    attrs.add_key("a");
    attrs.add_key("b");
    attrs.add_aliases("b", &["a".to_string()]).unwrap();
    assert_eq!(Some("a".to_string()), attrs.key_by_alias("a"));
    assert_eq!(Some("a".to_string()), attrs.find_key("a"));
    assert_eq!(None, attrs.find_key("c"));
}

#[test]
fn value_through_alias_goes_to_key() {
    let mut attrs = Attrs::default();
    attrs.add_key("priority");
    attrs.add_key("name");
    attrs.add_aliases("priority", &["p".to_string()]).unwrap();
    assert_eq!(None, attrs.set_attr_value("p", "A"));
    assert_eq!(Some(&"A".to_string()), attrs.attr_value("priority"));
    assert_eq!(None, attrs.attr_value("p"));
    assert_eq!(vec!["name".to_string(), "priority".to_string()], attrs.keys);
    assert_eq!(Some("A".to_string()), attrs.set_attr_value("priority", "B"));
    assert_eq!("B", attrs.attr_value_as_str("priority"));
    assert_eq!("", attrs.attr_value_as_str("missing"));
}

#[test]
fn empty_value_is_a_value() {
    let mut attrs = Attrs::default();
    attrs.set_attr_value("scope", "");
    assert_eq!(Some(&String::new()), attrs.attr_value("scope"));
}

#[test]
fn default_value_goes_to_default_key() {
    let mut attrs = Attrs::default();
    attrs.add_key("name");
    attrs.add_key("scope");
    attrs.set_default_key("name");
    assert_eq!(None, attrs.set_default_attr("task"));
    assert_eq!("task", attrs.attr_value_as_str("name"));
    assert_eq!(vec!["scope".to_string(), "name".to_string()], attrs.keys);
    assert!(!attrs.is_keep_order_key("name"));
}

#[test]
fn default_value_on_pinned_key_keeps_order() {
    let mut attrs = Attrs::default();
    attrs.add_keep_order_key("name");
    attrs.add_key("scope");
    attrs.set_default_key("name");
    assert!(attrs.is_keep_order_key("name"));
    attrs.set_default_attr("task");
    assert_eq!(vec!["name".to_string(), "scope".to_string()], attrs.keys);
    assert_eq!(Some("task".to_string()), attrs.set_default_attr("other"));
}
