use todo::attrs::Attrs;
use todo::create::{Create, CreateAttr};
use todo::error::TodoError;
use todo::generator::SequenceGenerator;
use todo::issue::Issue;
use todo::new::New;
use todo::settings::Settings;
use todo::setup::{create_setup, issue_setup, new_setup};

fn create_with(format: &str) -> Create {
    let mut c = Create::default();
    c.attrs.set_attr_value("issues_dir", "issues");
    c.attrs.set_attr_value("format", format);
    c.attrs.set_attr_value("ext", "md");
    c
}

fn issue_with(values: &[(&str, &str)]) -> Issue<String> {
    let mut issue: Issue<String> = Issue::default();
    issue.id_attr_key = "id".to_string();
    issue.attrs.add_key("id");
    for (k, v) in values {
        issue.attrs.set_attr_value(k, v);
    }
    issue
}

#[test]
fn empty_scope_collapses() {
    let mut c = create_with("{scope:/}{name}");
    c.init_from(&issue_with(&[("scope", ""), ("name", "x")]), None);
    assert_eq!(Some("issues/x".to_string()), c.path);
    assert_eq!("", c.content);
}

#[test]
fn scope_with_separator() {
    let mut c = create_with("{scope:/}{name}");
    c.init_from(&issue_with(&[("scope", "a"), ("name", "x")]), None);
    assert_eq!(Some("issues/a/x".to_string()), c.path);
}

#[test]
fn unregistered_placeholder_stays() {
    let mut c = create_with("{missing}/{name}");
    c.init_from(&issue_with(&[("name", "x")]), None);
    assert_eq!(Some("issues/{missing}/x".to_string()), c.path);
}

#[test]
fn unused_attributes_become_lines() {
    let mut c = create_with("{scope:/}{priority:.}{id:.}{name}{.:ext}");
    let issue = issue_with(&[
        ("priority", "A"),
        ("scope", "cur"),
        ("id", "ID"),
        ("context", "test"),
        ("time", "2 free"),
        ("name", "task"),
    ]);
    c.init_from(&issue, None);
    assert_eq!(Some("issues/cur/A.ID.task.md".to_string()), c.path);
    assert_eq!("#[context: test]\n#[time: 2 free]\n", c.content);
}

#[test]
fn generated_id_fills_the_placeholder() {
    let mut c = create_with("{id:.}{name}");
    c.id_generator = Some(SequenceGenerator { required: false, file: Some("todo.seq".to_string()) });
    let issue = issue_with(&[("name", "task")]);
    assert!(c.needs_id(&issue));
    c.init_from(&issue, Some("7"));
    assert_eq!(Some("issues/7.task".to_string()), c.path);
}

#[test]
fn own_id_wins_over_generated() {
    let mut c = create_with("{id:.}{name}");
    c.id_generator = Some(SequenceGenerator { required: false, file: Some("todo.seq".to_string()) });
    let issue = issue_with(&[("id", "B"), ("name", "task")]);
    assert!(!c.needs_id(&issue));
    c.init_from(&issue, Some("7"));
    assert_eq!(Some("issues/B.task".to_string()), c.path);
}

#[test]
fn no_issues_dir_no_path() {
    let mut c = Create::default();
    c.attrs.set_attr_value("format", "{name}");
    c.init_from(&issue_with(&[("name", "x")]), None);
    assert_eq!(None, c.path);
}

#[test]
fn create_attr_keys() {
    assert_eq!("issues_dir", CreateAttr::IssuesDir.key());
    assert_eq!("format", CreateAttr::Format.key());
    assert_eq!("ext", CreateAttr::Ext.key());
    assert!(CreateAttr::by_key("format") == Some(CreateAttr::Format));
    assert!(CreateAttr::by_key("Format").is_none());
}

#[test]
fn create_params_ignore_case() {
    let mut c = create_with("{name}");
    assert_eq!(Ok(()), c.set_param("EXT", "txt"));
    assert_eq!("txt", c.attrs.attr_value_as_str("ext"));
    assert_eq!(
        Err(TodoError::UnknownCommandParam { param: "Color".to_string() }),
        c.set_param("Color", "red")
    );
}

#[test]
fn setup_from_default_settings() {
    let settings = Settings::default();
    let issue = issue_setup(Issue::<String>::default(), &settings).unwrap();
    assert_eq!("id", issue.id_attr_key);
    assert_eq!(Some("priority".to_string()), issue.attrs.key_by_alias("top"));
    assert_eq!(Some("name".to_string()), issue.attrs.key_by_alias("title"));
    assert_eq!(
        vec!["id".to_string(), "priority".to_string(), "scope".to_string(), "name".to_string()],
        issue.attrs.keys
    );
    let create = create_setup(Create::default(), &settings).unwrap();
    assert_eq!("{scope:/}{priority:.}{id:.}{name}{.:ext}", create.attrs.attr_value_as_str("format"));
    assert_eq!("md", create.attrs.attr_value_as_str("ext"));
    assert!(create.id_generator.is_none());

    let mut new = new_setup(New { create: Some(create), issue }, &settings);
    new.set_param("", "task 1").unwrap();
    new.set_param("T", "A").unwrap();
    new.set_param("ext", "txt").unwrap();
    new.set_param("context", "test").unwrap();
    let issue = new.issue.clone();
    let mut create = new.create.take().unwrap();
    create.init_from(&issue, None);
    assert_eq!(Some("issues/A.task 1.txt".to_string()), create.path);
    assert_eq!("#[context: test]\n", create.content);
}

#[test]
fn setup_with_sequence_and_unknown_generator() {
    let mut settings = Settings::default();
    settings.store.fs.id_generator = "sequence".to_string();
    let create = create_setup(Create::default(), &settings).unwrap();
    let g = create.id_generator.unwrap();
    assert_eq!(Some("todo.seq".to_string()), g.file);
    settings.store.fs.id_generator = "uuid".to_string();
    assert!(matches!(
        create_setup(Create::default(), &settings),
        Err(TodoError::UnknownGenerator { .. })
    ));
}

#[test]
fn setup_rejects_shared_alias() {
    let mut settings = Settings::default();
    settings.issue.attrs.push(("project".to_string(), vec!["p".to_string()]));
    assert!(matches!(
        issue_setup(Issue::<String>::default(), &settings),
        Err(TodoError::AliasAlreadyExists { .. })
    ));
    let _ = Attrs::default();
}
