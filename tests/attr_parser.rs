use todo::attr_parser::AttrParser;
use todo::attrs::Attrs;
use todo::lang::ToStrings;

#[test]
fn encode_attr() {
    assert_eq!("#[key: value]", AttrParser::encode_attr("key", "value"));
    assert_eq!(
        "#[key 1: value 1, value 2]",
        AttrParser::encode_attr("key 1", "value 1, value 2")
    );
}

#[test]
fn parse_attr() {
    let parser = AttrParser::new();

    assert_eq!(None, parser.parse_attr("test"));
    assert_eq!(None, parser.parse_attr("#[]"));
    assert_eq!(None, parser.parse_attr("#[key]"));
    assert_eq!(
        Some(("key", "").to_strings()),
        parser.parse_attr("#[key:]")
    );
    assert_eq!(
        Some(("key", "value").to_strings()),
        parser.parse_attr("#[key:value]")
    );
    assert_eq!(
        Some(("key", "value").to_strings()),
        parser.parse_attr("#[key: value]")
    );
    assert_eq!(
        Some(("key", "value").to_strings()),
        parser.parse_attr("#[ key : value ]")
    );
    assert_eq!(
        Some(("key", "value").to_strings()),
        parser.parse_attr("#[\tkey : \nvalue\n]")
    );
    assert_eq!(
        Some(("key 1", "value 1").to_strings()),
        parser.parse_attr("#[key 1: value 1]")
    );
    assert_eq!(
        Some(("key 1", "[value 1, value 2]").to_strings()),
        parser.parse_attr("#[key 1: [value 1, value 2]]")
    );
}

#[test]
fn parse_and_set_attr() {
    let mut attrs = Attrs::default();
    let parser = AttrParser::new();

    assert_eq!(0, attrs.keys.len());

    assert_eq!(None, parser.parse_and_set_attr("#[key]", &mut attrs));
    assert_eq!(None, attrs.attr_value("key"));

    assert_eq!(0, attrs.keys.len());

    assert_eq!(None, parser.parse_and_set_attr("#[key: value]", &mut attrs));
    assert_eq!(Some("value"), attrs.attr_value("key").map(String::as_str));

    assert_eq!(1, attrs.keys.len());

    assert_eq!(
        Some("value"),
        parser
            .parse_and_set_attr("#[ key :  value 2 ]", &mut attrs)
            .as_ref()
            .map(String::as_str)
    );
    assert_eq!(Some("value 2"), attrs.attr_value("key").map(String::as_str));

    assert_eq!(1, attrs.keys.len());

    assert_eq!(
        None,
        parser.parse_and_set_attr("#[key 1: [1, 2]]", &mut attrs)
    );
    assert_eq!(
        Some("[1, 2]"),
        attrs.attr_value("key 1").map(String::as_str)
    );

    assert_eq!(2, attrs.keys.len());
}

#[test]
fn parse_value() {
    let parser = AttrParser::new();

    assert_eq!(("", None).to_strings(), parser.parse_value(""));
    assert_eq!((" = ", None).to_strings(), parser.parse_value(" = "));
    assert_eq!(("test", None).to_strings(), parser.parse_value("test"));
    assert_eq!(("test =", None).to_strings(), parser.parse_value("test ="));
    assert_eq!(
        ("test = some", None).to_strings(),
        parser.parse_value("test = some")
    );
    assert_eq!(
        ("test = if", None).to_strings(),
        parser.parse_value("test = if")
    );
    assert_eq!(
        ("test", Some("if cond")).to_strings(),
        parser.parse_value("test = if cond")
    );
    assert_eq!(
        ("true", Some("if some\nthen \"true\" else \"false\"")).to_strings(),
        parser.parse_value("true =\nif some\nthen \"true\" else \"false\"\n")
    );
    assert_eq!(
        ("", Some("if some\nthen \"true\" else \"\"")).to_strings(),
        parser.parse_value(" =\nif some\nthen \"true\" else \"\"\n")
    );
}

#[test]
fn attribute_line_key_runs_to_last_colon() {
    let parser = AttrParser::new();
    assert_eq!(
        Some(("a: b", "c").to_strings()),
        parser.parse_attr("#[a: b: c]")
    );
    assert_eq!(None, parser.parse_attr("#[:x]"));
    assert_eq!(None, parser.parse_attr("#[key: value] // note"));
}

#[test]
fn to_strings_of_slices() {
    let v: Vec<String> = ["a", "b"][..].to_strings();
    assert_eq!(vec!["a".to_string(), "b".to_string()], v);
    let p: Vec<(String, String)> = [("k", "v")][..].to_strings();
    assert_eq!(vec![("k".to_string(), "v".to_string())], p);
    let none: Option<(&str, &str)> = None;
    assert_eq!(None, none.to_strings());
}

#[test]
fn read_attrs() {
    let parser = AttrParser::new();

    let source = "";
    let attrs = parser.read_attrs(source);
    assert!(attrs.is_empty());

    let source = "[key: value]";
    let attrs = parser.read_attrs(source);
    assert!(attrs.is_empty());

    let source = "#[key: value";
    let attrs = parser.read_attrs(source);
    assert!(attrs.is_empty());

    let source = "#[key: value]";
    let attrs = parser.read_attrs(source);
    assert_eq!([("key", "value")].to_strings(), attrs);

    let source = "\n#[\nkey:\n value\n]\n";
    let attrs = parser.read_attrs(source);
    assert_eq!([("key", "value")].to_strings(), attrs);

    let source = "#[key: value] // attr";
    let attrs = parser.read_attrs(source);
    assert_eq!([("key", "value")].to_strings(), attrs);

    let source = r#"
#[key: value]
// #[test: some]
test
#[key 2: value 2] // new value
 #[test 2: some 2]
        "#;
    let attrs = parser.read_attrs(source);
    assert_eq!([("key", "value"), ("key 2", "value 2")].to_strings(), attrs);

    let source = r#"
#[key: value []]
// #[test: some]
test
#[key: value [new]] // new value
 #[test: [some 1]]
#[test:
[some
[2]]]
        "#;
    let attrs = parser.read_attrs(source);
    assert_eq!(
        [
            ("key", "value []"),
            ("key", "value [new]"),
            ("test", "[some\n[2]]")
        ].to_strings(),
        attrs
    );
}

#[test]
fn encoded_line_reads_back() {
    let parser = AttrParser::new();
    let line = AttrParser::encode_attr(" a:b ", "[1, 2] ");
    assert_eq!("#[ a:b : [1, 2] ]", line);
    assert_eq!(Some(("a:b", "[1, 2]").to_strings()), parser.parse_attr(&line));
}
