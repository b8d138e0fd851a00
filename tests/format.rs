use todo::format::Format;

#[test]
fn missing_key_leaves_placeholder() {
    let mut s = "{missing}/{name}".to_string();
    assert!(!s.key_replace("other", "x"));
    assert_eq!("{missing}/{name}", s);
    assert!(s.key_replace("name", "x"));
    assert_eq!("{missing}/x", s);
}

#[test]
fn empty_value_collapses_placeholder() {
    let mut s = "{scope:/}{name}".to_string();
    assert!(s.key_replace("scope", ""));
    assert!(s.key_replace("name", "x"));
    assert_eq!("x", s);
}

#[test]
fn value_with_separator() {
    let mut s = "{scope:/}{name}".to_string();
    assert!(s.key_replace("scope", "a"));
    assert!(s.key_replace("name", "x"));
    assert_eq!("a/x", s);
}

#[test]
fn text_before_the_key() {
    let mut s = "{name}{.:ext}".to_string();
    assert!(s.key_replace("ext", "md"));
    assert_eq!("{name}.md", s);
    let mut t = "{name}{.:ext}".to_string();
    assert!(t.key_replace("ext", ""));
    assert_eq!("{name}", t);
}

#[test]
fn every_placeholder_of_a_key() {
    let mut s = "{id}-{id:.}".to_string();
    assert!(s.key_replace("id", "7"));
    assert_eq!("7-7.", s);
}

#[test]
fn key_outside_braces_is_not_a_placeholder() {
    let mut s = "name {name}".to_string();
    assert!(s.key_replace("name", "x"));
    assert_eq!("name x", s);
    let mut t = "name".to_string();
    assert!(!t.key_replace("name", "x"));
    assert_eq!("name", t);
}

#[test]
fn search_helpers() {
    let s = "{scope:/}{name}".to_string();
    assert_eq!(Some(1), s.find_from_pos(0, "scope"));
    assert_eq!(None, s.find_from_pos(2, "scope"));
    assert_eq!(None, s.find_from_pos(0, ""));
    assert_eq!(Some(8), s.find_byte(0, b'}'));
    assert_eq!(Some(14), s.find_byte(9, b'}'));
    assert_eq!(Some(0), s.rfind_byte(6, b'{'));
    assert_eq!(None, s.rfind_byte(0, b'{'));
    assert_eq!(Some((0, 8)), s.key_replaceable_pos(1, 5));
    assert_eq!(Some((9, 14)), s.key_replaceable_pos(10, 4));
    assert_eq!(None, s.key_replaceable_pos(2, 3));
}

#[test]
fn positions_count_chars() {
    let mut s = "é{name}".to_string();
    assert_eq!(Some(2), s.find_from_pos(0, "name"));
    assert_eq!(Some((1, 6)), s.key_replaceable_pos(2, 4));
    assert!(s.key_replace("name", "ü"));
    assert_eq!("éü", s);
}
