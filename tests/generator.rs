use todo::error::TodoError;
use todo::generator::{decimal, NextId, SequenceGenerator};

fn with_file(required: bool) -> SequenceGenerator {
    SequenceGenerator { required, file: Some("todo.seq".to_string()) }
}

#[test]
fn counter_hands_out_and_advances() {
    let g = with_file(false);
    let first = g.next(Some("1")).unwrap();
    assert_eq!(NextId { id: "1".to_string(), write: Some("2".to_string()) }, first);
    let second = g.next(Some(first.write.as_deref().unwrap())).unwrap();
    assert_eq!(NextId { id: "2".to_string(), write: Some("3".to_string()) }, second);
}

#[test]
fn no_file_gives_empty_id_or_fails() {
    let g = SequenceGenerator { required: false, file: None };
    assert_eq!(NextId { id: String::new(), write: None }, g.next(None).unwrap());
    let g = SequenceGenerator { required: true, file: None };
    assert_eq!(Err(TodoError::FileNotSpecified), g.next(None));
}

#[test]
fn unreadable_file() {
    assert_eq!(NextId { id: String::new(), write: None }, with_file(false).next(None).unwrap());
    assert_eq!(
        Err(TodoError::FileUnreadable { path: "todo.seq".to_string() }),
        with_file(true).next(None)
    );
}

#[test]
fn counter_text_is_trimmed() {
    let n = with_file(false).next(Some(" 41\n")).unwrap();
    assert_eq!(NextId { id: "41".to_string(), write: Some("42".to_string()) }, n);
    let n = with_file(false).next(Some("+009")).unwrap();
    assert_eq!(NextId { id: "+009".to_string(), write: Some("10".to_string()) }, n);
}

#[test]
fn counter_that_is_not_a_number() {
    assert_eq!(
        Err(TodoError::InvalidNumber { text: "x1".to_string() }),
        with_file(false).next(Some("x1"))
    );
    assert_eq!(
        Err(TodoError::InvalidNumber { text: String::new() }),
        with_file(true).next(Some("  "))
    );
    assert_eq!(
        Err(TodoError::InvalidNumber { text: "-1".to_string() }),
        with_file(true).next(Some("-1"))
    );
    assert_eq!(
        Err(TodoError::InvalidNumber { text: "18446744073709551616".to_string() }),
        with_file(true).next(Some("18446744073709551616"))
    );
}

#[test]
fn counter_at_the_largest_value() {
    assert_eq!(
        Err(TodoError::CounterOverflow { text: "18446744073709551615".to_string() }),
        with_file(false).next(Some("18446744073709551615"))
    );
    let n = with_file(false).next(Some("18446744073709551614")).unwrap();
    assert_eq!(Some("18446744073709551615".to_string()), n.write);
}

#[test]
fn decimal_text() {
    assert_eq!("0", decimal(0));
    assert_eq!("10", decimal(10));
    assert_eq!("18446744073709551615", decimal(u64::MAX));
}
