use todo::error::TodoError;
use todo::expr::Expr::{And, Not, Or, Value};
use todo::expr::{ExprOps, Ops};
use todo::parser::parse;

fn ops() -> Ops {
    Ops {
        lp: "(".to_string(),
        rp: ")".to_string(),
        or: ",".to_string(),
        and: "+".to_string(),
        not: "^".to_string(),
    }
}

#[test]
fn expr_parse() {
    let ops = ops();

    let expr = "abc";
    let parsed = parse(expr, &ops).unwrap();
    assert_eq!(Value("abc".to_string()), parsed);

    let values = ["abc"];
    assert!(parsed.calc(&values));

    let values = ["a"];
    assert!(!parsed.calc(&values));

    let expr = "(abc)";
    let parsed = parse(expr, &ops).unwrap();
    assert_eq!(Value("abc".to_string()), parsed);

    let expr = "^abc";
    let parsed = parse(expr, &ops).unwrap();
    assert_eq!(Not(Box::new(Value("abc".to_string()))), parsed);

    let values = ["abc"];
    assert!(!parsed.calc(&values));

    let values = [""];
    assert!(parsed.calc(&values));

    let expr = "abc,de";
    let parsed = parse(expr, &ops).unwrap();
    assert_eq!(
        Or(
            Box::new(Value("abc".to_string())),
            Box::new(Value("de".to_string()))
        ),
        parsed
    );

    let values = ["abc", "de"];
    assert!(parsed.calc(&values));

    let values = ["abc", ""];
    assert!(parsed.calc(&values));

    let values = ["", "de"];
    assert!(parsed.calc(&values));

    let values = ["", ""];
    assert!(!parsed.calc(&values));

    let expr = "abc+de";
    let parsed = parse(expr, &ops).unwrap();
    assert_eq!(
        And(
            Box::new(Value("abc".to_string())),
            Box::new(Value("de".to_string()))
        ),
        parsed
    );

    let values = ["abc", "de"];
    assert!(parsed.calc(&values));

    let values = ["abc", ""];
    assert!(!parsed.calc(&values));

    let values = ["", "de"];
    assert!(!parsed.calc(&values));

    let values = ["", ""];
    assert!(!parsed.calc(&values));

    let expr = "(ab + (c, d) + e)";
    let parsed = parse(expr, &ops).unwrap();
    assert_eq!(
        And(
            Box::new(And(
                Box::new(Value("ab".to_string())),
                Box::new(Or(
                    Box::new(Value("c".to_string())),
                    Box::new(Value("d".to_string()))
                ))
            )),
            Box::new(Value("e".to_string()))
        ),
        parsed
    );

    let values = ["ab", "c", "d", "e"];
    assert!(parsed.calc(&values));

    let values = ["ab", "c", "e"];
    assert!(parsed.calc(&values));

    let values = ["ab", "d", "e"];
    assert!(parsed.calc(&values));

    let values = ["ab", "c", "d"];
    assert!(!parsed.calc(&values));

    let values = ["c", "d", "e"];
    assert!(!parsed.calc(&values));

    let expr = "^(a,b+^c)";
    let parsed = parse(expr, &ops).unwrap();
    assert_eq!(
        Not(
            Box::new(Or(
                Box::new(Value("a".to_string())),
                Box::new(And(
                    Box::new(Value("b".to_string())),
                    Box::new(Not(
                        Box::new(Value("c".to_string()))
                    ))
                ))
            ))
        ),
        parsed
    );

    let values = ["a", "b", "c"];
    assert!(!parsed.calc(&values));

    let values = ["a"];
    assert!(!parsed.calc(&values));

    let values = ["b"];
    assert!(!parsed.calc(&values));

    let values = ["c"];
    assert!(parsed.calc(&values));

    let expr = "^(bad,";
    let parsed = parse(expr, &ops);
    assert!(parsed.is_err());
}

#[test]
fn or_binds_looser_than_and() {
    let parsed = parse("a,b+c", &ops()).unwrap();
    assert_eq!(
        Or(
            Box::new(Value("a".to_string())),
            Box::new(And(Box::new(Value("b".to_string())), Box::new(Value("c".to_string()))))
        ),
        parsed
    );
    assert!(parsed.calc(&["a"]));
    assert!(!parsed.calc(&["b"]));
    assert!(parsed.calc(&["b", "c"]));
}

#[test]
fn not_takes_the_parenthesised_expression() {
    let parsed = parse("^(a,b)", &ops()).unwrap();
    assert_eq!(
        Not(Box::new(Or(Box::new(Value("a".to_string())), Box::new(Value("b".to_string()))))),
        parsed
    );
    assert!(!parsed.calc(&["a"]));
    let none: [&str; 0] = [];
    assert!(parsed.calc(&none));
}

#[test]
fn unmatched_paren_fails_with_the_rest() {
    assert_eq!(
        Err(TodoError::InvalidSyntax { rest: "(bad,".to_string() }),
        parse("^(bad,", &ops())
    );
    assert!(parse("a)", &ops()).is_err());
}

#[test]
fn multi_char_operators() {
    let ops = Ops {
        lp: "[".to_string(),
        rp: "]".to_string(),
        or: "||".to_string(),
        and: "&&".to_string(),
        not: "!".to_string(),
    };
    assert_eq!("[", ops.lp());
    assert_eq!("||", ops.or());
    let parsed = parse("x && [ y || z ]", &ops).unwrap();
    assert_eq!(
        And(
            Box::new(Value("x".to_string())),
            Box::new(Or(Box::new(Value("y".to_string())), Box::new(Value("z".to_string()))))
        ),
        parsed
    );
}

#[test]
fn values_are_trimmed() {
    let parsed = parse("  a b  ,\tc ", &ops()).unwrap();
    assert_eq!(
        Or(Box::new(Value("a b".to_string())), Box::new(Value("c".to_string()))),
        parsed
    );
    assert_eq!(Value(String::new()), parse("", &ops()).unwrap());
}
