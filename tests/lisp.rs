use emacsql::lisp::{parse_string, Error, Value};
use emacsql::parser::{Event, Parser};

fn real_of(v: Option<Value>) -> f64 {
    match v {
        Some(Value::Real(t)) => t.parse::<f64>().unwrap(),
        other => panic!("not a real: {:?}", other),
    }
}

#[test]
fn test_parse_string() {
    let src = "   \"ur son!\"";
    let res = src.parse().unwrap();
    if let Value::String(s) = res {
        assert_eq!(s, "ur son!".to_string())
    } else {
        assert!(false);
    };
}

#[test]
fn test_parse_string_list() {
    let src = "(\"a\" \"b\")";
    let res = src.parse().unwrap();
    if let Value::List(s) = res {
        let mut s = s.iter();
        assert_eq!(s.next().unwrap().clone().text().unwrap(), "a".to_string());
        assert_eq!(s.next().unwrap().clone().text().unwrap(), "b".to_string())
    } else {
        assert!(false);
    };
}

#[test]
fn test_parse_num() {
    let src = "(1 2 3 4.5 -6.7)";
    let res = src.parse().unwrap();
    if let Value::List(lst) = res {
        let mut nums = lst.iter();
        assert_eq!(nums.next(), Some(&Value::Integer(1)));
        assert_eq!(nums.next(), Some(&Value::Integer(2)));
        assert_eq!(nums.next(), Some(&Value::Integer(3)));
        assert_eq!(real_of(nums.next().cloned()), 4.5);
        assert_eq!(real_of(nums.next().cloned()), -6.7);
        assert_eq!(nums.next(), None);
    } else {
        assert!(false);
    }
}

#[test]
fn test_parse_inner_lists() {
    let src = "(1 2 3 4 (5 6 [ 7 8 ]))";
    let res = src.parse().unwrap();
    if let Value::List(lst) = res {
        let mut nums = lst.iter();
        assert_eq!(nums.next(), Some(&Value::Integer(1)));
        assert_eq!(nums.next(), Some(&Value::Integer(2)));
        assert_eq!(nums.next(), Some(&Value::Integer(3)));
        assert_eq!(nums.next(), Some(&Value::Integer(4)));
        assert_eq!(
            nums.next(),
            Some(&Value::List(vec![
                Value::Integer(5),
                Value::Integer(6),
                Value::List(vec![Value::Integer(7), Value::Integer(8)])
            ]))
        );
        assert_eq!(nums.next(), None);
    } else {
        assert!(false);
    }
}

#[test]
fn test_parse_cons() {
    let src = "(1 2 3 4 . 7)";
    let res: Value = src.parse().unwrap();
    assert_eq!(
        res,
        Value::Cons(
            Box::new(Value::List(vec![
                Value::Integer(1),
                Value::Integer(2),
                Value::Integer(3),
                Value::Integer(4)
            ])),
            Box::new(Value::Integer(7))
        )
    );
}

#[test]
fn test_parse_cons_from_2values() {
    let src = "(1 . 2)";
    let res: Value = src.parse().unwrap();
    assert_eq!(
        res,
        Value::Cons(Box::new(Value::Integer(1)), Box::new(Value::Integer(2)))
    );
}

#[test]
fn test_parse_symbol() {
    let src = " myman1 ";
    let res: Value = src.parse().unwrap();
    assert_eq!(res, Value::Symbol("myman1".to_string()));
}

#[test]
fn test_parse_symbol_that_starts_with_num() {
    let src = " 2drots ";
    let res: Value = src.parse().unwrap();
    assert_eq!(res, Value::Symbol("2drots".to_string()));
}

#[test]
fn test_string_with_escaping() {
    //' baba"papa '
    let src = "\" baba\\\"papa \" ";
    let res: Value = src.parse().unwrap();
    assert_eq!(res, Value::String(" baba\"papa ".to_string()));
}

#[test]
fn test_unbalanced_expr() {
    let src = " ( jdeidje ] )";
    let actual = src.parse::<Value>().unwrap_err();
    assert_eq!(actual, Error::UnbalancedExpr)
}

#[test]
fn test_unbalanced_list_with_paren_at_end() {
    let src = " ( jdeidje ";
    let actual = src.parse::<Value>().unwrap_err();
    assert_eq!(actual, Error::UnbalancedExpr)
}

#[test]
fn test_unexcepted_dot() {
    let src = " ( [ 1 2 3 4 . ] )";
    let actual = src.parse::<Value>().unwrap_err();
    assert_eq!(actual, Error::UnexpectedDot)
}

#[test]
fn plain_strings_round_trip() {
    for s in ["", "hello world", "(not a list)", "tab\there", "héllo ünïcode", "1.2.3 . ]"] {
        let quoted = format!("\"{}\"", s);
        assert_eq!(parse_string(&quoted), Ok(Value::String(s.to_string())));
    }
}

#[test]
fn escapes_decode() {
    assert_eq!(
        parse_string("\"a\\nb\\tc\\\\d\\qe\\5\\0\""),
        Ok(Value::String("a\nb\tc\\dqe\u{5}\u{0}".to_string()))
    );
    assert_eq!(parse_string("\"\\9\""), Ok(Value::String("\t".to_string())));
}

#[test]
fn whitespace_runs_collapse() {
    let spread = " \t ( 1\t\t2 \n [a   b]  \"x  y\"   . \r\n 3 )  \n";
    let tight = " ( 1 2 [a b] \"x  y\" . 3 ) ";
    let a = parse_string(spread);
    assert_eq!(a, parse_string(tight));
    assert_eq!(
        a,
        Ok(Value::Cons(
            Box::new(Value::List(vec![
                Value::Integer(1),
                Value::Integer(2),
                Value::List(vec![Value::Symbol("a".to_string()), Value::Symbol("b".to_string())]),
                Value::String("x  y".to_string()),
            ])),
            Box::new(Value::Integer(3))
        ))
    );
}

#[test]
fn empty_input_ends_early() {
    assert_eq!(parse_string(""), Err(Error::EndOfInput));
    assert_eq!(parse_string(" \n\t "), Err(Error::EndOfInput));
    assert_eq!(parse_string("(1 ."), Err(Error::EndOfInput));
}

#[test]
fn misplaced_brackets_and_dots() {
    assert_eq!(parse_string(")"), Err(Error::UnbalancedExpr));
    assert_eq!(parse_string("(1 2]"), Err(Error::UnbalancedExpr));
    assert_eq!(parse_string("(1 . 2"), Err(Error::UnbalancedExpr));
    assert_eq!(parse_string("(1 . 2]"), Err(Error::UnbalancedExpr));
    assert_eq!(parse_string("\"open"), Err(Error::UnbalancedExpr));
    assert_eq!(parse_string("\"open\\"), Err(Error::UnbalancedExpr));
    assert_eq!(parse_string("'quoted"), Err(Error::UnbalancedExpr));
    assert_eq!(parse_string("."), Err(Error::UnexpectedDot));
    assert_eq!(parse_string("( . 1)"), Err(Error::UnexpectedDot));
    assert_eq!(parse_string("(1 . 2 3)"), Err(Error::UnexpectedDot));
    assert_eq!(parse_string("(1 . . 2)"), Err(Error::UnexpectedDot));
    assert_eq!(parse_string("(1 . )"), Err(Error::UnexpectedDot));
}

#[test]
fn numbers_and_symbols() {
    assert_eq!(parse_string("1.2.3"), Err(Error::InvalidNumber));
    assert_eq!(parse_string("-1.x"), Err(Error::InvalidNumber));
    assert_eq!(parse_string("-9223372036854775808"), Ok(Value::Integer(i64::MIN)));
    assert_eq!(parse_string("9223372036854775807"), Ok(Value::Integer(i64::MAX)));
    assert_eq!(
        parse_string("9223372036854775808"),
        Ok(Value::Symbol("9223372036854775808".to_string()))
    );
    assert_eq!(parse_string("-0"), Ok(Value::Integer(0)));
    assert_eq!(parse_string("007"), Ok(Value::Integer(7)));
    assert_eq!(parse_string("-"), Ok(Value::Symbol("-".to_string())));
    assert_eq!(parse_string("-abc"), Ok(Value::Symbol("-abc".to_string())));
    assert_eq!(parse_string("1e5"), Ok(Value::Symbol("1e5".to_string())));
    assert_eq!(parse_string("1.5e3"), Ok(Value::Real("1.5e3".to_string())));
    assert_eq!(parse_string("-.5E-2"), Ok(Value::Real("-.5E-2".to_string())));
    assert_eq!(parse_string("2."), Ok(Value::Real("2.".to_string())));
    assert_eq!(real_of(parse_string("1.5e3").ok()), 1500.0);
    assert_eq!(parse_string("a.b"), Ok(Value::Symbol("a".to_string())));
}

#[test]
fn pairs_and_nesting() {
    assert_eq!(
        parse_string("((1 . 2) 3)"),
        Ok(Value::List(vec![
            Value::Cons(Box::new(Value::Integer(1)), Box::new(Value::Integer(2))),
            Value::Integer(3),
        ]))
    );
    assert_eq!(
        parse_string("(a . (b . c))"),
        Ok(Value::Cons(
            Box::new(Value::Symbol("a".to_string())),
            Box::new(Value::Cons(
                Box::new(Value::Symbol("b".to_string())),
                Box::new(Value::Symbol("c".to_string()))
            ))
        ))
    );
    assert_eq!(parse_string("[]"), Ok(Value::List(vec![])));
    assert_eq!(parse_string("1 2"), Ok(Value::Integer(1)));
    assert_eq!(parse_string("(a) junk )"), Ok(Value::List(vec![Value::Symbol("a".to_string())])));
    assert_eq!("(1\t2)".parse::<Value>(), "(1 2)".parse::<Value>());
    assert_eq!("1.5x".parse::<Value>(), Err(Error::InvalidNumber));
    let deep = format!("{}{}", "(".repeat(10000), ")".repeat(10000));
    assert!(parse_string(&deep).is_ok());
}

#[test]
fn accessors_pick_their_variant() {
    assert_eq!(Value::Symbol("s".to_string()).as_symbol(), Some("s".to_string()));
    assert_eq!(Value::String("s".to_string()).as_symbol(), None);
    assert_eq!(Value::String("s".to_string()).as_string(), Some("s".to_string()));
    assert_eq!(Value::Integer(3).as_integer(), Some(3));
    assert_eq!(Value::Real("1.0".to_string()).as_real(), Some("1.0".to_string()));
    assert_eq!(Value::List(vec![Value::Nil]).as_list(), Some(vec![Value::Nil]));
    assert!(Value::Nil.is_nil());
    assert!(!Value::Integer(0).is_nil());
    assert_eq!(Value::Integer(1).text(), None);
}

#[test]
fn clones_are_equal() {
    let v = parse_string("(a \"b\" (1 . 2.5) [])").unwrap();
    assert_eq!(v.clone(), v);
}

#[test]
fn scanner_steps() {
    let mut p = Parser::new("  (x) . ) y");
    assert!(matches!(p.next_event(), Event::Skipped));
    assert_eq!(
        p.next_event().parsed(),
        Some(Value::List(vec![Value::Symbol("x".to_string())]))
    );
    assert!(matches!(p.next_event(), Event::Skipped));
    assert!(matches!(p.next_event(), Event::ErrorHappened(Error::UnexpectedDot)));
    assert!(matches!(p.next_event(), Event::ErrorHappened(Error::UnexpectedDot)));
    let mut q = Parser::new("] 1");
    assert!(matches!(q.next_event(), Event::ErrorHappened(Error::UnbalancedExpr)));
    assert!(matches!(q.next_event(), Event::ErrorHappened(Error::UnbalancedExpr)));
    let mut r = Parser::new("(a . b) c");
    assert!(r.parse().is_ok());
    assert_eq!(r.parse(), Ok(Value::Symbol("c".to_string())));
    assert!(matches!(r.next_event(), Event::End));
}

#[test]
fn escaped_quote_inside_string() {
    assert_eq!(
        parse_string("\" baba\\\"papa \""),
        Ok(Value::String(" baba\"papa ".to_string()))
    );
}

#[test]
fn nested_lists_without_padding() {
    assert_eq!(
        parse_string("(1 2 3 4 (5 6 [7 8]))"),
        Ok(Value::List(vec![
            Value::Integer(1),
            Value::Integer(2),
            Value::Integer(3),
            Value::Integer(4),
            Value::List(vec![
                Value::Integer(5),
                Value::Integer(6),
                Value::List(vec![Value::Integer(7), Value::Integer(8)]),
            ]),
        ]))
    );
}

#[test]
fn error_cases_without_padding() {
    assert_eq!(parse_string("( jdeidje ] )"), Err(Error::UnbalancedExpr));
    assert_eq!(parse_string("( jdeidje"), Err(Error::UnbalancedExpr));
    assert_eq!(parse_string("( [ 1 2 3 4 . ] )"), Err(Error::UnexpectedDot));
}

#[test]
fn events_from_results() {
    assert!(matches!(Event::from(Ok(Value::Nil)), Event::Parsed(Value::Nil)));
    assert!(matches!(
        Event::from(Err(Error::InvalidNumber)),
        Event::ErrorHappened(Error::InvalidNumber)
    ));
}

#[test]
fn padding_changes_nothing() {
    for s in ["1", "(a . 2.5)", "\"x y\"", "(1", "\"open\\", "", "-", "1.2.3"] {
        let padded = format!(" \t\n{}\r\u{3000} ", s);
        assert_eq!(parse_string(&padded), parse_string(s), "{:?}", s);
    }
}
