use lisp_sh::lexzer::{analyzer, Analyzer};
use lisp_sh::object::Object;
use lisp_sh::parser::{parse, parse_list, ParseFault};

fn sym(s: &str) -> Object {
    Object::Symbol(s.to_string())
}

#[test]
fn test_parse() {
    let param = parse("(+ 1 2)").unwrap();
    println!("{:?}", param);
}

#[test]
fn test_parse_analyzer() {
    let param = parse("(+ 1 2)").unwrap();
    assert_eq!(
        param,
        Object::List(vec![
            Object::Symbol("+".to_string()),
            Object::Integer(1),
            Object::Integer(2),
        ])
    );
}

#[test]
fn test_parse_analyzer2() {
    let param = parse("(+ 1 2 3 4)").unwrap();
    assert_eq!(
        param,
        Object::List(vec![
            Object::Symbol("+".to_string()),
            Object::Integer(1),
            Object::Integer(2),
            Object::Integer(3),
            Object::Integer(4),
        ])
    );
}

#[test]
fn tokens_then_tree_of_a_sum() {
    assert_eq!(
        analyzer("(+ 1 2)").unwrap(),
        vec![
            Analyzer::LParen,
            Analyzer::Symbol("+".to_string()),
            Analyzer::Integer(1),
            Analyzer::Integer(2),
            Analyzer::RParen,
        ]
    );
    assert_eq!(
        parse("(+ 1 2)").unwrap(),
        Object::List(vec![sym("+"), Object::Integer(1), Object::Integer(2)])
    );
}

#[test]
fn nested_forms_give_nested_lists() {
    assert_eq!(
        parse("(+ (* 2 3) (- 10 4))").unwrap(),
        Object::List(vec![
            sym("+"),
            Object::List(vec![sym("*"), Object::Integer(2), Object::Integer(3)]),
            Object::List(vec![sym("-"), Object::Integer(10), Object::Integer(4)]),
        ])
    );
    assert_eq!(
        parse("((()) ())").unwrap(),
        Object::List(vec![
            Object::List(vec![Object::List(vec![])]),
            Object::List(vec![]),
        ])
    );
    assert_eq!(parse("()").unwrap(), Object::List(vec![]));
}

#[test]
fn text_must_begin_with_an_opening_parenthesis() {
    assert_eq!(parse("1 2").unwrap_err().kind, ParseFault::MissingOpen);
    assert_eq!(parse("").unwrap_err().kind, ParseFault::MissingOpen);
    assert_eq!(parse(")").unwrap_err().kind, ParseFault::MissingOpen);
    assert_eq!(parse("x (y)").unwrap_err().kind, ParseFault::MissingOpen);
}

#[test]
fn open_list_at_the_end_is_an_error() {
    assert_eq!(parse("(+ 1").unwrap_err().kind, ParseFault::Unclosed);
    assert_eq!(parse("(").unwrap_err().kind, ParseFault::Unclosed);
    assert_eq!(parse("(+ (1 2)").unwrap_err().kind, ParseFault::Unclosed);
    assert_eq!(parse("(+ (1 2").unwrap_err().kind, ParseFault::Unclosed);
}

#[test]
fn tokens_after_the_first_form_are_ignored() {
    assert_eq!(parse("(a) (b)").unwrap(), Object::List(vec![sym("a")]));
    assert_eq!(parse("(a))))").unwrap(), Object::List(vec![sym("a")]));
    assert_eq!(parse("(a) (").unwrap(), Object::List(vec![sym("a")]));
}

#[test]
fn parse_list_tells_where_the_form_ends() {
    let tokens = analyzer("(a (b) c) (d)").unwrap();
    let (first, next) = parse_list(&tokens, 0).unwrap();
    assert_eq!(
        first,
        Object::List(vec![sym("a"), Object::List(vec![sym("b")]), sym("c")])
    );
    assert_eq!(next, 7);
    let (second, end) = parse_list(&tokens, next).unwrap();
    assert_eq!(second, Object::List(vec![sym("d")]));
    assert_eq!(end, 10);
    assert_eq!(parse_list(&tokens, 1).unwrap_err().kind, ParseFault::MissingOpen);
    assert_eq!(parse_list(&tokens, 10).unwrap_err().kind, ParseFault::MissingOpen);
    let (inner, after) = parse_list(&tokens, 2).unwrap();
    assert_eq!(inner, Object::List(vec![sym("b")]));
    assert_eq!(after, 5);
}
