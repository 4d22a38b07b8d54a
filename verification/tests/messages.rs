use lisp_sh::evaluator::{eval, EvalError, Operand};
use lisp_sh::lexzer::{analyzer, Analyzer, AnalyzerError};
use lisp_sh::meta::Meta;
use lisp_sh::parser::{parse, parse_fault_message, ParseFault};

#[test]
fn tokens_as_text() {
    assert_eq!(Analyzer::LParen.text(), "(");
    assert_eq!(Analyzer::RParen.text(), ")");
    assert_eq!(Analyzer::Symbol("define".to_string()).text(), "define");
    assert_eq!(Analyzer::Integer(42).text(), "42");
    assert_eq!(Analyzer::Integer(-7).text(), "-7");
    assert_eq!(Analyzer::Integer(0).text(), "0");
    assert_eq!(Analyzer::Integer(i64::MIN).text(), "-9223372036854775808");
}

#[test]
fn text_of_a_token_reads_back() {
    let all = vec![
        Analyzer::LParen,
        Analyzer::Symbol("x1".to_string()),
        Analyzer::Integer(i64::MAX),
        Analyzer::Integer(-1),
        Analyzer::RParen,
    ];
    for t in all {
        assert_eq!(analyzer(&t.text()).unwrap(), vec![t.clone()]);
    }
}

#[test]
fn parse_error_messages() {
    assert_eq!(
        parse("x").unwrap_err().message(),
        "parse error: expected ( to open a list"
    );
    assert_eq!(
        parse("(x").unwrap_err().message(),
        "parse error: the tokens end inside a list"
    );
    assert_eq!(
        parse_fault_message(ParseFault::Unclosed),
        "parse error: the tokens end inside a list"
    );
}

#[test]
fn analyzer_error_message() {
    assert_eq!(AnalyzerError { ch: '#' }.message(), "unexpected character: #");
    assert_eq!(AnalyzerError { ch: '\u{e9}' }.message(), "unexpected character: \u{e9}");
}

#[test]
fn eval_error_messages() {
    assert_eq!(EvalError::Parse(ParseFault::MissingOpen).message(), "parse error: expected ( to open a list");
    assert_eq!(EvalError::UnboundSymbol("foo".to_string()).message(), "unbound symbol: foo");
    assert_eq!(EvalError::ArityError.message(), "invalid number of arguments");
    assert_eq!(EvalError::TypeError(Operand::Left).message(), "left operation must be an integer");
    assert_eq!(EvalError::TypeError(Operand::Right).message(), "right operation must be an integer");
    assert_eq!(EvalError::TypeError(Operand::Condition).message(), "condition must be a boolean");
    assert_eq!(EvalError::InvalidForm.message(), "invalid form");
    assert_eq!(EvalError::NotAProcedure.message(), "not a lambda");
    assert_eq!(EvalError::DivisionByZero.message(), "division by zero");
    assert_eq!(EvalError::Overflow.message(), "integer overflow");
    assert_eq!(EvalError::DepthExceeded.message(), "nesting too deep");
    let mut env = Meta::new();
    assert_eq!(eval("(foo 1)", &mut env).unwrap_err().message(), "unbound symbol: foo");
}
