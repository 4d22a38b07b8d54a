use lisp_sh::lexzer::{analyzer, classify, parse_integer, Analyzer};

fn tokens(text: &str) -> Vec<Analyzer> {
    analyzer(text).unwrap()
}

fn sym(s: &str) -> Analyzer {
    Analyzer::Symbol(s.to_string())
}

#[test]
fn test_add() {
    let param = analyzer("(+ 1 2)").unwrap_or(vec![]);
    assert_eq!(
        param,
        vec![
            Analyzer::LParen,
            Analyzer::Symbol("+".to_string()),
            Analyzer::Integer(1),
            Analyzer::Integer(2),
            Analyzer::RParen,
        ]
    );
}

#[test]
fn empty_text_has_no_tokens() {
    assert_eq!(tokens(""), vec![]);
    assert_eq!(tokens("   \t\n "), vec![]);
}

#[test]
fn parentheses_split_words() {
    assert_eq!(
        tokens("(a(b)c)"),
        vec![
            Analyzer::LParen,
            sym("a"),
            Analyzer::LParen,
            sym("b"),
            Analyzer::RParen,
            sym("c"),
            Analyzer::RParen,
        ]
    );
    assert_eq!(tokens("12(34"), vec![Analyzer::Integer(12), Analyzer::LParen, Analyzer::Integer(34)]);
}

#[test]
fn every_kind_of_white_space_separates() {
    assert_eq!(
        tokens("a\tb\nc\r\nd\u{3000}e\u{a0}f\u{2003}g\u{85}h"),
        vec![sym("a"), sym("b"), sym("c"), sym("d"), sym("e"), sym("f"), sym("g"), sym("h")]
    );
    assert_eq!(tokens("a\u{200b}b"), vec![sym("a\u{200b}b")]);
}

#[test]
fn signed_literals_are_integers() {
    assert_eq!(tokens("-5 +7 007 0"), vec![
        Analyzer::Integer(-5),
        Analyzer::Integer(7),
        Analyzer::Integer(7),
        Analyzer::Integer(0),
    ]);
}

#[test]
fn words_that_are_no_literal_are_symbols() {
    assert_eq!(
        tokens("- + 12a a12 1-2 --1 +-1 1.5 x"),
        vec![
            sym("-"),
            sym("+"),
            sym("12a"),
            sym("a12"),
            sym("1-2"),
            sym("--1"),
            sym("+-1"),
            sym("1.5"),
            sym("x"),
        ]
    );
    assert_eq!(tokens("\u{663}"), vec![sym("\u{663}")]);
}

#[test]
fn literals_at_the_range_limits() {
    assert_eq!(parse_integer("9223372036854775807"), Some(i64::MAX));
    assert_eq!(parse_integer("-9223372036854775808"), Some(i64::MIN));
    assert_eq!(parse_integer("9223372036854775808"), None);
    assert_eq!(parse_integer("-9223372036854775809"), None);
    assert_eq!(parse_integer("+9223372036854775807"), Some(i64::MAX));
    assert_eq!(parse_integer("00000000000000000000000000000000000000017"), Some(17));
    assert_eq!(parse_integer("99999999999999999999999999999999999999999999"), None);
    assert_eq!(parse_integer(""), None);
    assert_eq!(
        tokens("9223372036854775808"),
        vec![sym("9223372036854775808")]
    );
}

#[test]
fn parse_integer_agrees_with_std() {
    let words = [
        "0", "-0", "+0", "1", "-1", "42", "-", "+", "", "4 2", "4_2", "0x10", "1e3", "١٢", "123456789012345678",
        "-123456789012345678901", "18446744073709551616", "-00009", "9223372036854775806",
    ];
    for w in words {
        assert_eq!(parse_integer(w), w.parse::<i64>().ok(), "{}", w);
    }
}

#[test]
fn classify_gives_integer_or_symbol() {
    assert_eq!(classify("15"), Analyzer::Integer(15));
    assert_eq!(classify("define"), sym("define"));
    assert_eq!(classify("!="), sym("!="));
}

#[test]
fn space_agrees_with_std_on_every_character() {
    let mut u: u32 = 0;
    while u <= 0x10FFFF {
        if let Some(c) = char::from_u32(u) {
            assert_eq!(lisp_sh::lexzer::space(c), c.is_whitespace(), "U+{:04X}", u);
            assert_eq!(
                lisp_sh::lexzer::delimiter(c),
                c.is_whitespace() || c == '(' || c == ')',
                "U+{:04X}",
                u
            );
        }
        u += 1;
    }
}

fn by_padding_and_splitting(text: &str) -> Vec<Analyzer> {
    let padded = text.replace("(", " ( ").replace(")", " ) ");
    let mut out = Vec::new();
    for word in padded.split_whitespace() {
        out.push(match word {
            "(" => Analyzer::LParen,
            ")" => Analyzer::RParen,
            _ => match word.parse::<i64>() {
                Ok(n) => Analyzer::Integer(n),
                Err(_) => Analyzer::Symbol(word.to_string()),
            },
        });
    }
    out
}

#[test]
fn analyzer_agrees_with_padding_and_splitting() {
    let texts = [
        "",
        " ",
        "(",
        ")",
        "()",
        "(+ 1 2)",
        "(define square (lambda (n) (* n n)))",
        "((a)b(c))",
        "  lead and trail  ",
        "-1 +1 - + -a 1- 00 -00 +-0",
        "(1(2(3(4)5)6)7)",
        "a\tb\u{2028}c\u{1680}d",
        "\u{feff}x",
        "(!= 9223372036854775807 -9223372036854775808 9223372036854775808)",
        ")))(((",
        "(\u{e9}t\u{e9} \u{1f600})",
    ];
    for text in texts {
        assert_eq!(tokens(text), by_padding_and_splitting(text), "{:?}", text);
    }
}
