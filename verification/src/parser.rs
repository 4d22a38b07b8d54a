//! The parser: tokens to one tree-shaped expression.
use crate::lexzer::{analyzer, tokenize, tokens_of, Analyzer, Token};
use crate::object::{exprs_of, lemma_list_view, Expr, Object};
use crate::text::join;
use vstd::prelude::*;

verus! {

/// Why a text is not a form.
#[derive(Debug, Clone, Copy, PartialEq, Eq)]
pub enum ParseFault {
    /// A list does not begin with an opening parenthesis.
    MissingOpen,
    /// The tokens end while a list is still open.
    Unclosed,
}

/// A failure of the parser.
#[derive(Debug)]
pub struct ParseError {
    pub kind: ParseFault,
}

/// What a message says of a fault.
pub open spec fn fault_text(fault: ParseFault) -> Seq<char> {
    match fault {
        ParseFault::MissingOpen => "expected ( to open a list"@,
        ParseFault::Unclosed => "the tokens end inside a list"@,
    }
}

/// The message that describes a fault of the parser.
pub fn parse_fault_message(fault: ParseFault) -> (r: String)
    ensures
        r@ == "parse error: "@ + fault_text(fault),
{
    match fault {
        ParseFault::MissingOpen => join("parse error: ", "expected ( to open a list"),
        ParseFault::Unclosed => join("parse error: ", "the tokens end inside a list"),
    }
}

impl ParseError {
    /// The message that describes this failure.
    pub fn message(&self) -> (r: String)
        ensures
            r@ == "parse error: "@ + fault_text(self.kind),
    {
        parse_fault_message(self.kind)
    }
}

/// A parsed piece: its value and the position of the first token after it.
pub struct Parsed<T> {
    pub value: T,
    pub next: int,
}

/// The items of an open list from token `i` on, appended to `acc`, up to the
/// parenthesis that closes the list; `None` where the tokens end before it.
pub open spec fn parse_items(tokens: Seq<Token>, i: int, acc: Seq<Expr>) -> Option<
    Parsed<Seq<Expr>>,
>
    decreases tokens.len() - i,
{
    if i < 0 || i >= tokens.len() {
        None
    } else {
        match tokens[i] {
            Token::Integer(n) => parse_items(tokens, i + 1, acc.push(Expr::Integer(n))),
            Token::Symbol(s) => parse_items(tokens, i + 1, acc.push(Expr::Symbol(s))),
            Token::RParen => Some(Parsed { value: acc, next: i + 1 }),
            Token::LParen => match parse_items(tokens, i + 1, Seq::empty()) {
                None => None,
                Some(inner) => if i < inner.next <= tokens.len() {
                    parse_items(tokens, inner.next, acc.push(Expr::List(inner.value)))
                } else {
                    None
                },
            },
        }
    }
}

/// The form that starts at token `i`.
pub open spec fn parse_form(tokens: Seq<Token>, i: int) -> Result<Parsed<Expr>, ParseFault> {
    if i < 0 || i >= tokens.len() || !(tokens[i] is LParen) {
        Err(ParseFault::MissingOpen)
    } else {
        match parse_items(tokens, i + 1, Seq::empty()) {
            None => Err(ParseFault::Unclosed),
            Some(items) => Ok(Parsed { value: Expr::List(items.value), next: items.next }),
        }
    }
}

/// The first form of a text; what follows it is ignored.
pub open spec fn parse_text(s: Seq<char>) -> Result<Expr, ParseFault> {
    match parse_form(tokenize(s), 0) {
        Ok(form) => Ok(form.value),
        Err(fault) => Err(fault),
    }
}

/// A list that closes ends after its first token and within the tokens, so
/// the bound that `parse_items` tests on a nested list always holds.
pub proof fn lemma_parse_items_next(tokens: Seq<Token>, i: int, acc: Seq<Expr>)
    ensures
        parse_items(tokens, i, acc) matches Some(p) ==> i < p.next <= tokens.len(),
    decreases tokens.len() - i,
{
    if 0 <= i < tokens.len() {
        match tokens[i] {
            Token::Integer(n) => lemma_parse_items_next(tokens, i + 1, acc.push(Expr::Integer(n))),
            Token::Symbol(s) => lemma_parse_items_next(tokens, i + 1, acc.push(Expr::Symbol(s))),
            Token::RParen => {},
            Token::LParen => {
                lemma_parse_items_next(tokens, i + 1, Seq::empty());
                match parse_items(tokens, i + 1, Seq::empty()) {
                    None => {},
                    Some(inner) => lemma_parse_items_next(
                        tokens,
                        inner.next,
                        acc.push(Expr::List(inner.value)),
                    ),
                }
            },
        }
    }
}

/// Parses the form that starts at token `start`, and tells where it ends.
pub fn parse_list(tokens: &Vec<Analyzer>, start: usize) -> (r: Result<(Object, usize), ParseError>)
    ensures
        match parse_form(tokens_of(tokens@), start as int) {
            Ok(form) => r is Ok && r->Ok_0.0@ == form.value && r->Ok_0.1 == form.next && start
                < form.next <= tokens.len(),
            Err(fault) => r is Err && r->Err_0.kind == fault,
        },
    decreases tokens.len() - start,
{
    if start >= tokens.len() {
        return Err(ParseError { kind: ParseFault::MissingOpen });
    }
    match &tokens[start] {
        Analyzer::LParen => {},
        _ => {
            return Err(ParseError { kind: ParseFault::MissingOpen });
        },
    }
    let ghost ts = tokens_of(tokens@);
    let mut list: Vec<Object> = Vec::new();
    let mut i: usize = start + 1;
    assert(exprs_of(list@) =~= Seq::empty());
    while i < tokens.len()
        invariant
            start < i <= tokens.len(),
            ts == tokens_of(tokens@),
            ts[start as int] is LParen,
            parse_items(ts, start + 1, Seq::empty()) == parse_items(ts, i as int, exprs_of(list@)),
        decreases tokens.len() - i,
    {
        let ghost before = list@;
        assert(ts[i as int] == tokens[i as int]@);
        match &tokens[i] {
            Analyzer::Integer(n) => {
                list.push(Object::Integer(*n));
                assert(exprs_of(list@) =~= exprs_of(before).push(Expr::Integer(*n)));
                i += 1;
            },
            Analyzer::Symbol(s) => {
                list.push(Object::Symbol(s.clone()));
                assert(exprs_of(list@) =~= exprs_of(before).push(Expr::Symbol(s@)));
                i += 1;
            },
            Analyzer::RParen => {
                proof {
                    lemma_list_view(list);
                }
                return Ok((Object::List(list), i + 1));
            },
            Analyzer::LParen => {
                match parse_list(tokens, i) {
                    Err(e) => {
                        return Err(e);
                    },
                    Ok((sub, next)) => {
                        list.push(sub);
                        assert(exprs_of(list@) =~= exprs_of(before).push(sub@));
                        i = next;
                    },
                }
            },
        }
    }
    Err(ParseError { kind: ParseFault::Unclosed })
}

/// Parses the first form of a text.
///
/// The text must begin with an opening parenthesis, and every list that it
/// opens must be closed before the tokens end; tokens after the first form
/// are ignored.
pub fn parse(param: &str) -> (r: Result<Object, ParseError>)
    ensures
        match parse_text(param@) {
            Ok(form) => r is Ok && r->Ok_0@ == form,
            Err(fault) => r is Err && r->Err_0.kind == fault,
        },
{
    let tokens = match analyzer(param) {
        Ok(tokens) => tokens,
        Err(_) => Vec::new(),
    };
    match parse_list(&tokens, 0) {
        Ok((form, _)) => Ok(form),
        Err(e) => Err(e),
    }
}

/// Whether an expression can be written as tokens: an integer, a symbol, or
/// a list of such expressions.
pub open spec fn is_syntax(e: Expr) -> bool
    decreases e,
{
    match e {
        Expr::Integer(_) => true,
        Expr::Symbol(_) => true,
        Expr::List(items) => forall|i: int|
            0 <= i < items.len() ==> is_syntax(#[trigger] items[i]),
        _ => false,
    }
}

/// The tokens that write an expression.
pub open spec fn unparse(e: Expr) -> Seq<Token>
    decreases e, 0nat,
{
    match e {
        Expr::Integer(n) => seq![Token::Integer(n)],
        Expr::Symbol(s) => seq![Token::Symbol(s)],
        Expr::List(items) => seq![Token::LParen] + unparse_from(items, 0) + seq![Token::RParen],
        _ => Seq::empty(),
    }
}

/// The tokens that write the expressions of a sequence from the `i`-th on.
pub open spec fn unparse_from(items: Seq<Expr>, i: int) -> Seq<Token>
    decreases items, items.len() - i,
{
    if i < 0 || i >= items.len() {
        Seq::empty()
    } else {
        unparse(items[i]) + unparse_from(items, i + 1)
    }
}

/// Whether the tokens `w` stand in `ts` from position `p` on.
pub open spec fn written_at(ts: Seq<Token>, p: int, w: Seq<Token>) -> bool {
    &&& 0 <= p
    &&& p + w.len() <= ts.len()
    &&& forall|k: int| 0 <= k < w.len() ==> ts[p + k] == #[trigger] w[k]
}

/// Each element of a list that can be written can be written.
proof fn lemma_syntax_item(items: Seq<Expr>, i: int)
    requires
        is_syntax(Expr::List(items)),
        0 <= i < items.len(),
    ensures
        is_syntax(items[i]),
{
    assert(is_syntax(Expr::List(items)->List_0[i]));
}

/// Where two runs of tokens stand one after the other, each stands in its place.
proof fn lemma_written_split(ts: Seq<Token>, p: int, a: Seq<Token>, b: Seq<Token>)
    requires
        written_at(ts, p, a + b),
    ensures
        written_at(ts, p, a),
        written_at(ts, p + a.len(), b),
{
    assert forall|k: int| 0 <= k < a.len() implies ts[p + k] == #[trigger] a[k] by {
        assert((a + b)[k] == a[k]);
    }
    assert forall|k: int| 0 <= k < b.len() implies ts[p + a.len() + k] == #[trigger] b[k] by {
        assert((a + b)[a.len() + k] == b[k]);
    }
}

/// Where the rest of a written list and its closing parenthesis stand at
/// position `p`, the parser reads exactly that rest and ends behind the
/// parenthesis.
pub proof fn lemma_parse_items_written(
    ts: Seq<Token>,
    p: int,
    items: Seq<Expr>,
    i: int,
    acc: Seq<Expr>,
)
    requires
        0 <= i <= items.len(),
        is_syntax(Expr::List(items)),
        written_at(ts, p, unparse_from(items, i) + seq![Token::RParen]),
    ensures
        parse_items(ts, p, acc) == Some(
            Parsed { value: acc + items.skip(i), next: p + unparse_from(items, i).len() + 1 },
        ),
    decreases items, items.len() - i,
{
    let rest = unparse_from(items, i) + seq![Token::RParen];
    if i == items.len() {
        assert(rest[0] == Token::RParen);
        assert(acc + items.skip(i) =~= acc);
    } else {
        let e = items[i];
        let tail = unparse_from(items, i + 1) + seq![Token::RParen];
        assert(rest =~= unparse(e) + tail);
        lemma_written_split(ts, p, unparse(e), tail);
        lemma_syntax_item(items, i);
        assert(acc.push(e) + items.skip(i + 1) =~= acc + items.skip(i));
        assert(decreases_to!(items => items[i]));
        match e {
            Expr::Integer(n) => {
                assert(unparse(e)[0] == Token::Integer(n));
                lemma_parse_items_written(ts, p + 1, items, i + 1, acc.push(e));
            },
            Expr::Symbol(s) => {
                assert(unparse(e)[0] == Token::Symbol(s));
                lemma_parse_items_written(ts, p + 1, items, i + 1, acc.push(e));
            },
            Expr::List(sub) => {
                let inner = unparse_from(sub, 0) + seq![Token::RParen];
                let open = seq![Token::LParen];
                assert(unparse(e) =~= open + inner);
                lemma_written_split(ts, p, open, inner);
                assert(open[0] == Token::LParen);
                lemma_parse_items_written(ts, p + 1, sub, 0, Seq::empty());
                assert(Seq::<Expr>::empty() + sub.skip(0) =~= sub);
                lemma_parse_items_written(ts, p + unparse(e).len(), items, i + 1, acc.push(e));
            },
            _ => {},
        }
    }
}

/// Every list of integers, symbols and such lists, written as tokens and
/// followed by any tokens, parses back to itself, and the parser stops right
/// behind it.
pub proof fn theorem_parse_unparse(form: Expr, rest: Seq<Token>)
    requires
        form is List,
        is_syntax(form),
    ensures
        parse_form(unparse(form) + rest, 0) == Ok::<Parsed<Expr>, ParseFault>(
            Parsed { value: form, next: unparse(form).len() as int },
        ),
{
    let items = form->List_0;
    let ts = unparse(form) + rest;
    let inner = unparse_from(items, 0) + seq![Token::RParen];
    let open = seq![Token::LParen];
    assert(unparse(form) =~= open + inner);
    assert(written_at(ts, 0, unparse(form))) by {
        assert forall|k: int| 0 <= k < unparse(form).len() implies ts[0 + k]
            == #[trigger] unparse(form)[k] by {}
    }
    lemma_written_split(ts, 0, open, inner);
    assert(open[0] == Token::LParen);
    lemma_parse_items_written(ts, 1, items, 0, Seq::empty());
    assert(Seq::<Expr>::empty() + items.skip(0) =~= items);
}

} // verus!
