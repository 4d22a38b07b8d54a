//! The tokenizer: text to parentheses, integers and symbols.
use crate::text::{char_text, decimal, join};
use vstd::prelude::*;
use vstd::string::StrSliceExecFns;

verus! {

/// The mathematical value of a token.
pub enum Token {
    Integer(i64),
    Symbol(Seq<char>),
    LParen,
    RParen,
}

/// A token of the surface syntax.
#[derive(Debug, PartialEq)]
pub enum Analyzer {
    Integer(i64),
    Symbol(String),
    LParen,
    RParen,
}

impl View for Analyzer {
    type V = Token;

    open spec fn view(&self) -> Token {
        match self {
            Analyzer::Integer(n) => Token::Integer(*n),
            Analyzer::Symbol(s) => Token::Symbol(s@),
            Analyzer::LParen => Token::LParen,
            Analyzer::RParen => Token::RParen,
        }
    }
}

impl Clone for Analyzer {
    fn clone(&self) -> (copy: Self)
        ensures
            copy@ == self@,
    {
        match self {
            Analyzer::Integer(n) => Analyzer::Integer(*n),
            Analyzer::Symbol(s) => Analyzer::Symbol(s.clone()),
            Analyzer::LParen => Analyzer::LParen,
            Analyzer::RParen => Analyzer::RParen,
        }
    }
}

impl Analyzer {
    /// The token as a word of text: a word that tokenizes to this token alone.
    pub fn text(&self) -> (r: String)
        ensures
            match self@ {
                Token::Integer(n) => int_literal(r@) == Some(n),
                Token::Symbol(s) => r@ == s,
                Token::LParen => r@ == "("@,
                Token::RParen => r@ == ")"@,
            },
    {
        match self {
            Analyzer::Integer(n) => decimal(*n),
            Analyzer::Symbol(s) => s.clone(),
            Analyzer::LParen => "(".to_owned(),
            Analyzer::RParen => ")".to_owned(),
        }
    }
}

/// An illegal character in the input. The tokenizer accepts every character,
/// so it never reports one.
#[derive(Debug)]
pub struct AnalyzerError {
    pub ch: char,
}

impl AnalyzerError {
    /// The message that describes this failure.
    pub fn message(&self) -> (r: String)
        ensures
            r@ == "unexpected character: "@ + seq![self.ch],
    {
        let ch = char_text(self.ch);
        join("unexpected character: ", ch.as_str())
    }
}

/// The values of a sequence of tokens, element by element.
pub open spec fn tokens_of(tokens: Seq<Analyzer>) -> Seq<Token> {
    Seq::new(tokens.len(), |i: int| tokens[i]@)
}

/// Whether a character has the Unicode property White_Space.
pub open spec fn is_space(c: char) -> bool {
    let u = c as u32;
    ||| 0x09 <= u <= 0x0D
    ||| u == 0x20
    ||| u == 0x85
    ||| u == 0xA0
    ||| u == 0x1680
    ||| 0x2000 <= u <= 0x200A
    ||| u == 0x2028
    ||| u == 0x2029
    ||| u == 0x202F
    ||| u == 0x205F
    ||| u == 0x3000
}

/// Whether a character ends a word: white space or a parenthesis.
pub open spec fn is_delimiter(c: char) -> bool {
    is_space(c) || c == '(' || c == ')'
}

/// Whether a character is an ASCII decimal digit.
pub open spec fn is_digit(c: char) -> bool {
    0x30 <= c as u32 <= 0x39
}

/// The number of characters from position `i` up to the next delimiter or the end.
pub open spec fn word_len(s: Seq<char>, i: int) -> nat
    decreases s.len() - i,
{
    if i < 0 || i >= s.len() || is_delimiter(s[i]) {
        0
    } else {
        1 + word_len(s, i + 1)
    }
}

/// The number that a sequence of decimal digits writes.
pub open spec fn digits_value(s: Seq<char>) -> int
    decreases s.len(),
{
    if s.len() == 0 {
        0
    } else {
        10 * digits_value(s.drop_last()) + (s.last() as u32 - 0x30)
    }
}

/// Whether every character of a sequence is a decimal digit.
pub open spec fn all_digits(s: Seq<char>) -> bool {
    forall|i: int| 0 <= i < s.len() ==> is_digit(#[trigger] s[i])
}

/// A word without its sign, if it starts with one.
pub open spec fn unsigned_part(w: Seq<char>) -> Seq<char> {
    if w.len() > 0 && (w[0] == '-' || w[0] == '+') {
        w.subrange(1, w.len() as int)
    } else {
        w
    }
}

/// The integer that a word writes, if it is a literal of a signed 64-bit
/// integer: an optional sign, then one or more decimal digits, the whole in range.
pub open spec fn int_literal(w: Seq<char>) -> Option<i64> {
    let digits = unsigned_part(w);
    let magnitude = digits_value(digits);
    let v = if w.len() > 0 && w[0] == '-' {
        -magnitude
    } else {
        magnitude
    };
    if digits.len() > 0 && all_digits(digits) && i64::MIN <= v <= i64::MAX {
        Some(v as i64)
    } else {
        None
    }
}

/// The token that a word stands for: an integer where the word is an integer
/// literal, a symbol otherwise.
pub open spec fn word_token(w: Seq<char>) -> Token {
    match int_literal(w) {
        Some(n) => Token::Integer(n),
        None => Token::Symbol(w),
    }
}

/// The tokens of the text from position `i` on.
pub open spec fn tokens_from(s: Seq<char>, i: int) -> Seq<Token>
    decreases s.len() - i,
    via tokens_from_decreases
{
    if i < 0 || i >= s.len() {
        Seq::empty()
    } else if s[i] == '(' {
        seq![Token::LParen] + tokens_from(s, i + 1)
    } else if s[i] == ')' {
        seq![Token::RParen] + tokens_from(s, i + 1)
    } else if is_space(s[i]) {
        tokens_from(s, i + 1)
    } else {
        let j = i + 1 + word_len(s, i + 1);
        seq![word_token(s.subrange(i, j))] + tokens_from(s, j)
    }
}

#[via_fn]
proof fn tokens_from_decreases(s: Seq<char>, i: int) {
    if 0 <= i < s.len() {
        lemma_word_len_bound(s, i + 1);
    }
}

/// The tokens of a text: each parenthesis is a token of its own, and every
/// other maximal run of characters that are neither white space nor a
/// parenthesis is one word.
pub open spec fn tokenize(s: Seq<char>) -> Seq<Token> {
    tokens_from(s, 0)
}

/// Tests whether a character is white space.
pub fn space(c: char) -> (r: bool)
    ensures
        r == is_space(c),
{
    let u: u32 = c as u32;
    (0x09 <= u && u <= 0x0D) || u == 0x20 || u == 0x85 || u == 0xA0 || u == 0x1680 || (0x2000 <= u
        && u <= 0x200A) || u == 0x2028 || u == 0x2029 || u == 0x202F || u == 0x205F || u == 0x3000
}

/// A word never runs past the end of the text.
pub proof fn lemma_word_len_bound(s: Seq<char>, i: int)
    requires
        0 <= i <= s.len(),
    ensures
        i + word_len(s, i) <= s.len(),
    decreases s.len() - i,
{
    if i < s.len() && !is_delimiter(s[i]) {
        lemma_word_len_bound(s, i + 1);
    }
}

/// Reads a word as a signed 64-bit integer literal.
pub fn parse_integer(word: &str) -> (r: Option<i64>)
    ensures
        r == int_literal(word@),
{
    let n: usize = word.unicode_len();
    if n == 0 {
        return None;
    }
    let first: char = word.get_char(0);
    let negative: bool = first == '-';
    let start: usize = if first == '-' || first == '+' {
        1
    } else {
        0
    };
    if start >= n {
        return None;
    }
    let ghost digits: Seq<char> = unsigned_part(word@);
    let mut acc: i128 = 0;
    let mut too_big: bool = false;
    let mut k: usize = start;
    while k < n
        invariant
            start <= k <= n,
            n == word@.len(),
            digits == unsigned_part(word@),
            digits.len() == n - start,
            forall|j: int| 0 <= j < digits.len() ==> digits[j] == word@[j + start],
            all_digits(digits.take(k - start)),
            !too_big ==> acc == digits_value(digits.take(k - start)) && 0 <= acc
                <= 0x8000_0000_0000_0000,
            too_big ==> digits_value(digits.take(k - start)) > 0x8000_0000_0000_0000,
        decreases n - k,
    {
        let c: char = word.get_char(k);
        let u: u32 = c as u32;
        if u < 0x30 || u > 0x39 {
            assert(!is_digit(digits[k - start]));
            return None;
        }
        proof {
            assert(digits.take(k + 1 - start).drop_last() =~= digits.take(k - start));
            assert(digits.take(k + 1 - start).last() == c);
        }
        if !too_big {
            acc = acc * 10 + ((u - 0x30) as i128);
            if acc > 0x8000_0000_0000_0000 {
                too_big = true;
            }
        }
        k += 1;
    }
    assert(digits.take(n - start) =~= digits);
    if too_big {
        None
    } else if negative {
        Some((-acc) as i64)
    } else if acc <= 0x7fff_ffff_ffff_ffff {
        Some(acc as i64)
    } else {
        None
    }
}

/// The token that a word stands for.
pub fn classify(word: &str) -> (t: Analyzer)
    ensures
        t@ == word_token(word@),
{
    match parse_integer(word) {
        Some(n) => Analyzer::Integer(n),
        None => Analyzer::Symbol(word.to_owned()),
    }
}

/// Splits a text into tokens. Every text has a tokenization, so the result
/// is always `Ok`.
pub fn analyzer(param: &str) -> (r: Result<Vec<Analyzer>, AnalyzerError>)
    ensures
        r is Ok,
        tokens_of(r->Ok_0@) == tokenize(param@),
{
    let n: usize = param.unicode_len();
    let mut tokens: Vec<Analyzer> = Vec::new();
    let mut i: usize = 0;
    assert(tokens_of(tokens@) + tokens_from(param@, 0) =~= tokens_from(param@, 0));
    while i < n
        invariant
            i <= n,
            n == param@.len(),
            tokenize(param@) == tokens_of(tokens@) + tokens_from(param@, i as int),
        decreases n - i,
    {
        let ghost before = tokens@;
        let ghost rest = tokens_from(param@, i as int);
        let c: char = param.get_char(i);
        if c == '(' {
            tokens.push(Analyzer::LParen);
            i += 1;
        } else if c == ')' {
            tokens.push(Analyzer::RParen);
            i += 1;
        } else if space(c) {
            i += 1;
        } else {
            let mut j: usize = i + 1;
            while j < n && !delimiter(param.get_char(j))
                invariant
                    i < j <= n,
                    n == param@.len(),
                    j + word_len(param@, j as int) == i + 1 + word_len(param@, i + 1),
                decreases n - j,
            {
                j += 1;
            }
            let word = param.substring_char(i, j);
            tokens.push(classify(word));
            i = j;
        }
        assert(tokens_of(tokens@) + tokens_from(param@, i as int) =~= tokens_of(before) + rest);
    }
    assert(tokens_of(tokens@) + tokens_from(param@, i as int) =~= tokens_of(tokens@));
    Ok(tokens)
}

/// Tests whether a character ends a word.
pub fn delimiter(c: char) -> (r: bool)
    ensures
        r == is_delimiter(c),
{
    c == '(' || c == ')' || space(c)
}

/// Whether a sequence of characters is a word: not empty, and free of white
/// space and parentheses.
pub open spec fn is_word(w: Seq<char>) -> bool {
    &&& w.len() > 0
    &&& forall|k: int| 0 <= k < w.len() ==> !is_delimiter(#[trigger] w[k])
}

/// Whether a token could come from a word: a symbol is a word that is no
/// integer literal.
pub open spec fn well_formed(t: Token) -> bool {
    match t {
        Token::Symbol(w) => is_word(w) && int_literal(w) is None,
        _ => true,
    }
}

/// No character counted by `word_len` is a delimiter.
pub proof fn lemma_word_chars(s: Seq<char>, i: int, k: int)
    requires
        0 <= i <= k < i + word_len(s, i),
    ensures
        k < s.len(),
        !is_delimiter(s[k]),
    decreases s.len() - i,
{
    if k > i {
        lemma_word_chars(s, i + 1, k);
    }
}

/// Every symbol among the tokens of a text is a word that is no integer
/// literal: no token holds white space or a parenthesis.
pub proof fn theorem_symbols_are_words(s: Seq<char>, i: int)
    requires
        0 <= i,
    ensures
        forall|t: int|
            0 <= t < tokens_from(s, i).len() ==> well_formed(#[trigger] tokens_from(s, i)[t]),
    decreases s.len() - i,
{
    if i < s.len() {
        let c = s[i];
        let all = tokens_from(s, i);
        if is_delimiter(c) {
            theorem_symbols_are_words(s, i + 1);
            let rest = tokens_from(s, i + 1);
            assert forall|t: int| 0 <= t < all.len() implies well_formed(#[trigger] all[t]) by {
                if c == '(' || c == ')' {
                    if t > 0 {
                        assert(all[t] == rest[t - 1]);
                    }
                }
            }
        } else {
            let j = i + 1 + word_len(s, i + 1);
            lemma_word_len_bound(s, i + 1);
            let w = s.subrange(i, j);
            assert forall|k: int| 0 <= k < w.len() implies !is_delimiter(#[trigger] w[k]) by {
                if k > 0 {
                    lemma_word_chars(s, i + 1, i + k);
                }
            }
            assert(well_formed(word_token(w)));
            theorem_symbols_are_words(s, j);
            let rest = tokens_from(s, j);
            assert forall|t: int| 0 <= t < all.len() implies well_formed(#[trigger] all[t]) by {
                if t > 0 {
                    assert(all[t] == rest[t - 1]);
                }
            }
        }
    }
}

} // verus!
