//! The lexical grammar, as mathematics.
//!
//! A *lexeme* is a word of one of the token rules. At each place the lexer
//! passes over blanks and comments and then takes the longest lexeme that
//! starts there (maximal munch); [`token_of`] says which token that lexeme is.
//! All of it is stated over the text that is still to be read.

use crate::tokens::{LexicalErrorKind, SpecToken};
use vstd::prelude::*;

verus! {

// ------------------------------------------------------------------
// Characters
// ------------------------------------------------------------------
/// Blank, tab, line feed or form feed.
pub open spec fn is_whitespace(c: char) -> bool {
    c == ' ' || c == '\t' || c == '\n' || c == '\x0c'
}

pub open spec fn is_letter(c: char) -> bool {
    ('a' <= c && c <= 'z') || ('A' <= c && c <= 'Z')
}

pub open spec fn is_digit(c: char) -> bool {
    '0' <= c && c <= '9'
}

pub open spec fn is_nonzero_digit(c: char) -> bool {
    '1' <= c && c <= '9'
}

/// A character that may start an identifier: a letter or `_`.
pub open spec fn is_word_start(c: char) -> bool {
    is_letter(c) || c == '_'
}

/// A character that may continue an identifier: a letter, a digit or `_`.
pub open spec fn is_word_char(c: char) -> bool {
    is_letter(c) || is_digit(c) || c == '_'
}

// ------------------------------------------------------------------
// The rules
// ------------------------------------------------------------------
/// `[a-zA-Z_][a-zA-Z0-9_]*`
pub open spec fn is_identifier_text(w: Seq<char>) -> bool {
    &&& w.len() >= 1
    &&& is_word_start(w[0])
    &&& forall|i: int| 1 <= i < w.len() ==> is_word_char(#[trigger] w[i])
}

/// `[1-9][0-9]*`
pub open spec fn is_integer_text(w: Seq<char>) -> bool {
    &&& w.len() >= 1
    &&& is_nonzero_digit(w[0])
    &&& forall|i: int| 1 <= i < w.len() ==> is_digit(#[trigger] w[i])
}

/// `[0-9]+\.[1-9][0-9]*`, with the point at index `point`.
pub open spec fn is_float_text_with_point(w: Seq<char>, point: int) -> bool {
    &&& 1 <= point
    &&& point + 1 < w.len()
    &&& forall|i: int| 0 <= i < point ==> is_digit(#[trigger] w[i])
    &&& w[point] == '.'
    &&& is_nonzero_digit(w[point + 1])
    &&& forall|i: int| point + 1 < i < w.len() ==> is_digit(#[trigger] w[i])
}

/// `[0-9]+\.[1-9][0-9]*`
pub open spec fn is_float_text(w: Seq<char>) -> bool {
    exists|point: int| is_float_text_with_point(w, point)
}

/// `"[A-Za-z0-9_]*"`
pub open spec fn is_string_text(w: Seq<char>) -> bool {
    &&& w.len() >= 2
    &&& w[0] == '"'
    &&& w[w.len() - 1] == '"'
    &&& forall|i: int| 1 <= i < w.len() - 1 ==> is_word_char(#[trigger] w[i])
}

/// The keyword that `w` spells, if it spells one.
pub open spec fn keyword_token(w: Seq<char>) -> Option<SpecToken> {
    if w == seq!['p', 'r', 'o', 'g', 'r', 'a', 'm'] {
        Some(SpecToken::KeywordProgram)
    } else if w == seq!['m', 'a', 'i', 'n'] {
        Some(SpecToken::KeywordMain)
    } else if w == seq!['p', 'r', 'i', 'n', 't'] {
        Some(SpecToken::KeywordPrint)
    } else if w == seq!['i', 'f'] {
        Some(SpecToken::KeywordIf)
    } else if w == seq!['e', 'l', 's', 'e'] {
        Some(SpecToken::KeywordElse)
    } else if w == seq!['w', 'h', 'i', 'l', 'e'] {
        Some(SpecToken::KeywordWhile)
    } else if w == seq!['d', 'o'] {
        Some(SpecToken::KeywordDo)
    } else if w == seq!['e', 'n', 'd'] {
        Some(SpecToken::KeywordEnd)
    } else if w == seq!['i', 'n', 't'] {
        Some(SpecToken::KeywordInt)
    } else if w == seq!['f', 'l', 'o', 'a', 't'] {
        Some(SpecToken::KeywordFloat)
    } else if w == seq!['v', 'a', 'r'] {
        Some(SpecToken::KeywordVar)
    } else if w == seq!['v', 'o', 'i', 'd'] {
        Some(SpecToken::KeywordVoid)
    } else {
        None
    }
}

/// The punctuation mark or operator that `w` spells, if it spells one.
pub open spec fn symbol_token(w: Seq<char>) -> Option<SpecToken> {
    if w == seq!['('] {
        Some(SpecToken::LParen)
    } else if w == seq![')'] {
        Some(SpecToken::RParen)
    } else if w == seq!['['] {
        Some(SpecToken::LBraket)
    } else if w == seq![']'] {
        Some(SpecToken::RBraket)
    } else if w == seq!['{'] {
        Some(SpecToken::LBrace)
    } else if w == seq!['}'] {
        Some(SpecToken::RBrace)
    } else if w == seq![';'] {
        Some(SpecToken::Semicolon)
    } else if w == seq![':'] {
        Some(SpecToken::TwoPoints)
    } else if w == seq![','] {
        Some(SpecToken::Comma)
    } else if w == seq!['='] {
        Some(SpecToken::AssignSimbol)
    } else if w == seq!['!', '='] {
        Some(SpecToken::NotEqual)
    } else if w == seq!['>'] {
        Some(SpecToken::BigerThan)
    } else if w == seq!['<'] {
        Some(SpecToken::SmallerThan)
    } else if w == seq!['+'] {
        Some(SpecToken::OperatorAdd)
    } else if w == seq!['-'] {
        Some(SpecToken::OperatorSub)
    } else if w == seq!['*'] {
        Some(SpecToken::OperatorMul)
    } else if w == seq!['/'] {
        Some(SpecToken::OperatorDiv)
    } else {
        None
    }
}

/// Whether `w` is a word of some token rule. (A keyword is a word of the
/// identifier rule too.)
pub open spec fn is_lexeme(w: Seq<char>) -> bool {
    ||| is_identifier_text(w)
    ||| is_integer_text(w)
    ||| is_float_text(w)
    ||| is_string_text(w)
    ||| symbol_token(w) is Some
}

/// The value of a decimal digit.
pub open spec fn digit_value(c: char) -> nat {
    (c as u32 - '0' as u32) as nat
}

/// The number that a word of decimal digits denotes.
pub open spec fn decimal_value(w: Seq<char>) -> nat
    decreases w.len(),
{
    if w.len() == 0 {
        0
    } else {
        10 * decimal_value(w.drop_last()) + digit_value(w.last())
    }
}

/// The token that the lexeme `w` stands for. A keyword wins over the
/// identifier rule; an integer literal beyond `i64::MAX` is an error.
pub open spec fn token_of(w: Seq<char>) -> Result<SpecToken, LexicalErrorKind> {
    if keyword_token(w) is Some {
        Ok(keyword_token(w)->0)
    } else if is_identifier_text(w) {
        Ok(SpecToken::Identifier(w))
    } else if is_integer_text(w) {
        if decimal_value(w) <= i64::MAX {
            Ok(SpecToken::Integer(decimal_value(w) as i64))
        } else {
            Err(LexicalErrorKind::InvalidInteger)
        }
    } else if is_float_text(w) {
        Ok(SpecToken::Float(w))
    } else if is_string_text(w) {
        Ok(SpecToken::String(w.subrange(1, w.len() - 1)))
    } else if symbol_token(w) is Some {
        Ok(symbol_token(w)->0)
    } else {
        Err(LexicalErrorKind::InvalidToken)
    }
}

// ------------------------------------------------------------------
// Blanks and comments
// ------------------------------------------------------------------
/// How much of `r` the rest of a comment takes: everything up to the first
/// line feed, and that line feed; all of `r` where it holds none.
pub open spec fn line_len(r: Seq<char>) -> nat
    decreases r.len(),
{
    if r.len() == 0 {
        0
    } else if r[0] == '\n' {
        1
    } else {
        1 + line_len(r.skip(1))
    }
}

/// How much of the start of `r` is blanks and comments. A comment starts
/// with `#` and runs to the end of its line.
pub open spec fn trivia_len(r: Seq<char>) -> nat
    decreases r.len(),
{
    if r.len() == 0 {
        0
    } else if is_whitespace(r[0]) {
        1 + trivia_len(r.skip(1))
    } else if r[0] == '#' {
        let n = 1 + line_len(r.skip(1));
        proof {
            lemma_line_len_bound(r.skip(1));
        }
        n + trivia_len(r.skip(n as int))
    } else {
        0
    }
}

pub proof fn lemma_line_len_bound(r: Seq<char>)
    ensures
        line_len(r) <= r.len(),
        r.len() > 0 ==> line_len(r) > 0,
    decreases r.len(),
{
    if r.len() > 0 && r[0] != '\n' {
        lemma_line_len_bound(r.skip(1));
    }
}

pub proof fn lemma_trivia_len_bound(r: Seq<char>)
    ensures
        trivia_len(r) <= r.len(),
    decreases r.len(),
{
    if r.len() == 0 {
    } else if is_whitespace(r[0]) {
        lemma_trivia_len_bound(r.skip(1));
    } else if r[0] == '#' {
        lemma_line_len_bound(r.skip(1));
        let n = 1 + line_len(r.skip(1));
        lemma_trivia_len_bound(r.skip(n as int));
    }
}

/// Behind the blanks and comments at the start of `r` no blank and no
/// comment starts.
pub proof fn lemma_trivia_ends(r: Seq<char>)
    ensures
        trivia_len(r) <= r.len(),
        trivia_len(r.skip(trivia_len(r) as int)) == 0,
    decreases r.len(),
{
    lemma_trivia_len_bound(r);
    if r.len() == 0 {
        assert(r.skip(0) =~= r);
    } else if is_whitespace(r[0]) {
        let rest = r.skip(1);
        lemma_trivia_ends(rest);
        assert(r.skip(trivia_len(r) as int) =~= rest.skip(trivia_len(rest) as int));
    } else if r[0] == '#' {
        lemma_line_len_bound(r.skip(1));
        let n = 1 + line_len(r.skip(1));
        let rest = r.skip(n as int);
        lemma_trivia_ends(rest);
        assert(r.skip(trivia_len(r) as int) =~= rest.skip(trivia_len(rest) as int));
    } else {
        assert(r.skip(0) =~= r);
    }
}

// ------------------------------------------------------------------
// Maximal munch
// ------------------------------------------------------------------
/// The first `n` characters of `r` are a lexeme, and no longer start of `r`
/// is one.
pub open spec fn is_longest_lexeme(r: Seq<char>, n: int) -> bool {
    &&& 0 < n <= r.len()
    &&& is_lexeme(r.take(n))
    &&& forall|m: int| n < m <= r.len() ==> !is_lexeme(#[trigger] r.take(m))
}

/// Some start of `r` is a lexeme.
pub open spec fn starts_with_lexeme(r: Seq<char>) -> bool {
    exists|n: int| is_longest_lexeme(r, n)
}

/// The length of the longest lexeme that `r` starts with.
pub open spec fn lexeme_len(r: Seq<char>) -> int {
    choose|n: int| is_longest_lexeme(r, n)
}

/// There is one longest lexeme at most.
pub proof fn lemma_longest_lexeme(r: Seq<char>, n: int)
    requires
        is_longest_lexeme(r, n),
    ensures
        starts_with_lexeme(r),
        lexeme_len(r) == n,
{
    let k = lexeme_len(r);
    assert(is_longest_lexeme(r, k));
    if k < n {
        assert(!is_lexeme(r.take(n)));
    } else if n < k {
        assert(!is_lexeme(r.take(k)));
    }
}

/// No start of `r` is a lexeme.
pub proof fn lemma_no_lexeme(r: Seq<char>)
    requires
        forall|m: int| 0 < m <= r.len() ==> !is_lexeme(#[trigger] r.take(m)),
    ensures
        !starts_with_lexeme(r),
{
    if starts_with_lexeme(r) {
        let k = lexeme_len(r);
        assert(is_longest_lexeme(r, k));
        assert(!is_lexeme(r.take(k)));
    }
}

// ------------------------------------------------------------------
// One step, and all of them
// ------------------------------------------------------------------
/// What one step of the lexer yields, and the text that is left after it.
pub struct Scan {
    /// `None` at the end of the text, else the token or the error.
    pub item: Option<Result<SpecToken, LexicalErrorKind>>,
    /// The text still to be read.
    pub rest: Seq<char>,
}

/// The longest lexeme at the start of `start`, as a token. Where no lexeme
/// starts, the step yields `InvalidToken` and stays before the character
/// that fits no rule. An integer literal that is too large is passed over
/// and yields `InvalidInteger`.
pub open spec fn munch(start: Seq<char>) -> Scan {
    if start.len() == 0 {
        Scan { item: None, rest: start }
    } else if !starts_with_lexeme(start) {
        Scan { item: Some(Err(LexicalErrorKind::InvalidToken)), rest: start }
    } else {
        let n = lexeme_len(start);
        Scan { item: Some(token_of(start.take(n))), rest: start.skip(n) }
    }
}

/// One step on the text `r`: pass over blanks and comments, then take the
/// longest lexeme.
pub open spec fn scan(r: Seq<char>) -> Scan {
    munch(r.skip(trivia_len(r) as int))
}

/// A step leaves a tail of the text, and a shorter one where it has taken a
/// lexeme.
pub proof fn lemma_scan_rest(r: Seq<char>)
    ensures
        scan(r).rest.len() <= r.len(),
        scan(r).rest == r.skip(r.len() - scan(r).rest.len()),
        scan(r).item is Some && scan(r).item->0 is Ok ==> scan(r).rest.len() < r.len(),
        scan(r).item is None ==> scan(r).rest.len() == 0,
{
    lemma_trivia_len_bound(r);
    let t = trivia_len(r) as int;
    let start = r.skip(t);
    if start.len() > 0 && starts_with_lexeme(start) {
        let n = lexeme_len(start);
        assert(is_longest_lexeme(start, n));
        assert(start.skip(n) =~= r.skip(t + n));
    }
}

/// To pass over the blanks and comments before a step changes nothing of
/// the step.
pub proof fn lemma_blanks_are_skipped_once(r: Seq<char>)
    ensures
        trivia_len(r) <= r.len(),
        trivia_len(r.skip(trivia_len(r) as int)) == 0,
        scan(r.skip(trivia_len(r) as int)) == scan(r),
{
    lemma_trivia_ends(r);
    let start = r.skip(trivia_len(r) as int);
    assert(start.skip(0) =~= start);
}

/// The tokens of the text `r`, or the first lexical error in it.
pub open spec fn tokens_of(r: Seq<char>) -> Result<Seq<SpecToken>, LexicalErrorKind>
    decreases r.len(),
{
    let step = scan(r);
    match step.item {
        None => Ok(Seq::empty()),
        Some(Err(e)) => Err(e),
        Some(Ok(token)) => {
            proof {
                lemma_scan_rest(r);
            }
            match tokens_of(step.rest) {
                Ok(tokens) => Ok(seq![token] + tokens),
                Err(e) => Err(e),
            }
        },
    }
}

} // verus!
