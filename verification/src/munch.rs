//! Why the scanner's choices are the longest lexemes.
//!
//! The first character of the remaining text decides which rules can match
//! at all. Each lemma takes what the scanner has seen of the text `r` and
//! concludes which start of `r`, if any, is the longest lexeme, and which
//! token it stands for.

use crate::lexical::{
    decimal_value, is_digit, is_float_text, is_float_text_with_point, is_identifier_text,
    is_integer_text, is_lexeme, is_longest_lexeme, is_nonzero_digit, is_string_text,
    is_word_char, is_word_start, keyword_token, lemma_longest_lexeme, lemma_no_lexeme,
    lexeme_len, munch, starts_with_lexeme, symbol_token, token_of,
};
use crate::tokens::{LexicalErrorKind, SpecToken};
use vstd::prelude::*;

verus! {

/// A character that is a lexeme by itself, or with the `=` that follows.
pub open spec fn is_symbol_start(c: char) -> bool {
    c == '(' || c == ')' || c == '[' || c == ']' || c == '{' || c == '}' || c == ';' || c == ':'
        || c == ',' || c == '=' || c == '!' || c == '>' || c == '<' || c == '+' || c == '-' || c
        == '*' || c == '/'
}

/// A lexeme starts with a letter, `_`, a digit, `"` or a symbol, and its
/// first character settles which rule it is a word of.
pub proof fn lemma_first_char(w: Seq<char>)
    requires
        is_lexeme(w),
    ensures
        w.len() > 0,
        is_word_start(w[0]) ==> is_identifier_text(w),
        is_digit(w[0]) ==> is_integer_text(w) || is_float_text(w),
        w[0] == '"' ==> is_string_text(w),
        is_symbol_start(w[0]) ==> symbol_token(w) is Some,
        is_word_start(w[0]) || is_digit(w[0]) || w[0] == '"' || is_symbol_start(w[0]),
        symbol_token(w) is Some ==> w.len() == 1 || (w.len() == 2 && w[0] == '!' && w[1] == '='),
{
    if is_float_text(w) {
        let p = choose|p: int| is_float_text_with_point(w, p);
        assert(is_digit(w[0]));
    }
}

/// A keyword is a word of letters.
pub proof fn lemma_keyword_is_identifier(w: Seq<char>)
    requires
        keyword_token(w) is Some,
    ensures
        is_identifier_text(w),
        2 <= w.len() <= 7,
{
}

/// A run of identifier characters that cannot be extended is the longest
/// lexeme, and stands for a keyword or an identifier.
pub proof fn lemma_word(r: Seq<char>, n: int)
    requires
        0 < n <= r.len(),
        is_word_start(r[0]),
        forall|i: int| 1 <= i < n ==> is_word_char(#[trigger] r[i]),
        n < r.len() ==> !is_word_char(r[n]),
    ensures
        is_longest_lexeme(r, n),
        starts_with_lexeme(r),
        lexeme_len(r) == n,
        is_identifier_text(r.take(n)),
        token_of(r.take(n)) == (if keyword_token(r.take(n)) is Some {
            Ok::<SpecToken, crate::tokens::LexicalErrorKind>(keyword_token(r.take(n))->0)
        } else {
            Ok(SpecToken::Identifier(r.take(n)))
        }),
{
    let w = r.take(n);
    assert(is_identifier_text(w));
    assert forall|m: int| n < m <= r.len() implies !is_lexeme(#[trigger] r.take(m)) by {
        let v = r.take(m);
        if is_lexeme(v) {
            lemma_first_char(v);
            assert(is_word_char(v[n]));
        }
    }
    lemma_longest_lexeme(r, n);
}

/// What a run of digits can be: `digits` of them stand at the start of `r`,
/// and no more.
pub open spec fn is_digit_run(r: Seq<char>, digits: int) -> bool {
    &&& 0 < digits <= r.len()
    &&& forall|i: int| 0 <= i < digits ==> is_digit(#[trigger] r[i])
    &&& digits < r.len() ==> !is_digit(r[digits])
}

/// After the digits comes a point and a digit that is not zero.
pub open spec fn has_fraction(r: Seq<char>, digits: int) -> bool {
    digits + 1 < r.len() && r[digits] == '.' && is_nonzero_digit(r[digits + 1])
}

/// A float lexeme at the start of `r` has its point right after the run of
/// digits.
proof fn lemma_float_point(r: Seq<char>, digits: int, m: int)
    requires
        is_digit_run(r, digits),
        0 < m <= r.len(),
        is_float_text(r.take(m)),
    ensures
        is_float_text_with_point(r.take(m), digits),
        has_fraction(r, digits),
{
    let v = r.take(m);
    let p = choose|p: int| is_float_text_with_point(v, p);
    if p < digits {
        assert(is_digit(r[p]));
    } else if p > digits {
        assert(is_digit(v[digits]));
    }
    assert(v[p + 1] == r[p + 1]);
}

/// Digits with a fraction after them: the float literal is the longest
/// lexeme.
pub proof fn lemma_float(r: Seq<char>, digits: int, n: int)
    requires
        is_digit_run(r, digits),
        has_fraction(r, digits),
        digits + 2 <= n <= r.len(),
        forall|i: int| digits + 1 < i < n ==> is_digit(#[trigger] r[i]),
        n < r.len() ==> !is_digit(r[n]),
    ensures
        is_longest_lexeme(r, n),
        starts_with_lexeme(r),
        lexeme_len(r) == n,
        token_of(r.take(n)) == Ok::<SpecToken, crate::tokens::LexicalErrorKind>(
            SpecToken::Float(r.take(n)),
        ),
{
    let w = r.take(n);
    assert(is_float_text_with_point(w, digits));
    assert(is_float_text(w));
    assert(!is_digit(w[digits]));
    assert(!is_integer_text(w));
    assert forall|m: int| n < m <= r.len() implies !is_lexeme(#[trigger] r.take(m)) by {
        let v = r.take(m);
        if is_lexeme(v) {
            lemma_first_char(v);
            assert(is_digit(v[0]));
            if is_integer_text(v) {
                assert(is_digit(v[digits]));
            } else {
                lemma_float_point(r, digits, m);
                assert(is_digit(v[n]));
            }
        }
    }
    lemma_longest_lexeme(r, n);
}

/// Digits without a fraction, the first of them not zero: the integer
/// literal is the longest lexeme.
pub proof fn lemma_integer(r: Seq<char>, digits: int)
    requires
        is_digit_run(r, digits),
        !has_fraction(r, digits),
        r[0] != '0',
    ensures
        is_longest_lexeme(r, digits),
        starts_with_lexeme(r),
        lexeme_len(r) == digits,
        is_integer_text(r.take(digits)),
        keyword_token(r.take(digits)) is None,
        !is_identifier_text(r.take(digits)),
{
    let w = r.take(digits);
    assert(is_digit(r[0]));
    assert(is_integer_text(w));
    assert forall|m: int| digits < m <= r.len() implies !is_lexeme(#[trigger] r.take(m)) by {
        let v = r.take(m);
        if is_lexeme(v) {
            lemma_first_char(v);
            assert(is_digit(v[0]));
            if is_integer_text(v) {
                assert(is_digit(v[digits]));
            } else {
                lemma_float_point(r, digits, m);
            }
        }
    }
    lemma_longest_lexeme(r, digits);
}

/// Digits without a fraction, the first of them zero: no lexeme.
pub proof fn lemma_zero(r: Seq<char>, digits: int)
    requires
        is_digit_run(r, digits),
        !has_fraction(r, digits),
        r[0] == '0',
    ensures
        !starts_with_lexeme(r),
{
    assert forall|m: int| 0 < m <= r.len() implies !is_lexeme(#[trigger] r.take(m)) by {
        let v = r.take(m);
        if is_lexeme(v) {
            lemma_first_char(v);
            assert(is_digit(r[0]));
            assert(is_digit(v[0]));
            if is_float_text(v) {
                lemma_float_point(r, digits, m);
            }
        }
    }
    lemma_no_lexeme(r);
}

/// After the opening quote stand `inner` identifier characters, and no
/// more.
pub open spec fn is_quoted_run(r: Seq<char>, inner: int) -> bool {
    &&& r.len() > 0
    &&& r[0] == '"'
    &&& 0 <= inner < r.len()
    &&& forall|i: int| 1 <= i <= inner ==> is_word_char(#[trigger] r[i])
    &&& inner + 1 < r.len() ==> !is_word_char(r[inner + 1])
}

/// A quoted run that a quote closes: the string literal is the longest
/// lexeme.
pub proof fn lemma_string(r: Seq<char>, inner: int)
    requires
        is_quoted_run(r, inner),
        inner + 1 < r.len(),
        r[inner + 1] == '"',
    ensures
        is_longest_lexeme(r, inner + 2),
        starts_with_lexeme(r),
        lexeme_len(r) == inner + 2,
        token_of(r.take(inner + 2)) == Ok::<SpecToken, crate::tokens::LexicalErrorKind>(
            SpecToken::String(r.subrange(1, inner + 1)),
        ),
{
    let n = inner + 2;
    let w = r.take(n);
    assert(is_string_text(w));
    assert(w.subrange(1, w.len() - 1) =~= r.subrange(1, inner + 1));
    assert forall|m: int| n < m <= r.len() implies !is_lexeme(#[trigger] r.take(m)) by {
        let v = r.take(m);
        if is_lexeme(v) {
            lemma_first_char(v);
            assert(v[0] == '"');
            assert(is_word_char(v[inner + 1]));
        }
    }
    lemma_longest_lexeme(r, n);
}

/// A quoted run that no quote closes: no lexeme.
pub proof fn lemma_open_string(r: Seq<char>, inner: int)
    requires
        is_quoted_run(r, inner),
        inner + 1 < r.len() ==> r[inner + 1] != '"',
    ensures
        !starts_with_lexeme(r),
{
    assert forall|m: int| 0 < m <= r.len() implies !is_lexeme(#[trigger] r.take(m)) by {
        let v = r.take(m);
        if is_lexeme(v) {
            lemma_first_char(v);
            assert(v[0] == '"');
            assert(is_string_text(v));
            if m - 1 <= inner {
                assert(is_word_char(r[m - 1]));
                assert(v[m - 1] == '"');
            } else {
                assert(is_word_char(v[inner + 1]));
            }
        }
    }
    lemma_no_lexeme(r);
}

/// A symbol: the longest lexeme is `!=`, or the one character.
pub proof fn lemma_symbol(r: Seq<char>, n: int)
    requires
        r.len() > 0,
        is_symbol_start(r[0]),
        r[0] == '!' ==> n == 2 && r.len() >= 2 && r[1] == '=',
        r[0] != '!' ==> n == 1,
    ensures
        is_longest_lexeme(r, n),
        starts_with_lexeme(r),
        lexeme_len(r) == n,
        symbol_token(r.take(n)) is Some,
        token_of(r.take(n)) == Ok::<SpecToken, crate::tokens::LexicalErrorKind>(
            symbol_token(r.take(n))->0,
        ),
{
    let w = r.take(n);
    let c = r[0];
    if c == '!' {
        assert(w =~= seq!['!', '=']);
    } else {
        assert(w =~= seq![c]);
    }
    assert(symbol_token(w) is Some);
    assert(w[0] == c);
    assert(keyword_token(w) is None) by {
        if keyword_token(w) is Some {
            lemma_keyword_is_identifier(w);
        }
    }
    assert forall|m: int| n < m <= r.len() implies !is_lexeme(#[trigger] r.take(m)) by {
        let v = r.take(m);
        if is_lexeme(v) {
            lemma_first_char(v);
            assert(v[0] == c);
        }
    }
    lemma_longest_lexeme(r, n);
}

/// A `!` that no `=` follows, or a character that starts no rule: no
/// lexeme.
pub proof fn lemma_stray(r: Seq<char>)
    requires
        r.len() > 0,
        r[0] == '!' ==> r.len() < 2 || r[1] != '=',
        r[0] == '!' || !(is_word_start(r[0]) || is_digit(r[0]) || r[0] == '"' || is_symbol_start(
            r[0],
        )),
    ensures
        !starts_with_lexeme(r),
{
    assert forall|m: int| 0 < m <= r.len() implies !is_lexeme(#[trigger] r.take(m)) by {
        let v = r.take(m);
        if is_lexeme(v) {
            lemma_first_char(v);
            assert(v[0] == r[0]);
            if r[0] == '!' {
                assert(v.len() == 2 && v[1] == '=');
                assert(v[1] == r[1]);
            }
        }
    }
    lemma_no_lexeme(r);
}

// ------------------------------------------------------------------
// The same, at a place in a text
// ------------------------------------------------------------------
/// At `start` in `chars`, where no blank or comment stands, a step yields
/// `item` and leaves the text from `end` on.
pub open spec fn munches(
    chars: Seq<char>,
    start: int,
    item: Result<SpecToken, LexicalErrorKind>,
    end: int,
) -> bool {
    &&& 0 <= start <= end <= chars.len()
    &&& munch(chars.skip(start)).item == Some(item)
    &&& munch(chars.skip(start)).rest == chars.skip(end)
}

/// The keyword or identifier that the characters from `start` up to `end`
/// spell.
pub open spec fn word_token(chars: Seq<char>, start: int, end: int) -> SpecToken {
    let word = chars.subrange(start, end);
    if keyword_token(word) is Some {
        keyword_token(word)->0
    } else {
        SpecToken::Identifier(word)
    }
}

/// A run of identifier characters from `start` up to `end`.
pub proof fn lemma_word_at(chars: Seq<char>, start: int, end: int)
    requires
        0 <= start < end <= chars.len(),
        is_word_start(chars[start]),
        forall|i: int| start < i < end ==> is_word_char(#[trigger] chars[i]),
        end < chars.len() ==> !is_word_char(chars[end]),
    ensures
        munches(chars, start, Ok(word_token(chars, start, end)), end),
{
    let text = chars.skip(start);
    assert forall|i: int| 1 <= i < end - start implies is_word_char(#[trigger] text[i]) by {
        assert(text[i] == chars[start + i]);
    }
    lemma_word(text, end - start);
    assert(text.take(end - start) =~= chars.subrange(start, end));
    assert(text.skip(end - start) =~= chars.skip(end));
}

/// The digits from `start` up to `digits`, and no more.
pub open spec fn is_digit_run_at(chars: Seq<char>, start: int, digits: int) -> bool {
    &&& 0 <= start < digits <= chars.len()
    &&& forall|i: int| start <= i < digits ==> is_digit(#[trigger] chars[i])
    &&& digits < chars.len() ==> !is_digit(chars[digits])
}

/// Behind the digits stand a point and a digit that is not zero.
pub open spec fn has_fraction_at(chars: Seq<char>, digits: int) -> bool {
    digits + 1 < chars.len() && chars[digits] == '.' && is_nonzero_digit(chars[digits + 1])
}

proof fn lemma_digit_run_at(chars: Seq<char>, start: int, digits: int)
    requires
        is_digit_run_at(chars, start, digits),
    ensures
        is_digit_run(chars.skip(start), digits - start),
        has_fraction(chars.skip(start), digits - start) == has_fraction_at(chars, digits),
        chars.skip(start)[0] == chars[start],
{
    let text = chars.skip(start);
    assert forall|i: int| 0 <= i < digits - start implies is_digit(#[trigger] text[i]) by {
        assert(text[i] == chars[start + i]);
    }
    if digits < chars.len() {
        assert(text[digits - start] == chars[digits]);
    }
    if digits + 1 < chars.len() {
        assert(text[digits - start + 1] == chars[digits + 1]);
    }
}

/// Digits with a fraction: a float literal up to `end`.
pub proof fn lemma_float_at(chars: Seq<char>, start: int, digits: int, end: int)
    requires
        is_digit_run_at(chars, start, digits),
        has_fraction_at(chars, digits),
        digits + 2 <= end <= chars.len(),
        forall|i: int| digits + 1 < i < end ==> is_digit(#[trigger] chars[i]),
        end < chars.len() ==> !is_digit(chars[end]),
    ensures
        munches(chars, start, Ok(SpecToken::Float(chars.subrange(start, end))), end),
{
    let text = chars.skip(start);
    lemma_digit_run_at(chars, start, digits);
    assert forall|i: int| digits - start + 1 < i < end - start implies is_digit(
        #[trigger] text[i],
    ) by {
        assert(text[i] == chars[start + i]);
    }
    if end < chars.len() {
        assert(text[end - start] == chars[end]);
    }
    lemma_float(text, digits - start, end - start);
    assert(text.take(end - start) =~= chars.subrange(start, end));
    assert(text.skip(end - start) =~= chars.skip(end));
}

/// The token of an integer literal, or the error where it is too large.
pub open spec fn integer_token(literal: Seq<char>) -> Result<SpecToken, LexicalErrorKind> {
    if decimal_value(literal) <= i64::MAX {
        Ok(SpecToken::Integer(decimal_value(literal) as i64))
    } else {
        Err(LexicalErrorKind::InvalidInteger)
    }
}

/// Digits without a fraction, the first of them not zero: an integer
/// literal.
pub proof fn lemma_integer_at(chars: Seq<char>, start: int, digits: int)
    requires
        is_digit_run_at(chars, start, digits),
        !has_fraction_at(chars, digits),
        chars[start] != '0',
    ensures
        munches(chars, start, integer_token(chars.subrange(start, digits)), digits),
        chars.subrange(start, digits).len() > 0,
        forall|i: int|
            0 <= i < digits - start ==> is_digit(#[trigger] chars.subrange(start, digits)[i]),
{
    let text = chars.skip(start);
    lemma_digit_run_at(chars, start, digits);
    lemma_integer(text, digits - start);
    assert(text.take(digits - start) =~= chars.subrange(start, digits));
    assert(text.skip(digits - start) =~= chars.skip(digits));
}

/// Digits without a fraction, the first of them zero: no lexeme.
pub proof fn lemma_zero_at(chars: Seq<char>, start: int, digits: int)
    requires
        is_digit_run_at(chars, start, digits),
        !has_fraction_at(chars, digits),
        chars[start] == '0',
    ensures
        munches(chars, start, Err(LexicalErrorKind::InvalidToken), start),
{
    lemma_digit_run_at(chars, start, digits);
    lemma_zero(chars.skip(start), digits - start);
}

/// After the quote at `start` stand identifier characters up to `quote`,
/// and no more.
pub open spec fn is_quoted_run_at(chars: Seq<char>, start: int, quote: int) -> bool {
    &&& 0 <= start < quote <= chars.len()
    &&& chars[start] == '"'
    &&& forall|i: int| start < i < quote ==> is_word_char(#[trigger] chars[i])
    &&& quote < chars.len() ==> !is_word_char(chars[quote])
}

proof fn lemma_quoted_run_at(chars: Seq<char>, start: int, quote: int)
    requires
        is_quoted_run_at(chars, start, quote),
    ensures
        is_quoted_run(chars.skip(start), quote - start - 1),
{
    let text = chars.skip(start);
    assert(text[0] == chars[start]);
    assert forall|i: int| 1 <= i <= quote - start - 1 implies is_word_char(#[trigger] text[i]) by {
        assert(text[i] == chars[start + i]);
    }
    if quote < chars.len() {
        assert(text[quote - start] == chars[quote]);
    }
}

/// A quoted run that a quote closes: a string literal.
pub proof fn lemma_string_at(chars: Seq<char>, start: int, quote: int)
    requires
        is_quoted_run_at(chars, start, quote),
        quote < chars.len(),
        chars[quote] == '"',
    ensures
        munches(
            chars,
            start,
            Ok(SpecToken::String(chars.subrange(start + 1, quote))),
            quote + 1,
        ),
{
    let text = chars.skip(start);
    lemma_quoted_run_at(chars, start, quote);
    assert(text[quote - start] == chars[quote]);
    lemma_string(text, quote - start - 1);
    assert(text.subrange(1, quote - start) =~= chars.subrange(start + 1, quote));
    assert(text.skip(quote - start + 1) =~= chars.skip(quote + 1));
}

/// A quoted run that no quote closes: no lexeme.
pub proof fn lemma_open_string_at(chars: Seq<char>, start: int, quote: int)
    requires
        is_quoted_run_at(chars, start, quote),
        quote < chars.len() ==> chars[quote] != '"',
    ensures
        munches(chars, start, Err(LexicalErrorKind::InvalidToken), start),
{
    let text = chars.skip(start);
    lemma_quoted_run_at(chars, start, quote);
    if quote < chars.len() {
        assert(text[quote - start] == chars[quote]);
    }
    lemma_open_string(text, quote - start - 1);
}

/// `!=` at `start`.
pub proof fn lemma_not_equal_at(chars: Seq<char>, start: int)
    requires
        0 <= start,
        start + 1 < chars.len(),
        chars[start] == '!',
        chars[start + 1] == '=',
    ensures
        munches(chars, start, Ok(SpecToken::NotEqual), start + 2),
{
    let text = chars.skip(start);
    assert(text[0] == chars[start]);
    assert(text[1] == chars[start + 1]);
    lemma_symbol(text, 2);
    assert(text.take(2) =~= seq!['!', '=']);
    assert(text.skip(2) =~= chars.skip(start + 2));
}

/// A symbol of one character at `start`.
pub proof fn lemma_symbol_at(chars: Seq<char>, start: int)
    requires
        0 <= start < chars.len(),
        is_symbol_start(chars[start]),
        chars[start] != '!',
    ensures
        symbol_token(seq![chars[start]]) is Some,
        munches(chars, start, Ok(symbol_token(seq![chars[start]])->0), start + 1),
{
    let text = chars.skip(start);
    assert(text[0] == chars[start]);
    lemma_symbol(text, 1);
    assert(text.take(1) =~= seq![chars[start]]);
    assert(text.skip(1) =~= chars.skip(start + 1));
}

/// A `!` that no `=` follows, or a character that starts no rule, at
/// `start`.
pub proof fn lemma_stray_at(chars: Seq<char>, start: int)
    requires
        0 <= start < chars.len(),
        chars[start] == '!' ==> start + 1 >= chars.len() || chars[start + 1] != '=',
        chars[start] == '!' || !(is_word_start(chars[start]) || is_digit(chars[start])
            || chars[start] == '"' || is_symbol_start(chars[start])),
    ensures
        munches(chars, start, Err(LexicalErrorKind::InvalidToken), start),
{
    let text = chars.skip(start);
    assert(text[0] == chars[start]);
    if text.len() >= 2 {
        assert(text[1] == chars[start + 1]);
    }
    lemma_stray(text);
}

} // verus!
