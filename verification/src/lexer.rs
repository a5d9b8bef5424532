//! The lexer: source text in, tokens out, one at a time or all at once.

use crate::lexical::{
    decimal_value, is_digit, is_whitespace, is_word_char, is_word_start, keyword_token,
    lemma_blanks_are_skipped_once, lemma_scan_rest, line_len, scan, symbol_token, tokens_of,
    trivia_len,
};
use crate::munch::{
    is_digit_run_at, is_quoted_run_at, is_symbol_start, lemma_float_at, lemma_integer_at,
    lemma_not_equal_at, lemma_open_string_at, lemma_stray_at, lemma_string_at, lemma_symbol_at,
    lemma_word_at, lemma_zero_at, munches,
};
use crate::tokens::{token_views, LexicalError, LexicalErrorKind, SpecToken, Token};
use std::num::ParseIntError;
use vstd::prelude::*;

verus! {

/// `String::push`: the character is appended to the text.
pub assume_specification[ std::string::String::push ](text: &mut std::string::String, c: char)
    ensures
        final(text)@ == old(text)@.push(c),
;

/// `str::parse::<i64>`, on a word of decimal digits: the number that the
/// digits denote where it fits in an `i64`, an error where it is too large.
/// Of other words nothing is claimed.
#[verifier::external_body]
fn parse_integer(text: &str) -> (r: Result<i64, ParseIntError>)
    ensures
        text@.len() > 0 && (forall|i: int| 0 <= i < text@.len() ==> is_digit(#[trigger] text@[i]))
            ==> (match r {
            Ok(value) => value == decimal_value(text@),
            Err(_) => decimal_value(text@) > i64::MAX,
        }),
{
    text.parse::<i64>()
}

fn is_whitespace_char(c: char) -> (b: bool)
    ensures
        b == is_whitespace(c),
{
    c == ' ' || c == '\t' || c == '\n' || c == '\x0c'
}

fn is_digit_char(c: char) -> (b: bool)
    ensures
        b == is_digit(c),
{
    '0' <= c && c <= '9'
}

fn is_word_start_char(c: char) -> (b: bool)
    ensures
        b == is_word_start(c),
{
    ('a' <= c && c <= 'z') || ('A' <= c && c <= 'Z') || c == '_'
}

fn is_word_char_char(c: char) -> (b: bool)
    ensures
        b == is_word_char(c),
{
    is_word_start_char(c) || is_digit_char(c)
}

/// The characters of `text`, in order.
fn chars_of(text: &str) -> (chars: Vec<char>)
    ensures
        chars@ == text@,
{
    let mut chars: Vec<char> = Vec::new();
    for c in it: text.chars()
        invariant
            chars@ == it.seq().take(it.index() as int),
            it.seq() == text@,
    {
        chars.push(c);
    }
    chars
}

/// The text that stands in `chars` from `from` up to `to`.
fn text_of(chars: &Vec<char>, from: usize, to: usize) -> (text: String)
    requires
        from <= to <= chars.len(),
    ensures
        text@ == chars@.subrange(from as int, to as int),
{
    let mut text = String::new();
    let mut i: usize = from;
    while i < to
        invariant
            from <= i <= to <= chars.len(),
            text@ == chars@.subrange(from as int, i as int),
        decreases to - i,
    {
        text.push(chars[i]);
        i = i + 1;
        assert(text@ =~= chars@.subrange(from as int, i as int));
    }
    text
}

/// Where the line ends that `pos` stands in: behind its line feed, or at the
/// end of the text.
fn line_end(chars: &Vec<char>, pos: usize) -> (end: usize)
    requires
        pos <= chars.len(),
    ensures
        pos <= end <= chars.len(),
        end == pos + line_len(chars@.skip(pos as int)),
{
    let mut i: usize = pos;
    while i < chars.len() && chars[i] != '\n'
        invariant
            pos <= i <= chars.len(),
            pos + line_len(chars@.skip(pos as int)) == i + line_len(chars@.skip(i as int)),
        decreases chars.len() - i,
    {
        assert(chars@.skip(i as int).skip(1) =~= chars@.skip(i + 1));
        i = i + 1;
    }
    if i < chars.len() {
        i + 1
    } else {
        i
    }
}

/// Where the blanks and comments end that start at `pos`.
fn trivia_end(chars: &Vec<char>, pos: usize) -> (end: usize)
    requires
        pos <= chars.len(),
    ensures
        pos <= end <= chars.len(),
        end == pos + trivia_len(chars@.skip(pos as int)),
{
    let mut i: usize = pos;
    loop
        invariant
            pos <= i <= chars.len(),
            pos + trivia_len(chars@.skip(pos as int)) == i + trivia_len(chars@.skip(i as int)),
        ensures
            pos <= i <= chars.len(),
            i == pos + trivia_len(chars@.skip(pos as int)),
        decreases chars.len() - i,
    {
        if i >= chars.len() {
            break ;
        }
        let c = chars[i];
        if is_whitespace_char(c) {
            assert(chars@.skip(i as int).skip(1) =~= chars@.skip(i + 1));
            i = i + 1;
        } else if c == '#' {
            let next = line_end(chars, i + 1);
            proof {
                let r = chars@.skip(i as int);
                assert(r.skip(1) =~= chars@.skip(i + 1));
                assert(r.skip(next - i) =~= chars@.skip(next as int));
            }
            i = next;
        } else {
            break ;
        }
    }
    i
}

/// Where the run of identifier characters ends that starts at `pos`.
fn word_end(chars: &Vec<char>, pos: usize) -> (end: usize)
    requires
        pos <= chars.len(),
    ensures
        pos <= end <= chars.len(),
        forall|i: int| pos <= i < end ==> is_word_char(#[trigger] chars@[i]),
        end < chars.len() ==> !is_word_char(chars@[end as int]),
{
    let mut i: usize = pos;
    while i < chars.len() && is_word_char_char(chars[i])
        invariant
            pos <= i <= chars.len(),
            forall|k: int| pos <= k < i ==> is_word_char(#[trigger] chars@[k]),
        decreases chars.len() - i,
    {
        i = i + 1;
    }
    i
}

/// Where the run of digits ends that starts at `pos`.
fn digits_end(chars: &Vec<char>, pos: usize) -> (end: usize)
    requires
        pos <= chars.len(),
    ensures
        pos <= end <= chars.len(),
        forall|i: int| pos <= i < end ==> is_digit(#[trigger] chars@[i]),
        end < chars.len() ==> !is_digit(chars@[end as int]),
{
    let mut i: usize = pos;
    while i < chars.len() && is_digit_char(chars[i])
        invariant
            pos <= i <= chars.len(),
            forall|k: int| pos <= k < i ==> is_digit(#[trigger] chars@[k]),
        decreases chars.len() - i,
    {
        i = i + 1;
    }
    i
}

/// Whether the characters from `from` on spell `word`.
fn spells(chars: &Vec<char>, from: usize, to: usize, word: &str) -> (b: bool)
    requires
        from <= to <= chars.len(),
    ensures
        b == (chars@.subrange(from as int, to as int) == word@),
{
    let ghost w = chars@.subrange(from as int, to as int);
    let n = word.unicode_len();
    if to - from != n {
        return false;
    }
    let mut i: usize = 0;
    while i < n
        invariant
            from <= to <= chars.len(),
            n == to - from,
            n == word@.len(),
            i <= n,
            w == chars@.subrange(from as int, to as int),
            forall|k: int| 0 <= k < i ==> w[k] == word@[k],
        decreases n - i,
    {
        if chars[from + i] != word.get_char(i) {
            assert(w[i as int] != word@[i as int]);
            return false;
        }
        i = i + 1;
    }
    assert(w =~= word@);
    true
}

/// The keyword that the characters from `from` up to `to` spell, if they
/// spell one.
fn keyword_of(chars: &Vec<char>, from: usize, to: usize) -> (keyword: Option<Token>)
    requires
        from <= to <= chars.len(),
    ensures
        match keyword {
            Some(token) => keyword_token(chars@.subrange(from as int, to as int)) == Some(token@),
            None => keyword_token(chars@.subrange(from as int, to as int)) is None,
        },
{
    proof {
        reveal_strlit("program");
        reveal_strlit("main");
        reveal_strlit("print");
        reveal_strlit("if");
        reveal_strlit("else");
        reveal_strlit("while");
        reveal_strlit("do");
        reveal_strlit("end");
        reveal_strlit("int");
        reveal_strlit("float");
        reveal_strlit("var");
        reveal_strlit("void");
        assert("program"@ =~= seq!['p', 'r', 'o', 'g', 'r', 'a', 'm']);
        assert("main"@ =~= seq!['m', 'a', 'i', 'n']);
        assert("print"@ =~= seq!['p', 'r', 'i', 'n', 't']);
        assert("if"@ =~= seq!['i', 'f']);
        assert("else"@ =~= seq!['e', 'l', 's', 'e']);
        assert("while"@ =~= seq!['w', 'h', 'i', 'l', 'e']);
        assert("do"@ =~= seq!['d', 'o']);
        assert("end"@ =~= seq!['e', 'n', 'd']);
        assert("int"@ =~= seq!['i', 'n', 't']);
        assert("float"@ =~= seq!['f', 'l', 'o', 'a', 't']);
        assert("var"@ =~= seq!['v', 'a', 'r']);
        assert("void"@ =~= seq!['v', 'o', 'i', 'd']);
    }
    if spells(chars, from, to, "program") {
        Some(Token::KeywordProgram)
    } else if spells(chars, from, to, "main") {
        Some(Token::KeywordMain)
    } else if spells(chars, from, to, "print") {
        Some(Token::KeywordPrint)
    } else if spells(chars, from, to, "if") {
        Some(Token::KeywordIf)
    } else if spells(chars, from, to, "else") {
        Some(Token::KeywordElse)
    } else if spells(chars, from, to, "while") {
        Some(Token::KeywordWhile)
    } else if spells(chars, from, to, "do") {
        Some(Token::KeywordDo)
    } else if spells(chars, from, to, "end") {
        Some(Token::KeywordEnd)
    } else if spells(chars, from, to, "int") {
        Some(Token::KeywordInt)
    } else if spells(chars, from, to, "float") {
        Some(Token::KeywordFloat)
    } else if spells(chars, from, to, "var") {
        Some(Token::KeywordVar)
    } else if spells(chars, from, to, "void") {
        Some(Token::KeywordVoid)
    } else {
        None
    }
}

/// The token that the one character `c` is, where it is a symbol other than
/// `!`.
fn symbol_of(c: char) -> (symbol: Option<Token>)
    ensures
        symbol is Some <==> is_symbol_start(c) && c != '!',
        symbol is Some ==> symbol_token(seq![c]) == Some(symbol->0@),
{
    let symbol = match c {
        '(' => Some(Token::LParen),
        ')' => Some(Token::RParen),
        '[' => Some(Token::LBraket),
        ']' => Some(Token::RBraket),
        '{' => Some(Token::LBrace),
        '}' => Some(Token::RBrace),
        ';' => Some(Token::Semicolon),
        ':' => Some(Token::TwoPoints),
        ',' => Some(Token::Comma),
        '=' => Some(Token::AssignSimbol),
        '>' => Some(Token::BigerThan),
        '<' => Some(Token::SmallerThan),
        '+' => Some(Token::OperatorAdd),
        '-' => Some(Token::OperatorSub),
        '*' => Some(Token::OperatorMul),
        '/' => Some(Token::OperatorDiv),
        _ => None,
    };
    proof {
        if symbol is Some {
            let w = seq![c];
            assert(w[0] == c);
            assert forall|x: char| w == seq![x] implies x == c by {
                assert(seq![x][0] == x);
            }
            assert(w != seq!['!', '=']) by {
                assert(seq!['!', '='].len() == 2);
            }
        }
    }
    symbol
}

/// What a step of the lexer has yielded, as the lexical grammar states it.
pub open spec fn item_view(item: Option<Result<Token, LexicalError>>) -> Option<
    Result<SpecToken, LexicalErrorKind>,
> {
    match item {
        None => None,
        Some(Ok(token)) => Some(Ok(token@)),
        Some(Err(error)) => Some(Err(error@)),
    }
}

/// A lexer over one source text. It yields the tokens on demand and can be
/// sent back to the start of the text.
pub struct Lexer {
    chars: Vec<char>,
    position: usize,
}

impl Lexer {
    #[verifier::type_invariant]
    spec fn well_formed(self) -> bool {
        self.position <= self.chars.len()
    }

    /// The whole source text.
    pub closed spec fn source(&self) -> Seq<char> {
        self.chars@
    }

    /// How many characters of the source text lie behind the lexer.
    pub closed spec fn offset(&self) -> nat {
        self.position as nat
    }

    /// The text that is still to be read.
    pub open spec fn remaining(&self) -> Seq<char> {
        self.source().skip(self.offset() as int)
    }

    /// A lexer at the start of `source`.
    pub fn new(source: &str) -> (lexer: Lexer)
        ensures
            lexer.source() == source@,
            lexer.offset() == 0,
            lexer.remaining() == source@,
    {
        let chars = chars_of(source);
        assert(chars@.skip(0) =~= chars@);
        Lexer { chars, position: 0 }
    }

    /// How many characters of the source text lie behind the lexer.
    pub fn position(&self) -> (p: usize)
        ensures
            p == self.offset(),
            p <= self.source().len(),
    {
        proof {
            use_type_invariant(self);
        }
        self.position
    }

    /// Sends the lexer back to the start of its text: the same tokens come
    /// again.
    pub fn restart(&mut self)
        ensures
            final(self).source() == old(self).source(),
            final(self).offset() == 0,
            final(self).remaining() == old(self).source(),
    {
        self.position = 0;
        assert(self.chars@.skip(0) =~= self.chars@);
    }

    /// Passes over one character, to go on after an `InvalidToken`. Returns
    /// whether there was a character left.
    pub fn skip_char(&mut self) -> (skipped: bool)
        ensures
            final(self).source() == old(self).source(),
            skipped == (old(self).remaining().len() > 0),
            skipped ==> final(self).remaining() == old(self).remaining().skip(1),
            !skipped ==> final(self).remaining() == old(self).remaining(),
    {
        proof {
            use_type_invariant(&*self);
        }
        if self.position < self.chars.len() {
            assert(self.chars@.skip(self.position as int).skip(1) =~= self.chars@.skip(
                self.position + 1,
            ));
            self.position = self.position + 1;
            true
        } else {
            false
        }
    }

    /// Passes over the blanks and comments before the next token, so that
    /// [`Lexer::position`] is the place where that token starts. The next
    /// step yields what it would have yielded without this call.
    pub fn skip_blanks(&mut self)
        ensures
            final(self).source() == old(self).source(),
            final(self).remaining() == old(self).remaining().skip(
                trivia_len(old(self).remaining()) as int,
            ),
            final(self).offset() == old(self).offset() + trivia_len(old(self).remaining()),
            trivia_len(final(self).remaining()) == 0,
            scan(final(self).remaining()) == scan(old(self).remaining()),
    {
        proof {
            use_type_invariant(&*self);
            lemma_blanks_are_skipped_once(self.remaining());
        }
        let ghost before = self.chars@.skip(self.position as int);
        let start = trivia_end(&self.chars, self.position);
        assert(before.skip(trivia_len(before) as int) =~= self.chars@.skip(start as int));
        self.position = start;
    }

    /// The next token, the next lexical error, or `None` at the end of the
    /// text: one step of the lexical grammar on the text that is left.
    pub fn next_token(&mut self) -> (item: Option<Result<Token, LexicalError>>)
        ensures
            final(self).source() == old(self).source(),
            item_view(item) == scan(old(self).remaining()).item,
            final(self).remaining() == scan(old(self).remaining()).rest,
            final(self).remaining().len() <= old(self).remaining().len(),
            item is Some && item->0 is Ok ==> final(self).remaining().len() < old(
                self,
            ).remaining().len(),
    {
        proof {
            use_type_invariant(&*self);
            lemma_scan_rest(self.remaining());
        }
        let ghost before = self.chars@.skip(self.position as int);
        let start = trivia_end(&self.chars, self.position);
        assert(before.skip(trivia_len(before) as int) =~= self.chars@.skip(start as int));
        self.position = start;
        if start >= self.chars.len() {
            return None;
        }
        let (end, token) = next_lexeme(&self.chars, start);
        self.position = end;
        Some(token)
    }
}

/// A token or an error, as the lexical grammar states it.
pub open spec fn result_view(r: Result<Token, LexicalError>) -> Result<
    SpecToken,
    LexicalErrorKind,
> {
    match r {
        Ok(token) => Ok(token@),
        Err(error) => Err(error@),
    }
}

/// A keyword or an identifier.
fn lex_word(chars: &Vec<char>, start: usize) -> (step: (usize, Result<Token, LexicalError>))
    requires
        start < chars.len(),
        is_word_start(chars@[start as int]),
    ensures
        munches(chars@, start as int, result_view(step.1), step.0 as int),
        step.0 > start,
{
    let end = word_end(chars, start + 1);
    proof {
        lemma_word_at(chars@, start as int, end as int);
    }
    let token = match keyword_of(chars, start, end) {
        Some(keyword) => keyword,
        None => Token::Identifier(text_of(chars, start, end)),
    };
    (end, Ok(token))
}

/// An integer or a float literal.
fn lex_number(chars: &Vec<char>, start: usize) -> (step: (usize, Result<Token, LexicalError>))
    requires
        start < chars.len(),
        is_digit(chars@[start as int]),
    ensures
        munches(chars@, start as int, result_view(step.1), step.0 as int),
        step.1 is Ok ==> step.0 > start,
{
    let digits = digits_end(chars, start + 1);
    assert(is_digit_run_at(chars@, start as int, digits as int));
    if digits < chars.len() && chars.len() - digits > 1 && chars[digits] == '.' && '1'
        <= chars[digits + 1] && chars[digits + 1] <= '9' {
        let end = digits_end(chars, digits + 2);
        proof {
            lemma_float_at(chars@, start as int, digits as int, end as int);
        }
        (end, Ok(Token::Float(text_of(chars, start, end))))
    } else if chars[start] != '0' {
        proof {
            lemma_integer_at(chars@, start as int, digits as int);
        }
        let literal = text_of(chars, start, digits);
        match parse_integer(literal.as_str()) {
            Ok(value) => (digits, Ok(Token::Integer(value))),
            Err(error) => (digits, Err(LexicalError::from(error))),
        }
    } else {
        proof {
            lemma_zero_at(chars@, start as int, digits as int);
        }
        (start, Err(LexicalError::InvalidToken))
    }
}

/// A string literal.
fn lex_string(chars: &Vec<char>, start: usize) -> (step: (usize, Result<Token, LexicalError>))
    requires
        start < chars.len(),
        chars@[start as int] == '"',
    ensures
        munches(chars@, start as int, result_view(step.1), step.0 as int),
        step.1 is Ok ==> step.0 > start,
{
    let quote = word_end(chars, start + 1);
    assert(is_quoted_run_at(chars@, start as int, quote as int));
    if quote < chars.len() && chars[quote] == '"' {
        proof {
            lemma_string_at(chars@, start as int, quote as int);
        }
        (quote + 1, Ok(Token::String(text_of(chars, start + 1, quote))))
    } else {
        proof {
            lemma_open_string_at(chars@, start as int, quote as int);
        }
        (start, Err(LexicalError::InvalidToken))
    }
}

/// A punctuation mark or an operator, or a character that starts no rule.
fn lex_symbol(chars: &Vec<char>, start: usize) -> (step: (usize, Result<Token, LexicalError>))
    requires
        start < chars.len(),
        !is_word_start(chars@[start as int]),
        !is_digit(chars@[start as int]),
        chars@[start as int] != '"',
    ensures
        munches(chars@, start as int, result_view(step.1), step.0 as int),
        step.1 is Ok ==> step.0 > start,
{
    let c = chars[start];
    if c == '!' {
        if chars.len() - start > 1 && chars[start + 1] == '=' {
            proof {
                lemma_not_equal_at(chars@, start as int);
            }
            (start + 2, Ok(Token::NotEqual))
        } else {
            proof {
                lemma_stray_at(chars@, start as int);
            }
            (start, Err(LexicalError::InvalidToken))
        }
    } else {
        match symbol_of(c) {
            Some(token) => {
                proof {
                    lemma_symbol_at(chars@, start as int);
                }
                (start + 1, Ok(token))
            },
            None => {
                proof {
                    lemma_stray_at(chars@, start as int);
                }
                (start, Err(LexicalError::InvalidToken))
            },
        }
    }
}

/// The longest lexeme that starts at `start`, as a token or an error, and
/// where the lexer stands after it.
fn next_lexeme(chars: &Vec<char>, start: usize) -> (step: (usize, Result<Token, LexicalError>))
    requires
        start < chars.len(),
    ensures
        munches(chars@, start as int, result_view(step.1), step.0 as int),
        step.1 is Ok ==> step.0 > start,
{
    let c = chars[start];
    if is_word_start_char(c) {
        lex_word(chars, start)
    } else if is_digit_char(c) {
        lex_number(chars, start)
    } else if c == '"' {
        lex_string(chars, start)
    } else {
        lex_symbol(chars, start)
    }
}

/// The tokens read so far, and then what the rest of the text yields.
pub open spec fn tokens_then(
    read: Seq<SpecToken>,
    rest: Result<Seq<SpecToken>, LexicalErrorKind>,
) -> Result<Seq<SpecToken>, LexicalErrorKind> {
    match rest {
        Ok(tokens) => Ok(read + tokens),
        Err(error) => Err(error),
    }
}

/// All the tokens of `source`, or its first lexical error.
pub fn tokenize(source: &str) -> (r: Result<Vec<Token>, LexicalError>)
    ensures
        match tokens_of(source@) {
            Ok(tokens) => r is Ok && token_views(r->Ok_0@) == tokens,
            Err(error) => r is Err && r->Err_0@ == error,
        },
{
    let mut lexer = Lexer::new(source);
    let mut tokens: Vec<Token> = Vec::new();
    assert(token_views(tokens@) + tokens_of(source@)->Ok_0 =~= tokens_of(source@)->Ok_0);
    loop
        invariant
            tokens_of(source@) == tokens_then(token_views(tokens@), tokens_of(lexer.remaining())),
        decreases lexer.remaining().len(),
    {
        let ghost rest = lexer.remaining();
        let ghost read = token_views(tokens@);
        match lexer.next_token() {
            None => {
                assert(read + Seq::<SpecToken>::empty() =~= read);
                return Ok(tokens);
            },
            Some(Err(error)) => {
                return Err(error);
            },
            Some(Ok(token)) => {
                proof {
                    let first = token@;
                    assert(token_views(tokens@.push(token)) =~= read + seq![first]);
                    if tokens_of(lexer.remaining()) is Ok {
                        let later = tokens_of(lexer.remaining())->Ok_0;
                        assert((read + seq![first]) + later =~= read + (seq![first] + later));
                    }
                }
                tokens.push(token);
            },
        }
    }
}

} // verus!
