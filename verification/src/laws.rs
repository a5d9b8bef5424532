//! What holds of the lexical grammar and of the grammar, whatever the input.

use crate::ast::{SpecExpression, SpecStatement};
use crate::grammar::{
    additive, additive_tail, advanced, argument_list, arguments, assignment, binary, block, call,
    condition, cycle, declarations, expression, function, function_body,
    functions, heading, kind_at, multiplicative, multiplicative_tail, names,
    parameter_list, parameters, parenthesized, primary, print, program, relational_tail,
    statement, statements, var_decl, var_section, whole_expression, Parsed, SpecSyntaxError,
};
use crate::lexical::{
    decimal_value, is_digit, is_integer_text, is_lexeme, is_longest_lexeme, is_nonzero_digit,
    keyword_token, lemma_scan_rest, lemma_trivia_len_bound, lexeme_len, line_len, munch, scan,
    starts_with_lexeme, token_of, tokens_of, trivia_len,
};
use crate::munch::{has_fraction, is_digit_run, lemma_integer};
use crate::printing::{binding, operator};
use crate::tokens::{LexicalErrorKind, SpecToken, TokenKind};
use vstd::prelude::*;

verus! {

// ------------------------------------------------------------------
// The lexical grammar
// ------------------------------------------------------------------
/// Maximal munch: a token that a step yields is the token of the longest
/// lexeme at the place where the step starts reading, and the step leaves
/// the text behind that lexeme. No shorter start of the text is taken, and
/// no longer one is a lexeme.
pub proof fn lemma_token_is_longest_lexeme(text: Seq<char>)
    requires
        munch(text).item is Some,
        munch(text).item->0 is Ok,
    ensures
        starts_with_lexeme(text),
        is_longest_lexeme(text, lexeme_len(text)),
        munch(text).item == Some(token_of(text.take(lexeme_len(text)))),
        munch(text).rest == text.skip(lexeme_len(text)),
        forall|longer: int|
            lexeme_len(text) < longer <= text.len() ==> !is_lexeme(#[trigger] text.take(longer)),
{
    assert(is_longest_lexeme(text, lexeme_len(text)));
}

/// A keyword wins over the identifier rule: the lexeme that spells a
/// keyword stands for that keyword, never for an identifier.
pub proof fn lemma_keyword_wins(word: Seq<char>)
    requires
        keyword_token(word) is Some,
    ensures
        token_of(word) == Ok::<SpecToken, LexicalErrorKind>(keyword_token(word)->0),
        !(token_of(word) matches Ok(SpecToken::Identifier(_))),
{
}

/// The rest of a comment: the characters of the line, which hold no line
/// feed, and the line feed.
proof fn lemma_line_len(line: Seq<char>, rest: Seq<char>)
    requires
        forall|i: int| 0 <= i < line.len() ==> #[trigger] line[i] != '\n',
    ensures
        line_len(line + seq!['\n'] + rest) == line.len() + 1,
    decreases line.len(),
{
    let text = line + seq!['\n'] + rest;
    if line.len() == 0 {
        assert(text[0] == '\n');
    } else {
        assert(text[0] == line[0]);
        assert(text.skip(1) =~= line.skip(1) + seq!['\n'] + rest);
        assert forall|i: int| 0 <= i < line.skip(1).len() implies #[trigger] line.skip(1)[i]
            != '\n' by {
            assert(line.skip(1)[i] == line[i + 1]);
        }
        lemma_line_len(line.skip(1), rest);
    }
}

/// A comment line changes nothing: the text `code` with the line
/// `# comment` and its line feed before it has the tokens of `code`, or the
/// first lexical error of `code`.
pub proof fn lemma_comment_line_is_skipped(comment: Seq<char>, code: Seq<char>)
    requires
        forall|i: int| 0 <= i < comment.len() ==> #[trigger] comment[i] != '\n',
    ensures
        scan(seq!['#'] + comment + seq!['\n'] + code) == scan(code),
        tokens_of(seq!['#'] + comment + seq!['\n'] + code) == tokens_of(code),
{
    let text = seq!['#'] + comment + seq!['\n'] + code;
    let n = comment.len() + 2;
    assert(text[0] == '#');
    assert(text.skip(1) =~= comment + seq!['\n'] + code);
    lemma_line_len(comment, code);
    assert(text.skip(n as int) =~= code);
    assert(trivia_len(text) == n + trivia_len(code));
    lemma_trivia_len_bound(code);
    assert(text.skip(trivia_len(text) as int) =~= code.skip(trivia_len(code) as int));
}

/// An integer literal beyond the signed 64 bits yields `InvalidInteger`,
/// whatever follows it that does not make the literal longer: no value
/// wraps around.
pub proof fn lemma_integer_overflow(literal: Seq<char>, rest: Seq<char>)
    requires
        is_integer_text(literal),
        decimal_value(literal) > i64::MAX,
        rest.len() > 0 ==> !is_digit(rest[0]),
        rest.len() > 1 ==> !(rest[0] == '.' && is_nonzero_digit(rest[1])),
    ensures
        token_of(literal) == Err::<SpecToken, LexicalErrorKind>(LexicalErrorKind::InvalidInteger),
        scan(literal + rest).item == Some(
            Err::<SpecToken, LexicalErrorKind>(LexicalErrorKind::InvalidInteger),
        ),
        scan(literal + rest).rest == rest,
        tokens_of(literal + rest) == Err::<Seq<SpecToken>, LexicalErrorKind>(
            LexicalErrorKind::InvalidInteger,
        ),
{
    let text = literal + rest;
    let n = literal.len() as int;
    assert(text[0] == literal[0]);
    assert forall|i: int| 0 <= i < n implies is_digit(#[trigger] text[i]) by {
        assert(text[i] == literal[i]);
    }
    if rest.len() > 0 {
        assert(text[n] == rest[0]);
    }
    if rest.len() > 1 {
        assert(text[n + 1] == rest[1]);
    }
    assert(is_digit_run(text, n));
    assert(!has_fraction(text, n));
    lemma_integer(text, n);
    assert(text.take(n) =~= literal);
    assert(text.skip(n) =~= rest);
    assert(trivia_len(text) == 0);
    assert(text.skip(0) =~= text);
}

/// A step never makes the text longer, and a step that yields a token
/// makes it shorter: reading token after token comes to an end.
pub proof fn lemma_steps_end(text: Seq<char>)
    ensures
        scan(text).rest.len() <= text.len(),
        scan(text).item is Some && scan(text).item->0 is Ok ==> scan(text).rest.len()
            < text.len(),
{
    lemma_scan_rest(text);
}

// ------------------------------------------------------------------
// The grammar: every production passes over a token
// ------------------------------------------------------------------
/// What a production has yielded from `pos` lies behind `pos` and within
/// the tokens.
pub open spec fn advances<T>(toks: Seq<SpecToken>, pos: int, r: Parsed<T>) -> bool {
    r matches Ok((_, end)) ==> advanced(toks, pos, end)
}

/// An expression, and each of its parts, passes over a token at least.
pub proof fn lemma_expression_advances(toks: Seq<SpecToken>, pos: int)
    ensures
        advances(toks, pos, parenthesized(toks, pos)),
        advances(toks, pos, primary(toks, pos)),
        advances(toks, pos, multiplicative(toks, pos)),
        advances(toks, pos, additive(toks, pos)),
        advances(toks, pos, expression(toks, pos)),
    decreases toks.len() - pos,
{
    if 0 <= pos < toks.len() {
        lemma_expression_advances(toks, pos + 1);
        match primary(toks, pos) {
            Ok((lhs, next)) => {
                lemma_multiplicative_tail_advances(toks, lhs, next, pos);
            },
            Err(_) => {},
        }
        match multiplicative(toks, pos) {
            Ok((lhs, next)) => {
                lemma_additive_tail_advances(toks, lhs, next, pos);
            },
            Err(_) => {},
        }
        match additive(toks, pos) {
            Ok((lhs, next)) => {
                lemma_relational_tail_advances(toks, lhs, next, pos);
            },
            Err(_) => {},
        }
    }
}

/// The operators and operands behind a first operand do not lead back.
proof fn lemma_multiplicative_tail_advances(
    toks: Seq<SpecToken>,
    lhs: SpecExpression,
    pos: int,
    start: int,
)
    requires
        start < pos <= toks.len(),
    ensures
        advances(toks, start, multiplicative_tail(toks, lhs, pos)),
    decreases toks.len() - start, toks.len() - pos, 0int,
{
    match crate::grammar::multiplicative_operator(kind_at(toks, pos)) {
        None => {},
        Some(operator) => {
            lemma_expression_advances(toks, pos + 1);
            match primary(toks, pos + 1) {
                Ok((rhs, next)) => {
                    lemma_multiplicative_tail_advances(
                        toks,
                        binary(lhs, operator, rhs),
                        next,
                        start,
                    );
                },
                Err(_) => {},
            }
        },
    }
}

/// The operators and operands behind a first operand do not lead back.
proof fn lemma_additive_tail_advances(
    toks: Seq<SpecToken>,
    lhs: SpecExpression,
    pos: int,
    start: int,
)
    requires
        start < pos <= toks.len(),
    ensures
        advances(toks, start, additive_tail(toks, lhs, pos)),
    decreases toks.len() - start, toks.len() - pos, 0int,
{
    match crate::grammar::additive_operator(kind_at(toks, pos)) {
        None => {},
        Some(operator) => {
            lemma_expression_advances(toks, pos + 1);
            match multiplicative(toks, pos + 1) {
                Ok((rhs, next)) => {
                    lemma_additive_tail_advances(toks, binary(lhs, operator, rhs), next, start);
                },
                Err(_) => {},
            }
        },
    }
}

/// The operators and operands behind a first operand do not lead back.
proof fn lemma_relational_tail_advances(
    toks: Seq<SpecToken>,
    lhs: SpecExpression,
    pos: int,
    start: int,
)
    requires
        start < pos <= toks.len(),
    ensures
        advances(toks, start, relational_tail(toks, lhs, pos)),
    decreases toks.len() - start, toks.len() - pos, 0int,
{
    match crate::grammar::relational_operator(kind_at(toks, pos)) {
        None => {},
        Some(operator) => {
            lemma_expression_advances(toks, pos + 1);
            match additive(toks, pos + 1) {
                Ok((rhs, next)) => {
                    lemma_relational_tail_advances(toks, binary(lhs, operator, rhs), next, start);
                },
                Err(_) => {},
            }
        },
    }
}

/// The arguments of a call pass over a token at least.
pub proof fn lemma_arguments_advance(toks: Seq<SpecToken>, pos: int)
    ensures
        advances(toks, pos, argument_list(toks, pos)),
        advances(toks, pos, arguments(toks, pos)),
    decreases toks.len() - pos,
{
    lemma_expression_advances(toks, pos);
    match expression(toks, pos) {
        Ok((_, next)) => {
            if kind_at(toks, next) == Some(TokenKind::Comma) {
                lemma_arguments_advance(toks, next + 1);
            }
        },
        Err(_) => {},
    }
}

/// The statements without a block inside pass over a token at least.
pub proof fn lemma_simple_statement_advances(toks: Seq<SpecToken>, pos: int)
    requires
        0 <= pos,
    ensures
        advances(toks, pos, assignment(toks, pos)),
        advances(toks, pos, call(toks, pos)),
        advances(toks, pos, print(toks, pos)),
{
    lemma_expression_advances(toks, pos + 2);
    lemma_expression_advances(toks, pos + 1);
    lemma_arguments_advance(toks, pos + 2);
}

/// A list of statements up to its closing token passes over a token at
/// least.
pub proof fn lemma_statements_advance(
    toks: Seq<SpecToken>,
    pos: int,
    close: TokenKind,
    also: Seq<TokenKind>,
)
    ensures
        advances(toks, pos, statements(toks, pos, close, also)),
    decreases toks.len() - pos, 3int,
{
    if kind_at(toks, pos) != Some(close) && crate::grammar::is_statement_kind(kind_at(toks, pos)) {
        lemma_statement_advances(toks, pos);
        match statement(toks, pos) {
            Ok((_, next)) => {
                lemma_statements_advance(toks, next, close, Seq::empty());
            },
            Err(_) => {},
        }
    }
}

/// A statement passes over a token at least.
pub proof fn lemma_statement_advances(toks: Seq<SpecToken>, pos: int)
    ensures
        advances(toks, pos, statement(toks, pos)),
    decreases toks.len() - pos, 2int,
{
    if 0 <= pos < toks.len() {
        lemma_simple_statement_advances(toks, pos);
        if kind_at(toks, pos) == Some(TokenKind::KeywordIf) {
            lemma_condition_advances(toks, pos);
        }
        if kind_at(toks, pos) == Some(TokenKind::KeywordWhile) {
            lemma_cycle_advances(toks, pos);
        }
    }
}

/// A condition passes over a token at least.
pub proof fn lemma_condition_advances(toks: Seq<SpecToken>, pos: int)
    requires
        0 <= pos < toks.len(),
    ensures
        advances(toks, pos, condition(toks, pos)),
    decreases toks.len() - pos, 1int,
{
    lemma_expression_advances(toks, pos + 1);
    match parenthesized(toks, pos + 1) {
        Ok((_, then)) => {
            lemma_block_advances(toks, then);
            match block(toks, then) {
                Ok((_, next)) => {
                    if kind_at(toks, next) == Some(TokenKind::KeywordElse) {
                        lemma_block_advances(toks, next + 1);
                    }
                },
                Err(_) => {},
            }
        },
        Err(_) => {},
    }
}

/// A cycle passes over a token at least.
pub proof fn lemma_cycle_advances(toks: Seq<SpecToken>, pos: int)
    requires
        0 <= pos < toks.len(),
    ensures
        advances(toks, pos, cycle(toks, pos)),
    decreases toks.len() - pos, 1int,
{
    lemma_expression_advances(toks, pos + 1);
    match parenthesized(toks, pos + 1) {
        Ok((_, keyword)) => {
            if kind_at(toks, keyword) == Some(TokenKind::KeywordDo) {
                lemma_block_advances(toks, keyword + 1);
            }
        },
        Err(_) => {},
    }
}

/// A block passes over a token at least.
pub proof fn lemma_block_advances(toks: Seq<SpecToken>, pos: int)
    ensures
        advances(toks, pos, block(toks, pos)),
    decreases toks.len() - pos, 0int,
{
    if kind_at(toks, pos) == Some(TokenKind::LBrace) {
        lemma_statements_advance(toks, pos + 1, TokenKind::RBrace, Seq::empty());
    }
}

/// A list of names passes over a token at least.
pub proof fn lemma_names_advance(toks: Seq<SpecToken>, pos: int)
    ensures
        advances(toks, pos, names(toks, pos)),
    decreases toks.len() - pos,
{
    if 0 <= pos < toks.len() && kind_at(toks, pos + 1) == Some(TokenKind::Comma) {
        lemma_names_advance(toks, pos + 2);
    }
}

/// A declaration passes over a token at least.
pub proof fn lemma_var_decl_advances(toks: Seq<SpecToken>, pos: int)
    ensures
        advances(toks, pos, var_decl(toks, pos)),
{
    lemma_names_advance(toks, pos);
}

/// A list of declarations passes over a token at least.
pub proof fn lemma_declarations_advance(toks: Seq<SpecToken>, pos: int, in_function: bool)
    ensures
        advances(toks, pos, declarations(toks, pos, in_function)),
    decreases toks.len() - pos,
{
    lemma_var_decl_advances(toks, pos);
    match var_decl(toks, pos) {
        Ok((_, semicolon)) => {
            if kind_at(toks, semicolon) == Some(TokenKind::Semicolon) {
                lemma_declarations_advance(toks, semicolon + 1, in_function);
            }
        },
        Err(_) => {},
    }
}

/// A section of declarations, which may be absent, does not lead back.
pub proof fn lemma_var_section_advances(toks: Seq<SpecToken>, pos: int, in_function: bool)
    requires
        pos <= toks.len(),
    ensures
        var_section(toks, pos, in_function) matches Ok((_, end)) ==> pos <= end <= toks.len(),
{
    lemma_declarations_advance(toks, pos + 1, in_function);
}

/// The parameters of a function pass over a token at least.
pub proof fn lemma_parameters_advance(toks: Seq<SpecToken>, pos: int)
    ensures
        advances(toks, pos, parameter_list(toks, pos)),
        advances(toks, pos, parameters(toks, pos)),
    decreases toks.len() - pos,
{
    lemma_var_decl_advances(toks, pos);
    match var_decl(toks, pos) {
        Ok((_, next)) => {
            if kind_at(toks, next) == Some(TokenKind::Comma) {
                lemma_parameters_advance(toks, next + 1);
            }
        },
        Err(_) => {},
    }
}

/// A function passes over a token at least.
pub proof fn lemma_function_advances(toks: Seq<SpecToken>, pos: int)
    requires
        0 <= pos,
    ensures
        advances(toks, pos, function_body(toks, pos)),
        advances(toks, pos, function(toks, pos)),
{
    // the body at `pos`
    if pos < toks.len() {
        lemma_var_section_advances(toks, pos + 1, true);
    }
    match var_section(toks, pos + 1, true) {
        Ok((_, first)) => {
            lemma_statements_advance(
                toks,
                first,
                TokenKind::RBraket,
                if first == pos + 1 {
                    seq![TokenKind::KeywordVar]
                } else {
                    Seq::empty()
                },
            );
        },
        Err(_) => {},
    }
    // the function at `pos`
    lemma_parameters_advance(toks, pos + 3);
    match parameters(toks, pos + 3) {
        Ok((_, open)) => {
            if open < toks.len() {
                lemma_var_section_advances(toks, open + 1, true);
            }
            match var_section(toks, open + 1, true) {
                Ok((_, first)) => {
                    lemma_statements_advance(
                        toks,
                        first,
                        TokenKind::RBraket,
                        if first == open + 1 {
                            seq![TokenKind::KeywordVar]
                        } else {
                            Seq::empty()
                        },
                    );
                },
                Err(_) => {},
            }
        },
        Err(_) => {},
    }
}

/// A list of functions does not lead back.
pub proof fn lemma_functions_advance(toks: Seq<SpecToken>, pos: int)
    requires
        0 <= pos <= toks.len(),
    ensures
        functions(toks, pos) matches Ok((_, end)) ==> pos <= end <= toks.len(),
    decreases toks.len() - pos,
{
    if kind_at(toks, pos) == Some(TokenKind::KeywordVoid) {
        lemma_function_advances(toks, pos);
        match function(toks, pos) {
            Ok((_, next)) => {
                lemma_functions_advance(toks, next);
            },
            Err(_) => {},
        }
    }
}

// ------------------------------------------------------------------
// The grammar: what is left out is empty
// ------------------------------------------------------------------
/// A program without the keyword `var` behind its heading has no global
/// variables: an empty list, not a missing one.
pub proof fn lemma_no_var_section(toks: Seq<SpecToken>)
    requires
        program(toks) is Ok,
        kind_at(toks, 3) != Some(TokenKind::KeywordVar),
    ensures
        program(toks)->Ok_0.vars == Seq::<crate::ast::SpecDeclaration>::empty(),
{
}

/// A program without the keyword `void` behind its global variables has no
/// functions.
pub proof fn lemma_no_functions(toks: Seq<SpecToken>)
    requires
        program(toks) is Ok,
        heading(toks) matches Ok((_, first)) && (var_section(toks, first, false) matches Ok(
            (_, next),
        ) && kind_at(toks, next) != Some(TokenKind::KeywordVoid)),
    ensures
        program(toks)->Ok_0.funcs == Seq::<crate::ast::SpecFunction>::empty(),
{
}

/// A condition without `else` behind its block has an empty else branch.
pub proof fn lemma_no_else(toks: Seq<SpecToken>, pos: int)
    requires
        condition(toks, pos) is Ok,
        parenthesized(toks, pos + 1) matches Ok((_, then)) && (block(toks, then) matches Ok(
            (_, next),
        ) && kind_at(toks, next) != Some(TokenKind::KeywordElse)),
    ensures
        condition(toks, pos)->Ok_0.0 matches SpecStatement::Condition { else_branch, .. }
            && else_branch == Seq::<SpecStatement>::empty(),
{
}

/// A call with `)` right behind its `(` has no arguments, and a function
/// with `)` right behind its `(` has no parameters.
pub proof fn lemma_no_arguments(toks: Seq<SpecToken>, pos: int)
    requires
        kind_at(toks, pos) == Some(TokenKind::RParen),
    ensures
        arguments(toks, pos) == Ok::<(Seq<SpecExpression>, int), crate::grammar::SpecSyntaxError>(
            (Seq::empty(), pos + 1),
        ),
        parameters(toks, pos) == Ok::<
            (Seq<crate::ast::SpecDeclaration>, int),
            crate::grammar::SpecSyntaxError,
        >((Seq::empty(), pos + 1)),
{
}

/// A program that the grammar accepts takes all the tokens: none is left
/// behind `end`.
pub proof fn lemma_program_takes_all(toks: Seq<SpecToken>)
    requires
        program(toks) is Ok,
    ensures
        toks.len() >= 7,
        toks[0] == SpecToken::KeywordProgram,
        toks[toks.len() - 1] == SpecToken::KeywordEnd,
{
    let (_, first) = heading(toks)->Ok_0;
    lemma_var_section_advances(toks, first, false);
    let (_, next) = var_section(toks, first, false)->Ok_0;
    lemma_functions_advance(toks, next);
    let (_, main) = functions(toks, next)->Ok_0;
    lemma_block_advances(toks, main + 1);
}

// ------------------------------------------------------------------
// The grammar: precedence and grouping
// ------------------------------------------------------------------
/// The operand that one token is, if it is one.
pub open spec fn operand(token: SpecToken) -> Option<SpecExpression> {
    match token {
        SpecToken::Integer(value) => Some(SpecExpression::Integer(value)),
        SpecToken::Float(text) => Some(SpecExpression::Float(text)),
        SpecToken::String(text) => Some(SpecExpression::String(text)),
        SpecToken::Identifier(name) => Some(crate::grammar::named(name)),
        _ => None,
    }
}

/// One operator between two operands: the operation on the two.
pub proof fn lemma_one_operator(toks: Seq<SpecToken>)
    requires
        toks.len() == 3,
        operand(toks[0]) is Some,
        operator(toks[1]) is Some,
        operand(toks[2]) is Some,
    ensures
        whole_expression(toks) == Ok::<SpecExpression, SpecSyntaxError>(
            binary(operand(toks[0])->0, operator(toks[1])->0, operand(toks[2])->0),
        ),
{
    reveal_with_fuel(multiplicative_tail, 3);
    reveal_with_fuel(additive_tail, 3);
    reveal_with_fuel(relational_tail, 3);
}

/// Precedence and grouping: in `x p y q z` the operator that binds tighter
/// takes its operands first, and of two operators that bind alike the left
/// one does.
pub proof fn lemma_two_operators(toks: Seq<SpecToken>)
    requires
        toks.len() == 5,
        operand(toks[0]) is Some,
        operator(toks[1]) is Some,
        operand(toks[2]) is Some,
        operator(toks[3]) is Some,
        operand(toks[4]) is Some,
    ensures
        whole_expression(toks) == Ok::<SpecExpression, SpecSyntaxError>(
            if binding(operator(toks[1])->0) >= binding(operator(toks[3])->0) {
                binary(
                    binary(operand(toks[0])->0, operator(toks[1])->0, operand(toks[2])->0),
                    operator(toks[3])->0,
                    operand(toks[4])->0,
                )
            } else {
                binary(
                    operand(toks[0])->0,
                    operator(toks[1])->0,
                    binary(operand(toks[2])->0, operator(toks[3])->0, operand(toks[4])->0),
                )
            },
        ),
{
    reveal_with_fuel(multiplicative_tail, 4);
    reveal_with_fuel(additive_tail, 4);
    reveal_with_fuel(relational_tail, 4);
    reveal_with_fuel(multiplicative, 4);
    reveal_with_fuel(additive, 4);
    lemma_operand_is_primary(toks, 0);
    lemma_operand_is_primary(toks, 2);
    lemma_operand_is_primary(toks, 4);
    let x = operand(toks[0])->0;
    let y = operand(toks[2])->0;
    let z = operand(toks[4])->0;
    let p = operator(toks[1])->0;
    let q = operator(toks[3])->0;
    assert(kind_at(toks, 5) is None);
    if binding(p) == 3 {
        if binding(q) == 3 {
            assert(multiplicative(toks, 0) == Ok::<(SpecExpression, int), SpecSyntaxError>(
                (binary(binary(x, p, y), q, z), 5),
            ));
        } else {
            assert(multiplicative(toks, 0) == Ok::<(SpecExpression, int), SpecSyntaxError>(
                (binary(x, p, y), 3),
            ));
            assert(multiplicative(toks, 4) == Ok::<(SpecExpression, int), SpecSyntaxError>(
                (z, 5),
            ));
        }
    } else {
        assert(multiplicative(toks, 0) == Ok::<(SpecExpression, int), SpecSyntaxError>((x, 1)));
        if binding(q) == 3 {
            assert(multiplicative(toks, 2) == Ok::<(SpecExpression, int), SpecSyntaxError>(
                (binary(y, q, z), 5),
            ));
        } else {
            assert(multiplicative(toks, 2) == Ok::<(SpecExpression, int), SpecSyntaxError>(
                (y, 3),
            ));
            assert(multiplicative(toks, 4) == Ok::<(SpecExpression, int), SpecSyntaxError>(
                (z, 5),
            ));
        }
        if binding(p) == 2 {
            if binding(q) >= 2 {
                assert(additive(toks, 0) == Ok::<(SpecExpression, int), SpecSyntaxError>(
                    (if binding(q) == 3 {
                        binary(x, p, binary(y, q, z))
                    } else {
                        binary(binary(x, p, y), q, z)
                    }, 5),
                ));
            } else {
                assert(additive(toks, 0) == Ok::<(SpecExpression, int), SpecSyntaxError>(
                    (binary(x, p, y), 3),
                ));
                assert(additive(toks, 4) == Ok::<(SpecExpression, int), SpecSyntaxError>(
                    (z, 5),
                ));
            }
        } else {
            assert(additive(toks, 0) == Ok::<(SpecExpression, int), SpecSyntaxError>((x, 1)));
            if binding(q) == 1 {
                assert(additive(toks, 2) == Ok::<(SpecExpression, int), SpecSyntaxError>(
                    (y, 3),
                ));
                assert(additive(toks, 4) == Ok::<(SpecExpression, int), SpecSyntaxError>(
                    (z, 5),
                ));
            } else {
                assert(additive(toks, 2) == Ok::<(SpecExpression, int), SpecSyntaxError>(
                    (binary(y, q, z), 5),
                ));
            }
        }
    }
}

/// An operand of one token is a primary expression.
pub proof fn lemma_operand_is_primary(toks: Seq<SpecToken>, pos: int)
    requires
        0 <= pos < toks.len(),
        operand(toks[pos]) is Some,
    ensures
        primary(toks, pos) == Ok::<(SpecExpression, int), SpecSyntaxError>(
            (operand(toks[pos])->0, pos + 1),
        ),
{
}

} // verus!
