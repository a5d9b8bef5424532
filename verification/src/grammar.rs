//! The grammar, as mathematics: what each production yields on a sequence
//! of tokens, read from a position on.
//!
//! ```text
//! Program    := "program" Identifier ";" VarSection? FuncDecl* "main" Block "end"
//! VarSection := "var" VarDecl (";" VarDecl)* ";"
//! VarDecl    := Identifier ("," Identifier)* ":" Type
//! Type       := "int" | "float"
//! FuncDecl   := "void" Identifier "(" ParamList? ")" "[" VarSection? Statement* "]" ";"
//! ParamList  := VarDecl ("," VarDecl)*
//! Statement  := Assign | Print | If | While | Call
//! Assign     := Identifier "=" Expression ";"
//! Print      := "print" "(" Expression ")" ";"
//! If         := "if" "(" Expression ")" Block ("else" Block)? ";"
//! While      := "while" "(" Expression ")" "do" Block ";"
//! Call       := Identifier "(" ArgList? ")" ";"
//! ArgList    := Expression ("," Expression)*
//! Block      := "{" Statement* "}"
//! Expression := Additive (("<" | ">" | "!=") Additive)*
//! Additive   := Multiplicative (("+" | "-") Multiplicative)*
//! Multiplicative := Primary (("*" | "/") Primary)*
//! Primary    := Integer | Float | String | Identifier | "(" Expression ")"
//! ```
//!
//! The operators of one level group to the left. The identifiers `true` and
//! `false` stand for the two boolean literals where an expression is read.
//! A production yields its value and the position behind it, or the one
//! syntax error: the place of the token that does not fit, that token, and
//! the kinds of token that would have fitted there.
//!
//! Every production passes over one token at least. The functions that call
//! themselves on a position that another production returned test this, so
//! that they are defined without reference to that fact; the other branch
//! of the test, [`stuck`], never arises.

use crate::ast::{
    BinaryOperator, SpecDeclaration, SpecExpression, SpecFunction, SpecProgram, SpecStatement,
};
use crate::tokens::{SpecToken, TokenKind};
use vstd::prelude::*;

verus! {

/// A syntax error: the position of the offending token, the token (`None`
/// at the end of the input), and the kinds of token that fit there.
pub struct SpecSyntaxError {
    pub position: int,
    pub found: Option<SpecToken>,
    pub expected: Seq<TokenKind>,
}

/// What a production yields: its value and the position behind it, or the
/// syntax error.
pub type Parsed<T> = Result<(T, int), SpecSyntaxError>;

// ------------------------------------------------------------------
// Tokens at a position
// ------------------------------------------------------------------
/// The kind of the token at `pos`, `None` past the end.
pub open spec fn kind_at(toks: Seq<SpecToken>, pos: int) -> Option<TokenKind> {
    if 0 <= pos < toks.len() {
        Some(toks[pos].kind())
    } else {
        None
    }
}

/// The name that the identifier at `pos` spells, if an identifier stands
/// there.
pub open spec fn identifier_at(toks: Seq<SpecToken>, pos: int) -> Option<Seq<char>> {
    if 0 <= pos < toks.len() {
        match toks[pos] {
            SpecToken::Identifier(name) => Some(name),
            _ => None,
        }
    } else {
        None
    }
}

/// The error for the token at `pos`, where the kinds `expected` would fit.
pub open spec fn unexpected(
    toks: Seq<SpecToken>,
    pos: int,
    expected: Seq<TokenKind>,
) -> SpecSyntaxError {
    SpecSyntaxError {
        position: pos,
        found: if 0 <= pos < toks.len() {
            Some(toks[pos])
        } else {
            None
        },
        expected,
    }
}

/// Passes over a token of kind `kind` at `pos`; `expected` are the kinds
/// that fit there.
pub open spec fn expect(
    toks: Seq<SpecToken>,
    pos: int,
    kind: TokenKind,
    expected: Seq<TokenKind>,
) -> Result<int, SpecSyntaxError> {
    if kind_at(toks, pos) == Some(kind) {
        Ok(pos + 1)
    } else {
        Err(unexpected(toks, pos, expected))
    }
}

/// The production that started at `pos` has reached `next` and has passed
/// over a token.
pub open spec fn advanced(toks: Seq<SpecToken>, pos: int, next: int) -> bool {
    pos < next <= toks.len()
}

/// Stands where a production would not have passed over any token, which
/// never arises.
pub open spec fn stuck<T>(toks: Seq<SpecToken>, pos: int) -> Parsed<T> {
    Err(unexpected(toks, pos, Seq::empty()))
}

/// `items` and then what `rest` yields, or the error of `rest`.
pub open spec fn prepend<T>(items: Seq<T>, rest: Parsed<Seq<T>>) -> Parsed<Seq<T>> {
    match rest {
        Ok((more, end)) => Ok((items + more, end)),
        Err(error) => Err(error),
    }
}

// ------------------------------------------------------------------
// Kinds of token
// ------------------------------------------------------------------
/// The binary operators, which may follow any complete expression.
pub open spec fn operator_kinds() -> Seq<TokenKind> {
    seq![
        TokenKind::OperatorMul,
        TokenKind::OperatorDiv,
        TokenKind::OperatorAdd,
        TokenKind::OperatorSub,
        TokenKind::SmallerThan,
        TokenKind::BigerThan,
        TokenKind::NotEqual,
    ]
}

/// The kinds of token that start an expression.
pub open spec fn primary_kinds() -> Seq<TokenKind> {
    seq![
        TokenKind::Integer,
        TokenKind::Float,
        TokenKind::String,
        TokenKind::Identifier,
        TokenKind::LParen,
    ]
}

/// The kinds of token that start a statement.
pub open spec fn statement_kinds() -> Seq<TokenKind> {
    seq![
        TokenKind::Identifier,
        TokenKind::KeywordPrint,
        TokenKind::KeywordIf,
        TokenKind::KeywordWhile,
    ]
}

pub open spec fn is_primary_kind(kind: Option<TokenKind>) -> bool {
    kind == Some(TokenKind::Integer) || kind == Some(TokenKind::Float) || kind == Some(
        TokenKind::String,
    ) || kind == Some(TokenKind::Identifier) || kind == Some(TokenKind::LParen)
}

pub open spec fn is_statement_kind(kind: Option<TokenKind>) -> bool {
    kind == Some(TokenKind::Identifier) || kind == Some(TokenKind::KeywordPrint) || kind == Some(
        TokenKind::KeywordIf,
    ) || kind == Some(TokenKind::KeywordWhile)
}

/// `*` and `/`.
pub open spec fn multiplicative_operator(kind: Option<TokenKind>) -> Option<BinaryOperator> {
    match kind {
        Some(TokenKind::OperatorMul) => Some(BinaryOperator::Mul),
        Some(TokenKind::OperatorDiv) => Some(BinaryOperator::Div),
        _ => None,
    }
}

/// `+` and `-`.
pub open spec fn additive_operator(kind: Option<TokenKind>) -> Option<BinaryOperator> {
    match kind {
        Some(TokenKind::OperatorAdd) => Some(BinaryOperator::Add),
        Some(TokenKind::OperatorSub) => Some(BinaryOperator::Sub),
        _ => None,
    }
}

/// `<`, `>` and `!=`.
pub open spec fn relational_operator(kind: Option<TokenKind>) -> Option<BinaryOperator> {
    match kind {
        Some(TokenKind::SmallerThan) => Some(BinaryOperator::Lt),
        Some(TokenKind::BigerThan) => Some(BinaryOperator::Gt),
        Some(TokenKind::NotEqual) => Some(BinaryOperator::Ne),
        _ => None,
    }
}

/// The name of the type that a type keyword stands for.
pub open spec fn type_text(kind: Option<TokenKind>) -> Option<Seq<char>> {
    match kind {
        Some(TokenKind::KeywordInt) => Some(seq!['i', 'n', 't']),
        Some(TokenKind::KeywordFloat) => Some(seq!['f', 'l', 'o', 'a', 't']),
        _ => None,
    }
}

// ------------------------------------------------------------------
// Expressions
// ------------------------------------------------------------------
/// `lhs operator rhs`
pub open spec fn binary(
    lhs: SpecExpression,
    operator: BinaryOperator,
    rhs: SpecExpression,
) -> SpecExpression {
    SpecExpression::BinaryOperation { lhs: Box::new(lhs), operator, rhs: Box::new(rhs) }
}

/// What an identifier is in an expression: a boolean literal or a variable.
pub open spec fn named(name: Seq<char>) -> SpecExpression {
    if name == seq!['t', 'r', 'u', 'e'] {
        SpecExpression::Boolean(true)
    } else if name == seq!['f', 'a', 'l', 's', 'e'] {
        SpecExpression::Boolean(false)
    } else {
        SpecExpression::Variable(name)
    }
}

/// `"(" Expression ")"`
pub open spec fn parenthesized(toks: Seq<SpecToken>, pos: int) -> Parsed<SpecExpression>
    decreases toks.len() - pos, 0int,
{
    if kind_at(toks, pos) != Some(TokenKind::LParen) {
        Err(unexpected(toks, pos, seq![TokenKind::LParen]))
    } else {
        match expression(toks, pos + 1) {
            Err(error) => Err(error),
            Ok((inner, close)) => match expect(
                toks,
                close,
                TokenKind::RParen,
                operator_kinds().push(TokenKind::RParen),
            ) {
                Err(error) => Err(error),
                Ok(end) => Ok((inner, end)),
            },
        }
    }
}

/// `Integer | Float | String | Identifier | "(" Expression ")"`
pub open spec fn primary(toks: Seq<SpecToken>, pos: int) -> Parsed<SpecExpression>
    decreases toks.len() - pos, 1int,
{
    if 0 <= pos < toks.len() {
        match toks[pos] {
            SpecToken::Integer(value) => Ok((SpecExpression::Integer(value), pos + 1)),
            SpecToken::Float(text) => Ok((SpecExpression::Float(text), pos + 1)),
            SpecToken::String(text) => Ok((SpecExpression::String(text), pos + 1)),
            SpecToken::Identifier(name) => Ok((named(name), pos + 1)),
            SpecToken::LParen => parenthesized(toks, pos),
            _ => Err(unexpected(toks, pos, primary_kinds())),
        }
    } else {
        Err(unexpected(toks, pos, primary_kinds()))
    }
}

/// `(("*" | "/") Primary)*`, applied to the operand `lhs` on the left.
pub open spec fn multiplicative_tail(
    toks: Seq<SpecToken>,
    lhs: SpecExpression,
    pos: int,
) -> Parsed<SpecExpression>
    decreases toks.len() - pos, 2int,
{
    match multiplicative_operator(kind_at(toks, pos)) {
        None => Ok((lhs, pos)),
        Some(operator) => match primary(toks, pos + 1) {
            Err(error) => Err(error),
            Ok((rhs, next)) => if advanced(toks, pos, next) {
                multiplicative_tail(toks, binary(lhs, operator, rhs), next)
            } else {
                stuck(toks, pos)
            },
        },
    }
}

/// `Primary (("*" | "/") Primary)*`
pub open spec fn multiplicative(toks: Seq<SpecToken>, pos: int) -> Parsed<SpecExpression>
    decreases toks.len() - pos, 3int,
{
    match primary(toks, pos) {
        Err(error) => Err(error),
        Ok((lhs, next)) => if advanced(toks, pos, next) {
            multiplicative_tail(toks, lhs, next)
        } else {
            stuck(toks, pos)
        },
    }
}

/// `(("+" | "-") Multiplicative)*`, applied to the operand `lhs` on the
/// left.
pub open spec fn additive_tail(
    toks: Seq<SpecToken>,
    lhs: SpecExpression,
    pos: int,
) -> Parsed<SpecExpression>
    decreases toks.len() - pos, 4int,
{
    match additive_operator(kind_at(toks, pos)) {
        None => Ok((lhs, pos)),
        Some(operator) => match multiplicative(toks, pos + 1) {
            Err(error) => Err(error),
            Ok((rhs, next)) => if advanced(toks, pos, next) {
                additive_tail(toks, binary(lhs, operator, rhs), next)
            } else {
                stuck(toks, pos)
            },
        },
    }
}

/// `Multiplicative (("+" | "-") Multiplicative)*`
pub open spec fn additive(toks: Seq<SpecToken>, pos: int) -> Parsed<SpecExpression>
    decreases toks.len() - pos, 5int,
{
    match multiplicative(toks, pos) {
        Err(error) => Err(error),
        Ok((lhs, next)) => if advanced(toks, pos, next) {
            additive_tail(toks, lhs, next)
        } else {
            stuck(toks, pos)
        },
    }
}

/// `(("<" | ">" | "!=") Additive)*`, applied to the operand `lhs` on the
/// left.
pub open spec fn relational_tail(
    toks: Seq<SpecToken>,
    lhs: SpecExpression,
    pos: int,
) -> Parsed<SpecExpression>
    decreases toks.len() - pos, 6int,
{
    match relational_operator(kind_at(toks, pos)) {
        None => Ok((lhs, pos)),
        Some(operator) => match additive(toks, pos + 1) {
            Err(error) => Err(error),
            Ok((rhs, next)) => if advanced(toks, pos, next) {
                relational_tail(toks, binary(lhs, operator, rhs), next)
            } else {
                stuck(toks, pos)
            },
        },
    }
}

/// `Additive (("<" | ">" | "!=") Additive)*`
pub open spec fn expression(toks: Seq<SpecToken>, pos: int) -> Parsed<SpecExpression>
    decreases toks.len() - pos, 7int,
{
    match additive(toks, pos) {
        Err(error) => Err(error),
        Ok((lhs, next)) => if advanced(toks, pos, next) {
            relational_tail(toks, lhs, next)
        } else {
            stuck(toks, pos)
        },
    }
}

// ------------------------------------------------------------------
// Statements
// ------------------------------------------------------------------
/// `Identifier "=" Expression ";"`, where the first two stand at `pos`.
pub open spec fn assignment(toks: Seq<SpecToken>, pos: int) -> Parsed<SpecStatement> {
    match expression(toks, pos + 2) {
        Err(error) => Err(error),
        Ok((value, semicolon)) => match expect(
            toks,
            semicolon,
            TokenKind::Semicolon,
            operator_kinds().push(TokenKind::Semicolon),
        ) {
            Err(error) => Err(error),
            Ok(end) => Ok(
                (SpecStatement::Variable { id: identifier_at(toks, pos)->0, value }, end),
            ),
        },
    }
}

/// `Expression ("," Expression)* ")"`
pub open spec fn argument_list(toks: Seq<SpecToken>, pos: int) -> Parsed<Seq<SpecExpression>>
    decreases toks.len() - pos,
{
    match expression(toks, pos) {
        Err(error) => Err(error),
        Ok((argument, next)) => if kind_at(toks, next) == Some(TokenKind::RParen) {
            Ok((seq![argument], next + 1))
        } else if kind_at(toks, next) == Some(TokenKind::Comma) {
            if advanced(toks, pos, next) {
                prepend(seq![argument], argument_list(toks, next + 1))
            } else {
                stuck(toks, pos)
            }
        } else {
            Err(
                unexpected(
                    toks,
                    next,
                    operator_kinds().push(TokenKind::Comma).push(TokenKind::RParen),
                ),
            )
        },
    }
}

/// `ArgList? ")"`
pub open spec fn arguments(toks: Seq<SpecToken>, pos: int) -> Parsed<Seq<SpecExpression>> {
    if kind_at(toks, pos) == Some(TokenKind::RParen) {
        Ok((Seq::empty(), pos + 1))
    } else if is_primary_kind(kind_at(toks, pos)) {
        argument_list(toks, pos)
    } else {
        Err(unexpected(toks, pos, primary_kinds().push(TokenKind::RParen)))
    }
}

/// `Identifier "(" ArgList? ")" ";"`, where the first two stand at `pos`.
pub open spec fn call(toks: Seq<SpecToken>, pos: int) -> Parsed<SpecStatement> {
    match arguments(toks, pos + 2) {
        Err(error) => Err(error),
        Ok((args, semicolon)) => match expect(
            toks,
            semicolon,
            TokenKind::Semicolon,
            seq![TokenKind::Semicolon],
        ) {
            Err(error) => Err(error),
            Ok(end) => Ok(
                (SpecStatement::FunctionCall { id: identifier_at(toks, pos)->0, args }, end),
            ),
        },
    }
}

/// `"print" "(" Expression ")" ";"`, where `print` stands at `pos`.
pub open spec fn print(toks: Seq<SpecToken>, pos: int) -> Parsed<SpecStatement> {
    match parenthesized(toks, pos + 1) {
        Err(error) => Err(error),
        Ok((value, semicolon)) => match expect(
            toks,
            semicolon,
            TokenKind::Semicolon,
            seq![TokenKind::Semicolon],
        ) {
            Err(error) => Err(error),
            Ok(end) => Ok((SpecStatement::Print { value }, end)),
        },
    }
}

/// `Statement* close`, where `also` are the kinds that fit at `pos` besides
/// the start of a statement and `close`.
pub open spec fn statements(
    toks: Seq<SpecToken>,
    pos: int,
    close: TokenKind,
    also: Seq<TokenKind>,
) -> Parsed<Seq<SpecStatement>>
    decreases toks.len() - pos, 3int,
{
    if kind_at(toks, pos) == Some(close) {
        Ok((Seq::empty(), pos + 1))
    } else if is_statement_kind(kind_at(toks, pos)) {
        match statement(toks, pos) {
            Err(error) => Err(error),
            Ok((first, next)) => if advanced(toks, pos, next) {
                prepend(seq![first], statements(toks, next, close, Seq::empty()))
            } else {
                stuck(toks, pos)
            },
        }
    } else {
        Err(unexpected(toks, pos, (also + statement_kinds()).push(close)))
    }
}

/// `"{" Statement* "}"`
pub open spec fn block(toks: Seq<SpecToken>, pos: int) -> Parsed<Seq<SpecStatement>>
    decreases toks.len() - pos, 0int,
{
    if kind_at(toks, pos) != Some(TokenKind::LBrace) {
        Err(unexpected(toks, pos, seq![TokenKind::LBrace]))
    } else {
        statements(toks, pos + 1, TokenKind::RBrace, Seq::empty())
    }
}

/// `("else" Block)? ";"`, behind the branch `then_branch` of the condition
/// `condition` that started at `start`.
pub open spec fn condition_tail(
    toks: Seq<SpecToken>,
    start: int,
    condition: SpecExpression,
    then_branch: Seq<SpecStatement>,
    pos: int,
) -> Parsed<SpecStatement>
    decreases toks.len() - start, 0int,
{
    if kind_at(toks, pos) == Some(TokenKind::KeywordElse) {
        if advanced(toks, start, pos) {
            match block(toks, pos + 1) {
                Err(error) => Err(error),
                Ok((else_branch, semicolon)) => match expect(
                    toks,
                    semicolon,
                    TokenKind::Semicolon,
                    seq![TokenKind::Semicolon],
                ) {
                    Err(error) => Err(error),
                    Ok(end) => Ok(
                        (SpecStatement::Condition { condition, then_branch, else_branch }, end),
                    ),
                },
            }
        } else {
            stuck(toks, start)
        }
    } else {
        match expect(
            toks,
            pos,
            TokenKind::Semicolon,
            seq![TokenKind::KeywordElse, TokenKind::Semicolon],
        ) {
            Err(error) => Err(error),
            Ok(end) => Ok(
                (
                    SpecStatement::Condition { condition, then_branch, else_branch: Seq::empty() },
                    end,
                ),
            ),
        }
    }
}

/// `"if" "(" Expression ")" Block ("else" Block)? ";"`, where `if` stands at
/// `pos`.
pub open spec fn condition(toks: Seq<SpecToken>, pos: int) -> Parsed<SpecStatement>
    decreases toks.len() - pos, 1int,
{
    match parenthesized(toks, pos + 1) {
        Err(error) => Err(error),
        Ok((condition, then)) => if advanced(toks, pos, then) {
            match block(toks, then) {
                Err(error) => Err(error),
                Ok((then_branch, next)) => condition_tail(toks, pos, condition, then_branch, next),
            }
        } else {
            stuck(toks, pos)
        },
    }
}

/// `"while" "(" Expression ")" "do" Block ";"`, where `while` stands at
/// `pos`.
pub open spec fn cycle(toks: Seq<SpecToken>, pos: int) -> Parsed<SpecStatement>
    decreases toks.len() - pos, 1int,
{
    match parenthesized(toks, pos + 1) {
        Err(error) => Err(error),
        Ok((condition, keyword)) => match expect(
            toks,
            keyword,
            TokenKind::KeywordDo,
            seq![TokenKind::KeywordDo],
        ) {
            Err(error) => Err(error),
            Ok(open) => if advanced(toks, pos, open) {
                match block(toks, open) {
                    Err(error) => Err(error),
                    Ok((body, semicolon)) => match expect(
                        toks,
                        semicolon,
                        TokenKind::Semicolon,
                        seq![TokenKind::Semicolon],
                    ) {
                        Err(error) => Err(error),
                        Ok(end) => Ok((SpecStatement::Cycle { condition, body }, end)),
                    },
                }
            } else {
                stuck(toks, pos)
            },
        },
    }
}

/// `Assign | Print | If | While | Call`
pub open spec fn statement(toks: Seq<SpecToken>, pos: int) -> Parsed<SpecStatement>
    decreases toks.len() - pos, 2int,
{
    match kind_at(toks, pos) {
        Some(TokenKind::Identifier) => match kind_at(toks, pos + 1) {
            Some(TokenKind::AssignSimbol) => assignment(toks, pos),
            Some(TokenKind::LParen) => call(toks, pos),
            _ => Err(unexpected(toks, pos + 1, seq![TokenKind::AssignSimbol, TokenKind::LParen])),
        },
        Some(TokenKind::KeywordPrint) => print(toks, pos),
        Some(TokenKind::KeywordIf) => condition(toks, pos),
        Some(TokenKind::KeywordWhile) => cycle(toks, pos),
        _ => Err(unexpected(toks, pos, statement_kinds())),
    }
}

// ------------------------------------------------------------------
// Declarations
// ------------------------------------------------------------------
/// `Identifier ("," Identifier)*`
pub open spec fn names(toks: Seq<SpecToken>, pos: int) -> Parsed<Seq<Seq<char>>>
    decreases toks.len() - pos,
{
    match identifier_at(toks, pos) {
        None => Err(unexpected(toks, pos, seq![TokenKind::Identifier])),
        Some(name) => if kind_at(toks, pos + 1) == Some(TokenKind::Comma) {
            prepend(seq![name], names(toks, pos + 2))
        } else {
            Ok((seq![name], pos + 1))
        },
    }
}

/// Each of `names` declared with the type `type_text`.
pub open spec fn declare(names: Seq<Seq<char>>, type_text: Seq<char>) -> Seq<SpecDeclaration> {
    Seq::new(names.len(), |i: int| (names[i], type_text))
}

/// `Identifier ("," Identifier)* ":" Type`
pub open spec fn var_decl(toks: Seq<SpecToken>, pos: int) -> Parsed<Seq<SpecDeclaration>> {
    match names(toks, pos) {
        Err(error) => Err(error),
        Ok((declared, colon)) => match expect(
            toks,
            colon,
            TokenKind::TwoPoints,
            seq![TokenKind::Comma, TokenKind::TwoPoints],
        ) {
            Err(error) => Err(error),
            Ok(at) => match type_text(kind_at(toks, at)) {
                None => Err(
                    unexpected(toks, at, seq![TokenKind::KeywordInt, TokenKind::KeywordFloat]),
                ),
                Some(name) => Ok((declare(declared, name), at + 1)),
            },
        },
    }
}

/// Whether another declaration follows at `pos`, behind the `;` of one. In
/// a function statements follow the declarations, and an identifier starts
/// either: the token behind it decides.
pub open spec fn more_declarations(
    toks: Seq<SpecToken>,
    pos: int,
    in_function: bool,
) -> Result<bool, SpecSyntaxError> {
    if kind_at(toks, pos) != Some(TokenKind::Identifier) {
        Ok(false)
    } else if !in_function {
        Ok(true)
    } else {
        match kind_at(toks, pos + 1) {
            Some(TokenKind::Comma) => Ok(true),
            Some(TokenKind::TwoPoints) => Ok(true),
            Some(TokenKind::AssignSimbol) => Ok(false),
            Some(TokenKind::LParen) => Ok(false),
            _ => Err(
                unexpected(
                    toks,
                    pos + 1,
                    seq![
                        TokenKind::Comma,
                        TokenKind::TwoPoints,
                        TokenKind::AssignSimbol,
                        TokenKind::LParen,
                    ],
                ),
            ),
        }
    }
}

/// `VarDecl ";" (VarDecl ";")*`
pub open spec fn declarations(
    toks: Seq<SpecToken>,
    pos: int,
    in_function: bool,
) -> Parsed<Seq<SpecDeclaration>>
    decreases toks.len() - pos,
{
    match var_decl(toks, pos) {
        Err(error) => Err(error),
        Ok((first, semicolon)) => match expect(
            toks,
            semicolon,
            TokenKind::Semicolon,
            seq![TokenKind::Semicolon],
        ) {
            Err(error) => Err(error),
            Ok(next) => match more_declarations(toks, next, in_function) {
                Err(error) => Err(error),
                Ok(false) => Ok((first, next)),
                Ok(true) => if advanced(toks, pos, next) {
                    prepend(first, declarations(toks, next, in_function))
                } else {
                    stuck(toks, pos)
                },
            },
        },
    }
}

/// `VarSection?`
pub open spec fn var_section(
    toks: Seq<SpecToken>,
    pos: int,
    in_function: bool,
) -> Parsed<Seq<SpecDeclaration>> {
    if kind_at(toks, pos) == Some(TokenKind::KeywordVar) {
        declarations(toks, pos + 1, in_function)
    } else {
        Ok((Seq::empty(), pos))
    }
}

/// `VarDecl ("," VarDecl)* ")"`
pub open spec fn parameter_list(toks: Seq<SpecToken>, pos: int) -> Parsed<Seq<SpecDeclaration>>
    decreases toks.len() - pos,
{
    match var_decl(toks, pos) {
        Err(error) => Err(error),
        Ok((first, next)) => if kind_at(toks, next) == Some(TokenKind::RParen) {
            Ok((first, next + 1))
        } else if kind_at(toks, next) == Some(TokenKind::Comma) {
            if advanced(toks, pos, next) {
                prepend(first, parameter_list(toks, next + 1))
            } else {
                stuck(toks, pos)
            }
        } else {
            Err(unexpected(toks, next, seq![TokenKind::Comma, TokenKind::RParen]))
        },
    }
}

/// `ParamList? ")"`
pub open spec fn parameters(toks: Seq<SpecToken>, pos: int) -> Parsed<Seq<SpecDeclaration>> {
    if kind_at(toks, pos) == Some(TokenKind::RParen) {
        Ok((Seq::empty(), pos + 1))
    } else if kind_at(toks, pos) == Some(TokenKind::Identifier) {
        parameter_list(toks, pos)
    } else {
        Err(unexpected(toks, pos, seq![TokenKind::Identifier, TokenKind::RParen]))
    }
}

/// `"[" VarSection? Statement* "]" ";"`: the local variables and the body
/// of a function.
pub open spec fn function_body(toks: Seq<SpecToken>, pos: int) -> Parsed<
    (Seq<SpecDeclaration>, Seq<SpecStatement>),
> {
    match expect(toks, pos, TokenKind::LBraket, seq![TokenKind::LBraket]) {
        Err(error) => Err(error),
        Ok(inside) => match var_section(toks, inside, true) {
            Err(error) => Err(error),
            Ok((vars, first)) => match statements(
                toks,
                first,
                TokenKind::RBraket,
                if first == inside {
                    seq![TokenKind::KeywordVar]
                } else {
                    Seq::empty()
                },
            ) {
                Err(error) => Err(error),
                Ok((body, semicolon)) => match expect(
                    toks,
                    semicolon,
                    TokenKind::Semicolon,
                    seq![TokenKind::Semicolon],
                ) {
                    Err(error) => Err(error),
                    Ok(end) => Ok(((vars, body), end)),
                },
            },
        },
    }
}

/// `"void" Identifier "(" ParamList? ")" "[" VarSection? Statement* "]" ";"`,
/// where `void` stands at `pos`.
pub open spec fn function(toks: Seq<SpecToken>, pos: int) -> Parsed<SpecFunction> {
    match identifier_at(toks, pos + 1) {
        None => Err(unexpected(toks, pos + 1, seq![TokenKind::Identifier])),
        Some(id) => match expect(toks, pos + 2, TokenKind::LParen, seq![TokenKind::LParen]) {
            Err(error) => Err(error),
            Ok(first) => match parameters(toks, first) {
                Err(error) => Err(error),
                Ok((params, open)) => match function_body(toks, open) {
                    Err(error) => Err(error),
                    Ok(((vars, body), end)) => Ok((SpecFunction { id, params, vars, body }, end)),
                },
            },
        },
    }
}

/// `FuncDecl*`
pub open spec fn functions(toks: Seq<SpecToken>, pos: int) -> Parsed<Seq<SpecFunction>>
    decreases toks.len() - pos,
{
    if kind_at(toks, pos) == Some(TokenKind::KeywordVoid) {
        match function(toks, pos) {
            Err(error) => Err(error),
            Ok((first, next)) => if advanced(toks, pos, next) {
                prepend(seq![first], functions(toks, next))
            } else {
                stuck(toks, pos)
            },
        }
    } else {
        Ok((Seq::empty(), pos))
    }
}

// ------------------------------------------------------------------
// Programs
// ------------------------------------------------------------------
/// The kinds of token that fit where `main` is due: `main`, the start of a
/// function, and what the part before allows.
pub open spec fn before_main(has_vars: bool, has_functions: bool) -> Seq<TokenKind> {
    if has_functions {
        seq![TokenKind::KeywordVoid, TokenKind::KeywordMain]
    } else if has_vars {
        seq![TokenKind::Identifier, TokenKind::KeywordVoid, TokenKind::KeywordMain]
    } else {
        seq![TokenKind::KeywordVar, TokenKind::KeywordVoid, TokenKind::KeywordMain]
    }
}

/// `"main" Block "end"` and the end of the input, where `expected` are the
/// kinds that fit at `pos`.
pub open spec fn main_block(
    toks: Seq<SpecToken>,
    pos: int,
    expected: Seq<TokenKind>,
) -> Result<Seq<SpecStatement>, SpecSyntaxError> {
    match expect(toks, pos, TokenKind::KeywordMain, expected) {
        Err(error) => Err(error),
        Ok(open) => match block(toks, open) {
            Err(error) => Err(error),
            Ok((body, keyword)) => match expect(
                toks,
                keyword,
                TokenKind::KeywordEnd,
                seq![TokenKind::KeywordEnd],
            ) {
                Err(error) => Err(error),
                Ok(end) => if end == toks.len() {
                    Ok(body)
                } else {
                    Err(unexpected(toks, end, Seq::empty()))
                },
            },
        },
    }
}

/// `"program" Identifier ";"`: the name of the program.
pub open spec fn heading(toks: Seq<SpecToken>) -> Parsed<Seq<char>> {
    match expect(toks, 0, TokenKind::KeywordProgram, seq![TokenKind::KeywordProgram]) {
        Err(error) => Err(error),
        Ok(_) => match identifier_at(toks, 1) {
            None => Err(unexpected(toks, 1, seq![TokenKind::Identifier])),
            Some(id) => match expect(toks, 2, TokenKind::Semicolon, seq![TokenKind::Semicolon]) {
                Err(error) => Err(error),
                Ok(next) => Ok((id, next)),
            },
        },
    }
}

/// The program that the tokens `toks` spell, or their syntax error.
pub open spec fn program(toks: Seq<SpecToken>) -> Result<SpecProgram, SpecSyntaxError> {
    match heading(toks) {
        Err(error) => Err(error),
        Ok((id, first)) => match var_section(toks, first, false) {
            Err(error) => Err(error),
            Ok((vars, next)) => match functions(toks, next) {
                Err(error) => Err(error),
                Ok((funcs, main)) => match main_block(
                    toks,
                    main,
                    before_main(next != first, funcs.len() > 0),
                ) {
                    Err(error) => Err(error),
                    Ok(body) => Ok(SpecProgram { id, vars, funcs, body }),
                },
            },
        },
    }
}

/// The expression that the tokens `toks` spell, all of them, or their
/// syntax error.
pub open spec fn whole_expression(toks: Seq<SpecToken>) -> Result<SpecExpression, SpecSyntaxError> {
    match expression(toks, 0) {
        Err(error) => Err(error),
        Ok((value, end)) => if end == toks.len() {
            Ok(value)
        } else {
            Err(unexpected(toks, end, operator_kinds()))
        },
    }
}

} // verus!
