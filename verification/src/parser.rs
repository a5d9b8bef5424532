//! The parser: tokens in, a syntax tree or one syntax error out.
//!
//! Every function here computes what the production of the same name in
//! [`crate::grammar`] yields, and its contract says so.

use crate::ast::{
    declaration_views, expression_views, function_views, statement_views, BinaryOperator,
    Expression, Function, Program, SpecDeclaration, SpecExpression, SpecFunction, SpecProgram,
    SpecStatement, Statement,
};
use crate::grammar::{
    additive, additive_operator, additive_tail, argument_list, arguments, assignment,
    before_main, binary, block, call, condition, cycle, declarations, declare, expect,
    expression, function, function_body, functions, heading, identifier_at, is_primary_kind,
    is_statement_kind, kind_at, main_block, more_declarations, multiplicative,
    multiplicative_operator, multiplicative_tail, named, names, operator_kinds, parameter_list,
    parameters, parenthesized, prepend, primary, primary_kinds, print, program,
    relational_operator, relational_tail, statement, statement_kinds, statements, type_text,
    unexpected, var_decl, var_section, whole_expression, Parsed, SpecSyntaxError,
};
use crate::lexer::tokenize;
use crate::lexical::tokens_of;
use crate::tokens::{token_views, LexicalError, LexicalErrorKind, Token, TokenKind};
use vstd::prelude::*;
use vstd::std_specs::cmp::PartialEqSpecImpl;

verus! {

/// A syntax error: the position of the offending token among the tokens,
/// the token (`None` at the end of the input), and the kinds of token that
/// would have fitted there.
#[derive(Debug)]
pub struct SyntaxError {
    pub position: usize,
    pub found: Option<Token>,
    pub expected: Vec<TokenKind>,
}

impl View for SyntaxError {
    type V = SpecSyntaxError;

    open spec fn view(&self) -> SpecSyntaxError {
        SpecSyntaxError {
            position: self.position as int,
            found: match self.found {
                Some(token) => Some(token@),
                None => None,
            },
            expected: self.expected@,
        }
    }
}

/// Whether two lists of kinds are equal.
fn same_kinds(a: &Vec<TokenKind>, b: &Vec<TokenKind>) -> (same: bool)
    ensures
        same == (a@ == b@),
{
    if a.len() != b.len() {
        return false;
    }
    let mut i: usize = 0;
    while i < a.len()
        invariant
            i <= a.len(),
            a.len() == b.len(),
            forall|j: int| 0 <= j < i ==> a@[j] == b@[j],
        decreases a.len() - i,
    {
        if a[i] != b[i] {
            return false;
        }
        i = i + 1;
    }
    assert(a@ =~= b@);
    true
}

// Two syntax errors are equal where they name the same place, the same
// token and the same kinds: where their views are equal.
impl PartialEq for SyntaxError {
    fn eq(&self, other: &SyntaxError) -> (same: bool) {
        let found = match (&self.found, &other.found) {
            (Some(a), Some(b)) => a.eq(b),
            (None, None) => true,
            _ => false,
        };
        self.position == other.position && found && same_kinds(&self.expected, &other.expected)
    }
}

impl PartialEqSpecImpl for SyntaxError {
    open spec fn obeys_eq_spec() -> bool {
        true
    }

    open spec fn eq_spec(&self, other: &SyntaxError) -> bool {
        self@ == other@
    }
}

impl Clone for SyntaxError {
    fn clone(&self) -> (copy: SyntaxError)
        ensures
            copy@ == self@,
    {
        let mut expected: Vec<TokenKind> = Vec::new();
        let mut i: usize = 0;
        while i < self.expected.len()
            invariant
                i <= self.expected.len(),
                expected@ == self.expected@.take(i as int),
            decreases self.expected.len() - i,
        {
            expected.push(self.expected[i]);
            i = i + 1;
            assert(expected@ =~= self.expected@.take(i as int));
        }
        assert(expected@ =~= self.expected@);
        let found = match &self.found {
            Some(token) => Some(token.clone()),
            None => None,
        };
        SyntaxError { position: self.position, found, expected }
    }
}

/// What a function that reads an expression has returned, as the grammar
/// states it.
pub open spec fn parsed_expression(r: Result<(Expression, usize), SyntaxError>) -> Parsed<
    SpecExpression,
> {
    match r {
        Ok((value, end)) => Ok((value@, end as int)),
        Err(error) => Err(error@),
    }
}

/// The function that started at `pos` has returned a position behind it
/// and within the tokens.
pub open spec fn has_advanced<T>(
    tokens: &Vec<Token>,
    pos: usize,
    r: Result<(T, usize), SyntaxError>,
) -> bool {
    r matches Ok((_, end)) ==> pos < end <= tokens.len()
}

// ------------------------------------------------------------------
// Tokens at a position
// ------------------------------------------------------------------
/// The kind of the token at `pos`, `None` past the end.
fn kind_of(tokens: &Vec<Token>, pos: usize) -> (kind: Option<TokenKind>)
    ensures
        kind == kind_at(token_views(tokens@), pos as int),
{
    if pos < tokens.len() {
        Some(tokens[pos].kind())
    } else {
        None
    }
}

/// Whether a token of kind `kind` stands at `pos`.
fn is_kind(tokens: &Vec<Token>, pos: usize, kind: TokenKind) -> (b: bool)
    ensures
        b == (kind_at(token_views(tokens@), pos as int) == Some(kind)),
        b ==> pos < tokens.len(),
{
    match kind_of(tokens, pos) {
        Some(found) => found == kind,
        None => false,
    }
}

/// The name that the identifier at `pos` spells, if an identifier stands
/// there.
fn identifier_of(tokens: &Vec<Token>, pos: usize) -> (name: Option<String>)
    ensures
        match name {
            Some(text) => identifier_at(token_views(tokens@), pos as int) == Some(text@),
            None => identifier_at(token_views(tokens@), pos as int) is None,
        },
        name is Some ==> pos < tokens.len(),
        name is Some <==> kind_at(token_views(tokens@), pos as int) == Some(
            TokenKind::Identifier,
        ),
{
    if pos < tokens.len() {
        match &tokens[pos] {
            Token::Identifier(name) => Some(name.clone()),
            _ => None,
        }
    } else {
        None
    }
}

/// The error for the token at `pos`, where the kinds `expected` would fit.
fn unexpected_at(tokens: &Vec<Token>, pos: usize, expected: Vec<TokenKind>) -> (error: SyntaxError)
    ensures
        error@ == unexpected(token_views(tokens@), pos as int, expected@),
{
    let found = if pos < tokens.len() {
        Some(tokens[pos].clone())
    } else {
        None
    };
    SyntaxError { position: pos, found, expected }
}

/// Passes over a token of kind `kind` at `pos`; `expected` are the kinds
/// that fit there.
fn expect_kind(tokens: &Vec<Token>, pos: usize, kind: TokenKind, expected: Vec<TokenKind>) -> (r:
    Result<usize, SyntaxError>)
    ensures
        match r {
            Ok(end) => expect(token_views(tokens@), pos as int, kind, expected@) == Ok::<
                int,
                SpecSyntaxError,
            >(end as int) && end == pos + 1 && end <= tokens.len(),
            Err(error) => expect(token_views(tokens@), pos as int, kind, expected@) == Err::<
                int,
                SpecSyntaxError,
            >(error@),
        },
{
    if is_kind(tokens, pos, kind) {
        Ok(pos + 1)
    } else {
        Err(unexpected_at(tokens, pos, expected))
    }
}

// ------------------------------------------------------------------
// Kinds of token
// ------------------------------------------------------------------
/// The one kind `kind`.
fn only(kind: TokenKind) -> (kinds: Vec<TokenKind>)
    ensures
        kinds@ == seq![kind],
{
    let mut kinds: Vec<TokenKind> = Vec::new();
    kinds.push(kind);
    assert(kinds@ =~= seq![kind]);
    kinds
}

/// The two kinds `first` and `second`.
fn either(first: TokenKind, second: TokenKind) -> (kinds: Vec<TokenKind>)
    ensures
        kinds@ == seq![first, second],
{
    let mut kinds: Vec<TokenKind> = Vec::new();
    kinds.push(first);
    kinds.push(second);
    assert(kinds@ =~= seq![first, second]);
    kinds
}

/// The binary operators.
fn operators() -> (kinds: Vec<TokenKind>)
    ensures
        kinds@ == operator_kinds(),
{
    let mut kinds: Vec<TokenKind> = Vec::new();
    kinds.push(TokenKind::OperatorMul);
    kinds.push(TokenKind::OperatorDiv);
    kinds.push(TokenKind::OperatorAdd);
    kinds.push(TokenKind::OperatorSub);
    kinds.push(TokenKind::SmallerThan);
    kinds.push(TokenKind::BigerThan);
    kinds.push(TokenKind::NotEqual);
    assert(kinds@ =~= operator_kinds());
    kinds
}

/// The binary operators and then `kind`.
fn operators_or(kind: TokenKind) -> (kinds: Vec<TokenKind>)
    ensures
        kinds@ == operator_kinds().push(kind),
{
    let mut kinds = operators();
    kinds.push(kind);
    kinds
}

/// The kinds of token that start an expression.
fn primaries() -> (kinds: Vec<TokenKind>)
    ensures
        kinds@ == primary_kinds(),
{
    let mut kinds: Vec<TokenKind> = Vec::new();
    kinds.push(TokenKind::Integer);
    kinds.push(TokenKind::Float);
    kinds.push(TokenKind::String);
    kinds.push(TokenKind::Identifier);
    kinds.push(TokenKind::LParen);
    assert(kinds@ =~= primary_kinds());
    kinds
}

// ------------------------------------------------------------------
// Expressions
// ------------------------------------------------------------------
/// `lhs operator rhs`
fn binary_of(lhs: Expression, operator: BinaryOperator, rhs: Expression) -> (value: Expression)
    ensures
        value@ == binary(lhs@, operator, rhs@),
{
    Expression::BinaryOperation { lhs: Box::new(lhs), operator, rhs: Box::new(rhs) }
}

/// What an identifier is in an expression: a boolean literal or a variable.
fn named_of(name: String) -> (value: Expression)
    ensures
        value@ == named(name@),
{
    proof {
        reveal_strlit("true");
        reveal_strlit("false");
        assert("true"@ =~= seq!['t', 'r', 'u', 'e']);
        assert("false"@ =~= seq!['f', 'a', 'l', 's', 'e']);
    }
    let literal_true = "true".to_owned();
    let literal_false = "false".to_owned();
    if name == literal_true {
        Expression::Boolean(true)
    } else if name == literal_false {
        Expression::Boolean(false)
    } else {
        Expression::Variable(name)
    }
}

/// `"(" Expression ")"`
fn parse_parenthesized(tokens: &Vec<Token>, pos: usize) -> (r: Result<
    (Expression, usize),
    SyntaxError,
>)
    ensures
        parsed_expression(r) == parenthesized(token_views(tokens@), pos as int),
        has_advanced(tokens, pos, r),
    decreases tokens.len() - pos, 0int,
{
    if !is_kind(tokens, pos, TokenKind::LParen) {
        return Err(unexpected_at(tokens, pos, only(TokenKind::LParen)));
    }
    let (inner, close) = match parse_expression_at(tokens, pos + 1) {
        Ok(found) => found,
        Err(error) => {
            return Err(error);
        },
    };
    match expect_kind(tokens, close, TokenKind::RParen, operators_or(TokenKind::RParen)) {
        Ok(end) => Ok((inner, end)),
        Err(error) => Err(error),
    }
}

/// `Integer | Float | String | Identifier | "(" Expression ")"`
fn parse_primary(tokens: &Vec<Token>, pos: usize) -> (r: Result<(Expression, usize), SyntaxError>)
    ensures
        parsed_expression(r) == primary(token_views(tokens@), pos as int),
        has_advanced(tokens, pos, r),
    decreases tokens.len() - pos, 1int,
{
    if pos >= tokens.len() {
        return Err(unexpected_at(tokens, pos, primaries()));
    }
    match &tokens[pos] {
        Token::Integer(value) => Ok((Expression::Integer(*value), pos + 1)),
        Token::Float(text) => Ok((Expression::Float(text.clone()), pos + 1)),
        Token::String(text) => Ok((Expression::String(text.clone()), pos + 1)),
        Token::Identifier(name) => Ok((named_of(name.clone()), pos + 1)),
        Token::LParen => parse_parenthesized(tokens, pos),
        _ => Err(unexpected_at(tokens, pos, primaries())),
    }
}

/// `*` and `/`.
fn multiplicative_operator_of(kind: Option<TokenKind>) -> (operator: Option<BinaryOperator>)
    ensures
        operator == multiplicative_operator(kind),
{
    match kind {
        Some(TokenKind::OperatorMul) => Some(BinaryOperator::Mul),
        Some(TokenKind::OperatorDiv) => Some(BinaryOperator::Div),
        _ => None,
    }
}

/// `+` and `-`.
fn additive_operator_of(kind: Option<TokenKind>) -> (operator: Option<BinaryOperator>)
    ensures
        operator == additive_operator(kind),
{
    match kind {
        Some(TokenKind::OperatorAdd) => Some(BinaryOperator::Add),
        Some(TokenKind::OperatorSub) => Some(BinaryOperator::Sub),
        _ => None,
    }
}

/// `<`, `>` and `!=`.
fn relational_operator_of(kind: Option<TokenKind>) -> (operator: Option<BinaryOperator>)
    ensures
        operator == relational_operator(kind),
{
    match kind {
        Some(TokenKind::SmallerThan) => Some(BinaryOperator::Lt),
        Some(TokenKind::BigerThan) => Some(BinaryOperator::Gt),
        Some(TokenKind::NotEqual) => Some(BinaryOperator::Ne),
        _ => None,
    }
}

/// `Primary (("*" | "/") Primary)*`
fn parse_multiplicative(tokens: &Vec<Token>, pos: usize) -> (r: Result<
    (Expression, usize),
    SyntaxError,
>)
    ensures
        parsed_expression(r) == multiplicative(token_views(tokens@), pos as int),
        has_advanced(tokens, pos, r),
    decreases tokens.len() - pos, 3int,
{
    let ghost toks = token_views(tokens@);
    let (mut lhs, mut at) = match parse_primary(tokens, pos) {
        Ok(found) => found,
        Err(error) => {
            return Err(error);
        },
    };
    loop
        invariant
            toks == token_views(tokens@),
            pos < at <= tokens.len(),
            multiplicative(toks, pos as int) == multiplicative_tail(toks, lhs@, at as int),
        decreases tokens.len() - at,
    {
        let operator = match multiplicative_operator_of(kind_of(tokens, at)) {
            Some(operator) => operator,
            None => {
                return Ok((lhs, at));
            },
        };
        let (rhs, next) = match parse_primary(tokens, at + 1) {
            Ok(found) => found,
            Err(error) => {
                return Err(error);
            },
        };
        lhs = binary_of(lhs, operator, rhs);
        at = next;
    }
}

/// `Multiplicative (("+" | "-") Multiplicative)*`
fn parse_additive(tokens: &Vec<Token>, pos: usize) -> (r: Result<(Expression, usize), SyntaxError>)
    ensures
        parsed_expression(r) == additive(token_views(tokens@), pos as int),
        has_advanced(tokens, pos, r),
    decreases tokens.len() - pos, 5int,
{
    let ghost toks = token_views(tokens@);
    let (mut lhs, mut at) = match parse_multiplicative(tokens, pos) {
        Ok(found) => found,
        Err(error) => {
            return Err(error);
        },
    };
    loop
        invariant
            toks == token_views(tokens@),
            pos < at <= tokens.len(),
            additive(toks, pos as int) == additive_tail(toks, lhs@, at as int),
        decreases tokens.len() - at,
    {
        let operator = match additive_operator_of(kind_of(tokens, at)) {
            Some(operator) => operator,
            None => {
                return Ok((lhs, at));
            },
        };
        let (rhs, next) = match parse_multiplicative(tokens, at + 1) {
            Ok(found) => found,
            Err(error) => {
                return Err(error);
            },
        };
        lhs = binary_of(lhs, operator, rhs);
        at = next;
    }
}

/// `Additive (("<" | ">" | "!=") Additive)*`
fn parse_expression_at(tokens: &Vec<Token>, pos: usize) -> (r: Result<
    (Expression, usize),
    SyntaxError,
>)
    ensures
        parsed_expression(r) == expression(token_views(tokens@), pos as int),
        has_advanced(tokens, pos, r),
    decreases tokens.len() - pos, 7int,
{
    let ghost toks = token_views(tokens@);
    let (mut lhs, mut at) = match parse_additive(tokens, pos) {
        Ok(found) => found,
        Err(error) => {
            return Err(error);
        },
    };
    loop
        invariant
            toks == token_views(tokens@),
            pos < at <= tokens.len(),
            expression(toks, pos as int) == relational_tail(toks, lhs@, at as int),
        decreases tokens.len() - at,
    {
        let operator = match relational_operator_of(kind_of(tokens, at)) {
            Some(operator) => operator,
            None => {
                return Ok((lhs, at));
            },
        };
        let (rhs, next) = match parse_additive(tokens, at + 1) {
            Ok(found) => found,
            Err(error) => {
                return Err(error);
            },
        };
        lhs = binary_of(lhs, operator, rhs);
        at = next;
    }
}

// ------------------------------------------------------------------
// Lists
// ------------------------------------------------------------------
/// What a function that reads a statement has returned, as the grammar
/// states it.
pub open spec fn parsed_statement(r: Result<(Statement, usize), SyntaxError>) -> Parsed<
    SpecStatement,
> {
    match r {
        Ok((value, end)) => Ok((value@, end as int)),
        Err(error) => Err(error@),
    }
}

/// What a function that reads statements has returned, as the grammar
/// states it.
pub open spec fn parsed_statements(r: Result<(Vec<Statement>, usize), SyntaxError>) -> Parsed<
    Seq<SpecStatement>,
> {
    match r {
        Ok((list, end)) => Ok((statement_views(list@), end as int)),
        Err(error) => Err(error@),
    }
}

/// What a function that reads arguments has returned, as the grammar states
/// it.
pub open spec fn parsed_arguments(r: Result<(Vec<Expression>, usize), SyntaxError>) -> Parsed<
    Seq<SpecExpression>,
> {
    match r {
        Ok((list, end)) => Ok((expression_views(list@), end as int)),
        Err(error) => Err(error@),
    }
}

/// The texts of a list of names, in order.
pub open spec fn name_views(list: Seq<String>) -> Seq<Seq<char>> {
    Seq::new(list.len(), |i: int| list[i]@)
}

/// What a function that reads names has returned, as the grammar states it.
pub open spec fn parsed_names(r: Result<(Vec<String>, usize), SyntaxError>) -> Parsed<
    Seq<Seq<char>>,
> {
    match r {
        Ok((list, end)) => Ok((name_views(list@), end as int)),
        Err(error) => Err(error@),
    }
}

/// What a function that reads declarations has returned, as the grammar
/// states it.
pub open spec fn parsed_declarations(
    r: Result<(Vec<(String, String)>, usize), SyntaxError>,
) -> Parsed<Seq<SpecDeclaration>> {
    match r {
        Ok((list, end)) => Ok((declaration_views(list@), end as int)),
        Err(error) => Err(error@),
    }
}

/// What a function that reads a function has returned, as the grammar
/// states it.
pub open spec fn parsed_function(r: Result<(Function, usize), SyntaxError>) -> Parsed<
    SpecFunction,
> {
    match r {
        Ok((value, end)) => Ok((value@, end as int)),
        Err(error) => Err(error@),
    }
}

/// What a function that reads functions has returned, as the grammar
/// states it.
pub open spec fn parsed_functions(r: Result<(Vec<Function>, usize), SyntaxError>) -> Parsed<
    Seq<SpecFunction>,
> {
    match r {
        Ok((list, end)) => Ok((function_views(list@), end as int)),
        Err(error) => Err(error@),
    }
}

/// To put `first` before `second` and both before a result is to put
/// `first + second` before it.
pub proof fn lemma_prepend<T>(first: Seq<T>, second: Seq<T>, rest: Parsed<Seq<T>>)
    ensures
        prepend(first, prepend(second, rest)) == prepend(first + second, rest),
        prepend(Seq::<T>::empty(), rest) == rest,
{
    match rest {
        Ok((more, end)) => {
            assert(first + (second + more) =~= (first + second) + more);
            assert(Seq::<T>::empty() + more =~= more);
        },
        Err(_) => {},
    }
}

// ------------------------------------------------------------------
// Statements
// ------------------------------------------------------------------
/// The kinds of token that start a statement.
fn statement_starts() -> (kinds: Vec<TokenKind>)
    ensures
        kinds@ == statement_kinds(),
{
    let mut kinds: Vec<TokenKind> = Vec::new();
    kinds.push(TokenKind::Identifier);
    kinds.push(TokenKind::KeywordPrint);
    kinds.push(TokenKind::KeywordIf);
    kinds.push(TokenKind::KeywordWhile);
    assert(kinds@ =~= statement_kinds());
    kinds
}

/// `Identifier "=" Expression ";"`, where the first two stand at `pos`.
fn parse_assignment(tokens: &Vec<Token>, pos: usize, id: String) -> (r: Result<
    (Statement, usize),
    SyntaxError,
>)
    requires
        pos + 1 < tokens.len(),
        identifier_at(token_views(tokens@), pos as int) == Some(id@),
    ensures
        parsed_statement(r) == assignment(token_views(tokens@), pos as int),
        has_advanced(tokens, pos, r),
{
    let (value, semicolon) = match parse_expression_at(tokens, pos + 2) {
        Ok(found) => found,
        Err(error) => {
            return Err(error);
        },
    };
    match expect_kind(tokens, semicolon, TokenKind::Semicolon, operators_or(TokenKind::Semicolon)) {
        Ok(end) => Ok((Statement::Variable { id, value: Box::new(value) }, end)),
        Err(error) => Err(error),
    }
}

/// `Expression ("," Expression)* ")"`
fn parse_argument_list(tokens: &Vec<Token>, pos: usize) -> (r: Result<
    (Vec<Expression>, usize),
    SyntaxError,
>)
    requires
        pos <= tokens.len(),
    ensures
        parsed_arguments(r) == argument_list(token_views(tokens@), pos as int),
        has_advanced(tokens, pos, r),
{
    let ghost toks = token_views(tokens@);
    let mut list: Vec<Expression> = Vec::new();
    let mut at = pos;
    proof {
        lemma_prepend(Seq::empty(), Seq::empty(), argument_list(toks, pos as int));
        assert(expression_views(list@) =~= Seq::empty());
    }
    loop
        invariant
            toks == token_views(tokens@),
            pos <= at <= tokens.len(),
            argument_list(toks, pos as int) == prepend(
                expression_views(list@),
                argument_list(toks, at as int),
            ),
        decreases tokens.len() - at,
    {
        let ghost read = expression_views(list@);
        let (argument, next) = match parse_expression_at(tokens, at) {
            Ok(found) => found,
            Err(error) => {
                return Err(error);
            },
        };
        proof {
            assert(expression_views(list@.push(argument)) =~= read + seq![argument@]);
        }
        if is_kind(tokens, next, TokenKind::RParen) {
            list.push(argument);
            return Ok((list, next + 1));
        } else if is_kind(tokens, next, TokenKind::Comma) {
            proof {
                lemma_prepend(read, seq![argument@], argument_list(toks, next + 1));
            }
            list.push(argument);
            at = next + 1;
        } else {
            let mut expected = operators_or(TokenKind::Comma);
            expected.push(TokenKind::RParen);
            return Err(unexpected_at(tokens, next, expected));
        }
    }
}

/// Whether an expression may start with a token of kind `kind`.
fn starts_primary(kind: Option<TokenKind>) -> (b: bool)
    ensures
        b == is_primary_kind(kind),
{
    match kind {
        Some(TokenKind::Integer) => true,
        Some(TokenKind::Float) => true,
        Some(TokenKind::String) => true,
        Some(TokenKind::Identifier) => true,
        Some(TokenKind::LParen) => true,
        _ => false,
    }
}

/// Whether a statement may start with a token of kind `kind`.
fn starts_statement(kind: Option<TokenKind>) -> (b: bool)
    ensures
        b == is_statement_kind(kind),
{
    match kind {
        Some(TokenKind::Identifier) => true,
        Some(TokenKind::KeywordPrint) => true,
        Some(TokenKind::KeywordIf) => true,
        Some(TokenKind::KeywordWhile) => true,
        _ => false,
    }
}

/// `ArgList? ")"`
fn parse_arguments(tokens: &Vec<Token>, pos: usize) -> (r: Result<
    (Vec<Expression>, usize),
    SyntaxError,
>)
    requires
        pos <= tokens.len(),
    ensures
        parsed_arguments(r) == arguments(token_views(tokens@), pos as int),
        has_advanced(tokens, pos, r),
{
    if is_kind(tokens, pos, TokenKind::RParen) {
        let list: Vec<Expression> = Vec::new();
        assert(expression_views(list@) =~= Seq::empty());
        Ok((list, pos + 1))
    } else if starts_primary(kind_of(tokens, pos)) {
        parse_argument_list(tokens, pos)
    } else {
        let mut expected = primaries();
        expected.push(TokenKind::RParen);
        Err(unexpected_at(tokens, pos, expected))
    }
}

/// `Identifier "(" ArgList? ")" ";"`, where the first two stand at `pos`.
fn parse_call(tokens: &Vec<Token>, pos: usize, id: String) -> (r: Result<
    (Statement, usize),
    SyntaxError,
>)
    requires
        pos + 1 < tokens.len(),
        identifier_at(token_views(tokens@), pos as int) == Some(id@),
    ensures
        parsed_statement(r) == call(token_views(tokens@), pos as int),
        has_advanced(tokens, pos, r),
{
    let (args, semicolon) = match parse_arguments(tokens, pos + 2) {
        Ok(found) => found,
        Err(error) => {
            return Err(error);
        },
    };
    match expect_kind(tokens, semicolon, TokenKind::Semicolon, only(TokenKind::Semicolon)) {
        Ok(end) => Ok((Statement::FunctionCall { id, args }, end)),
        Err(error) => Err(error),
    }
}

/// `"print" "(" Expression ")" ";"`, where `print` stands at `pos`.
fn parse_print(tokens: &Vec<Token>, pos: usize) -> (r: Result<(Statement, usize), SyntaxError>)
    requires
        pos < tokens.len(),
    ensures
        parsed_statement(r) == print(token_views(tokens@), pos as int),
        has_advanced(tokens, pos, r),
{
    let (value, semicolon) = match parse_parenthesized(tokens, pos + 1) {
        Ok(found) => found,
        Err(error) => {
            return Err(error);
        },
    };
    match expect_kind(tokens, semicolon, TokenKind::Semicolon, only(TokenKind::Semicolon)) {
        Ok(end) => Ok((Statement::Print { value: Box::new(value) }, end)),
        Err(error) => Err(error),
    }
}

/// `Statement* close`, where `also` are the kinds that fit at `pos` besides
/// the start of a statement and `close`.
fn parse_statements(tokens: &Vec<Token>, pos: usize, close: TokenKind, also: Vec<TokenKind>) -> (r:
    Result<(Vec<Statement>, usize), SyntaxError>)
    requires
        pos <= tokens.len(),
    ensures
        parsed_statements(r) == statements(token_views(tokens@), pos as int, close, also@),
        has_advanced(tokens, pos, r),
    decreases tokens.len() - pos, 3int,
{
    let ghost toks = token_views(tokens@);
    let mut others = also;
    let mut list: Vec<Statement> = Vec::new();
    let mut at = pos;
    proof {
        lemma_prepend(Seq::empty(), Seq::empty(), statements(toks, pos as int, close, also@));
        assert(statement_views(list@) =~= Seq::empty());
    }
    loop
        invariant
            toks == token_views(tokens@),
            pos <= at <= tokens.len(),
            statements(toks, pos as int, close, also@) == prepend(
                statement_views(list@),
                statements(toks, at as int, close, others@),
            ),
        decreases tokens.len() - at,
    {
        let ghost read = statement_views(list@);
        if is_kind(tokens, at, close) {
            proof {
                assert(read + Seq::<SpecStatement>::empty() =~= read);
            }
            return Ok((list, at + 1));
        }
        if !starts_statement(kind_of(tokens, at)) {
            let mut expected = others;
            let mut starts = statement_starts();
            expected.append(&mut starts);
            expected.push(close);
            return Err(unexpected_at(tokens, at, expected));
        }
        let (first, next) = match parse_statement(tokens, at) {
            Ok(found) => found,
            Err(error) => {
                return Err(error);
            },
        };
        proof {
            assert(statement_views(list@.push(first)) =~= read + seq![first@]);
            lemma_prepend(read, seq![first@], statements(toks, next as int, close, Seq::empty()));
        }
        list.push(first);
        others = Vec::new();
        at = next;
    }
}

/// `"{" Statement* "}"`
fn parse_block(tokens: &Vec<Token>, pos: usize) -> (r: Result<(Vec<Statement>, usize), SyntaxError>)
    requires
        pos <= tokens.len(),
    ensures
        parsed_statements(r) == block(token_views(tokens@), pos as int),
        has_advanced(tokens, pos, r),
    decreases tokens.len() - pos, 0int,
{
    if !is_kind(tokens, pos, TokenKind::LBrace) {
        return Err(unexpected_at(tokens, pos, only(TokenKind::LBrace)));
    }
    parse_statements(tokens, pos + 1, TokenKind::RBrace, Vec::new())
}

/// `"if" "(" Expression ")" Block ("else" Block)? ";"`, where `if` stands at
/// `pos`.
fn parse_condition(tokens: &Vec<Token>, pos: usize) -> (r: Result<(Statement, usize), SyntaxError>)
    requires
        pos < tokens.len(),
    ensures
        parsed_statement(r) == condition(token_views(tokens@), pos as int),
        has_advanced(tokens, pos, r),
    decreases tokens.len() - pos, 1int,
{
    let (condition, then) = match parse_parenthesized(tokens, pos + 1) {
        Ok(found) => found,
        Err(error) => {
            return Err(error);
        },
    };
    let (then_branch, next) = match parse_block(tokens, then) {
        Ok(found) => found,
        Err(error) => {
            return Err(error);
        },
    };
    if is_kind(tokens, next, TokenKind::KeywordElse) {
        let (else_branch, semicolon) = match parse_block(tokens, next + 1) {
            Ok(found) => found,
            Err(error) => {
                return Err(error);
            },
        };
        match expect_kind(tokens, semicolon, TokenKind::Semicolon, only(TokenKind::Semicolon)) {
            Ok(end) => Ok(
                (
                    Statement::Condition {
                        condition: Box::new(condition),
                        then_branch,
                        else_branch,
                    },
                    end,
                ),
            ),
            Err(error) => Err(error),
        }
    } else {
        match expect_kind(
            tokens,
            next,
            TokenKind::Semicolon,
            either(TokenKind::KeywordElse, TokenKind::Semicolon),
        ) {
            Ok(end) => {
                let else_branch: Vec<Statement> = Vec::new();
                assert(statement_views(else_branch@) =~= Seq::empty());
                Ok(
                    (
                        Statement::Condition {
                            condition: Box::new(condition),
                            then_branch,
                            else_branch,
                        },
                        end,
                    ),
                )
            },
            Err(error) => Err(error),
        }
    }
}

/// `"while" "(" Expression ")" "do" Block ";"`, where `while` stands at
/// `pos`.
fn parse_cycle(tokens: &Vec<Token>, pos: usize) -> (r: Result<(Statement, usize), SyntaxError>)
    requires
        pos < tokens.len(),
    ensures
        parsed_statement(r) == cycle(token_views(tokens@), pos as int),
        has_advanced(tokens, pos, r),
    decreases tokens.len() - pos, 1int,
{
    let (condition, keyword) = match parse_parenthesized(tokens, pos + 1) {
        Ok(found) => found,
        Err(error) => {
            return Err(error);
        },
    };
    let open = match expect_kind(tokens, keyword, TokenKind::KeywordDo, only(TokenKind::KeywordDo)) {
        Ok(open) => open,
        Err(error) => {
            return Err(error);
        },
    };
    let (body, semicolon) = match parse_block(tokens, open) {
        Ok(found) => found,
        Err(error) => {
            return Err(error);
        },
    };
    match expect_kind(tokens, semicolon, TokenKind::Semicolon, only(TokenKind::Semicolon)) {
        Ok(end) => Ok((Statement::Cycle { condition: Box::new(condition), body }, end)),
        Err(error) => Err(error),
    }
}

/// `Assign | Print | If | While | Call`
fn parse_statement(tokens: &Vec<Token>, pos: usize) -> (r: Result<(Statement, usize), SyntaxError>)
    requires
        pos <= tokens.len(),
    ensures
        parsed_statement(r) == statement(token_views(tokens@), pos as int),
        has_advanced(tokens, pos, r),
    decreases tokens.len() - pos, 2int,
{
    match kind_of(tokens, pos) {
        Some(TokenKind::Identifier) => {
            let id = match identifier_of(tokens, pos) {
                Some(id) => id,
                None => {
                    return Err(unexpected_at(tokens, pos, statement_starts()));
                },
            };
            match kind_of(tokens, pos + 1) {
                Some(TokenKind::AssignSimbol) => parse_assignment(tokens, pos, id),
                Some(TokenKind::LParen) => parse_call(tokens, pos, id),
                _ => Err(
                    unexpected_at(
                        tokens,
                        pos + 1,
                        either(TokenKind::AssignSimbol, TokenKind::LParen),
                    ),
                ),
            }
        },
        Some(TokenKind::KeywordPrint) => parse_print(tokens, pos),
        Some(TokenKind::KeywordIf) => parse_condition(tokens, pos),
        Some(TokenKind::KeywordWhile) => parse_cycle(tokens, pos),
        _ => Err(unexpected_at(tokens, pos, statement_starts())),
    }
}

// ------------------------------------------------------------------
// Declarations
// ------------------------------------------------------------------
/// `Identifier ("," Identifier)*`
fn parse_names(tokens: &Vec<Token>, pos: usize) -> (r: Result<(Vec<String>, usize), SyntaxError>)
    requires
        pos <= tokens.len(),
    ensures
        parsed_names(r) == names(token_views(tokens@), pos as int),
        has_advanced(tokens, pos, r),
{
    let ghost toks = token_views(tokens@);
    let mut list: Vec<String> = Vec::new();
    let mut at = pos;
    proof {
        lemma_prepend(Seq::empty(), Seq::empty(), names(toks, pos as int));
        assert(name_views(list@) =~= Seq::empty());
    }
    loop
        invariant
            toks == token_views(tokens@),
            pos <= at <= tokens.len(),
            names(toks, pos as int) == prepend(name_views(list@), names(toks, at as int)),
        decreases tokens.len() - at,
    {
        let ghost read = name_views(list@);
        let name = match identifier_of(tokens, at) {
            Some(name) => name,
            None => {
                return Err(unexpected_at(tokens, at, only(TokenKind::Identifier)));
            },
        };
        proof {
            assert(name_views(list@.push(name)) =~= read + seq![name@]);
        }
        if is_kind(tokens, at + 1, TokenKind::Comma) {
            proof {
                lemma_prepend(read, seq![name@], names(toks, at + 2));
            }
            list.push(name);
            at = at + 2;
        } else {
            list.push(name);
            return Ok((list, at + 1));
        }
    }
}

/// The name of the type that a type keyword stands for.
fn type_text_of(kind: Option<TokenKind>) -> (name: Option<String>)
    ensures
        match name {
            Some(text) => type_text(kind) == Some(text@),
            None => type_text(kind) is None,
        },
{
    proof {
        reveal_strlit("int");
        reveal_strlit("float");
        assert("int"@ =~= seq!['i', 'n', 't']);
        assert("float"@ =~= seq!['f', 'l', 'o', 'a', 't']);
    }
    match kind {
        Some(TokenKind::KeywordInt) => Some("int".to_owned()),
        Some(TokenKind::KeywordFloat) => Some("float".to_owned()),
        _ => None,
    }
}

/// Each of `names` declared with the type `type_text`.
fn declare_all(names: Vec<String>, type_text: String) -> (list: Vec<(String, String)>)
    ensures
        declaration_views(list@) == declare(name_views(names@), type_text@),
{
    let mut list: Vec<(String, String)> = Vec::new();
    let mut i: usize = 0;
    while i < names.len()
        invariant
            i <= names.len(),
            list.len() == i,
            forall|j: int| 0 <= j < i ==> list@[j].0@ == names@[j]@ && list@[j].1@ == type_text@,
        decreases names.len() - i,
    {
        list.push((names[i].clone(), type_text.clone()));
        i = i + 1;
    }
    assert(declaration_views(list@) =~= declare(name_views(names@), type_text@));
    list
}

/// `Identifier ("," Identifier)* ":" Type`
fn parse_var_decl(tokens: &Vec<Token>, pos: usize) -> (r: Result<
    (Vec<(String, String)>, usize),
    SyntaxError,
>)
    requires
        pos <= tokens.len(),
    ensures
        parsed_declarations(r) == var_decl(token_views(tokens@), pos as int),
        has_advanced(tokens, pos, r),
{
    let (declared, colon) = match parse_names(tokens, pos) {
        Ok(found) => found,
        Err(error) => {
            return Err(error);
        },
    };
    let at = match expect_kind(
        tokens,
        colon,
        TokenKind::TwoPoints,
        either(TokenKind::Comma, TokenKind::TwoPoints),
    ) {
        Ok(at) => at,
        Err(error) => {
            return Err(error);
        },
    };
    match type_text_of(kind_of(tokens, at)) {
        Some(name) => Ok((declare_all(declared, name), at + 1)),
        None => Err(
            unexpected_at(tokens, at, either(TokenKind::KeywordInt, TokenKind::KeywordFloat)),
        ),
    }
}

/// What the test for another declaration has returned, as the grammar
/// states it.
pub open spec fn decided(r: Result<bool, SyntaxError>) -> Result<bool, SpecSyntaxError> {
    match r {
        Ok(more) => Ok(more),
        Err(error) => Err(error@),
    }
}

/// Whether another declaration follows at `pos`, behind the `;` of one.
fn has_more_declarations(tokens: &Vec<Token>, pos: usize, in_function: bool) -> (r: Result<
    bool,
    SyntaxError,
>)
    ensures
        decided(r) == more_declarations(token_views(tokens@), pos as int, in_function),
        r == Ok::<bool, SyntaxError>(true) ==> pos < tokens.len(),
{
    if !is_kind(tokens, pos, TokenKind::Identifier) {
        Ok(false)
    } else if !in_function {
        Ok(true)
    } else {
        match kind_of(tokens, pos + 1) {
            Some(TokenKind::Comma) => Ok(true),
            Some(TokenKind::TwoPoints) => Ok(true),
            Some(TokenKind::AssignSimbol) => Ok(false),
            Some(TokenKind::LParen) => Ok(false),
            _ => {
                let mut expected = either(TokenKind::Comma, TokenKind::TwoPoints);
                expected.push(TokenKind::AssignSimbol);
                expected.push(TokenKind::LParen);
                assert(expected@ =~= seq![
                    TokenKind::Comma,
                    TokenKind::TwoPoints,
                    TokenKind::AssignSimbol,
                    TokenKind::LParen,
                ]);
                Err(unexpected_at(tokens, pos + 1, expected))
            },
        }
    }
}

/// The declarations `more` put behind the declarations `list`.
fn extend(list: &mut Vec<(String, String)>, more: Vec<(String, String)>)
    ensures
        declaration_views(final(list)@) == declaration_views(old(list)@) + declaration_views(
            more@,
        ),
{
    let ghost added = more@;
    let mut more = more;
    list.append(&mut more);
    assert(declaration_views(list@) =~= declaration_views(old(list)@) + declaration_views(added));
}

/// `VarDecl ";" (VarDecl ";")*`
fn parse_declarations(tokens: &Vec<Token>, pos: usize, in_function: bool) -> (r: Result<
    (Vec<(String, String)>, usize),
    SyntaxError,
>)
    requires
        pos <= tokens.len(),
    ensures
        parsed_declarations(r) == declarations(token_views(tokens@), pos as int, in_function),
        has_advanced(tokens, pos, r),
{
    let ghost toks = token_views(tokens@);
    let mut list: Vec<(String, String)> = Vec::new();
    let mut at = pos;
    proof {
        lemma_prepend(Seq::empty(), Seq::empty(), declarations(toks, pos as int, in_function));
        assert(declaration_views(list@) =~= Seq::empty());
    }
    loop
        invariant
            toks == token_views(tokens@),
            pos <= at <= tokens.len(),
            declarations(toks, pos as int, in_function) == prepend(
                declaration_views(list@),
                declarations(toks, at as int, in_function),
            ),
        decreases tokens.len() - at,
    {
        let ghost read = declaration_views(list@);
        let (first, semicolon) = match parse_var_decl(tokens, at) {
            Ok(found) => found,
            Err(error) => {
                return Err(error);
            },
        };
        let next = match expect_kind(
            tokens,
            semicolon,
            TokenKind::Semicolon,
            only(TokenKind::Semicolon),
        ) {
            Ok(next) => next,
            Err(error) => {
                return Err(error);
            },
        };
        let more = match has_more_declarations(tokens, next, in_function) {
            Ok(more) => more,
            Err(error) => {
                return Err(error);
            },
        };
        proof {
            lemma_prepend(
                read,
                declaration_views(first@),
                declarations(toks, next as int, in_function),
            );
        }
        extend(&mut list, first);
        if !more {
            return Ok((list, next));
        }
        at = next;
    }
}

/// `VarSection?`
fn parse_var_section(tokens: &Vec<Token>, pos: usize, in_function: bool) -> (r: Result<
    (Vec<(String, String)>, usize),
    SyntaxError,
>)
    requires
        pos <= tokens.len(),
    ensures
        parsed_declarations(r) == var_section(token_views(tokens@), pos as int, in_function),
        r matches Ok((_, end)) ==> pos <= end <= tokens.len(),
{
    if is_kind(tokens, pos, TokenKind::KeywordVar) {
        parse_declarations(tokens, pos + 1, in_function)
    } else {
        let list: Vec<(String, String)> = Vec::new();
        assert(declaration_views(list@) =~= Seq::empty());
        Ok((list, pos))
    }
}

/// `VarDecl ("," VarDecl)* ")"`
fn parse_parameter_list(tokens: &Vec<Token>, pos: usize) -> (r: Result<
    (Vec<(String, String)>, usize),
    SyntaxError,
>)
    requires
        pos <= tokens.len(),
    ensures
        parsed_declarations(r) == parameter_list(token_views(tokens@), pos as int),
        has_advanced(tokens, pos, r),
{
    let ghost toks = token_views(tokens@);
    let mut list: Vec<(String, String)> = Vec::new();
    let mut at = pos;
    proof {
        lemma_prepend(Seq::empty(), Seq::empty(), parameter_list(toks, pos as int));
        assert(declaration_views(list@) =~= Seq::empty());
    }
    loop
        invariant
            toks == token_views(tokens@),
            pos <= at <= tokens.len(),
            parameter_list(toks, pos as int) == prepend(
                declaration_views(list@),
                parameter_list(toks, at as int),
            ),
        decreases tokens.len() - at,
    {
        let ghost read = declaration_views(list@);
        let (first, next) = match parse_var_decl(tokens, at) {
            Ok(found) => found,
            Err(error) => {
                return Err(error);
            },
        };
        if is_kind(tokens, next, TokenKind::RParen) {
            extend(&mut list, first);
            return Ok((list, next + 1));
        } else if is_kind(tokens, next, TokenKind::Comma) {
            proof {
                lemma_prepend(read, declaration_views(first@), parameter_list(toks, next + 1));
            }
            extend(&mut list, first);
            at = next + 1;
        } else {
            return Err(unexpected_at(tokens, next, either(TokenKind::Comma, TokenKind::RParen)));
        }
    }
}

/// `ParamList? ")"`
fn parse_parameters(tokens: &Vec<Token>, pos: usize) -> (r: Result<
    (Vec<(String, String)>, usize),
    SyntaxError,
>)
    requires
        pos <= tokens.len(),
    ensures
        parsed_declarations(r) == parameters(token_views(tokens@), pos as int),
        has_advanced(tokens, pos, r),
{
    if is_kind(tokens, pos, TokenKind::RParen) {
        let list: Vec<(String, String)> = Vec::new();
        assert(declaration_views(list@) =~= Seq::empty());
        Ok((list, pos + 1))
    } else if is_kind(tokens, pos, TokenKind::Identifier) {
        parse_parameter_list(tokens, pos)
    } else {
        Err(unexpected_at(tokens, pos, either(TokenKind::Identifier, TokenKind::RParen)))
    }
}

/// What the function that reads the body of a function has returned, as
/// the grammar states it.
pub open spec fn parsed_body(
    r: Result<((Vec<(String, String)>, Vec<Statement>), usize), SyntaxError>,
) -> Parsed<(Seq<SpecDeclaration>, Seq<SpecStatement>)> {
    match r {
        Ok(((vars, body), end)) => Ok(
            ((declaration_views(vars@), statement_views(body@)), end as int),
        ),
        Err(error) => Err(error@),
    }
}

/// `"[" VarSection? Statement* "]" ";"`: the local variables and the body
/// of a function.
fn parse_function_body(tokens: &Vec<Token>, pos: usize) -> (r: Result<
    ((Vec<(String, String)>, Vec<Statement>), usize),
    SyntaxError,
>)
    requires
        pos <= tokens.len(),
    ensures
        parsed_body(r) == function_body(token_views(tokens@), pos as int),
        has_advanced(tokens, pos, r),
{
    let inside = match expect_kind(tokens, pos, TokenKind::LBraket, only(TokenKind::LBraket)) {
        Ok(inside) => inside,
        Err(error) => {
            return Err(error);
        },
    };
    let (vars, first) = match parse_var_section(tokens, inside, true) {
        Ok(found) => found,
        Err(error) => {
            return Err(error);
        },
    };
    let also = if first == inside {
        only(TokenKind::KeywordVar)
    } else {
        Vec::new()
    };
    let (body, semicolon) = match parse_statements(tokens, first, TokenKind::RBraket, also) {
        Ok(found) => found,
        Err(error) => {
            return Err(error);
        },
    };
    match expect_kind(tokens, semicolon, TokenKind::Semicolon, only(TokenKind::Semicolon)) {
        Ok(end) => Ok(((vars, body), end)),
        Err(error) => Err(error),
    }
}

/// `"void" Identifier "(" ParamList? ")" "[" VarSection? Statement* "]" ";"`,
/// where `void` stands at `pos`.
fn parse_function(tokens: &Vec<Token>, pos: usize) -> (r: Result<(Function, usize), SyntaxError>)
    requires
        pos < tokens.len(),
    ensures
        parsed_function(r) == function(token_views(tokens@), pos as int),
        has_advanced(tokens, pos, r),
{
    let id = match identifier_of(tokens, pos + 1) {
        Some(id) => id,
        None => {
            return Err(unexpected_at(tokens, pos + 1, only(TokenKind::Identifier)));
        },
    };
    let first = match expect_kind(tokens, pos + 2, TokenKind::LParen, only(TokenKind::LParen)) {
        Ok(first) => first,
        Err(error) => {
            return Err(error);
        },
    };
    let (params, open) = match parse_parameters(tokens, first) {
        Ok(found) => found,
        Err(error) => {
            return Err(error);
        },
    };
    match parse_function_body(tokens, open) {
        Ok(((vars, body), end)) => Ok((Function { id, params, vars, body }, end)),
        Err(error) => Err(error),
    }
}

/// `FuncDecl*`
fn parse_functions(tokens: &Vec<Token>, pos: usize) -> (r: Result<
    (Vec<Function>, usize),
    SyntaxError,
>)
    requires
        pos <= tokens.len(),
    ensures
        parsed_functions(r) == functions(token_views(tokens@), pos as int),
        r matches Ok((_, end)) ==> pos <= end <= tokens.len(),
{
    let ghost toks = token_views(tokens@);
    let mut list: Vec<Function> = Vec::new();
    let mut at = pos;
    proof {
        lemma_prepend(Seq::empty(), Seq::empty(), functions(toks, pos as int));
        assert(function_views(list@) =~= Seq::empty());
    }
    loop
        invariant
            toks == token_views(tokens@),
            pos <= at <= tokens.len(),
            functions(toks, pos as int) == prepend(
                function_views(list@),
                functions(toks, at as int),
            ),
        decreases tokens.len() - at,
    {
        let ghost read = function_views(list@);
        if !is_kind(tokens, at, TokenKind::KeywordVoid) {
            proof {
                assert(read + Seq::<SpecFunction>::empty() =~= read);
            }
            return Ok((list, at));
        }
        let (first, next) = match parse_function(tokens, at) {
            Ok(found) => found,
            Err(error) => {
                return Err(error);
            },
        };
        proof {
            assert(function_views(list@.push(first)) =~= read + seq![first@]);
            lemma_prepend(read, seq![first@], functions(toks, next as int));
        }
        list.push(first);
        at = next;
    }
}

// ------------------------------------------------------------------
// Programs
// ------------------------------------------------------------------
/// The kinds of token that fit where `main` is due.
fn kinds_before_main(has_vars: bool, has_functions: bool) -> (kinds: Vec<TokenKind>)
    ensures
        kinds@ == before_main(has_vars, has_functions),
{
    if has_functions {
        either(TokenKind::KeywordVoid, TokenKind::KeywordMain)
    } else {
        let mut kinds = only(
            if has_vars {
                TokenKind::Identifier
            } else {
                TokenKind::KeywordVar
            },
        );
        kinds.push(TokenKind::KeywordVoid);
        kinds.push(TokenKind::KeywordMain);
        assert(kinds@ =~= before_main(has_vars, has_functions));
        kinds
    }
}

/// What a function that reads a whole input has returned, as the grammar
/// states it.
pub open spec fn body_view(r: Result<Vec<Statement>, SyntaxError>) -> Result<
    Seq<SpecStatement>,
    SpecSyntaxError,
> {
    match r {
        Ok(body) => Ok(statement_views(body@)),
        Err(error) => Err(error@),
    }
}

/// `"main" Block "end"` and the end of the input.
fn parse_main_block(tokens: &Vec<Token>, pos: usize, expected: Vec<TokenKind>) -> (r: Result<
    Vec<Statement>,
    SyntaxError,
>)
    requires
        pos <= tokens.len(),
    ensures
        body_view(r) == main_block(token_views(tokens@), pos as int, expected@),
{
    let open = match expect_kind(tokens, pos, TokenKind::KeywordMain, expected) {
        Ok(open) => open,
        Err(error) => {
            return Err(error);
        },
    };
    let (body, keyword) = match parse_block(tokens, open) {
        Ok(found) => found,
        Err(error) => {
            return Err(error);
        },
    };
    let end = match expect_kind(tokens, keyword, TokenKind::KeywordEnd, only(TokenKind::KeywordEnd)) {
        Ok(end) => end,
        Err(error) => {
            return Err(error);
        },
    };
    if end == tokens.len() {
        Ok(body)
    } else {
        Err(unexpected_at(tokens, end, Vec::new()))
    }
}

/// What the function that reads the heading has returned, as the grammar
/// states it.
pub open spec fn parsed_heading(r: Result<(String, usize), SyntaxError>) -> Parsed<Seq<char>> {
    match r {
        Ok((id, end)) => Ok((id@, end as int)),
        Err(error) => Err(error@),
    }
}

/// `"program" Identifier ";"`: the name of the program.
fn parse_heading(tokens: &Vec<Token>) -> (r: Result<(String, usize), SyntaxError>)
    ensures
        parsed_heading(r) == heading(token_views(tokens@)),
        r matches Ok((_, end)) ==> end <= tokens.len(),
{
    match expect_kind(tokens, 0, TokenKind::KeywordProgram, only(TokenKind::KeywordProgram)) {
        Ok(_) => {},
        Err(error) => {
            return Err(error);
        },
    }
    let id = match identifier_of(tokens, 1) {
        Some(id) => id,
        None => {
            return Err(unexpected_at(tokens, 1, only(TokenKind::Identifier)));
        },
    };
    match expect_kind(tokens, 2, TokenKind::Semicolon, only(TokenKind::Semicolon)) {
        Ok(next) => Ok((id, next)),
        Err(error) => Err(error),
    }
}

/// What [`parse_tokens`] has returned, as the grammar states it.
pub open spec fn program_view(r: Result<Program, SyntaxError>) -> Result<
    SpecProgram,
    SpecSyntaxError,
> {
    match r {
        Ok(program) => Ok(program@),
        Err(error) => Err(error@),
    }
}

/// What [`parse_expression_tokens`] has returned, as the grammar states it.
pub open spec fn expression_view(r: Result<Expression, SyntaxError>) -> Result<
    SpecExpression,
    SpecSyntaxError,
> {
    match r {
        Ok(value) => Ok(value@),
        Err(error) => Err(error@),
    }
}

/// The program that `tokens` spell, or their syntax error: the first token
/// that fits no production, with the kinds of token that fit in its place.
pub fn parse_tokens(tokens: &Vec<Token>) -> (r: Result<Program, SyntaxError>)
    ensures
        program_view(r) == program(token_views(tokens@)),
{
    let (id, first) = match parse_heading(tokens) {
        Ok(found) => found,
        Err(error) => {
            return Err(error);
        },
    };
    let (vars, next) = match parse_var_section(tokens, first, false) {
        Ok(found) => found,
        Err(error) => {
            return Err(error);
        },
    };
    let (funcs, main) = match parse_functions(tokens, next) {
        Ok(found) => found,
        Err(error) => {
            return Err(error);
        },
    };
    let expected = kinds_before_main(next != first, funcs.len() > 0);
    match parse_main_block(tokens, main, expected) {
        Ok(body) => Ok(Program { id, vars, funcs, body }),
        Err(error) => Err(error),
    }
}

/// The expression that `tokens` spell, all of them, or their syntax error.
pub fn parse_expression_tokens(tokens: &Vec<Token>) -> (r: Result<Expression, SyntaxError>)
    ensures
        expression_view(r) == whole_expression(token_views(tokens@)),
{
    let (value, end) = match parse_expression_at(tokens, 0) {
        Ok(found) => found,
        Err(error) => {
            return Err(error);
        },
    };
    if end == tokens.len() {
        Ok(value)
    } else {
        Err(unexpected_at(tokens, end, operators()))
    }
}

// ------------------------------------------------------------------
// From source text
// ------------------------------------------------------------------
/// Why a source text is not a program: a lexical error or a syntax error.
#[derive(Debug, PartialEq)]
pub enum ParseError {
    Lexical(LexicalError),
    Syntax(SyntaxError),
}

/// The ghost counterpart of [`ParseError`].
pub enum SpecParseError {
    Lexical(LexicalErrorKind),
    Syntax(SpecSyntaxError),
}

impl View for ParseError {
    type V = SpecParseError;

    open spec fn view(&self) -> SpecParseError {
        match self {
            ParseError::Lexical(error) => SpecParseError::Lexical(error@),
            ParseError::Syntax(error) => SpecParseError::Syntax(error@),
        }
    }
}

impl Clone for ParseError {
    fn clone(&self) -> (copy: ParseError)
        ensures
            copy@ == self@,
    {
        match self {
            ParseError::Lexical(error) => ParseError::Lexical(error.clone()),
            ParseError::Syntax(error) => ParseError::Syntax(error.clone()),
        }
    }
}

/// The program that the text `source` spells: its tokens first, then the
/// program that they spell. A lexical error comes before any syntax error.
pub open spec fn program_of(source: Seq<char>) -> Result<SpecProgram, SpecParseError> {
    match tokens_of(source) {
        Err(error) => Err(SpecParseError::Lexical(error)),
        Ok(tokens) => match program(tokens) {
            Ok(value) => Ok(value),
            Err(error) => Err(SpecParseError::Syntax(error)),
        },
    }
}

/// The expression that the text `source` spells.
pub open spec fn expression_of(source: Seq<char>) -> Result<SpecExpression, SpecParseError> {
    match tokens_of(source) {
        Err(error) => Err(SpecParseError::Lexical(error)),
        Ok(tokens) => match whole_expression(tokens) {
            Ok(value) => Ok(value),
            Err(error) => Err(SpecParseError::Syntax(error)),
        },
    }
}

/// What [`parse`] has returned, as the grammars state it.
pub open spec fn parse_view(r: Result<Program, ParseError>) -> Result<SpecProgram, SpecParseError> {
    match r {
        Ok(program) => Ok(program@),
        Err(error) => Err(error@),
    }
}

/// What [`parse_expression`] has returned, as the grammars state it.
pub open spec fn parse_expression_view(r: Result<Expression, ParseError>) -> Result<
    SpecExpression,
    SpecParseError,
> {
    match r {
        Ok(value) => Ok(value@),
        Err(error) => Err(error@),
    }
}

/// The program that the text `source` spells, or the first error in it.
pub fn parse(source: &str) -> (r: Result<Program, ParseError>)
    ensures
        parse_view(r) == program_of(source@),
{
    let tokens = match tokenize(source) {
        Ok(tokens) => tokens,
        Err(error) => {
            return Err(ParseError::Lexical(error));
        },
    };
    match parse_tokens(&tokens) {
        Ok(program) => Ok(program),
        Err(error) => Err(ParseError::Syntax(error)),
    }
}

/// The expression that the text `source` spells, or the first error in it.
pub fn parse_expression(source: &str) -> (r: Result<Expression, ParseError>)
    ensures
        parse_expression_view(r) == expression_of(source@),
{
    let tokens = match tokenize(source) {
        Ok(tokens) => tokens,
        Err(error) => {
            return Err(ParseError::Lexical(error));
        },
    };
    match parse_expression_tokens(&tokens) {
        Ok(value) => Ok(value),
        Err(error) => Err(ParseError::Syntax(error)),
    }
}

} // verus!
