//! From a syntax tree back to tokens.
//!
//! [`print_program`] spells a tree with as few parentheses as the grammar
//! allows: an operand is put in parentheses only where its operator binds
//! less tightly than its place demands. Every list of declarations is
//! spelled one name at a time. The laws of [`crate::unparse`] state that the
//! grammar reads the tree back from these tokens.

use crate::ast::{
    BinaryOperator, SpecDeclaration, SpecExpression, SpecFunction, SpecProgram, SpecStatement,
};
use crate::grammar::named;
use crate::tokens::SpecToken;
use vstd::prelude::*;

verus! {

/// How tightly an operator binds: `*` and `/` tighter than `+` and `-`,
/// and these tighter than `<`, `>` and `!=`.
pub open spec fn binding(operator: BinaryOperator) -> nat {
    match operator {
        BinaryOperator::Mul => 3,
        BinaryOperator::Div => 3,
        BinaryOperator::Add => 2,
        BinaryOperator::Sub => 2,
        BinaryOperator::Lt => 1,
        BinaryOperator::Gt => 1,
        BinaryOperator::Ne => 1,
    }
}

/// The token that spells an operator.
pub open spec fn operator_token(operator: BinaryOperator) -> SpecToken {
    match operator {
        BinaryOperator::Mul => SpecToken::OperatorMul,
        BinaryOperator::Div => SpecToken::OperatorDiv,
        BinaryOperator::Add => SpecToken::OperatorAdd,
        BinaryOperator::Sub => SpecToken::OperatorSub,
        BinaryOperator::Lt => SpecToken::SmallerThan,
        BinaryOperator::Gt => SpecToken::BigerThan,
        BinaryOperator::Ne => SpecToken::NotEqual,
    }
}

/// The binary operator that a token is, if it is one.
pub open spec fn operator(token: SpecToken) -> Option<BinaryOperator> {
    match token {
        SpecToken::OperatorMul => Some(BinaryOperator::Mul),
        SpecToken::OperatorDiv => Some(BinaryOperator::Div),
        SpecToken::OperatorAdd => Some(BinaryOperator::Add),
        SpecToken::OperatorSub => Some(BinaryOperator::Sub),
        SpecToken::SmallerThan => Some(BinaryOperator::Lt),
        SpecToken::BigerThan => Some(BinaryOperator::Gt),
        SpecToken::NotEqual => Some(BinaryOperator::Ne),
        _ => None,
    }
}

/// How tightly an expression holds together: as its operator binds, and
/// tighter than any operator where it has none.
pub open spec fn strength(e: SpecExpression) -> nat {
    match e {
        SpecExpression::BinaryOperation { operator, .. } => binding(operator),
        _ => 4,
    }
}

/// The tokens of `e` in a place that demands the strength `level`: in
/// parentheses where `e` is weaker. The left operand of an operator stands
/// in a place of the operator's binding, the right operand in a place
/// tighter by one, so that operators of one binding group to the left.
pub open spec fn print_at(e: SpecExpression, level: nat) -> Seq<SpecToken>
    decreases e,
{
    match e {
        SpecExpression::Integer(value) => seq![SpecToken::Integer(value)],
        SpecExpression::Float(text) => seq![SpecToken::Float(text)],
        SpecExpression::String(text) => seq![SpecToken::String(text)],
        SpecExpression::Boolean(value) => seq![
            SpecToken::Identifier(
                if value {
                    seq!['t', 'r', 'u', 'e']
                } else {
                    seq!['f', 'a', 'l', 's', 'e']
                },
            ),
        ],
        SpecExpression::Variable(name) => seq![SpecToken::Identifier(name)],
        SpecExpression::BinaryOperation { lhs, operator, rhs } => {
            let bare = print_at(*lhs, binding(operator)) + seq![operator_token(operator)]
                + print_at(*rhs, binding(operator) + 1);
            if binding(operator) < level {
                seq![SpecToken::LParen] + bare + seq![SpecToken::RParen]
            } else {
                bare
            }
        },
    }
}

/// The tokens of the expression `e`.
pub open spec fn print_expression(e: SpecExpression) -> Seq<SpecToken> {
    print_at(e, 1)
}

/// Whether the tokens of `e` spell `e`: no variable in it is named `true`
/// or `false`, which spell the boolean literals.
pub open spec fn is_printable(e: SpecExpression) -> bool
    decreases e,
{
    match e {
        SpecExpression::Variable(name) => named(name) == e,
        SpecExpression::BinaryOperation { lhs, rhs, .. } => is_printable(*lhs) && is_printable(
            *rhs,
        ),
        _ => true,
    }
}

/// `a, b, c`: the expressions of `list` with commas between them.
pub open spec fn print_arguments(list: Seq<SpecExpression>) -> Seq<SpecToken>
    decreases list.len(),
{
    if list.len() == 0 {
        Seq::empty()
    } else if list.len() == 1 {
        print_expression(list[0])
    } else {
        print_expression(list[0]) + seq![SpecToken::Comma] + print_arguments(list.skip(1))
    }
}

/// The tokens of a statement.
pub open spec fn print_statement(s: SpecStatement) -> Seq<SpecToken>
    decreases s,
{
    match s {
        SpecStatement::Variable { id, value } => seq![
            SpecToken::Identifier(id),
            SpecToken::AssignSimbol,
        ] + print_expression(value) + seq![SpecToken::Semicolon],
        SpecStatement::Print { value } => seq![SpecToken::KeywordPrint, SpecToken::LParen]
            + print_expression(value) + seq![SpecToken::RParen, SpecToken::Semicolon],
        SpecStatement::Condition { condition, then_branch, else_branch } => seq![
            SpecToken::KeywordIf,
            SpecToken::LParen,
        ] + print_expression(condition) + seq![SpecToken::RParen, SpecToken::LBrace]
            + print_statements(then_branch) + (if else_branch.len() == 0 {
            seq![SpecToken::RBrace, SpecToken::Semicolon]
        } else {
            seq![SpecToken::RBrace, SpecToken::KeywordElse, SpecToken::LBrace] + print_statements(
                else_branch,
            ) + seq![SpecToken::RBrace, SpecToken::Semicolon]
        }),
        SpecStatement::Cycle { condition, body } => seq![
            SpecToken::KeywordWhile,
            SpecToken::LParen,
        ] + print_expression(condition) + seq![
            SpecToken::RParen,
            SpecToken::KeywordDo,
            SpecToken::LBrace,
        ] + print_statements(body) + seq![SpecToken::RBrace, SpecToken::Semicolon],
        SpecStatement::FunctionCall { id, args } => seq![
            SpecToken::Identifier(id),
            SpecToken::LParen,
        ] + print_arguments(args) + seq![SpecToken::RParen, SpecToken::Semicolon],
    }
}

/// The tokens of a list of statements, one statement after the other.
pub open spec fn print_statements(list: Seq<SpecStatement>) -> Seq<SpecToken>
    decreases list,
{
    if list.len() == 0 {
        Seq::empty()
    } else {
        print_statement(list[0]) + print_statements(list.skip(1))
    }
}

/// The keyword that spells the type `name`, for the two types there are.
pub open spec fn type_token(name: Seq<char>) -> Option<SpecToken> {
    if name == seq!['i', 'n', 't'] {
        Some(SpecToken::KeywordInt)
    } else if name == seq!['f', 'l', 'o', 'a', 't'] {
        Some(SpecToken::KeywordFloat)
    } else {
        None
    }
}

/// `name : type`
pub open spec fn print_declaration(declaration: SpecDeclaration) -> Seq<SpecToken> {
    seq![
        SpecToken::Identifier(declaration.0),
        SpecToken::TwoPoints,
        type_token(declaration.1)->0,
    ]
}

/// `a : int; b : float;`: the declarations of `list`, each with its
/// semicolon.
pub open spec fn print_declarations(list: Seq<SpecDeclaration>) -> Seq<SpecToken>
    decreases list.len(),
{
    if list.len() == 0 {
        Seq::empty()
    } else {
        print_declaration(list[0]) + seq![SpecToken::Semicolon] + print_declarations(
            list.skip(1),
        )
    }
}

/// The section of the variables: `var` and the declarations, or nothing
/// where there are none.
pub open spec fn print_var_section(list: Seq<SpecDeclaration>) -> Seq<SpecToken> {
    if list.len() == 0 {
        Seq::empty()
    } else {
        seq![SpecToken::KeywordVar] + print_declarations(list)
    }
}

/// `a : int, b : float`: the parameters of `list` with commas between them.
pub open spec fn print_parameters(list: Seq<SpecDeclaration>) -> Seq<SpecToken>
    decreases list.len(),
{
    if list.len() == 0 {
        Seq::empty()
    } else if list.len() == 1 {
        print_declaration(list[0])
    } else {
        print_declaration(list[0]) + seq![SpecToken::Comma] + print_parameters(list.skip(1))
    }
}

/// The tokens of a function.
pub open spec fn print_function(f: SpecFunction) -> Seq<SpecToken> {
    seq![SpecToken::KeywordVoid, SpecToken::Identifier(f.id), SpecToken::LParen]
        + print_parameters(f.params) + seq![SpecToken::RParen, SpecToken::LBraket]
        + print_var_section(f.vars) + print_statements(f.body) + seq![
        SpecToken::RBraket,
        SpecToken::Semicolon,
    ]
}

/// The tokens of a list of functions, one function after the other.
pub open spec fn print_functions(list: Seq<SpecFunction>) -> Seq<SpecToken>
    decreases list.len(),
{
    if list.len() == 0 {
        Seq::empty()
    } else {
        print_function(list[0]) + print_functions(list.skip(1))
    }
}

/// The tokens of a program.
pub open spec fn print_program(p: SpecProgram) -> Seq<SpecToken> {
    seq![SpecToken::KeywordProgram, SpecToken::Identifier(p.id), SpecToken::Semicolon]
        + print_var_section(p.vars) + print_functions(p.funcs) + seq![
        SpecToken::KeywordMain,
        SpecToken::LBrace,
    ] + print_statements(p.body) + seq![SpecToken::RBrace, SpecToken::KeywordEnd]
}

// ------------------------------------------------------------------
// What can be spelled
// ------------------------------------------------------------------
/// Every expression of `list` can be spelled.
pub open spec fn are_printable(list: Seq<SpecExpression>) -> bool {
    forall|i: int| 0 <= i < list.len() ==> is_printable(#[trigger] list[i])
}

/// A statement can be spelled where its expressions can.
pub open spec fn is_printable_statement(s: SpecStatement) -> bool
    decreases s,
{
    match s {
        SpecStatement::Variable { value, .. } => is_printable(value),
        SpecStatement::Print { value } => is_printable(value),
        SpecStatement::Condition { condition, then_branch, else_branch } => is_printable(
            condition,
        ) && are_printable_statements(then_branch) && are_printable_statements(else_branch),
        SpecStatement::Cycle { condition, body } => is_printable(condition)
            && are_printable_statements(body),
        SpecStatement::FunctionCall { args, .. } => are_printable(args),
    }
}

/// Every statement of `list` can be spelled.
pub open spec fn are_printable_statements(list: Seq<SpecStatement>) -> bool
    decreases list,
{
    if list.len() == 0 {
        true
    } else {
        is_printable_statement(list[0]) && are_printable_statements(list.skip(1))
    }
}

/// Every declaration of `list` has one of the two types.
pub open spec fn are_printable_declarations(list: Seq<SpecDeclaration>) -> bool {
    forall|i: int| 0 <= i < list.len() ==> type_token((#[trigger] list[i]).1) is Some
}

/// A function can be spelled where its declarations and statements can.
pub open spec fn is_printable_function(f: SpecFunction) -> bool {
    are_printable_declarations(f.params) && are_printable_declarations(f.vars)
        && are_printable_statements(f.body)
}

/// A program can be spelled where its declarations, functions and
/// statements can.
pub open spec fn is_printable_program(p: SpecProgram) -> bool {
    &&& are_printable_declarations(p.vars)
    &&& forall|i: int| 0 <= i < p.funcs.len() ==> is_printable_function(#[trigger] p.funcs[i])
    &&& are_printable_statements(p.body)
}

} // verus!
