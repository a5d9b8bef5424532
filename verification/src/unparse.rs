//! The grammar reads back what [`crate::printing`] spells.

use crate::ast::{
    BinaryOperator, SpecDeclaration, SpecExpression, SpecFunction, SpecProgram, SpecStatement,
};
use crate::grammar::{
    additive, additive_tail, advanced, argument_list, arguments, before_main, binary, block,
    condition, condition_tail, cycle, declarations, declare, expression, function,
    function_body, functions, heading, is_statement_kind, kind_at, main_block,
    more_declarations, multiplicative, multiplicative_tail, names, parameter_list, parameters,
    parenthesized, primary, program, relational_tail, statement, statements, type_text,
    var_decl, var_section, whole_expression, Parsed, SpecSyntaxError,
};
use crate::printing::{
    are_printable, are_printable_declarations, are_printable_statements, binding, is_printable,
    is_printable_function, is_printable_program, is_printable_statement, operator,
    operator_token, print_arguments, print_at, print_declaration, print_declarations,
    print_expression, print_function, print_functions, print_parameters, print_program,
    print_statement, print_statements, print_var_section, strength, type_token,
};
use crate::tokens::{SpecToken, TokenKind};
use vstd::prelude::*;

verus! {

// ------------------------------------------------------------------
// The levels of the expression grammar
// ------------------------------------------------------------------
/// The production that reads an expression of the strength `level` at
/// least: an expression, an additive, a multiplicative or a primary one.
spec fn read_at(level: nat, toks: Seq<SpecToken>, pos: int) -> Parsed<SpecExpression> {
    if level <= 1 {
        expression(toks, pos)
    } else if level == 2 {
        additive(toks, pos)
    } else if level == 3 {
        multiplicative(toks, pos)
    } else {
        primary(toks, pos)
    }
}

/// The operators of the binding `level` with their operands, applied to
/// `lhs`.
spec fn tail_at(
    level: nat,
    toks: Seq<SpecToken>,
    lhs: SpecExpression,
    pos: int,
) -> Parsed<SpecExpression> {
    if level == 1 {
        relational_tail(toks, lhs, pos)
    } else if level == 2 {
        additive_tail(toks, lhs, pos)
    } else if level == 3 {
        multiplicative_tail(toks, lhs, pos)
    } else {
        Ok((lhs, pos))
    }
}

/// The operators of the bindings from `to` down to `from` with their
/// operands, applied to `lhs`, the tightest first.
spec fn tails(
    from: nat,
    to: nat,
    toks: Seq<SpecToken>,
    lhs: SpecExpression,
    pos: int,
) -> Parsed<SpecExpression>
    decreases to + 1 - from,
{
    if from > to {
        Ok((lhs, pos))
    } else {
        match tails(from + 1, to, toks, lhs, pos) {
            Ok((value, next)) => tail_at(from, toks, value, next),
            Err(error) => Err(error),
        }
    }
}

/// The binary operator of the binding `level` at `pos`, if one stands
/// there.
spec fn operator_at(level: nat, toks: Seq<SpecToken>, pos: int) -> Option<
    BinaryOperator,
> {
    if 0 <= pos < toks.len() && operator(toks[pos]) is Some && binding(operator(toks[pos])->0)
        == level {
        operator(toks[pos])
    } else {
        None
    }
}

/// No binary operator that binds tighter than `limit` stands at `pos`.
spec fn no_tighter_operator(limit: nat, toks: Seq<SpecToken>, pos: int) -> bool {
    0 <= pos < toks.len() && operator(toks[pos]) is Some ==> binding(operator(toks[pos])->0)
        <= limit
}

/// One round of the operators of one binding: where an operator of that
/// binding stands, its right operand is read one level tighter and the
/// round goes on with the operation; elsewhere the round ends.
proof fn lemma_tail_step(level: nat, toks: Seq<SpecToken>, lhs: SpecExpression, pos: int)
    requires
        1 <= level <= 3,
    ensures
        operator_at(level, toks, pos) is None ==> tail_at(level, toks, lhs, pos) == Ok::<
            (SpecExpression, int),
            SpecSyntaxError,
        >((lhs, pos)),
        operator_at(level, toks, pos) matches Some(op) ==> tail_at(level, toks, lhs, pos) == (
        match read_at(level + 1, toks, pos + 1) {
            Ok((rhs, next)) => if advanced(toks, pos, next) {
                tail_at(level, toks, binary(lhs, op, rhs), next)
            } else {
                crate::grammar::stuck(toks, pos)
            },
            Err(error) => Err(error),
        }),
{
}

/// The tails from a level on leave alone what is followed by no operator
/// of their bindings.
proof fn lemma_tails_rest(
    from: nat,
    to: nat,
    toks: Seq<SpecToken>,
    lhs: SpecExpression,
    pos: int,
)
    requires
        1 <= from,
        to <= 3,
        0 <= pos < toks.len() && operator(toks[pos]) is Some ==> binding(operator(toks[pos])->0)
            < from,
    ensures
        tails(from, to, toks, lhs, pos) == Ok::<(SpecExpression, int), SpecSyntaxError>(
            (lhs, pos),
        ),
    decreases to + 1 - from,
{
    if from <= to {
        lemma_tails_rest(from + 1, to, toks, lhs, pos);
        lemma_tail_step(from, toks, lhs, pos);
    }
}

/// A level reads its first operand one level tighter and then its own
/// operators: after a primary expression come all the tails.
proof fn lemma_read_primary(
    level: nat,
    toks: Seq<SpecToken>,
    pos: int,
    value: SpecExpression,
    end: int,
)
    requires
        1 <= level <= 4,
        primary(toks, pos) == Ok::<(SpecExpression, int), SpecSyntaxError>((value, end)),
        advanced(toks, pos, end),
    ensures
        read_at(level, toks, pos) == tails(level, 3, toks, value, end),
        read_at(level, toks, pos) matches Ok((_, next)) ==> advanced(toks, pos, next),
{
    reveal_with_fuel(tails, 5);
    crate::laws::lemma_expression_advances(toks, pos);
}

/// After a level has read an operation of its own binding or a weaker one,
/// the tails of the weaker bindings follow.
proof fn lemma_read_weaker(
    level: nat,
    bound: nat,
    toks: Seq<SpecToken>,
    pos: int,
    value: SpecExpression,
    end: int,
)
    requires
        1 <= level <= bound <= 3,
        read_at(bound, toks, pos) == tail_at(bound, toks, value, end),
    ensures
        read_at(level, toks, pos) == tails(level, bound, toks, value, end),
{
    reveal_with_fuel(tails, 5);
    crate::laws::lemma_expression_advances(toks, pos);
}

// ------------------------------------------------------------------
// Expressions
// ------------------------------------------------------------------
/// The strength that `e` shows in a place that demands `level`: that of a
/// primary expression where it stands in parentheses.
spec fn shown_strength(e: SpecExpression, level: nat) -> nat {
    if strength(e) < level {
        4
    } else {
        strength(e)
    }
}

/// The bindings of the tails that follow an expression of the strength
/// `shown`: its own where it has an operator, all of them elsewhere.
spec fn top_of(shown: nat) -> nat {
    if shown > 3 {
        3
    } else {
        shown
    }
}

/// The production of the level `level` reads `e` from `pos` up to `end`
/// and goes on with the operators that bind no tighter than `e` shows.
spec fn reads_back(
    e: SpecExpression,
    level: nat,
    toks: Seq<SpecToken>,
    pos: int,
    end: int,
) -> bool {
    &&& 0 <= pos < end <= toks.len()
    &&& read_at(level, toks, pos) == tails(level, top_of(shown_strength(e, level)), toks, e, end)
}

/// An expression of one token is read back.
proof fn lemma_token_reads_back(e: SpecExpression, level: nat, toks: Seq<SpecToken>, pos: int)
    requires
        !(e is BinaryOperation),
        is_printable(e),
        1 <= level <= 4,
        0 <= pos < toks.len(),
        toks[pos] == print_at(e, level)[0],
    ensures
        reads_back(e, level, toks, pos, pos + 1),
{
    assert(primary(toks, pos) == Ok::<(SpecExpression, int), SpecSyntaxError>((e, pos + 1)));
    lemma_read_primary(level, toks, pos, e, pos + 1);
}

/// An operation in parentheses is read back, where the expression inside
/// is.
proof fn lemma_parentheses_read_back(
    e: SpecExpression,
    level: nat,
    toks: Seq<SpecToken>,
    pos: int,
    close: int,
)
    requires
        e is BinaryOperation,
        strength(e) < level <= 4,
        0 <= pos,
        close < toks.len(),
        toks[pos] == SpecToken::LParen,
        toks[close] == SpecToken::RParen,
        reads_back(e, 1, toks, pos + 1, close),
    ensures
        reads_back(e, level, toks, pos, close + 1),
{
    lemma_tails_rest(1, strength(e), toks, e, close);
    assert(expression(toks, pos + 1) == Ok::<(SpecExpression, int), SpecSyntaxError>((e, close)));
    assert(parenthesized(toks, pos) == Ok::<(SpecExpression, int), SpecSyntaxError>(
        (e, close + 1),
    ));
    assert(primary(toks, pos) == Ok::<(SpecExpression, int), SpecSyntaxError>((e, close + 1)));
    lemma_read_primary(level, toks, pos, e, close + 1);
}

/// An operation without parentheses is read back, where its operands are.
proof fn lemma_operation_reads_back(
    lhs: SpecExpression,
    op: BinaryOperator,
    rhs: SpecExpression,
    level: nat,
    toks: Seq<SpecToken>,
    pos: int,
    at: int,
    end: int,
)
    requires
        1 <= level <= binding(op),
        reads_back(lhs, binding(op), toks, pos, at),
        at < toks.len(),
        toks[at] == operator_token(op),
        reads_back(rhs, binding(op) + 1, toks, at + 1, end),
        no_tighter_operator(binding(op), toks, end),
    ensures
        reads_back(binary(lhs, op, rhs), level, toks, pos, end),
{
    let b = binding(op);
    let e = binary(lhs, op, rhs);
    // the tighter tails leave the left operand alone
    lemma_tails_rest(b + 1, top_of(shown_strength(lhs, b)), toks, lhs, at);
    assert(tails(b, top_of(shown_strength(lhs, b)), toks, lhs, at) == tail_at(b, toks, lhs, at))
        by {
        reveal_with_fuel(tails, 2);
    }
    // and the right operand
    lemma_tails_rest(b + 1, top_of(shown_strength(rhs, b + 1)), toks, rhs, end);
    assert(read_at(b + 1, toks, at + 1) == Ok::<(SpecExpression, int), SpecSyntaxError>(
        (rhs, end),
    ));
    assert(operator_at(b, toks, at) == Some(op));
    lemma_tail_step(b, toks, lhs, at);
    assert(read_at(b, toks, pos) == tail_at(b, toks, e, end));
    lemma_read_weaker(level, b, toks, pos, e, end);
}

/// The tokens `word` stand in `toks` from `pos` on.
spec fn spelled(toks: Seq<SpecToken>, pos: int, word: Seq<SpecToken>) -> bool {
    &&& 0 <= pos
    &&& pos + word.len() <= toks.len()
    &&& forall|i: int| 0 <= i < word.len() ==> toks[pos + i] == #[trigger] word[i]
}

/// Where `first`, the token `middle` and `last` stand one after the other,
/// each of them stands at its place.
proof fn lemma_spelled_parts(
    toks: Seq<SpecToken>,
    pos: int,
    first: Seq<SpecToken>,
    middle: SpecToken,
    last: Seq<SpecToken>,
)
    requires
        spelled(toks, pos, first + seq![middle] + last),
    ensures
        spelled(toks, pos, first),
        pos + first.len() < toks.len(),
        toks[pos + first.len()] == middle,
        spelled(toks, pos + first.len() + 1, last),
        (first + seq![middle] + last).len() == first.len() + 1 + last.len(),
{
    let word = first + seq![middle] + last;
    assert forall|i: int| 0 <= i < first.len() implies toks[pos + i] == #[trigger] first[i] by {
        assert(word[i] == first[i]);
    }
    assert(word[first.len() as int] == middle);
    assert forall|i: int| 0 <= i < last.len() implies toks[pos + first.len() + 1 + i]
        == #[trigger] last[i] by {
        assert(word[first.len() + 1 + i] == last[i]);
    }
}

/// Where `inside` stands in parentheses, the parentheses and `inside`
/// stand at their places.
proof fn lemma_spelled_inside(toks: Seq<SpecToken>, pos: int, inside: Seq<SpecToken>)
    requires
        spelled(toks, pos, seq![SpecToken::LParen] + inside + seq![SpecToken::RParen]),
    ensures
        toks[pos] == SpecToken::LParen,
        spelled(toks, pos + 1, inside),
        pos + 1 + inside.len() < toks.len(),
        toks[pos + 1 + inside.len()] == SpecToken::RParen,
        (seq![SpecToken::LParen] + inside + seq![SpecToken::RParen]).len() == inside.len() + 2,
{
    let word = seq![SpecToken::LParen] + inside + seq![SpecToken::RParen];
    assert(word[0] == SpecToken::LParen);
    assert forall|i: int| 0 <= i < inside.len() implies toks[pos + 1 + i] == #[trigger] inside[i] by {
        assert(word[1 + i] == inside[i]);
    }
    assert(word[(1 + inside.len()) as int] == SpecToken::RParen);
}

/// The heart of the matter: where the tokens of `e` stand, spelled for a
/// place of the strength `level`, and no operator follows that binds
/// tighter than `e` shows, the production of that level reads `e` and goes
/// on with the operators that bind no tighter than `e`.
proof fn lemma_reads_back(e: SpecExpression, level: nat, toks: Seq<SpecToken>, pos: int)
    requires
        is_printable(e),
        1 <= level <= 4,
        spelled(toks, pos, print_at(e, level)),
        no_tighter_operator(shown_strength(e, level), toks, pos + print_at(e, level).len()),
    ensures
        reads_back(e, level, toks, pos, pos + print_at(e, level).len()),
    decreases e, level,
{
    match e {
        SpecExpression::BinaryOperation { lhs, operator: op, rhs } => {
            let b = binding(op);
            let left = print_at(*lhs, b);
            let right = print_at(*rhs, b + 1);
            let bare = left + seq![operator_token(op)] + right;
            assert(binary(*lhs, op, *rhs) == e);
            assert(operator(operator_token(op)) == Some(op));
            if b < level {
                lemma_spelled_inside(toks, pos, bare);
                assert(print_at(e, 1) == bare);
                lemma_reads_back(e, 1, toks, pos + 1);
                lemma_parentheses_read_back(e, level, toks, pos, pos + 1 + bare.len());
            } else {
                lemma_spelled_parts(toks, pos, left, operator_token(op), right);
                let at = pos + left.len();
                lemma_reads_back(*lhs, b, toks, pos);
                lemma_reads_back(*rhs, b + 1, toks, at + 1);
                lemma_operation_reads_back(
                    *lhs,
                    op,
                    *rhs,
                    level,
                    toks,
                    pos,
                    at,
                    at + 1 + right.len(),
                );
            }
        },
        _ => {
            assert(print_at(e, level).len() == 1);
            assert(toks[pos] == print_at(e, level)[0]);
            lemma_token_reads_back(e, level, toks, pos);
        },
    }
}

/// The grammar reads an expression back from its tokens: `e`, and all of
/// the tokens.
pub proof fn lemma_expression_round_trip(e: SpecExpression)
    requires
        is_printable(e),
    ensures
        whole_expression(print_expression(e)) == Ok::<SpecExpression, SpecSyntaxError>(e),
{
    let toks = print_expression(e);
    lemma_reads_back(e, 1, toks, 0);
    lemma_tails_rest(1, top_of(shown_strength(e, 1)), toks, e, toks.len() as int);
}

// ------------------------------------------------------------------
// Words in a sequence of tokens
// ------------------------------------------------------------------
/// Where two words stand one after the other, each stands at its place.
proof fn lemma_split(toks: Seq<SpecToken>, pos: int, first: Seq<SpecToken>, last: Seq<SpecToken>)
    requires
        spelled(toks, pos, first + last),
    ensures
        spelled(toks, pos, first),
        spelled(toks, pos + first.len(), last),
        (first + last).len() == first.len() + last.len(),
{
    let word = first + last;
    assert forall|i: int| 0 <= i < first.len() implies toks[pos + i] == #[trigger] first[i] by {
        assert(word[i] == first[i]);
    }
    assert forall|i: int| 0 <= i < last.len() implies toks[pos + first.len() + i]
        == #[trigger] last[i] by {
        assert(word[first.len() + i] == last[i]);
    }
}

/// A word of one token.
proof fn lemma_one(toks: Seq<SpecToken>, pos: int, a: SpecToken)
    requires
        spelled(toks, pos, seq![a]),
    ensures
        0 <= pos < toks.len(),
        toks[pos] == a,
{
    assert(seq![a][0] == a);
}

/// A word of two tokens.
proof fn lemma_two(toks: Seq<SpecToken>, pos: int, a: SpecToken, b: SpecToken)
    requires
        spelled(toks, pos, seq![a, b]),
    ensures
        0 <= pos,
        pos + 1 < toks.len(),
        toks[pos] == a,
        toks[pos + 1] == b,
{
    assert(seq![a, b][0] == a);
    assert(seq![a, b][1] == b);
}

/// A word of three tokens.
proof fn lemma_three(toks: Seq<SpecToken>, pos: int, a: SpecToken, b: SpecToken, c: SpecToken)
    requires
        spelled(toks, pos, seq![a, b, c]),
    ensures
        0 <= pos,
        pos + 2 < toks.len(),
        toks[pos] == a,
        toks[pos + 1] == b,
        toks[pos + 2] == c,
{
    assert(seq![a, b, c][0] == a);
    assert(seq![a, b, c][1] == b);
    assert(seq![a, b, c][2] == c);
}

/// An expression is read back from its tokens where no operator follows
/// them.
proof fn lemma_expression_reads_back(e: SpecExpression, toks: Seq<SpecToken>, pos: int)
    requires
        is_printable(e),
        spelled(toks, pos, print_expression(e)),
        pos + print_expression(e).len() < toks.len() ==> operator(
            toks[pos + print_expression(e).len()],
        ) is None,
    ensures
        print_expression(e).len() > 0,
        expression(toks, pos) == Ok::<(SpecExpression, int), SpecSyntaxError>(
            (e, pos + print_expression(e).len()),
        ),
{
    lemma_reads_back(e, 1, toks, pos);
    lemma_tails_rest(
        1,
        top_of(shown_strength(e, 1)),
        toks,
        e,
        pos + print_expression(e).len(),
    );
}

// ------------------------------------------------------------------
// Statements
// ------------------------------------------------------------------
/// The arguments of a call are read back from their tokens and the `)`
/// behind them.
proof fn lemma_arguments_read_back(list: Seq<SpecExpression>, toks: Seq<SpecToken>, pos: int)
    requires
        are_printable(list),
        spelled(toks, pos, print_arguments(list)),
        pos + print_arguments(list).len() < toks.len(),
        toks[pos + print_arguments(list).len()] == SpecToken::RParen,
    ensures
        arguments(toks, pos) == Ok::<(Seq<SpecExpression>, int), SpecSyntaxError>(
            (list, pos + print_arguments(list).len() + 1),
        ),
{
    if list.len() == 0 {
        assert(list =~= Seq::empty());
    } else {
        lemma_argument_list_reads_back(list, toks, pos);
        if list.len() > 1 {
            lemma_split(
                toks,
                pos,
                print_expression(list[0]) + seq![SpecToken::Comma],
                print_arguments(list.skip(1)),
            );
            lemma_split(toks, pos, print_expression(list[0]), seq![SpecToken::Comma]);
        }
        lemma_starts_expression(list[0], toks, pos);
    }
}

/// The first token of an expression starts a primary expression.
proof fn lemma_starts_expression(e: SpecExpression, toks: Seq<SpecToken>, pos: int)
    requires
        spelled(toks, pos, print_expression(e)),
    ensures
        crate::grammar::is_primary_kind(kind_at(toks, pos)),
{
    lemma_first_token(e, 1);
    assert(toks[pos + 0] == print_at(e, 1)[0]);
}

/// The first token of an expression, in any place: an operand of one
/// token, or `(`.
proof fn lemma_first_token(e: SpecExpression, level: nat)
    ensures
        print_at(e, level).len() > 0,
        crate::grammar::is_primary_kind(Some(print_at(e, level)[0].kind())),
    decreases e,
{
    match e {
        SpecExpression::BinaryOperation { lhs, operator: op, rhs } => {
            lemma_first_token(*lhs, binding(op));
            let left = print_at(*lhs, binding(op));
            let bare = left + seq![operator_token(op)] + print_at(*rhs, binding(op) + 1);
            assert(bare[0] == left[0]);
            if binding(op) < level {
                assert((seq![SpecToken::LParen] + bare + seq![SpecToken::RParen])[0]
                    == SpecToken::LParen);
            }
        },
        _ => {},
    }
}

/// A list of arguments that is not empty is read back.
proof fn lemma_argument_list_reads_back(
    list: Seq<SpecExpression>,
    toks: Seq<SpecToken>,
    pos: int,
)
    requires
        list.len() > 0,
        are_printable(list),
        spelled(toks, pos, print_arguments(list)),
        pos + print_arguments(list).len() < toks.len(),
        toks[pos + print_arguments(list).len()] == SpecToken::RParen,
    ensures
        argument_list(toks, pos) == Ok::<(Seq<SpecExpression>, int), SpecSyntaxError>(
            (list, pos + print_arguments(list).len() + 1),
        ),
    decreases list.len(),
{
    let first = print_expression(list[0]);
    if list.len() == 1 {
        lemma_expression_reads_back(list[0], toks, pos);
        assert(seq![list[0]] =~= list);
    } else {
        let rest = list.skip(1);
        lemma_split(toks, pos, first + seq![SpecToken::Comma], print_arguments(rest));
        lemma_split(toks, pos, first, seq![SpecToken::Comma]);
        lemma_one(toks, pos + first.len(), SpecToken::Comma);
        lemma_expression_reads_back(list[0], toks, pos);
        assert(are_printable(rest)) by {
            assert forall|i: int| 0 <= i < rest.len() implies is_printable(#[trigger] rest[i]) by {
                assert(rest[i] == list[i + 1]);
            }
        }
        lemma_argument_list_reads_back(rest, toks, pos + first.len() + 1);
        assert(seq![list[0]] + rest =~= list);
    }
}

/// An assignment is read back, where its expression is.
proof fn lemma_assignment_reads_back(
    id: Seq<char>,
    value: SpecExpression,
    toks: Seq<SpecToken>,
    pos: int,
)
    requires
        is_printable(value),
        spelled(toks, pos, print_statement(SpecStatement::Variable { id, value })),
    ensures
        statement(toks, pos) == Ok::<(SpecStatement, int), SpecSyntaxError>(
            (
                SpecStatement::Variable { id, value },
                pos + print_statement(SpecStatement::Variable { id, value }).len(),
            ),
        ),
        is_statement_kind(kind_at(toks, pos)),
{
    let head = seq![SpecToken::Identifier(id), SpecToken::AssignSimbol];
    let body = print_expression(value);
    lemma_split(toks, pos, head + body, seq![SpecToken::Semicolon]);
    lemma_split(toks, pos, head, body);
    lemma_two(toks, pos, SpecToken::Identifier(id), SpecToken::AssignSimbol);
    lemma_one(toks, pos + 2 + body.len(), SpecToken::Semicolon);
    lemma_expression_reads_back(value, toks, pos + 2);
}

/// A `print` is read back, where its expression is.
proof fn lemma_print_reads_back(value: SpecExpression, toks: Seq<SpecToken>, pos: int)
    requires
        is_printable(value),
        spelled(toks, pos, print_statement(SpecStatement::Print { value })),
    ensures
        statement(toks, pos) == Ok::<(SpecStatement, int), SpecSyntaxError>(
            (
                SpecStatement::Print { value },
                pos + print_statement(SpecStatement::Print { value }).len(),
            ),
        ),
        is_statement_kind(kind_at(toks, pos)),
{
    let head = seq![SpecToken::KeywordPrint, SpecToken::LParen];
    let body = print_expression(value);
    let foot = seq![SpecToken::RParen, SpecToken::Semicolon];
    lemma_split(toks, pos, head + body, foot);
    lemma_split(toks, pos, head, body);
    lemma_two(toks, pos, SpecToken::KeywordPrint, SpecToken::LParen);
    lemma_two(toks, pos + 2 + body.len(), SpecToken::RParen, SpecToken::Semicolon);
    lemma_expression_reads_back(value, toks, pos + 2);
    assert(parenthesized(toks, pos + 1) == Ok::<(SpecExpression, int), SpecSyntaxError>(
        (value, pos + 3 + body.len()),
    ));
}

/// A call is read back, where its arguments are.
proof fn lemma_call_reads_back(
    id: Seq<char>,
    args: Seq<SpecExpression>,
    toks: Seq<SpecToken>,
    pos: int,
)
    requires
        are_printable(args),
        spelled(toks, pos, print_statement(SpecStatement::FunctionCall { id, args })),
    ensures
        statement(toks, pos) == Ok::<(SpecStatement, int), SpecSyntaxError>(
            (
                SpecStatement::FunctionCall { id, args },
                pos + print_statement(SpecStatement::FunctionCall { id, args }).len(),
            ),
        ),
        is_statement_kind(kind_at(toks, pos)),
{
    let head = seq![SpecToken::Identifier(id), SpecToken::LParen];
    let body = print_arguments(args);
    let foot = seq![SpecToken::RParen, SpecToken::Semicolon];
    lemma_split(toks, pos, head + body, foot);
    lemma_split(toks, pos, head, body);
    lemma_two(toks, pos, SpecToken::Identifier(id), SpecToken::LParen);
    lemma_two(toks, pos + 2 + body.len(), SpecToken::RParen, SpecToken::Semicolon);
    lemma_arguments_read_back(args, toks, pos + 2);
}

/// The condition in parentheses behind `if` or `while` is read back.
proof fn lemma_test_reads_back(test: SpecExpression, toks: Seq<SpecToken>, pos: int)
    requires
        is_printable(test),
        0 <= pos < toks.len(),
        toks[pos] == SpecToken::LParen,
        spelled(toks, pos + 1, print_expression(test)),
        pos + 1 + print_expression(test).len() < toks.len(),
        toks[pos + 1 + print_expression(test).len()] == SpecToken::RParen,
    ensures
        parenthesized(toks, pos) == Ok::<(SpecExpression, int), SpecSyntaxError>(
            (test, pos + 2 + print_expression(test).len()),
        ),
{
    lemma_expression_reads_back(test, toks, pos + 1);
}

/// A block is read back, where its statements are.
proof fn lemma_block_reads_back(list: Seq<SpecStatement>, toks: Seq<SpecToken>, pos: int)
    requires
        0 <= pos < toks.len(),
        toks[pos] == SpecToken::LBrace,
        statements(toks, pos + 1, TokenKind::RBrace, Seq::empty()) == Ok::<
            (Seq<SpecStatement>, int),
            SpecSyntaxError,
        >((list, pos + 2 + print_statements(list).len())),
    ensures
        block(toks, pos) == Ok::<(Seq<SpecStatement>, int), SpecSyntaxError>(
            (list, pos + 2 + print_statements(list).len()),
        ),
{
}

/// A condition is read back, where its parts are.
proof fn lemma_condition_is_read(
    test: SpecExpression,
    then_branch: Seq<SpecStatement>,
    else_branch: Seq<SpecStatement>,
    toks: Seq<SpecToken>,
    pos: int,
    then: int,
    next: int,
    end: int,
)
    requires
        0 <= pos < then,
        toks[pos] == SpecToken::KeywordIf,
        parenthesized(toks, pos + 1) == Ok::<(SpecExpression, int), SpecSyntaxError>((test, then)),
        block(toks, then) == Ok::<(Seq<SpecStatement>, int), SpecSyntaxError>(
            (then_branch, next),
        ),
        then < next < end <= toks.len(),
        if else_branch.len() == 0 {
            toks[next] == SpecToken::Semicolon && end == next + 1
        } else {
            toks[next] == SpecToken::KeywordElse && block(toks, next + 1) == Ok::<
                (Seq<SpecStatement>, int),
                SpecSyntaxError,
            >((else_branch, end - 1)) && next + 1 < end - 1 && toks[end - 1]
                == SpecToken::Semicolon
        },
    ensures
        statement(toks, pos) == Ok::<(SpecStatement, int), SpecSyntaxError>(
            (SpecStatement::Condition { condition: test, then_branch, else_branch }, end),
        ),
{
    assert(condition_tail(toks, pos, test, then_branch, next) == Ok::<
        (SpecStatement, int),
        SpecSyntaxError,
    >((SpecStatement::Condition { condition: test, then_branch, else_branch }, end))) by {
        if else_branch.len() == 0 {
            assert(else_branch =~= Seq::empty());
        }
    }
    assert(condition(toks, pos) == condition_tail(toks, pos, test, then_branch, next));
}

/// A cycle is read back, where its parts are.
proof fn lemma_cycle_is_read(
    test: SpecExpression,
    body: Seq<SpecStatement>,
    toks: Seq<SpecToken>,
    pos: int,
    keyword: int,
    end: int,
)
    requires
        0 <= pos < keyword,
        toks[pos] == SpecToken::KeywordWhile,
        parenthesized(toks, pos + 1) == Ok::<(SpecExpression, int), SpecSyntaxError>(
            (test, keyword),
        ),
        keyword < toks.len(),
        toks[keyword] == SpecToken::KeywordDo,
        block(toks, keyword + 1) == Ok::<(Seq<SpecStatement>, int), SpecSyntaxError>(
            (body, end - 1),
        ),
        keyword + 1 < end - 1 < toks.len(),
        toks[end - 1] == SpecToken::Semicolon,
    ensures
        statement(toks, pos) == Ok::<(SpecStatement, int), SpecSyntaxError>(
            (SpecStatement::Cycle { condition: test, body }, end),
        ),
{
    assert(cycle(toks, pos) == Ok::<(SpecStatement, int), SpecSyntaxError>(
        (SpecStatement::Cycle { condition: test, body }, end),
    ));
}

/// A statement is read back from its tokens.
proof fn lemma_statement_reads_back(s: SpecStatement, toks: Seq<SpecToken>, pos: int)
    requires
        is_printable_statement(s),
        spelled(toks, pos, print_statement(s)),
    ensures
        statement(toks, pos) == Ok::<(SpecStatement, int), SpecSyntaxError>(
            (s, pos + print_statement(s).len()),
        ),
        is_statement_kind(kind_at(toks, pos)),
    decreases s, 1int,
{
    match s {
        SpecStatement::Variable { id, value } => {
            lemma_assignment_reads_back(id, value, toks, pos);
        },
        SpecStatement::Print { value } => {
            lemma_print_reads_back(value, toks, pos);
        },
        SpecStatement::FunctionCall { id, args } => {
            lemma_call_reads_back(id, args, toks, pos);
        },
        SpecStatement::Condition { else_branch, .. } => {
            if else_branch.len() == 0 {
                lemma_short_condition_reads_back(s, toks, pos);
            } else {
                lemma_long_condition_reads_back(s, toks, pos);
            }
        },
        SpecStatement::Cycle { .. } => {
            lemma_cycle_reads_back(s, toks, pos);
        },
    }
}

/// A condition without `else` is read back from its tokens.
proof fn lemma_short_condition_reads_back(s: SpecStatement, toks: Seq<SpecToken>, pos: int)
    requires
        s is Condition,
        s->else_branch.len() == 0,
        is_printable_statement(s),
        spelled(toks, pos, print_statement(s)),
    ensures
        statement(toks, pos) == Ok::<(SpecStatement, int), SpecSyntaxError>(
            (s, pos + print_statement(s).len()),
        ),
        is_statement_kind(kind_at(toks, pos)),
    decreases s, 0int,
{
    let test = s->Condition_condition;
    let then_branch = s->then_branch;
    let else_branch = s->else_branch;
    let head = seq![SpecToken::KeywordIf, SpecToken::LParen];
    let words = print_expression(test);
    let open = seq![SpecToken::RParen, SpecToken::LBrace];
    let first = print_statements(then_branch);
    let foot = seq![SpecToken::RBrace, SpecToken::Semicolon];
    assert(print_statement(s) == head + words + open + first + foot);
    lemma_split(toks, pos, head + words + open + first, foot);
    lemma_split(toks, pos, head + words + open, first);
    lemma_split(toks, pos, head + words, open);
    lemma_split(toks, pos, head, words);
    lemma_two(toks, pos, SpecToken::KeywordIf, SpecToken::LParen);
    let close = pos + 2 + words.len();
    lemma_two(toks, close, SpecToken::RParen, SpecToken::LBrace);
    lemma_test_reads_back(test, toks, pos + 1);
    let inside = close + 2;
    let next = inside + first.len();
    lemma_two(toks, next, SpecToken::RBrace, SpecToken::Semicolon);
    lemma_statements_read_back(then_branch, toks, inside, TokenKind::RBrace, Seq::empty());
    lemma_block_reads_back(then_branch, toks, close + 1);
    lemma_condition_is_read(
        test,
        then_branch,
        else_branch,
        toks,
        pos,
        close + 1,
        next + 1,
        next + 2,
    );
}

/// A condition with `else` is read back from its tokens.
proof fn lemma_long_condition_reads_back(s: SpecStatement, toks: Seq<SpecToken>, pos: int)
    requires
        s is Condition,
        s->else_branch.len() > 0,
        is_printable_statement(s),
        spelled(toks, pos, print_statement(s)),
    ensures
        statement(toks, pos) == Ok::<(SpecStatement, int), SpecSyntaxError>(
            (s, pos + print_statement(s).len()),
        ),
        is_statement_kind(kind_at(toks, pos)),
    decreases s, 0int,
{
    let test = s->Condition_condition;
    let then_branch = s->then_branch;
    let else_branch = s->else_branch;
    let head = seq![SpecToken::KeywordIf, SpecToken::LParen];
    let words = print_expression(test);
    let open = seq![SpecToken::RParen, SpecToken::LBrace];
    let first = print_statements(then_branch);
    let second = print_statements(else_branch);
    let turn = seq![SpecToken::RBrace, SpecToken::KeywordElse, SpecToken::LBrace];
    let last = seq![SpecToken::RBrace, SpecToken::Semicolon];
    let foot = turn + second + last;
    assert(print_statement(s) == head + words + open + first + foot);
    lemma_split(toks, pos, head + words + open + first, foot);
    lemma_split(toks, pos, head + words + open, first);
    lemma_split(toks, pos, head + words, open);
    lemma_split(toks, pos, head, words);
    lemma_two(toks, pos, SpecToken::KeywordIf, SpecToken::LParen);
    let close = pos + 2 + words.len();
    lemma_two(toks, close, SpecToken::RParen, SpecToken::LBrace);
    lemma_test_reads_back(test, toks, pos + 1);
    let inside = close + 2;
    let next = inside + first.len();
    lemma_split(toks, next, turn + second, last);
    lemma_split(toks, next, turn, second);
    lemma_three(toks, next, SpecToken::RBrace, SpecToken::KeywordElse, SpecToken::LBrace);
    let other = next + 3 + second.len();
    lemma_two(toks, other, SpecToken::RBrace, SpecToken::Semicolon);
    lemma_statements_read_back(then_branch, toks, inside, TokenKind::RBrace, Seq::empty());
    lemma_block_reads_back(then_branch, toks, close + 1);
    lemma_statements_read_back(else_branch, toks, next + 3, TokenKind::RBrace, Seq::empty());
    lemma_block_reads_back(else_branch, toks, next + 2);
    lemma_condition_is_read(
        test,
        then_branch,
        else_branch,
        toks,
        pos,
        close + 1,
        next + 1,
        other + 2,
    );
}

/// A cycle is read back from its tokens.
proof fn lemma_cycle_reads_back(s: SpecStatement, toks: Seq<SpecToken>, pos: int)
    requires
        s is Cycle,
        is_printable_statement(s),
        spelled(toks, pos, print_statement(s)),
    ensures
        statement(toks, pos) == Ok::<(SpecStatement, int), SpecSyntaxError>(
            (s, pos + print_statement(s).len()),
        ),
        is_statement_kind(kind_at(toks, pos)),
    decreases s, 0int,
{
    let test = s->Cycle_condition;
    let body = s->body;
    let head = seq![SpecToken::KeywordWhile, SpecToken::LParen];
    let words = print_expression(test);
    let open = seq![SpecToken::RParen, SpecToken::KeywordDo, SpecToken::LBrace];
    let inner = print_statements(body);
    let foot = seq![SpecToken::RBrace, SpecToken::Semicolon];
    assert(print_statement(s) == head + words + open + inner + foot);
    lemma_split(toks, pos, head + words + open + inner, foot);
    lemma_split(toks, pos, head + words + open, inner);
    lemma_split(toks, pos, head + words, open);
    lemma_split(toks, pos, head, words);
    lemma_two(toks, pos, SpecToken::KeywordWhile, SpecToken::LParen);
    let close = pos + 2 + words.len();
    lemma_three(toks, close, SpecToken::RParen, SpecToken::KeywordDo, SpecToken::LBrace);
    lemma_test_reads_back(test, toks, pos + 1);
    let inside = close + 3;
    let next = inside + inner.len();
    lemma_two(toks, next, SpecToken::RBrace, SpecToken::Semicolon);
    lemma_statements_read_back(body, toks, inside, TokenKind::RBrace, Seq::empty());
    lemma_block_reads_back(body, toks, close + 2);
    lemma_cycle_is_read(test, body, toks, pos, close + 1, next + 2);
}

/// A list of statements is read back from its tokens and the closing token
/// behind them.
proof fn lemma_statements_read_back(
    list: Seq<SpecStatement>,
    toks: Seq<SpecToken>,
    pos: int,
    close: TokenKind,
    also: Seq<TokenKind>,
)
    requires
        are_printable_statements(list),
        spelled(toks, pos, print_statements(list)),
        kind_at(toks, pos + print_statements(list).len()) == Some(close),
        !is_statement_kind(Some(close)),
    ensures
        statements(toks, pos, close, also) == Ok::<(Seq<SpecStatement>, int), SpecSyntaxError>(
            (list, pos + print_statements(list).len() + 1),
        ),
    decreases list, 2int,
{
    if list.len() == 0 {
        assert(list =~= Seq::empty());
    } else {
        let first = print_statement(list[0]);
        let rest = list.skip(1);
        lemma_split(toks, pos, first, print_statements(rest));
        lemma_statement_reads_back(list[0], toks, pos);
        lemma_statements_read_back(rest, toks, pos + first.len(), close, Seq::empty());
        lemma_statement_is_long(list[0]);
        assert(seq![list[0]] + rest =~= list);
    }
}

/// A statement has a token at least.
proof fn lemma_statement_is_long(s: SpecStatement)
    ensures
        print_statement(s).len() >= 2,
{
}

// ------------------------------------------------------------------
// Declarations
// ------------------------------------------------------------------
/// One declaration `name : type` is read back.
proof fn lemma_declaration_reads_back(
    declaration: SpecDeclaration,
    toks: Seq<SpecToken>,
    pos: int,
)
    requires
        type_token(declaration.1) is Some,
        spelled(toks, pos, print_declaration(declaration)),
    ensures
        var_decl(toks, pos) == Ok::<(Seq<SpecDeclaration>, int), SpecSyntaxError>(
            (seq![declaration], pos + 3),
        ),
        kind_at(toks, pos) == Some(TokenKind::Identifier),
        kind_at(toks, pos + 1) == Some(TokenKind::TwoPoints),
        print_declaration(declaration).len() == 3,
{
    lemma_three(
        toks,
        pos,
        SpecToken::Identifier(declaration.0),
        SpecToken::TwoPoints,
        type_token(declaration.1)->0,
    );
    assert(names(toks, pos) == Ok::<(Seq<Seq<char>>, int), SpecSyntaxError>(
        (seq![declaration.0], pos + 1),
    ));
    assert(type_text(kind_at(toks, pos + 2)) == Some(declaration.1));
    assert(declare(seq![declaration.0], declaration.1) =~= seq![declaration]);
}

/// What may follow the declarations of a section at `pos`: no identifier,
/// or in a function an identifier that starts a statement.
spec fn ends_declarations(toks: Seq<SpecToken>, pos: int, in_function: bool) -> bool {
    ||| kind_at(toks, pos) != Some(TokenKind::Identifier)
    ||| in_function && (kind_at(toks, pos + 1) == Some(TokenKind::AssignSimbol) || kind_at(
        toks,
        pos + 1,
    ) == Some(TokenKind::LParen))
}

/// The declarations of a section are read back from their tokens.
proof fn lemma_declarations_read_back(
    list: Seq<SpecDeclaration>,
    toks: Seq<SpecToken>,
    pos: int,
    in_function: bool,
)
    requires
        list.len() > 0,
        are_printable_declarations(list),
        spelled(toks, pos, print_declarations(list)),
        ends_declarations(toks, pos + print_declarations(list).len(), in_function),
    ensures
        declarations(toks, pos, in_function) == Ok::<(Seq<SpecDeclaration>, int), SpecSyntaxError>(
            (list, pos + print_declarations(list).len()),
        ),
        kind_at(toks, pos) == Some(TokenKind::Identifier),
        kind_at(toks, pos + 1) == Some(TokenKind::TwoPoints),
    decreases list.len(),
{
    let first = print_declaration(list[0]);
    let rest = list.skip(1);
    lemma_split(toks, pos, first + seq![SpecToken::Semicolon], print_declarations(rest));
    lemma_split(toks, pos, first, seq![SpecToken::Semicolon]);
    lemma_declaration_reads_back(list[0], toks, pos);
    lemma_one(toks, pos + 3, SpecToken::Semicolon);
    if rest.len() == 0 {
        assert(seq![list[0]] =~= list);
        assert(more_declarations(toks, pos + 4, in_function) == Ok::<bool, SpecSyntaxError>(
            false,
        ));
    } else {
        assert(are_printable_declarations(rest)) by {
            assert forall|i: int| 0 <= i < rest.len() implies type_token(
                (#[trigger] rest[i]).1,
            ) is Some by {
                assert(rest[i] == list[i + 1]);
            }
        }
        lemma_declarations_read_back(rest, toks, pos + 4, in_function);
        assert(more_declarations(toks, pos + 4, in_function) == Ok::<bool, SpecSyntaxError>(
            true,
        ));
        assert(seq![list[0]] + rest =~= list);
    }
}

/// A section of variables is read back from its tokens: the declarations,
/// or none where the section is absent.
proof fn lemma_var_section_reads_back(
    list: Seq<SpecDeclaration>,
    toks: Seq<SpecToken>,
    pos: int,
    in_function: bool,
)
    requires
        are_printable_declarations(list),
        spelled(toks, pos, print_var_section(list)),
        ends_declarations(toks, pos + print_var_section(list).len(), in_function),
        kind_at(toks, pos + print_var_section(list).len()) != Some(TokenKind::KeywordVar),
    ensures
        var_section(toks, pos, in_function) == Ok::<(Seq<SpecDeclaration>, int), SpecSyntaxError>(
            (list, pos + print_var_section(list).len()),
        ),
        list.len() > 0 ==> print_var_section(list).len() > 0,
{
    if list.len() == 0 {
        assert(list =~= Seq::empty());
    } else {
        lemma_split(toks, pos, seq![SpecToken::KeywordVar], print_declarations(list));
        lemma_one(toks, pos, SpecToken::KeywordVar);
        lemma_declarations_read_back(list, toks, pos + 1, in_function);
    }
}

/// The parameters of a function are read back from their tokens and the
/// `)` behind them.
proof fn lemma_parameters_read_back(
    list: Seq<SpecDeclaration>,
    toks: Seq<SpecToken>,
    pos: int,
)
    requires
        are_printable_declarations(list),
        spelled(toks, pos, print_parameters(list)),
        kind_at(toks, pos + print_parameters(list).len()) == Some(TokenKind::RParen),
    ensures
        parameters(toks, pos) == Ok::<(Seq<SpecDeclaration>, int), SpecSyntaxError>(
            (list, pos + print_parameters(list).len() + 1),
        ),
{
    if list.len() == 0 {
        assert(list =~= Seq::empty());
    } else {
        lemma_parameter_list_reads_back(list, toks, pos);
    }
}

/// A list of parameters that is not empty is read back.
proof fn lemma_parameter_list_reads_back(
    list: Seq<SpecDeclaration>,
    toks: Seq<SpecToken>,
    pos: int,
)
    requires
        list.len() > 0,
        are_printable_declarations(list),
        spelled(toks, pos, print_parameters(list)),
        kind_at(toks, pos + print_parameters(list).len()) == Some(TokenKind::RParen),
    ensures
        parameter_list(toks, pos) == Ok::<(Seq<SpecDeclaration>, int), SpecSyntaxError>(
            (list, pos + print_parameters(list).len() + 1),
        ),
        kind_at(toks, pos) == Some(TokenKind::Identifier),
    decreases list.len(),
{
    let first = print_declaration(list[0]);
    let rest = list.skip(1);
    if rest.len() == 0 {
        lemma_declaration_reads_back(list[0], toks, pos);
        assert(seq![list[0]] =~= list);
    } else {
        lemma_split(toks, pos, first + seq![SpecToken::Comma], print_parameters(rest));
        lemma_split(toks, pos, first, seq![SpecToken::Comma]);
        lemma_declaration_reads_back(list[0], toks, pos);
        lemma_one(toks, pos + 3, SpecToken::Comma);
        assert(are_printable_declarations(rest)) by {
            assert forall|i: int| 0 <= i < rest.len() implies type_token(
                (#[trigger] rest[i]).1,
            ) is Some by {
                assert(rest[i] == list[i + 1]);
            }
        }
        lemma_parameter_list_reads_back(rest, toks, pos + 4);
        assert(seq![list[0]] + rest =~= list);
    }
}

// ------------------------------------------------------------------
// Functions and programs
// ------------------------------------------------------------------
/// The first tokens of a statement: a keyword of a statement, or an
/// identifier with `=` or `(` behind it.
proof fn lemma_statement_start(s: SpecStatement)
    ensures
        print_statement(s).len() >= 2,
        is_statement_kind(Some(print_statement(s)[0].kind())),
        print_statement(s)[0].kind() != TokenKind::KeywordVar,
        print_statement(s)[0].kind() == TokenKind::Identifier ==> print_statement(s)[1].kind()
            == TokenKind::AssignSimbol || print_statement(s)[1].kind() == TokenKind::LParen,
{
    match s {
        SpecStatement::Variable { id, value } => {
            let head = seq![SpecToken::Identifier(id), SpecToken::AssignSimbol];
            let word = head + print_expression(value) + seq![SpecToken::Semicolon];
            assert(word[0] == head[0]);
            assert(word[1] == head[1]);
        },
        SpecStatement::Print { value } => {
            let head = seq![SpecToken::KeywordPrint, SpecToken::LParen];
            let word = head + print_expression(value) + seq![
                SpecToken::RParen,
                SpecToken::Semicolon,
            ];
            assert(word[0] == head[0]);
        },
        SpecStatement::Condition { condition, then_branch, else_branch } => {
            let head = seq![SpecToken::KeywordIf, SpecToken::LParen];
            assert(print_statement(s)[0] == head[0]);
        },
        SpecStatement::Cycle { condition, body } => {
            let head = seq![SpecToken::KeywordWhile, SpecToken::LParen];
            assert(print_statement(s)[0] == head[0]);
        },
        SpecStatement::FunctionCall { id, args } => {
            let head = seq![SpecToken::Identifier(id), SpecToken::LParen];
            let word = head + print_arguments(args) + seq![
                SpecToken::RParen,
                SpecToken::Semicolon,
            ];
            assert(word[0] == head[0]);
            assert(word[1] == head[1]);
        },
    }
}

/// What stands behind the variables of a function, the statements and the
/// `]`, ends the declarations and is no `var`.
proof fn lemma_body_ends_declarations(list: Seq<SpecStatement>, toks: Seq<SpecToken>, pos: int)
    requires
        spelled(toks, pos, print_statements(list)),
        kind_at(toks, pos + print_statements(list).len()) == Some(TokenKind::RBraket),
    ensures
        ends_declarations(toks, pos, true),
        kind_at(toks, pos) != Some(TokenKind::KeywordVar),
{
    if list.len() > 0 {
        let first = print_statement(list[0]);
        lemma_split(toks, pos, first, print_statements(list.skip(1)));
        lemma_statement_start(list[0]);
        assert(toks[pos + 0] == first[0]);
        assert(toks[pos + 1] == first[1]);
    }
}

/// A function is read back from its tokens.
proof fn lemma_function_reads_back(f: SpecFunction, toks: Seq<SpecToken>, pos: int)
    requires
        is_printable_function(f),
        spelled(toks, pos, print_function(f)),
    ensures
        function(toks, pos) == Ok::<(SpecFunction, int), SpecSyntaxError>(
            (f, pos + print_function(f).len()),
        ),
        kind_at(toks, pos) == Some(TokenKind::KeywordVoid),
        print_function(f).len() > 0,
{
    let head = seq![SpecToken::KeywordVoid, SpecToken::Identifier(f.id), SpecToken::LParen];
    let params = print_parameters(f.params);
    let open = seq![SpecToken::RParen, SpecToken::LBraket];
    let vars = print_var_section(f.vars);
    let body = print_statements(f.body);
    let foot = seq![SpecToken::RBraket, SpecToken::Semicolon];
    lemma_split(toks, pos, head + params + open + vars + body, foot);
    lemma_split(toks, pos, head + params + open + vars, body);
    lemma_split(toks, pos, head + params + open, vars);
    lemma_split(toks, pos, head + params, open);
    lemma_split(toks, pos, head, params);
    lemma_three(toks, pos, SpecToken::KeywordVoid, SpecToken::Identifier(f.id), SpecToken::LParen);
    let close: int = pos + 3 + params.len();
    lemma_two(toks, close, SpecToken::RParen, SpecToken::LBraket);
    lemma_parameters_read_back(f.params, toks, pos + 3);
    let inside: int = close + 2;
    let first: int = inside + vars.len();
    let end: int = first + body.len();
    lemma_two(toks, end, SpecToken::RBraket, SpecToken::Semicolon);
    lemma_body_ends_declarations(f.body, toks, first);
    lemma_var_section_reads_back(f.vars, toks, inside, true);
    lemma_statements_read_back(
        f.body,
        toks,
        first,
        TokenKind::RBraket,
        if first == inside {
            seq![TokenKind::KeywordVar]
        } else {
            Seq::empty()
        },
    );
    assert(function_body(toks, close + 1) == Ok::<
        ((Seq<SpecDeclaration>, Seq<SpecStatement>), int),
        SpecSyntaxError,
    >(((f.vars, f.body), end + 2)));
}

/// A list of functions is read back from its tokens, where no `void`
/// follows them.
proof fn lemma_functions_read_back(list: Seq<SpecFunction>, toks: Seq<SpecToken>, pos: int)
    requires
        forall|i: int| 0 <= i < list.len() ==> is_printable_function(#[trigger] list[i]),
        spelled(toks, pos, print_functions(list)),
        kind_at(toks, pos + print_functions(list).len()) != Some(TokenKind::KeywordVoid),
    ensures
        functions(toks, pos) == Ok::<(Seq<SpecFunction>, int), SpecSyntaxError>(
            (list, pos + print_functions(list).len()),
        ),
    decreases list.len(),
{
    if list.len() == 0 {
        assert(list =~= Seq::empty());
    } else {
        let first = print_function(list[0]);
        let rest = list.skip(1);
        lemma_split(toks, pos, first, print_functions(rest));
        lemma_function_reads_back(list[0], toks, pos);
        assert forall|i: int| 0 <= i < rest.len() implies is_printable_function(
            #[trigger] rest[i],
        ) by {
            assert(rest[i] == list[i + 1]);
        }
        lemma_functions_read_back(rest, toks, pos + first.len());
        assert(seq![list[0]] + rest =~= list);
    }
}

/// Where the parts of the program `p` stand among the tokens `toks`.
spec fn is_program_text(p: SpecProgram, toks: Seq<SpecToken>) -> bool {
    let next: int = 3int + print_var_section(p.vars).len();
    let main: int = next + print_functions(p.funcs).len();
    let end: int = main + 2 + print_statements(p.body).len();
    &&& toks.len() == end + 2
    &&& toks[0] == SpecToken::KeywordProgram
    &&& toks[1] == SpecToken::Identifier(p.id)
    &&& toks[2] == SpecToken::Semicolon
    &&& spelled(toks, 3, print_var_section(p.vars))
    &&& spelled(toks, next, print_functions(p.funcs))
    &&& toks[main] == SpecToken::KeywordMain
    &&& toks[main + 1] == SpecToken::LBrace
    &&& spelled(toks, main + 2, print_statements(p.body))
    &&& toks[end] == SpecToken::RBrace
    &&& toks[end + 1] == SpecToken::KeywordEnd
}

/// The tokens of a program hold its parts one after the other.
proof fn lemma_program_text(p: SpecProgram)
    ensures
        is_program_text(p, print_program(p)),
{
    let toks = print_program(p);
    let head = seq![SpecToken::KeywordProgram, SpecToken::Identifier(p.id), SpecToken::Semicolon];
    let vars = print_var_section(p.vars);
    let funcs = print_functions(p.funcs);
    let open = seq![SpecToken::KeywordMain, SpecToken::LBrace];
    let body = print_statements(p.body);
    let foot = seq![SpecToken::RBrace, SpecToken::KeywordEnd];
    assert(spelled(toks, 0, toks));
    lemma_split(toks, 0, head + vars + funcs + open + body, foot);
    lemma_split(toks, 0, head + vars + funcs + open, body);
    lemma_split(toks, 0, head + vars + funcs, open);
    lemma_split(toks, 0, head + vars, funcs);
    lemma_split(toks, 0, head, vars);
    lemma_three(
        toks,
        0,
        SpecToken::KeywordProgram,
        SpecToken::Identifier(p.id),
        SpecToken::Semicolon,
    );
    let next: int = 3int + vars.len();
    let main: int = next + funcs.len();
    lemma_two(toks, main, SpecToken::KeywordMain, SpecToken::LBrace);
    let end: int = main + 2 + body.len();
    lemma_two(toks, end, SpecToken::RBrace, SpecToken::KeywordEnd);
}

/// The main block of a program is read back, whatever was expected at
/// `main`.
proof fn lemma_main_block_reads_back(
    body: Seq<SpecStatement>,
    toks: Seq<SpecToken>,
    pos: int,
    expected: Seq<TokenKind>,
)
    requires
        are_printable_statements(body),
        0 <= pos,
        toks.len() == pos + print_statements(body).len() + 4,
        toks[pos] == SpecToken::KeywordMain,
        toks[pos + 1] == SpecToken::LBrace,
        spelled(toks, pos + 2, print_statements(body)),
        toks[pos + 2 + print_statements(body).len()] == SpecToken::RBrace,
        toks[pos + 3 + print_statements(body).len()] == SpecToken::KeywordEnd,
    ensures
        main_block(toks, pos, expected) == Ok::<Seq<SpecStatement>, SpecSyntaxError>(body),
{
    let end: int = pos + 2 + print_statements(body).len();
    lemma_statements_read_back(body, toks, pos + 2, TokenKind::RBrace, Seq::empty());
    assert(block(toks, pos + 1) == Ok::<(Seq<SpecStatement>, int), SpecSyntaxError>(
        (body, end + 1),
    ));
}

/// Tokens that hold the parts of a program one after the other are read
/// as that program.
proof fn lemma_program_is_read(p: SpecProgram, toks: Seq<SpecToken>)
    requires
        is_printable_program(p),
        is_program_text(p, toks),
    ensures
        program(toks) == Ok::<SpecProgram, SpecSyntaxError>(p),
{
    let next: int = 3int + print_var_section(p.vars).len();
    let main: int = next + print_functions(p.funcs).len();
    lemma_functions_start(p.funcs, toks, next);
    lemma_var_section_reads_back(p.vars, toks, 3, false);
    lemma_functions_read_back(p.funcs, toks, next);
    lemma_main_block_reads_back(
        p.body,
        toks,
        main,
        before_main(next != 3, p.funcs.len() > 0),
    );
    assert(heading(toks) == Ok::<(Seq<char>, int), SpecSyntaxError>((p.id, 3)));
}

/// The grammar reads a program back from its tokens: the program, and all
/// of the tokens.
pub proof fn lemma_program_round_trip(p: SpecProgram)
    requires
        is_printable_program(p),
    ensures
        program(print_program(p)) == Ok::<SpecProgram, SpecSyntaxError>(p),
{
    lemma_program_text(p);
    lemma_program_is_read(p, print_program(p));
}

/// What stands behind the variables of a program, the functions and
/// `main`, is neither an identifier nor `var`.
proof fn lemma_functions_start(list: Seq<SpecFunction>, toks: Seq<SpecToken>, pos: int)
    requires
        spelled(toks, pos, print_functions(list)),
        kind_at(toks, pos + print_functions(list).len()) == Some(TokenKind::KeywordMain),
    ensures
        kind_at(toks, pos) == Some(TokenKind::KeywordVoid) || kind_at(toks, pos) == Some(
            TokenKind::KeywordMain,
        ),
{
    if list.len() > 0 {
        let first = print_function(list[0]);
        lemma_split(toks, pos, first, print_functions(list.skip(1)));
        let head = seq![
            SpecToken::KeywordVoid,
            SpecToken::Identifier(list[0].id),
            SpecToken::LParen,
        ];
        assert(first[0] == head[0]);
        assert(toks[pos + 0] == first[0]);
    }
}

} // verus!
