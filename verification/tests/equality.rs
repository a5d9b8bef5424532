use babyduck::ast::{BinaryOperator, Expression, Function, Program, Statement};
use babyduck::parser::SyntaxError;
use babyduck::tokens::{Token, TokenKind};

fn text(s: &str) -> String {
    s.to_string()
}

fn sum(lhs: Expression, rhs: Expression) -> Expression {
    Expression::BinaryOperation {
        lhs: Box::new(lhs),
        operator: BinaryOperator::Add,
        rhs: Box::new(rhs),
    }
}

fn show(value: Expression) -> Statement {
    Statement::Print {
        value: Box::new(value),
    }
}

fn sample() -> Program {
    Program {
        id: text("p"),
        vars: vec![(text("x"), text("int"))],
        funcs: vec![Function {
            id: text("f"),
            params: vec![(text("a"), text("float"))],
            vars: vec![],
            body: vec![show(Expression::Variable(text("a")))],
        }],
        body: vec![Statement::Condition {
            condition: Box::new(Expression::Boolean(true)),
            then_branch: vec![show(sum(Expression::Integer(1), Expression::Integer(2)))],
            else_branch: vec![],
        }],
    }
}

#[test]
fn tokens_are_equal_by_kind_and_text() {
    assert!(Token::KeywordMain == Token::KeywordMain);
    assert!(Token::KeywordMain != Token::KeywordEnd);
    assert!(Token::Identifier(text("a")) == Token::Identifier(text("a")));
    assert!(Token::Identifier(text("a")) != Token::Identifier(text("b")));
    assert!(Token::Identifier(text("a")) != Token::String(text("a")));
    assert!(Token::Float(text("1.5")) != Token::String(text("1.5")));
    assert!(Token::Integer(7) == Token::Integer(7));
    assert!(Token::Integer(7) != Token::Integer(8));
    assert!(Token::LBrace != Token::LBraket);
}

#[test]
fn expressions_are_equal_field_by_field() {
    let one = || Expression::Integer(1);
    let two = || Expression::Integer(2);
    assert!(sum(one(), two()) == sum(one(), two()));
    assert!(sum(one(), two()) != sum(two(), one()));
    assert!(sum(sum(one(), one()), two()) != sum(one(), sum(one(), two())));
    assert!(
        sum(one(), two())
            != Expression::BinaryOperation {
                lhs: Box::new(one()),
                operator: BinaryOperator::Sub,
                rhs: Box::new(two()),
            }
    );
    assert!(Expression::Float(text("1.5")) != Expression::String(text("1.5")));
    assert!(Expression::Variable(text("true")) != Expression::Boolean(true));
    assert!(Expression::Boolean(true) != Expression::Boolean(false));
}

#[test]
fn statements_are_equal_field_by_field() {
    let call = |args: Vec<Expression>| Statement::FunctionCall {
        id: text("f"),
        args,
    };
    assert!(call(vec![]) == call(vec![]));
    assert!(call(vec![Expression::Integer(1)]) != call(vec![]));
    assert!(call(vec![Expression::Integer(1)]) != call(vec![Expression::Integer(2)]));
    assert!(show(Expression::Integer(1)) == show(Expression::Integer(1)));
    assert!(
        show(Expression::Integer(1))
            != Statement::Variable {
                id: text("x"),
                value: Box::new(Expression::Integer(1)),
            }
    );
    let cycle = |body: Vec<Statement>| Statement::Cycle {
        condition: Box::new(Expression::Boolean(true)),
        body,
    };
    assert!(cycle(vec![call(vec![])]) == cycle(vec![call(vec![])]));
    assert!(cycle(vec![call(vec![])]) != cycle(vec![call(vec![]), call(vec![])]));
}

#[test]
fn programs_are_equal_field_by_field() {
    assert!(sample() == sample());

    let mut renamed = sample();
    renamed.id = text("q");
    assert!(renamed != sample());

    let mut retyped = sample();
    retyped.vars[0].1 = text("float");
    assert!(retyped != sample());

    let mut without_functions = sample();
    without_functions.funcs.clear();
    assert!(without_functions != sample());

    let mut other_parameter = sample();
    other_parameter.funcs[0].params[0].0 = text("b");
    assert!(other_parameter != sample());

    let mut with_else = sample();
    if let Statement::Condition { else_branch, .. } = &mut with_else.body[0] {
        else_branch.push(show(Expression::Integer(0)));
    }
    assert!(with_else != sample());

    let mut longer = sample();
    longer.body.push(show(Expression::Integer(0)));
    assert!(longer != sample());
}

#[test]
fn syntax_errors_are_equal_field_by_field() {
    let error = |position: usize, found: Option<Token>, expected: Vec<TokenKind>| SyntaxError {
        position,
        found,
        expected,
    };
    let at_main = || error(2, Some(Token::KeywordMain), vec![TokenKind::Semicolon]);
    assert!(at_main() == at_main());
    assert!(at_main() != error(3, Some(Token::KeywordMain), vec![TokenKind::Semicolon]));
    assert!(at_main() != error(2, None, vec![TokenKind::Semicolon]));
    assert!(at_main() != error(2, Some(Token::KeywordEnd), vec![TokenKind::Semicolon]));
    assert!(at_main() != error(2, Some(Token::KeywordMain), vec![]));
    assert!(at_main() != error(2, Some(Token::KeywordMain), vec![TokenKind::Comma]));
}
