use babyduck::ast::{BinaryOperator, Expression, Function, Program, Statement};
use babyduck::lexer::tokenize;
use babyduck::parser::{
    parse, parse_expression, parse_expression_tokens, parse_tokens, ParseError, SyntaxError,
};
use babyduck::tokens::{LexicalError, Token, TokenKind};

fn num(value: i64) -> Expression {
    Expression::Integer(value)
}

fn var(name: &str) -> Expression {
    Expression::Variable(name.to_string())
}

fn bin(lhs: Expression, operator: BinaryOperator, rhs: Expression) -> Expression {
    Expression::BinaryOperation {
        lhs: Box::new(lhs),
        operator,
        rhs: Box::new(rhs),
    }
}

fn decl(name: &str, type_text: &str) -> (String, String) {
    (name.to_string(), type_text.to_string())
}

fn assign(id: &str, value: Expression) -> Statement {
    Statement::Variable {
        id: id.to_string(),
        value: Box::new(value),
    }
}

fn print(value: Expression) -> Statement {
    Statement::Print {
        value: Box::new(value),
    }
}

fn syntax_error(position: usize, found: Option<Token>, expected: Vec<TokenKind>) -> ParseError {
    ParseError::Syntax(SyntaxError {
        position,
        found,
        expected,
    })
}

fn operators_and(mut rest: Vec<TokenKind>) -> Vec<TokenKind> {
    let mut kinds = vec![
        TokenKind::OperatorMul,
        TokenKind::OperatorDiv,
        TokenKind::OperatorAdd,
        TokenKind::OperatorSub,
        TokenKind::SmallerThan,
        TokenKind::BigerThan,
        TokenKind::NotEqual,
    ];
    kinds.append(&mut rest);
    kinds
}

#[test]
fn multiplication_binds_tighter_than_addition() {
    assert_eq!(
        parse_expression("1 + 2 * 3"),
        Ok(bin(
            num(1),
            BinaryOperator::Add,
            bin(num(2), BinaryOperator::Mul, num(3))
        ))
    );
    assert_eq!(
        parse_expression("1 * 2 + 3"),
        Ok(bin(
            bin(num(1), BinaryOperator::Mul, num(2)),
            BinaryOperator::Add,
            num(3)
        ))
    );
}

#[test]
fn subtraction_groups_to_the_left() {
    assert_eq!(
        parse_expression("1 - 2 - 3"),
        Ok(bin(
            bin(num(1), BinaryOperator::Sub, num(2)),
            BinaryOperator::Sub,
            num(3)
        ))
    );
}

#[test]
fn every_level_groups_to_the_left() {
    assert_eq!(
        parse_expression("8 / 4 / 2"),
        Ok(bin(
            bin(num(8), BinaryOperator::Div, num(4)),
            BinaryOperator::Div,
            num(2)
        ))
    );
    assert_eq!(
        parse_expression("1 < 2 > 3 != 4"),
        Ok(bin(
            bin(
                bin(num(1), BinaryOperator::Lt, num(2)),
                BinaryOperator::Gt,
                num(3)
            ),
            BinaryOperator::Ne,
            num(4)
        ))
    );
}

#[test]
fn comparison_binds_loosest() {
    assert_eq!(
        parse_expression("a + 1 < b * 2"),
        Ok(bin(
            bin(var("a"), BinaryOperator::Add, num(1)),
            BinaryOperator::Lt,
            bin(var("b"), BinaryOperator::Mul, num(2))
        ))
    );
}

#[test]
fn parentheses_group() {
    assert_eq!(
        parse_expression("(1 + 2) * 3"),
        Ok(bin(
            bin(num(1), BinaryOperator::Add, num(2)),
            BinaryOperator::Mul,
            num(3)
        ))
    );
    assert_eq!(
        parse_expression("1 - (2 - 3)"),
        Ok(bin(
            num(1),
            BinaryOperator::Sub,
            bin(num(2), BinaryOperator::Sub, num(3))
        ))
    );
    assert_eq!(parse_expression("((7))"), Ok(num(7)));
}

#[test]
fn each_primary_has_its_expression() {
    assert_eq!(parse_expression("42"), Ok(num(42)));
    assert_eq!(
        parse_expression("1.5"),
        Ok(Expression::Float("1.5".to_string()))
    );
    assert_eq!(
        parse_expression("\"text\""),
        Ok(Expression::String("text".to_string()))
    );
    assert_eq!(parse_expression("x"), Ok(var("x")));
    assert_eq!(parse_expression("true"), Ok(Expression::Boolean(true)));
    assert_eq!(parse_expression("false"), Ok(Expression::Boolean(false)));
    assert_eq!(parse_expression("truth"), Ok(var("truth")));
}

#[test]
fn an_expression_ends_with_its_tokens() {
    assert_eq!(
        parse_expression("1 2"),
        Err(syntax_error(
            1,
            Some(Token::Integer(2)),
            operators_and(vec![])
        ))
    );
    assert_eq!(
        parse_expression("1 +"),
        Err(syntax_error(
            2,
            None,
            vec![
                TokenKind::Integer,
                TokenKind::Float,
                TokenKind::String,
                TokenKind::Identifier,
                TokenKind::LParen,
            ]
        ))
    );
    assert_eq!(
        parse_expression("(1 + 2"),
        Err(syntax_error(
            4,
            None,
            operators_and(vec![TokenKind::RParen])
        ))
    );
    assert_eq!(
        parse_expression(""),
        Err(syntax_error(
            0,
            None,
            vec![
                TokenKind::Integer,
                TokenKind::Float,
                TokenKind::String,
                TokenKind::Identifier,
                TokenKind::LParen,
            ]
        ))
    );
}

#[test]
fn there_is_no_unary_minus() {
    assert_eq!(
        parse_expression("-1"),
        Err(syntax_error(
            0,
            Some(Token::OperatorSub),
            vec![
                TokenKind::Integer,
                TokenKind::Float,
                TokenKind::String,
                TokenKind::Identifier,
                TokenKind::LParen,
            ]
        ))
    );
}

#[test]
fn the_smallest_program_has_empty_lists() {
    assert_eq!(
        parse("program p; main { } end"),
        Ok(Program {
            id: "p".to_string(),
            vars: vec![],
            funcs: vec![],
            body: vec![],
        })
    );
}

#[test]
fn a_program_with_a_variable_and_a_print() {
    assert_eq!(
        parse("program p; var x : int; main { print(x); } end"),
        Ok(Program {
            id: "p".to_string(),
            vars: vec![decl("x", "int")],
            funcs: vec![],
            body: vec![print(var("x"))],
        })
    );
}

#[test]
fn an_undeclared_variable_is_no_syntax_error() {
    assert_eq!(
        parse("program p; main { y = 1; } end"),
        Ok(Program {
            id: "p".to_string(),
            vars: vec![],
            funcs: vec![],
            body: vec![assign("y", num(1))],
        })
    );
}

#[test]
fn a_missing_semicolon_after_the_name_is_a_syntax_error() {
    assert_eq!(
        parse("program p main { } end"),
        Err(syntax_error(
            2,
            Some(Token::KeywordMain),
            vec![TokenKind::Semicolon]
        ))
    );
}

#[test]
fn a_condition_without_else_has_an_empty_else_branch() {
    assert_eq!(
        parse("program p; main { if (x < 1) { print(x); }; } end"),
        Ok(Program {
            id: "p".to_string(),
            vars: vec![],
            funcs: vec![],
            body: vec![Statement::Condition {
                condition: Box::new(bin(var("x"), BinaryOperator::Lt, num(1))),
                then_branch: vec![print(var("x"))],
                else_branch: vec![],
            }],
        })
    );
}

#[test]
fn a_condition_with_else_has_both_branches() {
    assert_eq!(
        parse("program p; main { if (x) { a = 1; } else { a = 2; b = 3; }; } end"),
        Ok(Program {
            id: "p".to_string(),
            vars: vec![],
            funcs: vec![],
            body: vec![Statement::Condition {
                condition: Box::new(var("x")),
                then_branch: vec![assign("a", num(1))],
                else_branch: vec![assign("a", num(2)), assign("b", num(3))],
            }],
        })
    );
}

#[test]
fn a_cycle_has_its_condition_and_body() {
    assert_eq!(
        parse("program p; main { while (i < 10) do { i = i + 1; }; } end"),
        Ok(Program {
            id: "p".to_string(),
            vars: vec![],
            funcs: vec![],
            body: vec![Statement::Cycle {
                condition: Box::new(bin(var("i"), BinaryOperator::Lt, num(10))),
                body: vec![assign(
                    "i",
                    bin(var("i"), BinaryOperator::Add, num(1))
                )],
            }],
        })
    );
}

#[test]
fn a_call_has_its_arguments_in_order() {
    assert_eq!(
        parse("program p; main { f(); g(1); h(a, 2 * b, \"s\"); } end"),
        Ok(Program {
            id: "p".to_string(),
            vars: vec![],
            funcs: vec![],
            body: vec![
                Statement::FunctionCall {
                    id: "f".to_string(),
                    args: vec![],
                },
                Statement::FunctionCall {
                    id: "g".to_string(),
                    args: vec![num(1)],
                },
                Statement::FunctionCall {
                    id: "h".to_string(),
                    args: vec![
                        var("a"),
                        bin(num(2), BinaryOperator::Mul, var("b")),
                        Expression::String("s".to_string()),
                    ],
                },
            ],
        })
    );
}

#[test]
fn declarations_keep_their_order() {
    assert_eq!(
        parse("program p; var a, b : int; c : float; d : int; main { } end"),
        Ok(Program {
            id: "p".to_string(),
            vars: vec![
                decl("a", "int"),
                decl("b", "int"),
                decl("c", "float"),
                decl("d", "int"),
            ],
            funcs: vec![],
            body: vec![],
        })
    );
}

#[test]
fn functions_have_parameters_locals_and_a_body() {
    let source = "program p;
        var g : int;
        void empty() [ ];
        void one(a : int) [ print(a); ];
        void full(a, b : int, c : float) [
            var t : float; u, v : int;
            t = a * c;
            one(t);
        ];
        main { full(1, 2, 3.5); } end";
    assert_eq!(
        parse(source),
        Ok(Program {
            id: "p".to_string(),
            vars: vec![decl("g", "int")],
            funcs: vec![
                Function {
                    id: "empty".to_string(),
                    params: vec![],
                    vars: vec![],
                    body: vec![],
                },
                Function {
                    id: "one".to_string(),
                    params: vec![decl("a", "int")],
                    vars: vec![],
                    body: vec![print(var("a"))],
                },
                Function {
                    id: "full".to_string(),
                    params: vec![decl("a", "int"), decl("b", "int"), decl("c", "float")],
                    vars: vec![decl("t", "float"), decl("u", "int"), decl("v", "int")],
                    body: vec![
                        assign("t", bin(var("a"), BinaryOperator::Mul, var("c"))),
                        Statement::FunctionCall {
                            id: "one".to_string(),
                            args: vec![var("t")],
                        },
                    ],
                },
            ],
            body: vec![Statement::FunctionCall {
                id: "full".to_string(),
                args: vec![num(1), num(2), Expression::Float("3.5".to_string())],
            }],
        })
    );
}

#[test]
fn in_a_function_an_identifier_ends_the_declarations_where_a_statement_starts() {
    assert_eq!(
        parse("program p; void f() [ var x : int; x = 1; ]; main { } end"),
        Ok(Program {
            id: "p".to_string(),
            vars: vec![],
            funcs: vec![Function {
                id: "f".to_string(),
                params: vec![],
                vars: vec![decl("x", "int")],
                body: vec![assign("x", num(1))],
            }],
            body: vec![],
        })
    );
    assert_eq!(
        parse("program p; void f() [ var x : int; x ; ]; main { } end"),
        Err(syntax_error(
            14,
            Some(Token::Semicolon),
            vec![
                TokenKind::Comma,
                TokenKind::TwoPoints,
                TokenKind::AssignSimbol,
                TokenKind::LParen,
            ]
        ))
    );
}

#[test]
fn statements_nest() {
    assert_eq!(
        parse(
            "program p; main {
                while (a) do {
                    if (b) { while (c) do { }; } else { if (d) { }; };
                };
            } end"
        ),
        Ok(Program {
            id: "p".to_string(),
            vars: vec![],
            funcs: vec![],
            body: vec![Statement::Cycle {
                condition: Box::new(var("a")),
                body: vec![Statement::Condition {
                    condition: Box::new(var("b")),
                    then_branch: vec![Statement::Cycle {
                        condition: Box::new(var("c")),
                        body: vec![],
                    }],
                    else_branch: vec![Statement::Condition {
                        condition: Box::new(var("d")),
                        then_branch: vec![],
                        else_branch: vec![],
                    }],
                }],
            }],
        })
    );
}

#[test]
fn comments_and_blanks_do_not_change_the_program() {
    let plain = "program p; var x : int; main { x = 1; } end";
    let spaced = "# a program\nprogram p;\n  var x : int; # one variable\n\nmain {\n\tx = 1;\n}\nend # done";
    assert_eq!(parse(spaced), parse(plain));
    assert!(parse(plain).is_ok());
}

#[test]
fn a_lexical_error_comes_before_a_syntax_error() {
    assert_eq!(
        parse("program p main @ end"),
        Err(ParseError::Lexical(LexicalError::InvalidToken))
    );
    assert!(matches!(
        parse("program p; main { x = 99999999999999999999; } end"),
        Err(ParseError::Lexical(LexicalError::InvalidInteger(_)))
    ));
    assert_eq!(
        parse_expression("1 + $"),
        Err(ParseError::Lexical(LexicalError::InvalidToken))
    );
}

#[test]
fn the_end_of_the_input_is_reported_without_a_token() {
    assert_eq!(
        parse(""),
        Err(syntax_error(0, None, vec![TokenKind::KeywordProgram]))
    );
    assert_eq!(
        parse("program"),
        Err(syntax_error(1, None, vec![TokenKind::Identifier]))
    );
    assert_eq!(
        parse("program p; main { }"),
        Err(syntax_error(6, None, vec![TokenKind::KeywordEnd]))
    );
    assert_eq!(
        parse("program p; main {"),
        Err(syntax_error(
            5,
            None,
            vec![
                TokenKind::Identifier,
                TokenKind::KeywordPrint,
                TokenKind::KeywordIf,
                TokenKind::KeywordWhile,
                TokenKind::RBrace,
            ]
        ))
    );
}

#[test]
fn tokens_after_end_are_an_error() {
    assert_eq!(
        parse("program p; main { } end end"),
        Err(syntax_error(7, Some(Token::KeywordEnd), vec![]))
    );
}

#[test]
fn the_expected_kinds_follow_what_came_before() {
    assert_eq!(
        parse("program p; end"),
        Err(syntax_error(
            3,
            Some(Token::KeywordEnd),
            vec![
                TokenKind::KeywordVar,
                TokenKind::KeywordVoid,
                TokenKind::KeywordMain,
            ]
        ))
    );
    assert_eq!(
        parse("program p; var x : int; end"),
        Err(syntax_error(
            8,
            Some(Token::KeywordEnd),
            vec![
                TokenKind::Identifier,
                TokenKind::KeywordVoid,
                TokenKind::KeywordMain,
            ]
        ))
    );
    assert_eq!(
        parse("program p; void f() [ ]; end"),
        Err(syntax_error(
            10,
            Some(Token::KeywordEnd),
            vec![TokenKind::KeywordVoid, TokenKind::KeywordMain]
        ))
    );
    assert_eq!(
        parse("program p; void f() [ end"),
        Err(syntax_error(
            8,
            Some(Token::KeywordEnd),
            vec![
                TokenKind::KeywordVar,
                TokenKind::Identifier,
                TokenKind::KeywordPrint,
                TokenKind::KeywordIf,
                TokenKind::KeywordWhile,
                TokenKind::RBraket,
            ]
        ))
    );
}

#[test]
fn statement_errors_name_what_fits() {
    assert_eq!(
        parse("program p; main { x = 1 } end"),
        Err(syntax_error(
            8,
            Some(Token::RBrace),
            operators_and(vec![TokenKind::Semicolon])
        ))
    );
    assert_eq!(
        parse("program p; main { x 1; } end"),
        Err(syntax_error(
            6,
            Some(Token::Integer(1)),
            vec![TokenKind::AssignSimbol, TokenKind::LParen]
        ))
    );
    assert_eq!(
        parse("program p; main { if (x) { } } end"),
        Err(syntax_error(
            11,
            Some(Token::RBrace),
            vec![TokenKind::KeywordElse, TokenKind::Semicolon]
        ))
    );
    assert_eq!(
        parse("program p; main { while (x) { }; } end"),
        Err(syntax_error(
            9,
            Some(Token::LBrace),
            vec![TokenKind::KeywordDo]
        ))
    );
    assert_eq!(
        parse("program p; main { f(1 2); } end"),
        Err(syntax_error(
            8,
            Some(Token::Integer(2)),
            operators_and(vec![TokenKind::Comma, TokenKind::RParen])
        ))
    );
    assert_eq!(
        parse("program p; main { f(,); } end"),
        Err(syntax_error(
            7,
            Some(Token::Comma),
            vec![
                TokenKind::Integer,
                TokenKind::Float,
                TokenKind::String,
                TokenKind::Identifier,
                TokenKind::LParen,
                TokenKind::RParen,
            ]
        ))
    );
    assert_eq!(
        parse("program p; main { print x; } end"),
        Err(syntax_error(
            6,
            Some(Token::Identifier("x".to_string())),
            vec![TokenKind::LParen]
        ))
    );
}

#[test]
fn declaration_errors_name_what_fits() {
    assert_eq!(
        parse("program p; var x int; main { } end"),
        Err(syntax_error(
            5,
            Some(Token::KeywordInt),
            vec![TokenKind::Comma, TokenKind::TwoPoints]
        ))
    );
    assert_eq!(
        parse("program p; var x : bool; main { } end"),
        Err(syntax_error(
            6,
            Some(Token::Identifier("bool".to_string())),
            vec![TokenKind::KeywordInt, TokenKind::KeywordFloat]
        ))
    );
    assert_eq!(
        parse("program p; var ; main { } end"),
        Err(syntax_error(
            4,
            Some(Token::Semicolon),
            vec![TokenKind::Identifier]
        ))
    );
    assert_eq!(
        parse("program p; void f(x : int y : int) [ ]; main { } end"),
        Err(syntax_error(
            9,
            Some(Token::Identifier("y".to_string())),
            vec![TokenKind::Comma, TokenKind::RParen]
        ))
    );
    assert_eq!(
        parse("program p; void f(1) [ ]; main { } end"),
        Err(syntax_error(
            6,
            Some(Token::Integer(1)),
            vec![TokenKind::Identifier, TokenKind::RParen]
        ))
    );
}

#[test]
fn parsing_tokens_is_parsing_the_text_they_came_from() {
    let source = "program p; var x : int; main { print(x + 1); } end";
    let tokens = tokenize(source).unwrap();
    assert_eq!(
        parse_tokens(&tokens).map_err(ParseError::Syntax),
        parse(source)
    );
    let expression = tokenize("1 + 2 * 3").unwrap();
    assert_eq!(
        parse_expression_tokens(&expression).map_err(ParseError::Syntax),
        parse_expression("1 + 2 * 3")
    );
}

#[test]
fn parsing_twice_gives_the_same_tree() {
    let source = "program p; main { x = (1 + 2) * 3; } end";
    assert_eq!(parse(source), parse(source));
}

#[test]
fn trees_and_errors_can_be_copied() {
    let program = parse("program p; var x : int; void f(a : int) [ print(a); ]; main { if (x) { f(x); } else { x = 1; }; } end").unwrap();
    assert_eq!(program.clone(), program);
    let error = parse("program p main").unwrap_err();
    assert_eq!(error.clone(), error);
}
