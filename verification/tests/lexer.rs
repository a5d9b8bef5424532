use babyduck::lexer::{tokenize, Lexer};
use babyduck::tokens::{LexicalError, LexicalErrorKind, Token, TokenKind};

fn identifier(name: &str) -> Token {
    Token::Identifier(name.to_string())
}

#[test]
fn main_is_one_keyword() {
    assert_eq!(tokenize("main"), Ok(vec![Token::KeywordMain]));
}

#[test]
fn not_equal_is_one_token() {
    assert_eq!(tokenize("!="), Ok(vec![Token::NotEqual]));
    assert_eq!(
        tokenize("a!=b"),
        Ok(vec![identifier("a"), Token::NotEqual, identifier("b")])
    );
}

#[test]
fn a_lone_bang_is_no_token() {
    assert_eq!(tokenize("!"), Err(LexicalError::InvalidToken));
    assert_eq!(tokenize("! ="), Err(LexicalError::InvalidToken));
}

#[test]
fn every_keyword_is_recognised() {
    assert_eq!(
        tokenize("program main print if else while do end int float var void"),
        Ok(vec![
            Token::KeywordProgram,
            Token::KeywordMain,
            Token::KeywordPrint,
            Token::KeywordIf,
            Token::KeywordElse,
            Token::KeywordWhile,
            Token::KeywordDo,
            Token::KeywordEnd,
            Token::KeywordInt,
            Token::KeywordFloat,
            Token::KeywordVar,
            Token::KeywordVoid,
        ])
    );
}

#[test]
fn every_symbol_is_recognised() {
    assert_eq!(
        tokenize("( ) [ ] { } ; : , = != > < + - * /"),
        Ok(vec![
            Token::LParen,
            Token::RParen,
            Token::LBraket,
            Token::RBraket,
            Token::LBrace,
            Token::RBrace,
            Token::Semicolon,
            Token::TwoPoints,
            Token::Comma,
            Token::AssignSimbol,
            Token::NotEqual,
            Token::BigerThan,
            Token::SmallerThan,
            Token::OperatorAdd,
            Token::OperatorSub,
            Token::OperatorMul,
            Token::OperatorDiv,
        ])
    );
}

#[test]
fn symbols_need_no_blanks_between_them() {
    assert_eq!(
        tokenize("x=(1+2)*3;"),
        Ok(vec![
            identifier("x"),
            Token::AssignSimbol,
            Token::LParen,
            Token::Integer(1),
            Token::OperatorAdd,
            Token::Integer(2),
            Token::RParen,
            Token::OperatorMul,
            Token::Integer(3),
            Token::Semicolon,
        ])
    );
}

#[test]
fn a_keyword_inside_a_longer_word_is_an_identifier() {
    assert_eq!(
        tokenize("mainly main_ _main if0 do_ printer"),
        Ok(vec![
            identifier("mainly"),
            identifier("main_"),
            identifier("_main"),
            identifier("if0"),
            identifier("do_"),
            identifier("printer"),
        ])
    );
}

#[test]
fn keywords_are_case_sensitive() {
    assert_eq!(tokenize("Main"), Ok(vec![identifier("Main")]));
    assert_eq!(tokenize("MAIN"), Ok(vec![identifier("MAIN")]));
}

#[test]
fn identifiers_are_kept_verbatim() {
    assert_eq!(
        tokenize("_ a1 snake_case CamelCase x__9"),
        Ok(vec![
            identifier("_"),
            identifier("a1"),
            identifier("snake_case"),
            identifier("CamelCase"),
            identifier("x__9"),
        ])
    );
}

#[test]
fn integers_have_their_value() {
    assert_eq!(
        tokenize("1 42 1000000 9223372036854775807"),
        Ok(vec![
            Token::Integer(1),
            Token::Integer(42),
            Token::Integer(1_000_000),
            Token::Integer(i64::MAX),
        ])
    );
}

#[test]
fn an_integer_beyond_64_bits_is_invalid() {
    let one_too_many = tokenize("9223372036854775808");
    assert!(matches!(one_too_many, Err(LexicalError::InvalidInteger(_))));
    let huge = tokenize("x = 123456789012345678901234567890;");
    assert!(matches!(huge, Err(LexicalError::InvalidInteger(_))));
    match huge {
        Err(error) => assert_eq!(error.kind(), LexicalErrorKind::InvalidInteger),
        Ok(_) => panic!("a literal of thirty digits fits in no i64"),
    }
}

#[test]
fn the_lexer_passes_over_an_integer_that_is_too_large() {
    let mut lexer = Lexer::new("99999999999999999999 + 1");
    assert!(matches!(
        lexer.next_token(),
        Some(Err(LexicalError::InvalidInteger(_)))
    ));
    assert_eq!(lexer.position(), 20);
    assert_eq!(lexer.next_token(), Some(Ok(Token::OperatorAdd)));
    assert_eq!(lexer.next_token(), Some(Ok(Token::Integer(1))));
    assert_eq!(lexer.next_token(), None);
}

#[test]
fn no_integer_starts_with_zero() {
    assert_eq!(tokenize("0"), Err(LexicalError::InvalidToken));
    assert_eq!(tokenize("007"), Err(LexicalError::InvalidToken));
}

#[test]
fn floats_are_kept_as_written() {
    assert_eq!(
        tokenize("1.5 0.25 00.1 3.10 12.345"),
        Ok(vec![
            Token::Float("1.5".to_string()),
            Token::Float("0.25".to_string()),
            Token::Float("00.1".to_string()),
            Token::Float("3.10".to_string()),
            Token::Float("12.345".to_string()),
        ])
    );
}

#[test]
fn a_float_literal_converts_to_its_value() {
    match tokenize("12.345") {
        Ok(tokens) => match &tokens[0] {
            Token::Float(text) => assert_eq!(text.parse::<f64>(), Ok(12.345)),
            other => panic!("not a float: {:?}", other),
        },
        Err(error) => panic!("not a token: {:?}", error),
    }
}

#[test]
fn the_fraction_of_a_float_starts_with_a_digit_that_is_not_zero() {
    // `1` is the longest lexeme at the start; `.` starts none.
    let mut lexer = Lexer::new("1.05");
    assert_eq!(lexer.next_token(), Some(Ok(Token::Integer(1))));
    assert_eq!(lexer.next_token(), Some(Err(LexicalError::InvalidToken)));
    assert_eq!(lexer.position(), 1);
    assert_eq!(tokenize("1."), Err(LexicalError::InvalidToken));
    assert_eq!(tokenize(".5"), Err(LexicalError::InvalidToken));
}

#[test]
fn the_longest_lexeme_wins() {
    assert_eq!(
        tokenize("12abc"),
        Ok(vec![Token::Integer(12), identifier("abc")])
    );
    assert_eq!(
        tokenize("1.5.5"),
        Err(LexicalError::InvalidToken)
    );
    assert_eq!(
        tokenize("12.5x"),
        Ok(vec![Token::Float("12.5".to_string()), identifier("x")])
    );
}

#[test]
fn strings_lose_their_quotes() {
    assert_eq!(
        tokenize("\"hello\" \"\" \"a_1\""),
        Ok(vec![
            Token::String("hello".to_string()),
            Token::String(String::new()),
            Token::String("a_1".to_string()),
        ])
    );
}

#[test]
fn a_string_holds_letters_digits_and_underscores_only() {
    assert_eq!(tokenize("\"two words\""), Err(LexicalError::InvalidToken));
    assert_eq!(tokenize("\"open"), Err(LexicalError::InvalidToken));
    assert_eq!(tokenize("\""), Err(LexicalError::InvalidToken));
}

#[test]
fn blanks_are_skipped() {
    assert_eq!(
        tokenize(" \t\n\x0c x \n\n y\t"),
        Ok(vec![identifier("x"), identifier("y")])
    );
    assert_eq!(tokenize(""), Ok(vec![]));
    assert_eq!(tokenize("   \n"), Ok(vec![]));
}

#[test]
fn a_carriage_return_is_no_blank() {
    assert_eq!(tokenize("x\r\ny"), Err(LexicalError::InvalidToken));
}

#[test]
fn a_comment_line_changes_nothing() {
    let code = "x = 1;";
    let with_comment = "# comment\nx = 1;";
    assert_eq!(tokenize(with_comment), tokenize(code));
    assert_eq!(
        tokenize(with_comment),
        Ok(vec![
            identifier("x"),
            Token::AssignSimbol,
            Token::Integer(1),
            Token::Semicolon,
        ])
    );
}

#[test]
fn a_comment_runs_to_the_end_of_its_line() {
    assert_eq!(
        tokenize("x # the rest: @ $ \" 007 é\ny#last"),
        Ok(vec![identifier("x"), identifier("y")])
    );
    assert_eq!(tokenize("# only a comment"), Ok(vec![]));
    assert_eq!(tokenize("#"), Ok(vec![]));
    assert_eq!(tokenize("#\n#\n"), Ok(vec![]));
}

#[test]
fn a_character_of_no_rule_is_invalid() {
    assert_eq!(tokenize("@"), Err(LexicalError::InvalidToken));
    assert_eq!(tokenize("x = 1 $"), Err(LexicalError::InvalidToken));
    assert_eq!(tokenize("é"), Err(LexicalError::InvalidToken));
    assert_eq!(tokenize("a.b"), Err(LexicalError::InvalidToken));
}

#[test]
fn lexing_twice_gives_the_same_tokens() {
    let source = "program p; var x : int; main { x = 1 + 2.5; print(\"s\"); } end";
    assert_eq!(tokenize(source), tokenize(source));
    let broken = "x = 1 @ 2";
    assert_eq!(tokenize(broken), tokenize(broken));
}

#[test]
fn the_lexer_yields_the_tokens_one_by_one() {
    let mut lexer = Lexer::new("  print(x);");
    assert_eq!(lexer.position(), 0);
    assert_eq!(lexer.next_token(), Some(Ok(Token::KeywordPrint)));
    assert_eq!(lexer.position(), 7);
    assert_eq!(lexer.next_token(), Some(Ok(Token::LParen)));
    assert_eq!(lexer.next_token(), Some(Ok(identifier("x"))));
    assert_eq!(lexer.next_token(), Some(Ok(Token::RParen)));
    assert_eq!(lexer.next_token(), Some(Ok(Token::Semicolon)));
    assert_eq!(lexer.position(), 11);
    assert_eq!(lexer.next_token(), None);
    assert_eq!(lexer.next_token(), None);
    assert_eq!(lexer.position(), 11);
}

#[test]
fn the_lexer_can_be_restarted() {
    let mut lexer = Lexer::new("a b");
    let mut first = Vec::new();
    while let Some(item) = lexer.next_token() {
        first.push(item);
    }
    lexer.restart();
    assert_eq!(lexer.position(), 0);
    let mut second = Vec::new();
    while let Some(item) = lexer.next_token() {
        second.push(item);
    }
    assert_eq!(first, second);
    assert_eq!(first, vec![Ok(identifier("a")), Ok(identifier("b"))]);
}

#[test]
fn the_lexer_stays_before_a_character_of_no_rule() {
    let mut lexer = Lexer::new("a  @b");
    assert_eq!(lexer.next_token(), Some(Ok(identifier("a"))));
    assert_eq!(lexer.next_token(), Some(Err(LexicalError::InvalidToken)));
    assert_eq!(lexer.position(), 3);
    assert_eq!(lexer.next_token(), Some(Err(LexicalError::InvalidToken)));
    assert_eq!(lexer.position(), 3);
    assert!(lexer.skip_char());
    assert_eq!(lexer.position(), 4);
    assert_eq!(lexer.next_token(), Some(Ok(identifier("b"))));
    assert_eq!(lexer.next_token(), None);
    assert!(!lexer.skip_char());
}

#[test]
fn skipping_after_each_error_ends() {
    let mut lexer = Lexer::new("@@ 0 $x \"");
    let mut tokens = Vec::new();
    let mut errors = 0;
    loop {
        match lexer.next_token() {
            None => break,
            Some(Ok(token)) => tokens.push(token),
            Some(Err(_)) => {
                errors += 1;
                assert!(lexer.skip_char());
            }
        }
    }
    assert_eq!(errors, 5);
    assert_eq!(tokens, vec![identifier("x")]);
}

#[test]
fn the_kind_of_a_token_drops_its_text() {
    assert_eq!(identifier("x").kind(), TokenKind::Identifier);
    assert_eq!(Token::Integer(3).kind(), TokenKind::Integer);
    assert_eq!(Token::Float("1.5".to_string()).kind(), TokenKind::Float);
    assert_eq!(Token::String("s".to_string()).kind(), TokenKind::String);
    assert_eq!(Token::KeywordMain.kind(), TokenKind::KeywordMain);
    assert_eq!(Token::NotEqual.kind(), TokenKind::NotEqual);
}

#[test]
fn the_default_lexical_error_is_invalid_token() {
    assert_eq!(LexicalError::default(), LexicalError::InvalidToken);
    assert_eq!(LexicalError::default().kind(), LexicalErrorKind::InvalidToken);
}

#[test]
fn a_conversion_error_becomes_invalid_integer() {
    let error = "99999999999999999999".parse::<i64>().unwrap_err();
    assert_eq!(
        LexicalError::from(error.clone()),
        LexicalError::InvalidInteger(error)
    );
}

#[test]
fn tokens_and_errors_can_be_copied() {
    let token = identifier("copy");
    assert_eq!(token.clone(), token);
    let error = LexicalError::InvalidToken;
    assert_eq!(error.clone(), error);
    match tokenize("99999999999999999999") {
        Err(overflow) => {
            assert_eq!(overflow.clone(), overflow);
            assert_eq!(overflow.clone().kind(), LexicalErrorKind::InvalidInteger);
        }
        Ok(tokens) => panic!("no integer: {:?}", tokens),
    }
}

#[test]
fn skipping_blanks_gives_the_place_where_a_token_starts() {
    let mut lexer = Lexer::new("  x # note\n\t= 12");
    let mut spans = Vec::new();
    loop {
        lexer.skip_blanks();
        let start = lexer.position();
        match lexer.next_token() {
            Some(Ok(token)) => spans.push((start, token, lexer.position())),
            Some(Err(error)) => panic!("no token: {:?}", error),
            None => break,
        }
    }
    assert_eq!(
        spans,
        vec![
            (2, identifier("x"), 3),
            (12, Token::AssignSimbol, 13),
            (14, Token::Integer(12), 16),
        ]
    );
    assert_eq!(lexer.position(), 16);
}

#[test]
fn skipping_blanks_changes_no_token() {
    let source = " # first\n  a  # second\n b";
    let mut plain = Lexer::new(source);
    let mut skipping = Lexer::new(source);
    loop {
        skipping.skip_blanks();
        skipping.skip_blanks();
        let expected = plain.next_token();
        assert_eq!(skipping.next_token(), expected);
        if expected.is_none() {
            break;
        }
    }
}
