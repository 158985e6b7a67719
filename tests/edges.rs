use monkey_parser::ast::{Expression, Statement};
use monkey_parser::lexer::Lexer;
use monkey_parser::parser::{Parser, ParserError, Precedence};
use monkey_parser::token::Token;

fn parse(input: &str) -> (Vec<Statement>, Vec<ParserError>) {
    let mut parser = Parser::from_input(input);
    let program = parser.parse_program().unwrap();
    (program.statements, parser.errors().to_vec())
}

#[test]
fn empty_input_gives_empty_program() {
    let (stmts, errors) = parse("");
    assert!(stmts.is_empty());
    assert!(errors.is_empty());
    let (stmts, errors) = parse("  \n\t ");
    assert!(stmts.is_empty());
    assert!(errors.is_empty());
}

#[test]
fn statement_without_prefix_rule_is_reported_and_dropped() {
    let (stmts, errors) = parse(")");
    assert!(stmts.is_empty());
    assert_eq!(errors.len(), 1);
    assert_eq!(errors[0], ParserError::UnhandledPrefix(Token::RParen));

    let (stmts, errors) = parse("= 5;");
    assert_eq!(errors, vec![ParserError::UnhandledPrefix(Token::Assign)]);
    assert_eq!(stmts.len(), 1);
    assert_eq!(
        stmts[0],
        Statement::Expression { token: Token::make_int("5"), expr: Expression::IntegerLiteral(5) }
    );
}

#[test]
fn integer_out_of_range_is_reported() {
    let (stmts, errors) = parse("9223372036854775808;");
    assert!(stmts.is_empty());
    assert_eq!(
        errors,
        vec![
            ParserError::IntegerParseFailure("9223372036854775808".to_string()),
            ParserError::UnhandledPrefix(Token::Semicolon),
        ]
    );

    let (stmts, errors) = parse("9223372036854775807;");
    assert!(errors.is_empty());
    assert_eq!(
        stmts[0],
        Statement::Expression {
            token: Token::make_int("9223372036854775807"),
            expr: Expression::IntegerLiteral(i64::MAX),
        }
    );
}

#[test]
fn parse_int_expression_reads_signs_and_rejects_other_text() {
    let parser = Parser::from_input("");
    assert_eq!(parser.parse_int_expression(&"-42".to_string()), Ok(Expression::IntegerLiteral(-42)));
    assert_eq!(parser.parse_int_expression(&"+7".to_string()), Ok(Expression::IntegerLiteral(7)));
    assert_eq!(
        parser.parse_int_expression(&"-9223372036854775808".to_string()),
        Ok(Expression::IntegerLiteral(i64::MIN))
    );
    for bad in ["", "-", "12a", "99999999999999999999"] {
        assert_eq!(
            parser.parse_int_expression(&bad.to_string()),
            Err(ParserError::IntegerParseFailure(bad.to_string()))
        );
    }
}

#[test]
fn missing_closing_paren_is_expected_token() {
    let (stmts, errors) = parse("(1 + 2");
    assert!(stmts.is_empty());
    assert_eq!(
        errors,
        vec![ParserError::ExpectedToken { expected: Token::RParen, saw: Token::EOF }]
    );
}

#[test]
fn error_inside_block_aborts_whole_if() {
    let (stmts, errors) = parse("if (x) { = }");
    assert!(stmts.is_empty());
    assert_eq!(
        errors,
        vec![ParserError::UnhandledPrefix(Token::Assign), ParserError::UnhandledPrefix(Token::RBrace)]
    );
}

#[test]
fn if_without_paren_is_expected_token() {
    let (_stmts, errors) = parse("if x { y }");
    assert_eq!(
        errors[0],
        ParserError::ExpectedToken { expected: Token::LParen, saw: Token::make_ident("x") }
    );
}

#[test]
fn return_without_semicolon_stops_at_end() {
    let (stmts, errors) = parse("return 5");
    assert!(errors.is_empty());
    assert_eq!(stmts, vec![Statement::Return { token: Token::Return, expr: Expression::Nothing }]);
}

#[test]
fn let_semicolon_is_optional() {
    let (stmts, errors) = parse("let a = 1 let b = 2");
    assert!(errors.is_empty());
    assert_eq!(stmts.len(), 2);
}

#[test]
fn render_statements_and_if() {
    let mut parser = Parser::from_input("let x = -5; return x; if (x < y) { x } else { y }");
    let program = parser.parse_program().unwrap();
    assert!(parser.errors().is_empty());
    assert_eq!(program.statements[0].render(), "let x = (-5);");
    assert_eq!(program.statements[1].render(), "return ;");
    assert_eq!(program.statements[2].render(), "if (x < y) { x } else { y }");
    assert_eq!(
        program.render(),
        "let x = (-5);\nreturn ;\nif (x < y) { x } else { y }\n"
    );
}

#[test]
fn render_negative_literal_and_names() {
    assert_eq!(Expression::IntegerLiteral(-120).render(), "-120");
    assert_eq!(Expression::IntegerLiteral(0).render(), "0");
    assert_eq!(Expression::new_ident("foobar").render(), "foobar");
}

#[test]
fn precedence_levels() {
    assert_eq!(Precedence::for_token(&Token::Eq), Precedence::Equals);
    assert_eq!(Precedence::for_token(&Token::NotEq), Precedence::Equals);
    assert_eq!(Precedence::for_token(&Token::Lt), Precedence::LessGreater);
    assert_eq!(Precedence::for_token(&Token::Gt), Precedence::LessGreater);
    assert_eq!(Precedence::for_token(&Token::Plus), Precedence::Sum);
    assert_eq!(Precedence::for_token(&Token::Minus), Precedence::Sum);
    assert_eq!(Precedence::for_token(&Token::Asterisk), Precedence::Product);
    assert_eq!(Precedence::for_token(&Token::Slash), Precedence::Product);
    assert_eq!(Precedence::for_token(&Token::Semicolon), Precedence::Lowest);
    assert!(Precedence::Lowest.is_below(Precedence::Call));
    assert!(!Precedence::Sum.is_below(Precedence::Sum));
}

#[test]
fn lexer_yields_tokens_then_eof_forever() {
    let mut lexer = Lexer::new("let x1 = 5 == != ! @;");
    let expected = vec![
        Token::Let,
        Token::make_ident("x"),
        Token::make_int("1"),
        Token::Assign,
        Token::make_int("5"),
        Token::Eq,
        Token::NotEq,
        Token::Bang,
        Token::Illegal,
        Token::Semicolon,
        Token::EOF,
        Token::EOF,
    ];
    for t in expected {
        assert_eq!(lexer.next_token(), t);
    }
}

#[test]
fn lookahead_window_and_expectations() {
    let mut parser = Parser::from_input("foo = 5");
    assert!(parser.current_token_is(&Token::make_ident("other")));
    assert!(parser.peek_token_is(&Token::Assign));
    assert_eq!(
        parser.peek_error(&Token::Semicolon),
        ParserError::ExpectedToken { expected: Token::Semicolon, saw: Token::Assign }
    );
    assert_eq!(parser.expect_ident(), Err(ParserError::ExpectedIdent(Token::Assign)));
    assert_eq!(parser.expect_peek(&Token::Assign), Ok(()));
    assert!(parser.current_token_is(&Token::Assign));
    assert_eq!(
        parser.expect_peek(&Token::Semicolon),
        Err(ParserError::ExpectedToken { expected: Token::Semicolon, saw: Token::make_int("5") })
    );
    parser.next_token();
    assert_eq!(parser.cur_precedence(), Precedence::Lowest);
    parser.next_token();
    parser.next_token();
    assert!(parser.current_token_is(&Token::EOF));
    assert!(parser.peek_token_is(&Token::EOF));
}

#[test]
fn diagnostic_messages() {
    let (_stmts, errors) = parse("let x 5; let = 10; 99999999999999999999; )");
    let messages: Vec<String> = errors.iter().map(|e| e.message()).collect();
    assert_eq!(messages[0], "Expected next token to be Assign, got Int(\"5\") instead");
    assert_eq!(messages[1], "Expected next token to be Ident, got Assign instead");
    assert!(messages.contains(&"Could not parse 99999999999999999999 as integer".to_string()));
    assert_eq!(messages.last().unwrap(), "No prefix parse function for RParen");
    assert_eq!(
        ParserError::UnhandledExpression(Token::make_ident("q")).message(),
        "No handler for expression: Ident(\"q\")"
    );
}

#[test]
fn message_escapes_payloads_as_debug_does() {
    for text in ["plain", "a\"b", "x\\y", "t\tr\rn\n", "nul\0", "esc\u{1b}", "del\u{7f}", "c1\u{85}", "é"] {
        for tok in [Token::make_ident(text), Token::make_int(text)] {
            assert_eq!(
                ParserError::UnhandledPrefix(tok.clone()).message(),
                format!("No prefix parse function for {:?}", tok)
            );
            assert_eq!(
                ParserError::ExpectedToken { expected: Token::Assign, saw: tok.clone() }.message(),
                format!("Expected next token to be {:?}, got {:?} instead", Token::Assign, tok)
            );
        }
    }
}

#[test]
fn expression_statement_carries_its_first_token() {
    let (stmts, errors) = parse("!true; a + b; (1)");
    assert!(errors.is_empty());
    let tokens: Vec<Token> = stmts
        .iter()
        .map(|s| match s {
            Statement::Expression { token, .. } => token.clone(),
            other => panic!("unexpected statement {:?}", other),
        })
        .collect();
    assert_eq!(tokens, vec![Token::Bang, Token::make_ident("a"), Token::LParen]);
}

#[test]
fn reparsing_rendered_text_gives_the_same_tree() {
    let inputs = [
        "a + b * c",
        "-a + b",
        "a + b + c",
        "(5 + 5) * 2",
        "!(true == true)",
        "3 + 4 * 5 == 3 * 1 + 4 * 5",
        "if (x < y) { x } else { y }",
    ];
    for input in inputs {
        let (first, errors) = parse(input);
        assert!(errors.is_empty());
        let text = monkey_parser::ast::Program { statements: first }.render();
        let (second, errors) = parse(&text);
        assert!(errors.is_empty(), "{:?} on {}", errors, text);
        let again = monkey_parser::ast::Program { statements: second }.render();
        assert_eq!(again, text);
    }
}
