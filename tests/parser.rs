use monkey_parser::ast::{Expression, Identifier, Program, Statement};
use monkey_parser::parser::{Parser, ParserError};
use monkey_parser::token::Token;

/// Parses the input, returning the parser and the program.
fn parser_for_input(input: &str) -> (Parser, Program) {
    let mut parser = Parser::from_input(input);
    let program = parser.parse_program();
    assert!(program.is_some(), "parse_program() returned None");
    (parser, program.unwrap())
}

fn assert_no_parser_errors(parser: &Parser) {
    let errors = parser.errors();
    assert!(errors.is_empty(), "Parser has {} errors: {:?}", errors.len(), errors)
}

fn assert_parser_errors_len(parser: &Parser, count: usize) {
    let errors = parser.errors();
    assert_eq!(errors.len(), count, "unexpected errors: {:?}", errors);
}

fn assert_program_statements_len(program: &Program, count: usize) {
    assert_eq!(program.statements.len(), count, "unexpected statements: {:?}", program.statements);
}

fn assert_statement_expression_eq(stmt: &Statement, expected_expr: &Expression) {
    match stmt {
        Statement::Expression { expr, .. } => {
            assert_eq!(expr, expected_expr);
        }
        _ => panic!("Expected Statement::Expression {{ expr: {:?} }}, saw {:?}", expected_expr, stmt),
    }
}

fn int_lit(v: i64) -> Expression {
    Expression::IntegerLiteral(v)
}

fn ident(name: &str) -> Expression {
    Expression::new_ident(name)
}

#[test]
fn test_let_statements() {
    let input = r#"
        let x = 5;
        let y = 10;
        let foobar = 838383;
        "#;

    let (parser, program) = parser_for_input(input);
    assert_no_parser_errors(&parser);
    assert_program_statements_len(&program, 3);
    let expected_names = vec![("x", int_lit(5)), ("y", int_lit(10)), ("foobar", int_lit(838383))];
    for ((expected_identifier, expected_value), stmt) in
        expected_names.iter().zip(program.statements.iter())
    {
        match stmt {
            Statement::Let { token, name, value } => {
                assert_eq!(token, &Token::Let);
                assert_eq!(name.0, *expected_identifier);
                assert_eq!(value, expected_value);
            }
            _ => panic!("Expected Statement::Let, got {:?}", stmt),
        }
    }
}

#[test]
fn test_invalid_let_statements() {
    let input = r#"
        let x 5;
        let = 10;
        let 838383;
        "#;

    let (parser, _program) = parser_for_input(input);
    assert_parser_errors_len(&parser, 4);
    let errors = parser.errors();

    match &errors[0] {
        ParserError::ExpectedToken { expected, saw } => {
            assert_eq!(expected, &Token::Assign);
            assert_eq!(saw, &Token::make_int("5"));
        }
        _ => panic!("Expected ParserError::ExpectedToken, saw {:?}", errors[0]),
    }
    match &errors[1] {
        ParserError::ExpectedIdent(saw) => assert_eq!(saw, &Token::Assign),
        _ => panic!("Expected ParserError::ExpectedIdent, saw {:?}", errors[1]),
    }
    match &errors[2] {
        ParserError::UnhandledPrefix(saw) => assert_eq!(saw, &Token::Assign),
        _ => panic!("Expected ParserError::UnhandledPrefix, saw {:?}", errors[2]),
    }
    match &errors[3] {
        ParserError::ExpectedIdent(saw) => assert_eq!(saw, &Token::make_int("838383")),
        _ => panic!("Expected ParserError::ExpectedIdent, saw {:?}", errors[3]),
    }
}

#[test]
fn test_return_statements() {
    let input = r#"
        return 5;
        return 10;
        return 993322;
        "#;

    let (parser, program) = parser_for_input(input);
    assert_no_parser_errors(&parser);
    assert_program_statements_len(&program, 3);
    for stmt in program.statements.iter() {
        match stmt {
            Statement::Return { token, expr } => {
                assert_eq!(token, &Token::Return);
                assert_eq!(expr, &Expression::Nothing);
            }
            _ => panic!("Expected ReturnStatement, got {:?}", stmt),
        }
    }
}

#[test]
fn test_identifier_expression() {
    let (parser, program) = parser_for_input("foobar;");
    assert_no_parser_errors(&parser);
    assert_program_statements_len(&program, 1);
    assert_statement_expression_eq(program.statements.first().unwrap(), &ident("foobar"));
}

#[test]
fn test_integer_literal_expression() {
    let (parser, program) = parser_for_input("5;");
    assert_no_parser_errors(&parser);
    assert_program_statements_len(&program, 1);
    assert_statement_expression_eq(program.statements.first().unwrap(), &int_lit(5));
}

#[test]
fn test_boolean() {
    let input = vec![
        ("true;", Statement::Expression { token: Token::True, expr: Expression::Boolean(true) }),
        ("false;", Statement::Expression { token: Token::False, expr: Expression::Boolean(false) }),
        (
            "let foobar = true;",
            Statement::Let {
                token: Token::Let,
                name: Identifier::new("foobar"),
                value: Expression::Boolean(true),
            },
        ),
        (
            "let foobar = false;",
            Statement::Let {
                token: Token::Let,
                name: Identifier::new("foobar"),
                value: Expression::Boolean(false),
            },
        ),
    ];
    for (input, expected) in input {
        let (parser, program) = parser_for_input(input);
        assert_no_parser_errors(&parser);
        assert_program_statements_len(&program, 1);
        assert_eq!(&program.statements[0], &expected);
    }
}

#[test]
fn test_parsing_prefix_expressions() {
    let prefix_tests = vec![
        ("!5;", Token::Bang, int_lit(5)),
        ("-15;", Token::Minus, int_lit(15)),
        ("!true;", Token::Bang, Expression::Boolean(true)),
        ("!false;", Token::Bang, Expression::Boolean(false)),
    ];
    for (input, operator, right) in prefix_tests {
        let (parser, program) = parser_for_input(input);
        assert_no_parser_errors(&parser);
        assert_program_statements_len(&program, 1);
        assert_statement_expression_eq(
            program.statements.first().unwrap(),
            &Expression::new_prefix(operator, right),
        );
    }
}

#[test]
fn test_operator_precedence_parsing() {
    let precedence_tests = vec![
        ("true", "true"),
        ("false", "false"),
        ("3 > 5 == false", "((3 > 5) == false)"),
        ("3 < 5 == true", "((3 < 5) == true)"),
        ("-a + b", "((-a) + b)"),
        ("!-a", "(!(-a))"),
        ("a + b + c", "((a + b) + c)"),
        ("a + b - c", "((a + b) - c)"),
        ("a * b * c", "((a * b) * c)"),
        ("a * b / c", "((a * b) / c)"),
        ("a + b / c", "(a + (b / c))"),
        ("a + b * c + d / e - f", "(((a + (b * c)) + (d / e)) - f)"),
        ("3 + 4; -5 * 5", "(3 + 4)\n((-5) * 5)"),
        ("5 > 4 == 3 < 4", "((5 > 4) == (3 < 4))"),
        ("5 < 4 != 3 > 4", "((5 < 4) != (3 > 4))"),
        ("3 + 4 * 5 == 3 * 1 + 4 * 5", "((3 + (4 * 5)) == ((3 * 1) + (4 * 5)))"),
        ("1 + (2 + 3) + 4", "((1 + (2 + 3)) + 4)"),
        ("(5 + 5) * 2", "((5 + 5) * 2)"),
        ("2 / (5 + 5)", "(2 / (5 + 5))"),
        ("(5 + 5) * 2 * (5 + 5)", "(((5 + 5) * 2) * (5 + 5))"),
        ("-(5 + 5)", "(-(5 + 5))"),
        ("!(true == true)", "(!(true == true))"),
    ];
    for (input, expected_output) in precedence_tests {
        let (parser, program) = parser_for_input(input);
        assert_no_parser_errors(&parser);
        assert_eq!(program.render().trim(), expected_output);
    }
}

#[test]
fn test_parsing_infix_expressions() {
    let infix_tests = vec![
        ("5 + 5;", Expression::new_infix(int_lit(5), Token::Plus, int_lit(5))),
        ("5 - 5;", Expression::new_infix(int_lit(5), Token::Minus, int_lit(5))),
        ("5 * 5;", Expression::new_infix(int_lit(5), Token::Asterisk, int_lit(5))),
        ("5 / 5;", Expression::new_infix(int_lit(5), Token::Slash, int_lit(5))),
        ("5 > 5;", Expression::new_infix(int_lit(5), Token::Gt, int_lit(5))),
        ("5 < 5;", Expression::new_infix(int_lit(5), Token::Lt, int_lit(5))),
        ("5 == 5;", Expression::new_infix(int_lit(5), Token::Eq, int_lit(5))),
        ("5 != 5;", Expression::new_infix(int_lit(5), Token::NotEq, int_lit(5))),
        (
            "true == true;",
            Expression::new_infix(Expression::Boolean(true), Token::Eq, Expression::Boolean(true)),
        ),
        (
            "false == false;",
            Expression::new_infix(Expression::Boolean(false), Token::Eq, Expression::Boolean(false)),
        ),
        (
            "true != false;",
            Expression::new_infix(Expression::Boolean(true), Token::NotEq, Expression::Boolean(false)),
        ),
    ];
    for (input, expected_expr) in infix_tests {
        let (parser, program) = parser_for_input(input);
        assert_no_parser_errors(&parser);
        assert_program_statements_len(&program, 1);
        assert_statement_expression_eq(program.statements.first().unwrap(), &expected_expr);
    }
}

#[test]
fn test_if_expression() {
    let (parser, program) = parser_for_input("if (x < y) { x }");
    assert_no_parser_errors(&parser);
    assert_program_statements_len(&program, 1);
    match program.statements.first().unwrap() {
        Statement::Expression {
            expr: Expression::If { condition, consequence, alternative },
            ..
        } => {
            assert_eq!(**condition, Expression::new_infix(ident("x"), Token::Lt, ident("y")));
            assert_eq!(consequence.statements.len(), 1);
            assert_statement_expression_eq(consequence.statements.first().unwrap(), &ident("x"));
            assert!(alternative.is_none());
        }
        other => panic!("Expected Statement::Expression, got {:?}", other),
    }
}

#[test]
fn test_if_else_xpression() {
    let (parser, program) = parser_for_input("if (x < y) { x } else { y }");
    assert_no_parser_errors(&parser);
    assert_program_statements_len(&program, 1);
    match program.statements.first().unwrap() {
        Statement::Expression {
            expr: Expression::If { condition, consequence, alternative },
            ..
        } => {
            assert_eq!(**condition, Expression::new_infix(ident("x"), Token::Lt, ident("y")));
            assert_eq!(consequence.statements.len(), 1);
            assert_statement_expression_eq(consequence.statements.first().unwrap(), &ident("x"));
            match alternative {
                Some(alternative) => {
                    assert_eq!(alternative.statements.len(), 1);
                    assert_statement_expression_eq(
                        alternative.statements.first().unwrap(),
                        &ident("y"),
                    );
                }
                None => panic!("Expected Some(alternative), got None"),
            }
        }
        other => panic!("Expected Statement::Expression, got {:?}", other),
    }
}
