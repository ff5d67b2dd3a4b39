use monkey::ast::{Expression, Statement};
use monkey::lexer::Lexer;
use monkey::parser::Parser;
#[test]
fn test_let_statements() {
    let input = r#"
let x = 5;
let y = 10;
let foobar = 838383;
let t = true;
let f = false;
"#;
    let l = Lexer::new(input);
    let mut p = Parser::new(l);
    let program = p.parse_program().unwrap();
    assert_eq!(program.statements.len(), 5);

    let tests = vec![
        Statement::LetStatement {
            name: "x".to_string(),
            value: Expression::IntegerLiteral(5),
        },
        Statement::LetStatement {
            name: "y".to_string(),
            value: Expression::IntegerLiteral(10),
        },
        Statement::LetStatement {
            name: "foobar".to_string(),
            value: Expression::IntegerLiteral(838383),
        },
        Statement::LetStatement {
            name: "t".to_string(),
            value: Expression::Boolean(true),
        },
        Statement::LetStatement {
            name: "f".to_string(),
            value: Expression::Boolean(false),
        },
    ];
    for (i, tt) in tests.iter().enumerate() {
        assert_eq!(&program.statements[i], tt);
    }
}

#[test]
fn test_let_statements_error() {
    let input = r#"
let x 5;
let = 10;
let 838383;
"#;
    let l = Lexer::new(input);
    let mut p = Parser::new(l);
    let program = p.parse_program();
    assert!(program.is_err());
}

#[test]
fn test_return_statements() {
    let input = r#"
return 5;
return 10;
return 838383;
"#;
    let l = Lexer::new(input);
    let mut p = Parser::new(l);
    let program = p.parse_program().unwrap();
    assert_eq!(program.statements.len(), 3);

    let tests = vec![
        Statement::ReturnStatement(Expression::IntegerLiteral(5)),
        Statement::ReturnStatement(Expression::IntegerLiteral(10)),
        Statement::ReturnStatement(Expression::IntegerLiteral(838383)),
    ];
    for (i, tt) in tests.iter().enumerate() {
        assert_eq!(&program.statements[i], tt);
    }
}

#[test]
fn test_infix_expression() {
    let input = r#"
5 + 5;
5 - 5;
5 * 5;
5 / 5;
5 > 5;
5 < 5;
5 == 5;
5 != 5;
"#;
    let l = Lexer::new(input);
    let mut p = Parser::new(l);
    let program = p.parse_program().unwrap();
    assert_eq!(program.statements.len(), 8);

    let tests = vec![
        Expression::InfixExpression {
            left: Box::new(Expression::IntegerLiteral(5)),
            operator: "+".to_string(),
            right: Box::new(Expression::IntegerLiteral(5)),
        },
        Expression::InfixExpression {
            left: Box::new(Expression::IntegerLiteral(5)),
            operator: "-".to_string(),
            right: Box::new(Expression::IntegerLiteral(5)),
        },
        Expression::InfixExpression {
            left: Box::new(Expression::IntegerLiteral(5)),
            operator: "*".to_string(),
            right: Box::new(Expression::IntegerLiteral(5)),
        },
        Expression::InfixExpression {
            left: Box::new(Expression::IntegerLiteral(5)),
            operator: "/".to_string(),
            right: Box::new(Expression::IntegerLiteral(5)),
        },
        Expression::InfixExpression {
            left: Box::new(Expression::IntegerLiteral(5)),
            operator: ">".to_string(),
            right: Box::new(Expression::IntegerLiteral(5)),
        },
        Expression::InfixExpression {
            left: Box::new(Expression::IntegerLiteral(5)),
            operator: "<".to_string(),
            right: Box::new(Expression::IntegerLiteral(5)),
        },
        Expression::InfixExpression {
            left: Box::new(Expression::IntegerLiteral(5)),
            operator: "==".to_string(),
            right: Box::new(Expression::IntegerLiteral(5)),
        },
        Expression::InfixExpression {
            left: Box::new(Expression::IntegerLiteral(5)),
            operator: "!=".to_string(),
            right: Box::new(Expression::IntegerLiteral(5)),
        },
    ];
    for (i, tt) in tests.iter().enumerate() {
        assert_eq!(
            &program.statements[i],
            &Statement::ExpressionStatement(tt.clone())
        );
    }
}

#[test]
fn parser_test_prefix_expression() {
    let input = r#"
!5;
-15;
"#;
    let l = Lexer::new(input);
    let mut p = Parser::new(l);
    let program = p.parse_program().unwrap();
    assert_eq!(program.statements.len(), 2);

    let tests = vec![
        Expression::PrefixExpression {
            operator: "!".to_string(),
            right: Box::new(Expression::IntegerLiteral(5)),
        },
        Expression::PrefixExpression {
            operator: "-".to_string(),
            right: Box::new(Expression::IntegerLiteral(15)),
        },
    ];
    for (i, tt) in tests.iter().enumerate() {
        assert_eq!(
            &program.statements[i],
            &Statement::ExpressionStatement(tt.clone())
        );
    }
}

#[test]
fn test_operator_precedence_parsing() {
    let tests = vec![
        ("!-a", "(!(-a))"),
        ("a + b", "(a + b)"),
        ("a * b", "(a * b)"),
        ("a + b * c", "(a + (b * c))"),
        ("a + b / c", "(a + (b / c))"),
        ("a + b * c + d / e - f", "(((a + (b * c)) + (d / e)) - f)"),
        ("3 + 4; -5 * 5", "(3 + 4)\n((-5) * 5)"),
        ("5 > 4 == 3 < 4", "((5 > 4) == (3 < 4))"),
        ("5 < 4 != 3 > 4", "((5 < 4) != (3 > 4))"),
        (
            "3 + 4 * 5 == 3 * 1 + 4 * 5",
            "((3 + (4 * 5)) == ((3 * 1) + (4 * 5)))",
        ),
    ];
    for (input, expected) in tests {
        let l = Lexer::new(input);
        let mut p = Parser::new(l);
        let program = p.parse_program().unwrap();
        assert_eq!(program.to_string(), expected);
    }
}

#[test]
fn test_if_expression() {
    let input = r#"
if (x < y) { x }
"#;
    let l = Lexer::new(input);
    let mut p = Parser::new(l);
    let program = p.parse_program().unwrap();
    assert_eq!(program.statements.len(), 1);

    let tests = vec![Statement::ExpressionStatement(Expression::IfExpression {
        condition: Box::new(Expression::InfixExpression {
            left: Box::new(Expression::Identifier("x".to_string())),
            operator: "<".to_string(),
            right: Box::new(Expression::Identifier("y".to_string())),
        }),
        consequence: Box::new(Statement::BlockStatement {
            statements: vec![Statement::ExpressionStatement(Expression::Identifier(
                "x".to_string(),
            ))],
        }),
        alternative: None,
    })];
    for (i, tt) in tests.iter().enumerate() {
        assert_eq!(&program.statements[i], tt);
    }
}

#[test]
fn parser_test_if_else_expression() {
    let input = r#"
if (x < y) { x } else { y }
"#;
    let l = Lexer::new(input);
    let mut p = Parser::new(l);
    let program = p.parse_program().unwrap();
    assert_eq!(program.statements.len(), 1);

    let tests = vec![Statement::ExpressionStatement(Expression::IfExpression {
        condition: Box::new(Expression::InfixExpression {
            left: Box::new(Expression::Identifier("x".to_string())),
            operator: "<".to_string(),
            right: Box::new(Expression::Identifier("y".to_string())),
        }),
        consequence: Box::new(Statement::BlockStatement {
            statements: vec![Statement::ExpressionStatement(Expression::Identifier(
                "x".to_string(),
            ))],
        }),
        alternative: Some(Box::new(Statement::BlockStatement {
            statements: vec![Statement::ExpressionStatement(Expression::Identifier(
                "y".to_string(),
            ))],
        })),
    })];
    for (i, tt) in tests.iter().enumerate() {
        assert_eq!(&program.statements[i], tt);
    }
}

#[test]
fn test_function_literal_parsing() {
    let input = r#"
fn(x, y) { x + y; }
"#;
    let l = Lexer::new(input);
    let mut p = Parser::new(l);
    let program = p.parse_program().unwrap();
    assert_eq!(program.statements.len(), 1);

    let tests = vec![Statement::ExpressionStatement(
        Expression::FunctionLiteral {
            parameters: vec![
                Expression::Identifier("x".to_string()),
                Expression::Identifier("y".to_string()),
            ],
            body: Box::new(Statement::BlockStatement {
                statements: vec![Statement::ExpressionStatement(
                    Expression::InfixExpression {
                        left: Box::new(Expression::Identifier("x".to_string())),
                        operator: "+".to_string(),
                        right: Box::new(Expression::Identifier("y".to_string())),
                    },
                )],
            }),
        },
    )];
    for (i, tt) in tests.iter().enumerate() {
        assert_eq!(&program.statements[i], tt);
    }
}

#[test]
fn test_function_parameter_parsing() {
    let tests = vec![
        ("fn() {};", vec![]),
        ("fn(x) {};", vec!["x"]),
        ("fn(x, y, z) {};", vec!["x", "y", "z"]),
    ];
    for (input, expected) in tests {
        let l = Lexer::new(input);
        let mut p = Parser::new(l);
        let program = p.parse_program().unwrap();
        let stmt = program.statements.first().unwrap();
        let expected = expected
            .iter()
            .map(|s| Expression::Identifier(s.to_string()))
            .collect::<Vec<Expression>>();
        assert_eq!(
            &Statement::ExpressionStatement(Expression::FunctionLiteral {
                parameters: expected,
                body: Box::new(Statement::BlockStatement { statements: vec![] })
            }),
            stmt
        );
    }
}

#[test]
fn test_call_expression_parsing() {
    let input = r#"
add(1, 2 * 3, 4 + 5);
"#;
    let l = Lexer::new(input);
    let mut p = Parser::new(l);
    let program = p.parse_program().unwrap();
    assert_eq!(program.statements.len(), 1);

    let tests = vec![Statement::ExpressionStatement(Expression::CallExpression {
        function: Box::new(Expression::Identifier("add".to_string())),
        arguments: vec![
            Expression::IntegerLiteral(1),
            Expression::InfixExpression {
                left: Box::new(Expression::IntegerLiteral(2)),
                operator: "*".to_string(),
                right: Box::new(Expression::IntegerLiteral(3)),
            },
            Expression::InfixExpression {
                left: Box::new(Expression::IntegerLiteral(4)),
                operator: "+".to_string(),
                right: Box::new(Expression::IntegerLiteral(5)),
            },
        ],
    })];
    for (i, tt) in tests.iter().enumerate() {
        assert_eq!(&program.statements[i], tt);
    }
}

use monkey::grammar::{ParseError, Precedence};
use monkey::parse;
use monkey::text::IntegerError;
use monkey::token::TokenType;

fn printed(input: &str) -> String {
    parse(input).unwrap().to_string()
}

fn error_of(input: &str) -> ParseError {
    parse(input).unwrap_err()
}

#[test]
fn calls_bind_more_strongly_than_every_operator() {
    let tests = vec![
        ("a + add(b * c) + d", "((a + add((b * c))) + d)"),
        (
            "add(a, b, 1, 2 * 3, 4 + 5, add(6, 7 * 8))",
            "add(a, b, 1, (2 * 3), (4 + 5), add(6, (7 * 8)))",
        ),
        ("add(a + b + c * d / f + g)", "add((((a + b) + ((c * d) / f)) + g))"),
        ("-f(x)", "(-f(x))"),
        ("f(x)(y)", "f(x)(y)"),
        ("!f() == g()", "((!f()) == g())"),
    ];
    for (input, expected) in tests {
        assert_eq!(printed(input), expected);
    }
}

#[test]
fn parentheses_group() {
    let tests = vec![
        ("1 + (2 + 3) + 4", "((1 + (2 + 3)) + 4)"),
        ("(5 + 5) * 2", "((5 + 5) * 2)"),
        ("2 / (5 + 5)", "(2 / (5 + 5))"),
        ("-(5 + 5)", "(-(5 + 5))"),
        ("!(true == true)", "(!(true == true))"),
        ("((((7))))", "7"),
        ("true", "true"),
        ("3 > 5 == false", "((3 > 5) == false)"),
        ("a - b - c", "((a - b) - c)"),
        ("a / b * c", "((a / b) * c)"),
        ("a == b != c", "((a == b) != c)"),
        ("a < b > c", "((a < b) > c)"),
        ("-a * b", "((-a) * b)"),
        ("- - a", "(-(-a))"),
        ("a * -b", "(a * (-b))"),
    ];
    for (input, expected) in tests {
        assert_eq!(printed(input), expected);
    }
}

#[test]
fn a_semicolon_ends_an_expression() {
    assert_eq!(printed("a; (b)"), "a\nb");
    assert_eq!(printed("a (b)"), "a(b)");
    assert_eq!(printed("a; -b"), "a\n(-b)");
    assert_eq!(printed("a -b"), "(a - b)");
}

#[test]
fn texts_of_compound_expressions() {
    assert_eq!(printed("if (x < y) { x }"), "if (x < y) {\n x\n} ");
    assert_eq!(printed("if (x < y) { x } else { y; z }"), "if (x < y) {\n x\n} else {\n y\nz\n}");
    assert_eq!(printed("fn(x, y) { x + y; }"), "fn(x, y) {\n (x + y)\n}");
    assert_eq!(printed("fn() {}"), "fn() {\n \n}");
    assert_eq!(printed("let f = fn(x) { return x; };"), "let f = fn(x) {\n return x;\n};");
    assert_eq!(printed("{ let a = 1; a }"), "{\n let a = 1;\na\n}");
    assert_eq!(printed(""), "");
}

#[test]
fn texts_of_statements_and_expressions() {
    let program = parse("let x = 1 + 2; return f(x);").unwrap();
    assert_eq!(program.statements[0].to_string(), "let x = (1 + 2);");
    assert_eq!(program.statements[1].to_string(), "return f(x);");
    assert_eq!(Statement::EmptyStatement.to_string(), "");
    assert_eq!(Expression::EmptyExpression.to_string(), "");
    assert_eq!(Expression::IntegerLiteral(-5).to_string(), "-5");
    assert_eq!(Expression::IntegerLiteral(i64::MIN).to_string(), "-9223372036854775808");
    assert_eq!(Expression::Boolean(false).to_string(), "false");
}

#[test]
fn copies_are_equal() {
    let program = parse("let f = fn(x, y) { if (x) { return y; } else { !x } }; f(1, 2)(3);")
        .unwrap();
    let copy = program.clone();
    assert_eq!(copy, program);
    assert_eq!(copy.statements[0].clone(), program.statements[0]);
}

#[test]
fn a_let_needs_an_identifier_an_assign_and_a_semicolon() {
    assert_eq!(
        error_of("let x 5;"),
        ParseError::UnexpectedToken { expected: TokenType::ASSIGN, found: TokenType::INT }
    );
    assert_eq!(
        error_of("let = 10;"),
        ParseError::UnexpectedToken { expected: TokenType::IDENT, found: TokenType::ASSIGN }
    );
    assert_eq!(
        error_of("let 838383;"),
        ParseError::UnexpectedToken { expected: TokenType::IDENT, found: TokenType::INT }
    );
    assert_eq!(
        error_of("let x = 5"),
        ParseError::UnexpectedToken { expected: TokenType::SEMICOLON, found: TokenType::EOF }
    );
    assert_eq!(
        error_of("let x = 5 let y = 6;"),
        ParseError::UnexpectedToken { expected: TokenType::SEMICOLON, found: TokenType::LET }
    );
    assert_eq!(
        error_of("let"),
        ParseError::UnexpectedToken { expected: TokenType::IDENT, found: TokenType::EOF }
    );
}

#[test]
fn a_return_needs_a_semicolon() {
    assert_eq!(
        error_of("return 5"),
        ParseError::UnexpectedToken { expected: TokenType::SEMICOLON, found: TokenType::EOF }
    );
    assert_eq!(error_of("return;"), ParseError::NoPrefixParseFunction(TokenType::SEMICOLON));
}

#[test]
fn tokens_that_start_no_expression() {
    assert_eq!(error_of("+"), ParseError::NoPrefixParseFunction(TokenType::PLUS));
    assert_eq!(error_of("1 + "), ParseError::NoPrefixParseFunction(TokenType::EOF));
    assert_eq!(error_of("1 + * 2"), ParseError::NoPrefixParseFunction(TokenType::ASTERISK));
    assert_eq!(error_of(")"), ParseError::NoPrefixParseFunction(TokenType::RPAREN));
    assert_eq!(error_of("a @ b"), ParseError::NoPrefixParseFunction(TokenType::ILLEGAL));
    assert_eq!(error_of("}"), ParseError::NoPrefixParseFunction(TokenType::RBRACE));
    assert_eq!(error_of("else"), ParseError::NoPrefixParseFunction(TokenType::ELSE));
}

#[test]
fn groups_ifs_functions_and_calls_need_their_delimiters() {
    assert_eq!(
        error_of("(1 + 2"),
        ParseError::UnexpectedToken { expected: TokenType::RPAREN, found: TokenType::EOF }
    );
    assert_eq!(
        error_of("if x { 1 }"),
        ParseError::UnexpectedToken { expected: TokenType::LPAREN, found: TokenType::IDENT }
    );
    assert_eq!(
        error_of("if (x { 1 }"),
        ParseError::UnexpectedToken { expected: TokenType::RPAREN, found: TokenType::LBRACE }
    );
    assert_eq!(
        error_of("if (x) 1"),
        ParseError::UnexpectedToken { expected: TokenType::LBRACE, found: TokenType::INT }
    );
    assert_eq!(
        error_of("if (x) { 1 } else 2"),
        ParseError::UnexpectedToken { expected: TokenType::LBRACE, found: TokenType::INT }
    );
    assert_eq!(
        error_of("fn x { 1 }"),
        ParseError::UnexpectedToken { expected: TokenType::LPAREN, found: TokenType::IDENT }
    );
    assert_eq!(
        error_of("fn(x y) { 1 }"),
        ParseError::UnexpectedToken { expected: TokenType::RPAREN, found: TokenType::IDENT }
    );
    assert_eq!(
        error_of("fn(x) 1"),
        ParseError::UnexpectedToken { expected: TokenType::LBRACE, found: TokenType::INT }
    );
    assert_eq!(
        error_of("f(1 2)"),
        ParseError::UnexpectedToken { expected: TokenType::RPAREN, found: TokenType::INT }
    );
    assert_eq!(
        error_of("f(1,"),
        ParseError::NoPrefixParseFunction(TokenType::EOF)
    );
}

#[test]
fn parameters_are_identifiers() {
    assert_eq!(
        error_of("fn(5) { 1 }"),
        ParseError::UnexpectedToken { expected: TokenType::IDENT, found: TokenType::INT }
    );
    assert_eq!(
        error_of("fn(x, ) { 1 }"),
        ParseError::UnexpectedToken { expected: TokenType::IDENT, found: TokenType::RPAREN }
    );
    assert_eq!(
        error_of("fn(x, 1) { 1 }"),
        ParseError::UnexpectedToken { expected: TokenType::IDENT, found: TokenType::INT }
    );
}

#[test]
fn a_block_ends_with_a_brace() {
    assert_eq!(
        error_of("if (x) { 1"),
        ParseError::UnexpectedToken { expected: TokenType::RBRACE, found: TokenType::EOF }
    );
    assert_eq!(
        error_of("{ let a = 1;"),
        ParseError::UnexpectedToken { expected: TokenType::RBRACE, found: TokenType::EOF }
    );
    assert_eq!(
        error_of("fn() {"),
        ParseError::UnexpectedToken { expected: TokenType::RBRACE, found: TokenType::EOF }
    );
}

#[test]
fn integer_literals_fit_in_64_bits() {
    assert_eq!(printed("9223372036854775807"), "9223372036854775807");
    assert_eq!(
        error_of("9223372036854775808"),
        ParseError::InvalidInteger(IntegerError::Overflow)
    );
    assert_eq!(
        error_of("let x = 1 + 99999999999999999999;"),
        ParseError::InvalidInteger(IntegerError::Overflow)
    );
}

#[test]
fn messages_of_parse_errors() {
    assert_eq!(error_of("let x 5;").message(), "expected next token to be ASSIGN, got INT instead");
    assert_eq!(
        error_of("let = 10;").message(),
        "expected next token to be IDENT, got ASSIGN instead"
    );
    assert_eq!(error_of("!= 1").message(), "no prefix parse function for NOT_EQ found");
    assert_eq!(
        error_of("9223372036854775808").message(),
        "number too large to fit in target type"
    );
    assert_eq!(
        ParseError::InvalidInteger(IntegerError::Empty).message(),
        "cannot parse integer from empty string"
    );
    assert_eq!(
        ParseError::InvalidInteger(IntegerError::InvalidDigit).message(),
        "invalid digit found in string"
    );
}

#[test]
fn only_the_first_error_is_returned() {
    assert_eq!(
        error_of("let x 5; let = 10; let 838383;"),
        ParseError::UnexpectedToken { expected: TokenType::ASSIGN, found: TokenType::INT }
    );
}

#[test]
fn the_parser_starts_where_the_lexer_stands() {
    let mut l = Lexer::new("let x = 5; y");
    l.next_token();
    l.next_token();
    l.next_token();
    let mut p = Parser::new(l);
    assert_eq!(p.parse_program().unwrap().to_string(), "5\ny");
}

#[test]
fn next_token_passes_over_a_token() {
    let mut p = Parser::new(Lexer::new("1 2 3"));
    p.next_token();
    assert_eq!(p.parse_program().unwrap().to_string(), "2\n3");
    p.next_token();
    assert_eq!(p.parse_program().unwrap().to_string(), "");
}

#[test]
fn levels_of_the_operators() {
    assert_eq!(Precedence::from_token_type(TokenType::EQ), Precedence::EQUALS);
    assert_eq!(Precedence::from_token_type(TokenType::NOT_EQ), Precedence::EQUALS);
    assert_eq!(Precedence::from_token_type(TokenType::LT), Precedence::LESSGREATER);
    assert_eq!(Precedence::from_token_type(TokenType::GT), Precedence::LESSGREATER);
    assert_eq!(Precedence::from_token_type(TokenType::PLUS), Precedence::SUM);
    assert_eq!(Precedence::from_token_type(TokenType::MINUS), Precedence::SUM);
    assert_eq!(Precedence::from_token_type(TokenType::ASTERISK), Precedence::PRODUCT);
    assert_eq!(Precedence::from_token_type(TokenType::SLASH), Precedence::PRODUCT);
    assert_eq!(Precedence::from_token_type(TokenType::LPAREN), Precedence::CALL);
    assert_eq!(Precedence::from_token_type(TokenType::BANG), Precedence::LOWEST);
    assert_eq!(Precedence::from_token_type(TokenType::IDENT), Precedence::LOWEST);
    let order = [
        Precedence::LOWEST,
        Precedence::EQUALS,
        Precedence::LESSGREATER,
        Precedence::SUM,
        Precedence::PRODUCT,
        Precedence::PREFIX,
        Precedence::CALL,
    ];
    for (i, p) in order.iter().enumerate() {
        assert_eq!(p.rank() as usize, i);
    }
}

#[test]
fn two_operators_group_by_their_levels() {
    let operators = ["+", "-", "*", "/", "<", ">", "==", "!="];
    let level = |op: &str| match op {
        "==" | "!=" => 1,
        "<" | ">" => 2,
        "+" | "-" => 3,
        _ => 4,
    };
    for first in operators {
        for second in operators {
            let input = format!("x {} y {} z", first, second);
            let expected = if level(first) < level(second) {
                format!("(x {} (y {} z))", first, second)
            } else {
                format!("((x {} y) {} z)", first, second)
            };
            assert_eq!(printed(&input), expected);
        }
    }
}

#[test]
fn printing_a_printed_program_again_gives_the_same_text() {
    let sources = [
        "let x = 5; let y = x + 1; return y * 2;",
        "a + b * c + d / e - f",
        "!-a",
        "let add = fn(x, y) { let s = x + y; return s; }; add(1, 2 * 3);",
        "if (x < y) { let z = !x; return z; } else { return y == 2; }",
        "let f = fn() { return fn(a) { a(1, 2) }; };",
        "return -1 * (2 + 3) != 4 / 5;",
        "漢字 + 😄;",
    ];
    for source in sources {
        let once = printed(source);
        let twice = printed(&once);
        assert_eq!(twice, once, "{}", source);
        assert_eq!(parse(&once).unwrap(), parse(source).unwrap(), "{}", source);
    }
}

#[test]
fn the_text_of_an_if_with_a_bare_condition_is_no_program() {
    let once = printed("if (x) { y }");
    assert_eq!(once, "if x {\n y\n} ");
    assert_eq!(
        parse(&once).unwrap_err(),
        ParseError::UnexpectedToken { expected: TokenType::LPAREN, found: TokenType::IDENT }
    );
}

#[test]
fn a_line_that_starts_with_a_parenthesis_reads_as_arguments() {
    let once = printed("a; (b + c)");
    assert_eq!(once, "a\n(b + c)");
    assert_eq!(printed(&once), "a((b + c))");
    let once = printed("3 + 4; -5 * 5");
    assert_eq!(once, "(3 + 4)\n((-5) * 5)");
    assert_eq!(printed(&once), "(3 + 4)(((-5) * 5))");
}

#[test]
fn a_line_that_starts_with_a_parenthesis_after_a_semicolon_is_a_statement() {
    let once = printed("let a = 1; (a + 2)");
    assert_eq!(once, "let a = 1;\n(a + 2)");
    assert_eq!(printed(&once), once);
    let once = printed("return a; (b)");
    assert_eq!(printed(&once), once);
}
