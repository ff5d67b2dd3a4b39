use monkey::evaluator::eval_program;
use monkey::lexer::Lexer;
use monkey::object::Object;
use monkey::parser::Parser;
#[test]
fn test_eval_integer_expression() {
    let tests = vec![
        ("5", Object::Integer(5)),
        ("10", Object::Integer(10)),
        ("5 + 5 + 5 + 5 - 10", Object::Integer(10)),
        ("2 * 2 * 2 * 2 * 2", Object::Integer(32)),
        ("-50 + 100 + -50", Object::Integer(0)),
        ("5 * 2 + 10", Object::Integer(20)),
        ("5 + 2 * 10", Object::Integer(25)),
        ("20 + 2 * -10", Object::Integer(0)),
        ("50 / 2 * 2 + 10", Object::Integer(60)),
        ("2 * (5 + 10)", Object::Integer(30)),
        ("3 * 3 * 3 + 10", Object::Integer(37)),
        ("3 * (3 * 3) + 10", Object::Integer(37)),
        ("(5 + 10 * 2 + 15 / 3) * 2 + -10", Object::Integer(50)),
    ];
    for (input, expected) in tests {
        let l = Lexer::new(input);
        let mut p = Parser::new(l);
        let program = p.parse_program().unwrap();
        let evaluated = eval_program(program).unwrap();
        assert_eq!(evaluated, expected);
    }
}

#[test]
fn test_eval_boolean_expression() {
    let tests = vec![
        ("true", Object::Boolean(true)),
        ("false", Object::Boolean(false)),
        ("1 < 2", Object::Boolean(true)),
        ("1 > 2", Object::Boolean(false)),
        ("1 < 1", Object::Boolean(false)),
        ("1 > 1", Object::Boolean(false)),
        ("1 == 1", Object::Boolean(true)),
        ("1 != 1", Object::Boolean(false)),
        ("1 == 2", Object::Boolean(false)),
        ("1 != 2", Object::Boolean(true)),
        ("true == true", Object::Boolean(true)),
        ("false == false", Object::Boolean(true)),
        ("true == false", Object::Boolean(false)),
        ("true != false", Object::Boolean(true)),
        ("false != true", Object::Boolean(true)),
        ("(1 < 2) == true", Object::Boolean(true)),
        ("(1 < 2) == false", Object::Boolean(false)),
        ("(1 > 2) == true", Object::Boolean(false)),
        ("(1 > 2) == false", Object::Boolean(true)),
    ];
    for (input, expected) in tests {
        let l = Lexer::new(input);
        let mut p = Parser::new(l);
        let program = p.parse_program().unwrap();
        let evaluated = eval_program(program).unwrap();
        assert_eq!(evaluated, expected);
    }
}

#[test]
fn evaluator_test_prefix_expression() {
    let tests = vec![
        ("!true", Object::Boolean(false)),
        ("!false", Object::Boolean(true)),
        ("!5", Object::Boolean(false)),
        ("!!true", Object::Boolean(true)),
        ("!!false", Object::Boolean(false)),
        ("-5", Object::Integer(-5)),
        ("-10", Object::Integer(-10)),
        ("--5", Object::Integer(5)),
        ("--10", Object::Integer(10)),
    ];
    for (input, expected) in tests {
        let l = Lexer::new(input);
        let mut p = Parser::new(l);
        let program = p.parse_program().unwrap();
        let evaluated = eval_program(program).unwrap();
        assert_eq!(evaluated, expected);
    }
}

#[test]
fn evaluator_test_if_else_expression() {
    let tests = vec![
        ("if (true) { 10 }", Object::Integer(10)),
        ("if (false) { 10 }", Object::Null),
        ("if (1) { 10 }", Object::Integer(10)),
        ("if (1 < 2) { 10 }", Object::Integer(10)),
        ("if (1 > 2) { 10 }", Object::Null),
        ("if (1 > 2) { 10 } else { 20 }", Object::Integer(20)),
        ("if (1 < 2) { 10 } else { 20 }", Object::Integer(10)),
    ];
    for (input, expected) in tests {
        let l = Lexer::new(input);
        let mut p = Parser::new(l);
        let program = p.parse_program().unwrap();
        let evaluated = eval_program(program).unwrap();
        assert_eq!(evaluated, expected);
    }
}

#[test]
fn test_return_statement() {
    let tests = vec![
        ("return 10;", Object::Integer(10)),
        ("return 10; 9;", Object::Integer(10)),
        ("return 2 * 5; 9;", Object::Integer(10)),
        ("9; return 2 * 5; 9;", Object::Integer(10)),
        (
            "if (10 > 1) {
                if (10 > 1) {
                    return 10;
                }
                return 1;
            }",
            Object::Integer(10),
        ),
    ];
    for (input, expected) in tests {
        let l = Lexer::new(input);
        let mut p = Parser::new(l);
        let program = p.parse_program().unwrap();
        let evaluated = eval_program(program).unwrap();
        assert_eq!(evaluated, expected);
    }
}

#[test]
fn test_error_handling() {
    let tests = vec![
        ("5 + true;", "type mismatch: Integer(5) + Boolean(true)"),
        ("5 + true; 5;", "type mismatch: Integer(5) + Boolean(true)"),
        ("-true", "cannot use '-' operator on Boolean(true)"),
        (
            "true + false;",
            "unknown operator: Boolean(true) + Boolean(false)",
        ),
        (
            "5; true + false; 5",
            "unknown operator: Boolean(true) + Boolean(false)",
        ),
        (
            "if (10 > 1) { true + false; }",
            "unknown operator: Boolean(true) + Boolean(false)",
        ),
        (
            r#"
            if (10 > 1) {
                if (10 > 1) {
                    return true + false;
                }
                return 1;
            }
            "#,
            "unknown operator: Boolean(true) + Boolean(false)",
        ),
        ("foobar", "identifier not found: foobar"),
    ];
    for (input, expected) in tests {
        let l = Lexer::new(input);
        let mut p = Parser::new(l);
        let program = p.parse_program().unwrap();
        let evaluated = eval_program(program);
        assert!(evaluated.is_err());
        assert_eq!(evaluated.err().unwrap().message(), expected);
    }
}

#[test]
fn test_let_statement() {
    let tests = vec![
        ("let a = 5; a;", Object::Integer(5)),
        ("let a = 5 * 5; a;", Object::Integer(25)),
        ("let a = 5; let b = a; b;", Object::Integer(5)),
        (
            "let a = 5; let b = a; let c = a + b + 5; c;",
            Object::Integer(15),
        ),
        ("let a = 5; let b = a; let a = 10; b;", Object::Integer(5)),
    ];
    for (input, expected) in tests {
        let l = Lexer::new(input);
        let mut p = Parser::new(l);
        let program = p.parse_program().unwrap();
        let evaluated = eval_program(program).unwrap();
        assert_eq!(evaluated, expected);
    }
}

use monkey::ast::{Expression, Statement};
use monkey::evaluator::{
    apply_function, eval, eval_bang_prefix_expression, eval_expression, eval_expressions,
    eval_infix_expression, eval_minus_prefix_operator_expression, eval_statement,
    eval_statements, MAX_DEPTH,
};
use monkey::object::{Environment, EvalError};
use monkey::{evaluate, parse, Error};

fn value_of(input: &str) -> Object {
    evaluate(input).unwrap()
}

fn failure_of(input: &str) -> EvalError {
    match evaluate(input) {
        Err(Error::Eval(e)) => e,
        other => panic!("{:?}", other),
    }
}

#[test]
fn functions_are_applied() {
    let tests = vec![
        ("let identity = fn(x) { x; }; identity(5);", 5),
        ("let identity = fn(x) { return x; }; identity(5);", 5),
        ("let double = fn(x) { x * 2; }; double(5);", 10),
        ("let add = fn(x, y) { x + y; }; add(5, 5);", 10),
        ("let add = fn(x, y) { x + y; }; add(5 + 5, add(5, 5));", 20),
        ("fn(x) { x; }(5)", 5),
        ("fn() { 7 }()", 7),
    ];
    for (input, expected) in tests {
        assert_eq!(value_of(input), Object::Integer(expected), "{}", input);
    }
}

#[test]
fn closures_keep_the_scope_of_their_definition() {
    let input = "
        let newAdder = fn(x) { fn(y) { x + y }; };
        let addTwo = newAdder(2);
        let addTen = newAdder(10);
        addTwo(3) + addTen(3);";
    assert_eq!(value_of(input), Object::Integer(18));
}

#[test]
fn scoping_is_lexical() {
    let input = "
        let x = 1;
        let f = fn() { x };
        let g = fn() { let x = 2; f() };
        g();";
    assert_eq!(value_of(input), Object::Integer(1));
}

#[test]
fn a_function_sees_what_is_bound_later_in_its_scope() {
    assert_eq!(value_of("let f = fn() { y }; let y = 3; f();"), Object::Integer(3));
    assert_eq!(value_of("let x = 1; let f = fn() { x }; let x = 2; f();"), Object::Integer(2));
}

#[test]
fn a_call_does_not_write_to_the_scopes_around_it() {
    assert_eq!(value_of("let x = 1; let f = fn() { let x = 2; x }; f() + x;"), Object::Integer(3));
    assert_eq!(value_of("let x = 1; let f = fn(x) { x * 10 }; f(5); x;"), Object::Integer(1));
}

#[test]
fn parameters_are_not_seen_outside_the_call() {
    assert_eq!(
        failure_of("let f = fn(a) { a }; f(1); a;").message(),
        "identifier not found: a"
    );
}

#[test]
fn functions_call_themselves() {
    let factorial = "let fact = fn(n) { if (n < 2) { 1 } else { n * fact(n - 1) } }; fact(10);";
    assert_eq!(value_of(factorial), Object::Integer(3628800));
    let fibonacci = "
        let fib = fn(n) { if (n < 2) { return n; } fib(n - 1) + fib(n - 2) };
        fib(15);";
    assert_eq!(value_of(fibonacci), Object::Integer(610));
}

#[test]
fn functions_are_values() {
    let input = "
        let twice = fn(f, x) { f(f(x)) };
        twice(fn(n) { n * n }, 3);";
    assert_eq!(value_of(input), Object::Integer(81));
}

#[test]
fn a_return_leaves_only_the_function_it_stands_in() {
    let input = "
        let f = fn() { if (true) { return 1; } return 2; };
        let g = fn() { f(); return 3; };
        g() + f();";
    assert_eq!(value_of(input), Object::Integer(4));
}

#[test]
fn endless_recursion_is_a_stack_overflow() {
    assert_eq!(failure_of("let f = fn(x) { f(x) }; f(1);"), EvalError::StackOverflow);
    assert_eq!(failure_of("let w = fn(x) { x(x) }; w(w);"), EvalError::StackOverflow);
    assert_eq!(failure_of("let f = fn(x) { f(x) }; f(1);").message(), "stack overflow");
}

#[test]
fn expressions_nested_too_deeply_are_a_stack_overflow() {
    let shallow = format!("{}true", "!".repeat(MAX_DEPTH - 2));
    assert_eq!(value_of(&shallow), Object::Boolean(true));
    let deep = format!("{}true", "!".repeat(MAX_DEPTH - 1));
    assert_eq!(failure_of(&deep), EvalError::StackOverflow);
    let deeper = format!("{}true", "!".repeat(3 * MAX_DEPTH));
    assert_eq!(failure_of(&deeper), EvalError::StackOverflow);
}

#[test]
fn the_depth_is_counted_from_the_statement() {
    let program = parse("1").unwrap();
    let mut env = Environment::new();
    assert_eq!(eval_statement(&program.statements[0], &mut env, 0, 0), Err(EvalError::StackOverflow));
    assert_eq!(eval_statement(&program.statements[0], &mut env, 0, 1), Err(EvalError::StackOverflow));
    assert_eq!(eval_statement(&program.statements[0], &mut env, 0, 2), Ok(Object::Integer(1)));
    assert_eq!(eval_expression(&Expression::IntegerLiteral(1), &mut env, 0, 0), Err(EvalError::StackOverflow));
    assert_eq!(eval_expression(&Expression::IntegerLiteral(1), &mut env, 0, 1), Ok(Object::Integer(1)));
}

#[test]
fn values_that_are_no_functions_are_not_called() {
    assert_eq!(failure_of("5(1)"), EvalError::NotAFunction(Object::Integer(5)));
    assert_eq!(failure_of("let x = true; x();").message(), "not a function: Boolean(true)");
    assert_eq!(failure_of("if (false) { 1 }()").message(), "not a function: Null");
}

#[test]
fn arguments_are_counted() {
    assert_eq!(
        failure_of("let f = fn(x, y) { x }; f(1);"),
        EvalError::WrongArgumentCount { expected: 2, found: 1 }
    );
    assert_eq!(
        failure_of("fn() { 1 }(1, 2, 3)").message(),
        "wrong number of arguments: expected 0, got 3"
    );
}

#[test]
fn arguments_are_evaluated_before_the_call_and_from_the_left() {
    assert_eq!(failure_of("5(a)").message(), "identifier not found: a");
    assert_eq!(failure_of("let f = fn(x, y) { x }; f(a, b);").message(), "identifier not found: a");
    assert_eq!(failure_of("f(1 + true)").message(), "identifier not found: f");
}

#[test]
fn division_rounds_towards_zero() {
    let tests = vec![
        ("7 / 2", 3),
        ("-7 / 2", -3),
        ("7 / -2", -3),
        ("-7 / -2", 3),
        ("0 / 5", 0),
        ("0 / -5", 0),
        ("6 / 3", 2),
        ("1 / 2", 0),
        ("-1 / 2", 0),
    ];
    for (input, expected) in tests {
        assert_eq!(value_of(input), Object::Integer(expected), "{}", input);
    }
}

#[test]
fn division_by_zero_is_an_error() {
    assert_eq!(failure_of("5 / 0"), EvalError::DivisionByZero { dividend: 5 });
    assert_eq!(failure_of("5 / (1 - 1)").message(), "division by zero: Integer(5) / Integer(0)");
    assert_eq!(failure_of("0 / 0").message(), "division by zero: Integer(0) / Integer(0)");
}

#[test]
fn integers_that_do_not_fit_are_an_error() {
    assert_eq!(
        failure_of("9223372036854775807 + 1").message(),
        "integer overflow: Integer(9223372036854775807) + Integer(1)"
    );
    assert_eq!(
        failure_of("-9223372036854775807 - 2").message(),
        "integer overflow: Integer(-9223372036854775807) - Integer(2)"
    );
    assert_eq!(
        failure_of("4611686018427387904 * 2").message(),
        "integer overflow: Integer(4611686018427387904) * Integer(2)"
    );
    assert_eq!(
        failure_of("(-9223372036854775807 - 1) / -1").message(),
        "integer overflow: Integer(-9223372036854775808) / Integer(-1)"
    );
    assert_eq!(
        failure_of("-(-9223372036854775807 - 1)").message(),
        "integer overflow: Integer(0) - Integer(-9223372036854775808)"
    );
    assert_eq!(value_of("9223372036854775806 + 1"), Object::Integer(i64::MAX));
    assert_eq!(value_of("-9223372036854775807 - 1"), Object::Integer(i64::MIN));
    assert_eq!(value_of("(-9223372036854775807 - 1) / 1"), Object::Integer(i64::MIN));
}

#[test]
fn truth_values() {
    assert_eq!(value_of("if (0) { 1 } else { 2 }"), Object::Integer(2));
    assert_eq!(value_of("if (-1) { 1 } else { 2 }"), Object::Integer(1));
    assert_eq!(value_of("if (if (false) { 1 }) { 1 } else { 2 }"), Object::Integer(2));
    assert_eq!(value_of("!0"), Object::Boolean(true));
    assert_eq!(value_of("!!0"), Object::Boolean(false));
    assert_eq!(value_of("!if (false) { 1 }"), Object::Boolean(true));
    assert_eq!(
        failure_of("if (fn(x) { x }) { 1 }").message(),
        "cannot cast FunctionObject(fn(x) {\n x\n}) to boolean"
    );
    assert_eq!(
        failure_of("!fn() { 1 + 2 }").message(),
        "cannot cast FunctionObject(fn() {\n (1 + 2)\n}) to boolean"
    );
}

#[test]
fn casting_to_boolean() {
    assert_eq!(Object::Integer(0).cast_to_boolean(), Ok(Object::Boolean(false)));
    assert_eq!(Object::Integer(7).cast_to_boolean(), Ok(Object::Boolean(true)));
    assert_eq!(Object::Boolean(true).cast_to_boolean(), Ok(Object::Boolean(true)));
    assert_eq!(Object::Boolean(false).cast_to_boolean(), Ok(Object::Boolean(false)));
    assert_eq!(Object::Null.cast_to_boolean(), Ok(Object::Boolean(false)));
    assert_eq!(
        Object::ReturnValue(Box::new(Object::Integer(3))).cast_to_boolean(),
        Ok(Object::Boolean(true))
    );
    let f = Object::FunctionObject {
        parameters: vec![],
        body: Statement::BlockStatement { statements: vec![] },
        env: 0,
    };
    assert_eq!(f.cast_to_boolean(), Err(EvalError::InvalidCast(f.clone())));
    assert_eq!(
        Object::ReturnValue(Box::new(f.clone())).cast_to_boolean(),
        Err(EvalError::InvalidCast(f))
    );
}

#[test]
fn null_is_equal_to_null_only() {
    assert_eq!(value_of("if (false) { 1 } == if (false) { 2 }"), Object::Boolean(true));
    assert_eq!(value_of("if (false) { 1 } != if (false) { 2 }"), Object::Boolean(false));
    assert_eq!(
        failure_of("if (false) { 1 } + if (false) { 2 }").message(),
        "unknown operator: Null + Null"
    );
    assert_eq!(
        failure_of("if (false) { 1 } == 1").message(),
        "type mismatch: Null == Integer(1)"
    );
}

#[test]
fn operators_on_values() {
    let op = |s: &str| s.to_string();
    assert_eq!(
        eval_infix_expression(op("+"), Object::Integer(2), Object::Integer(3)),
        Ok(Object::Integer(5))
    );
    assert_eq!(
        eval_infix_expression(op("-"), Object::Integer(2), Object::Integer(3)),
        Ok(Object::Integer(-1))
    );
    assert_eq!(
        eval_infix_expression(op("*"), Object::Integer(-2), Object::Integer(3)),
        Ok(Object::Integer(-6))
    );
    assert_eq!(
        eval_infix_expression(op("<"), Object::Integer(2), Object::Integer(3)),
        Ok(Object::Boolean(true))
    );
    assert_eq!(
        eval_infix_expression(op("%"), Object::Integer(2), Object::Integer(3)),
        Err(EvalError::UnknownOperator {
            left: Object::Integer(2),
            operator: op("%"),
            right: Object::Integer(3)
        })
    );
    assert_eq!(
        eval_infix_expression(op("<"), Object::Boolean(true), Object::Boolean(false)),
        Err(EvalError::UnknownOperator {
            left: Object::Boolean(true),
            operator: op("<"),
            right: Object::Boolean(false)
        })
    );
    assert_eq!(
        eval_infix_expression(op("=="), Object::Boolean(true), Object::Integer(1)),
        Err(EvalError::TypeMismatch {
            left: Object::Boolean(true),
            operator: op("=="),
            right: Object::Integer(1)
        })
    );
    assert_eq!(
        eval_infix_expression(op("="), Object::Integer(1), Object::Integer(1)).unwrap_err().message(),
        "unknown operator: Integer(1) = Integer(1)"
    );
    assert_eq!(eval_bang_prefix_expression(Object::Integer(5)), Ok(Object::Boolean(false)));
    assert_eq!(eval_bang_prefix_expression(Object::Null), Ok(Object::Boolean(true)));
    assert_eq!(eval_minus_prefix_operator_expression(Object::Integer(5)), Ok(Object::Integer(-5)));
    assert_eq!(
        eval_minus_prefix_operator_expression(Object::Null),
        Err(EvalError::InvalidNegation(Object::Null))
    );
    assert_eq!(
        eval_minus_prefix_operator_expression(Object::Null).unwrap_err().message(),
        "cannot use '-' operator on Null"
    );
}

#[test]
fn functions_of_different_kinds_do_not_mix() {
    assert_eq!(
        failure_of("fn(x) { x } + 1").message(),
        "type mismatch: FunctionObject(fn(x) {\n x\n}) + Integer(1)"
    );
    assert_eq!(
        failure_of("-fn() { }").message(),
        "cannot use '-' operator on FunctionObject(fn() {\n \n})"
    );
}

#[test]
fn a_let_gives_null_and_an_empty_program_too() {
    assert_eq!(value_of("let a = 5;"), Object::Null);
    assert_eq!(value_of(""), Object::Null);
    assert_eq!(value_of("fn() { }()"), Object::Null);
    assert_eq!(value_of("{ }"), Object::Null);
}

#[test]
fn a_block_shares_the_scope_it_stands_in() {
    assert_eq!(value_of("{ let a = 1; } a;"), Object::Integer(1));
    assert_eq!(value_of("if (true) { let a = 2; } a;"), Object::Integer(2));
}

#[test]
fn a_returned_value_keeps_its_wrapper_inside_expressions() {
    let mut env = Environment::new();
    assert_eq!(
        eval(&parse("let x = if (true) { return 5; }; 1; x; 2;").unwrap(), &mut env),
        Ok(Object::Integer(5))
    );
    assert_eq!(env.get("x"), Some(&Object::ReturnValue(Box::new(Object::Integer(5)))));
    assert_eq!(
        failure_of("if (true) { return 5; } + 1;").message(),
        "type mismatch: ReturnValue(Integer(5)) + Integer(1)"
    );
}

#[test]
fn hand_built_trees_are_evaluated() {
    let mut env = Environment::new();
    let unknown = Expression::PrefixExpression {
        operator: "~".to_string(),
        right: Box::new(Expression::IntegerLiteral(1)),
    };
    assert_eq!(eval_expression(&unknown, &mut env, 0, MAX_DEPTH), Ok(Object::Null));
    assert_eq!(
        eval_expression(&Expression::EmptyExpression, &mut env, 0, MAX_DEPTH),
        Ok(Object::Null)
    );
    assert_eq!(
        eval_statement(&Statement::EmptyStatement, &mut env, 0, MAX_DEPTH),
        Ok(Object::Null)
    );
    let odd = Object::FunctionObject {
        parameters: vec![Expression::IntegerLiteral(1), Expression::Identifier("b".to_string())],
        body: Statement::ExpressionStatement(Expression::Identifier("b".to_string())),
        env: 0,
    };
    assert_eq!(
        apply_function(odd, vec![Object::Integer(10), Object::Integer(20)], &mut env, MAX_DEPTH),
        Ok(Object::Integer(20))
    );
    let dangling = Object::FunctionObject {
        parameters: vec![],
        body: Statement::ExpressionStatement(Expression::Identifier("b".to_string())),
        env: 99,
    };
    assert_eq!(
        apply_function(dangling, vec![], &mut env, MAX_DEPTH),
        Err(EvalError::IdentifierNotFound("b".to_string()))
    );
}

#[test]
fn lists_of_expressions_and_statements() {
    let program = parse("f(1, 2 + 3, x); let y = 1; y; return y + 1; 9;").unwrap();
    let mut env = Environment::new();
    env.set("x".to_string(), Object::Boolean(true));
    let arguments = match &program.statements[0] {
        Statement::ExpressionStatement(Expression::CallExpression { arguments, .. }) => arguments,
        other => panic!("{:?}", other),
    };
    assert_eq!(
        eval_expressions(arguments, &mut env, 0, MAX_DEPTH),
        Ok(vec![Object::Integer(1), Object::Integer(5), Object::Boolean(true)])
    );
    assert_eq!(eval_expressions(&vec![], &mut env, 0, MAX_DEPTH), Ok(vec![]));
    let rest: Vec<Statement> = program.statements[1..].to_vec();
    assert_eq!(
        eval_statements(&rest, &mut env, 0, MAX_DEPTH),
        Ok(Object::ReturnValue(Box::new(Object::Integer(2))))
    );
    assert_eq!(eval_statements(&vec![], &mut env, 0, MAX_DEPTH), Ok(Object::Null));
}

#[test]
fn an_environment_lasts_from_one_program_to_the_next() {
    let mut env = Environment::new();
    assert_eq!(eval(&parse("let a = 5; let f = fn(x) { x + a };").unwrap(), &mut env), Ok(Object::Null));
    assert_eq!(eval(&parse("f(1)").unwrap(), &mut env), Ok(Object::Integer(6)));
    assert_eq!(eval(&parse("let a = 10; f(1)").unwrap(), &mut env), Ok(Object::Integer(11)));
    assert_eq!(eval(&parse("b").unwrap(), &mut env).unwrap_err().message(), "identifier not found: b");
    assert_eq!(eval(&parse("return a; 1").unwrap(), &mut env), Ok(Object::Integer(10)));
}

#[test]
fn an_error_keeps_what_was_bound_before_it() {
    let mut env = Environment::new();
    assert!(eval(&parse("let a = 1; let b = a + true; let c = 3;").unwrap(), &mut env).is_err());
    assert_eq!(env.get("a"), Some(&Object::Integer(1)));
    assert_eq!(env.get("b"), None);
    assert_eq!(env.get("c"), None);
}

#[test]
fn source_texts_are_evaluated() {
    assert_eq!(evaluate("2 * (5 + 10)"), Ok(Object::Integer(30)));
    assert_eq!(evaluate("(5 + 10 * 2 + 15 / 3) * 2 + -10"), Ok(Object::Integer(50)));
    assert_eq!(evaluate("!!true"), Ok(Object::Boolean(true)));
    assert_eq!(evaluate("!5"), Ok(Object::Boolean(false)));
    assert_eq!(evaluate("let a = 5; let b = a; let a = 10; b;"), Ok(Object::Integer(5)));
    assert_eq!(
        evaluate("if (10 > 1) { if (10 > 1) { return 10; } return 1; }"),
        Ok(Object::Integer(10))
    );
    assert!(evaluate("5 + true;").unwrap_err().message().contains("type mismatch"));
    assert!(evaluate("foobar").unwrap_err().message().contains("identifier not found"));
    assert_eq!(
        evaluate("let x 5;").unwrap_err().message(),
        "expected next token to be ASSIGN, got INT instead"
    );
    assert!(matches!(evaluate("let x 5;"), Err(Error::Parse(_))));
    assert!(matches!(evaluate("x"), Err(Error::Eval(_))));
}

#[test]
fn texts_of_values() {
    assert_eq!(Object::Integer(-5).describe(), "Integer(-5)");
    assert_eq!(Object::Boolean(true).describe(), "Boolean(true)");
    assert_eq!(Object::Boolean(false).describe(), "Boolean(false)");
    assert_eq!(Object::Null.describe(), "Null");
    assert_eq!(
        Object::ReturnValue(Box::new(Object::Integer(1))).describe(),
        "ReturnValue(Integer(1))"
    );
    assert_eq!(
        value_of("fn(a, b) { a + b }").describe(),
        "FunctionObject(fn(a, b) {\n (a + b)\n})"
    );
    for v in [Object::Integer(0), Object::Integer(i64::MIN), Object::Boolean(true), Object::Null] {
        assert_eq!(v.describe(), format!("{:?}", v));
    }
}

#[test]
fn copies_of_values_are_equal() {
    let f = value_of("fn(a, b) { if (a) { b } }");
    assert_eq!(f.clone(), f);
    let wrapped = Object::ReturnValue(Box::new(f));
    assert_eq!(wrapped.clone(), wrapped);
}

#[test]
fn operators_of_one_level_group_from_the_left() {
    let tests = vec![
        ("1 - 2 - 3", -4),
        ("1 - (2 - 3)", 2),
        ("100 / 10 / 5", 2),
        ("100 / (10 / 5)", 50),
        ("2 * 3 / 4", 1),
        ("2 * (3 / 4)", 0),
        ("7 - 4 + 2", 5),
        ("7 - (4 + 2)", 1),
        ("-2 * -3", 6),
        ("- - 5", 5),
        ("1 - -2", 3),
        ("-(1 + 2) * 3", -9),
        ("-1 + 2 * 3 - 4 / 2", 3),
    ];
    for (input, expected) in tests {
        assert_eq!(value_of(input), Object::Integer(expected), "{}", input);
    }
}

#[test]
fn comparisons_bind_less_strongly_than_arithmetic() {
    let tests = vec![
        ("1 + 2 < 2 * 2", true),
        ("1 + 2 == 3", true),
        ("2 * 3 != 3 + 3", false),
        ("1 < 2 == 2 > 1", true),
        ("!true == false", true),
        ("-1 < 0", true),
    ];
    for (input, expected) in tests {
        assert_eq!(value_of(input), Object::Boolean(expected), "{}", input);
    }
}
