//! The evaluator: it walks the syntax tree and computes what `semantics`
//! defines.
use crate::ast::{
    clone_expressions, clone_statement, expressions_view, statements_view, Expression, Program,
    Statement,
};
use crate::object::{
    bind, clone_object, extend, fresh, objects_view, Environment, EnvironmentView, EvalError,
    EvalErrorView, Object, ObjectView,
};
use crate::semantics;
use crate::semantics::{
    apply_bang, apply_infix, apply_minus, apply_prefix, bind_parameters, integer_infix,
    unwrap_return, Outcome,
};
use vstd::prelude::*;

verus! {

/// How deeply expressions, statements and calls may be nested in one
/// evaluation.
pub const MAX_DEPTH: usize = 512;

/// Whether `r` is the value or the error that `expected` names.
pub open spec fn result_is(r: Result<Object, EvalError>, expected: Result<
    ObjectView,
    EvalErrorView,
>) -> bool {
    match expected {
        Ok(value) => r matches Ok(o) && o@ == value,
        Err(e) => r matches Err(x) && x@ == e,
    }
}

/// Whether `r` and `env` are what the evaluation `expected` gives and
/// leaves.
pub open spec fn agrees(r: Result<Object, EvalError>, env: EnvironmentView, expected: Outcome<
    ObjectView,
>) -> bool {
    result_is(r, expected.result) && env == expected.env
}

/// Whether `s` is the one character `a`.
fn spells(s: &str, a: char) -> (r: bool)
    ensures
        r == (s@ == seq![a]),
{
    if s.unicode_len() == 1 {
        let same = s.get_char(0) == a;
        assert(same == (s@ =~= seq![a]));
        same
    } else {
        false
    }
}

/// Whether `s` is the two characters `a`, `b`.
fn spells_two(s: &str, a: char, b: char) -> (r: bool)
    ensures
        r == (s@ == seq![a, b]),
{
    if s.unicode_len() == 2 {
        let same = s.get_char(0) == a && s.get_char(1) == b;
        assert(same == (s@ =~= seq![a, b]));
        same
    } else {
        false
    }
}

/// `!` on a value.
pub fn eval_bang_prefix_expression(right: Object) -> (r: Result<Object, EvalError>)
    ensures
        result_is(r, apply_bang(right@)),
{
    match right {
        Object::Boolean(b) => Ok(Object::Boolean(!b)),
        _ => match right.cast_to_boolean() {
            Ok(Object::Boolean(b)) => Ok(Object::Boolean(!b)),
            Ok(other) => Ok(other),
            Err(e) => Err(e),
        },
    }
}

/// `-` on a value.
pub fn eval_minus_prefix_operator_expression(right: Object) -> (r: Result<Object, EvalError>)
    ensures
        result_is(r, apply_minus(right@)),
{
    match right {
        Object::Integer(i) => match 0i64.checked_sub(i) {
            Some(n) => Ok(Object::Integer(n)),
            None => {
                let operator = String::from_str("-");
                proof {
                    reveal_strlit("-");
                    assert(operator@ =~= seq!['-']);
                }
                Err(EvalError::IntegerOverflow { first: 0, operator, second: i })
            },
        },
        _ => Err(EvalError::InvalidNegation(right)),
    }
}

/// A prefix operator on a value.
fn eval_prefix_expression(operator: &str, right: Object) -> (r: Result<Object, EvalError>)
    ensures
        result_is(r, apply_prefix(operator@, right@)),
{
    if spells(operator, '!') {
        eval_bang_prefix_expression(right)
    } else if spells(operator, '-') {
        eval_minus_prefix_operator_expression(right)
    } else {
        Ok(Object::Null)
    }
}

/// The integer `n`, or the overflow of `first operator second` if there is
/// none.
fn integer_result(n: Option<i64>, first: i64, operator: String, second: i64) -> (r: Result<
    Object,
    EvalError,
>)
    ensures
        match n {
            Some(i) => r matches Ok(o) && o@ == ObjectView::Integer(i),
            None => r matches Err(x) && x@ == (EvalErrorView::IntegerOverflow {
                first,
                operator: operator@,
                second,
            }),
        },
{
    match n {
        Some(i) => Ok(Object::Integer(i)),
        None => Err(EvalError::IntegerOverflow { first, operator, second }),
    }
}

/// An infix operator on two integers.
fn eval_integer_infix_expression(operator: String, a: i64, b: i64) -> (r: Result<
    Object,
    EvalError,
>)
    ensures
        result_is(r, integer_infix(operator@, a, b)),
{
    if spells(operator.as_str(), '+') {
        integer_result(a.checked_add(b), a, operator, b)
    } else if spells(operator.as_str(), '-') {
        integer_result(a.checked_sub(b), a, operator, b)
    } else if spells(operator.as_str(), '*') {
        integer_result(a.checked_mul(b), a, operator, b)
    } else if spells(operator.as_str(), '/') {
        if b == 0 {
            Err(EvalError::DivisionByZero { dividend: a })
        } else {
            integer_result(a.checked_div(b), a, operator, b)
        }
    } else if spells(operator.as_str(), '<') {
        Ok(Object::Boolean(a < b))
    } else if spells(operator.as_str(), '>') {
        Ok(Object::Boolean(a > b))
    } else if spells_two(operator.as_str(), '=', '=') {
        Ok(Object::Boolean(a == b))
    } else if spells_two(operator.as_str(), '!', '=') {
        Ok(Object::Boolean(a != b))
    } else {
        Err(
            EvalError::UnknownOperator {
                left: Object::Integer(a),
                operator,
                right: Object::Integer(b),
            },
        )
    }
}

/// An infix operator on two values.
pub fn eval_infix_expression(operator: String, left: Object, right: Object) -> (r: Result<
    Object,
    EvalError,
>)
    ensures
        result_is(r, apply_infix(operator@, left@, right@)),
{
    match (left, right) {
        (Object::Integer(a), Object::Integer(b)) => eval_integer_infix_expression(operator, a, b),
        (Object::Boolean(a), Object::Boolean(b)) => {
            if spells_two(operator.as_str(), '=', '=') {
                Ok(Object::Boolean(a == b))
            } else if spells_two(operator.as_str(), '!', '=') {
                Ok(Object::Boolean(a != b))
            } else {
                Err(
                    EvalError::UnknownOperator {
                        left: Object::Boolean(a),
                        operator,
                        right: Object::Boolean(b),
                    },
                )
            }
        },
        (Object::Null, Object::Null) => {
            if spells_two(operator.as_str(), '=', '=') {
                Ok(Object::Boolean(true))
            } else if spells_two(operator.as_str(), '!', '=') {
                Ok(Object::Boolean(false))
            } else {
                Err(
                    EvalError::UnknownOperator {
                        left: Object::Null,
                        operator,
                        right: Object::Null,
                    },
                )
            }
        },
        (left, right) => Err(EvalError::TypeMismatch { left, operator, right }),
    }
}

/// Whether `o` is a value on its way out.
fn is_return_value(o: &Object) -> (r: bool)
    ensures
        r == (o@ is ReturnValue),
{
    match o {
        Object::ReturnValue(_) => true,
        _ => false,
    }
}

/// `o` with one return wrapper taken off, if it has one.
fn unwrap_return_value(o: Object) -> (r: Object)
    ensures
        r@ == unwrap_return(o@),
{
    match o {
        Object::ReturnValue(inner) => *inner,
        other => other,
    }
}

/// Evaluates an expression in the scope at place `scope`, with `depth`
/// levels of nesting left.
pub fn eval_expression(
    expression: &Expression,
    env: &mut Environment,
    scope: usize,
    depth: usize,
) -> (r: Result<Object, EvalError>)
    ensures
        agrees(
            r,
            final(env)@,
            semantics::eval_expression(expression@, old(env)@, scope as nat, depth as nat),
        ),
    decreases depth, 0nat,
{
    if depth == 0 {
        return Err(EvalError::StackOverflow);
    }
    match expression {
        Expression::EmptyExpression => Ok(Object::Null),
        Expression::IntegerLiteral(i) => Ok(Object::Integer(*i)),
        Expression::Boolean(b) => Ok(Object::Boolean(*b)),
        Expression::Identifier(name) => match env.lookup(scope, name.as_str()) {
            Some(value) => Ok(clone_object(value)),
            None => Err(EvalError::IdentifierNotFound(name.clone())),
        },
        Expression::PrefixExpression { operator, right } => {
            match eval_expression(right, env, scope, depth - 1) {
                Ok(value) => eval_prefix_expression(operator.as_str(), value),
                Err(e) => Err(e),
            }
        },
        Expression::InfixExpression { left, operator, right } => {
            match eval_expression(left, env, scope, depth - 1) {
                Ok(a) => match eval_expression(right, env, scope, depth - 1) {
                    Ok(b) => eval_infix_expression(operator.clone(), a, b),
                    Err(e) => Err(e),
                },
                Err(e) => Err(e),
            }
        },
        Expression::IfExpression { condition, consequence, alternative } => {
            match eval_expression(condition, env, scope, depth - 1) {
                Ok(value) => match value.cast_to_boolean() {
                    Ok(Object::Boolean(true)) => eval_statement(consequence, env, scope, depth - 1),
                    Ok(_) => match alternative {
                        Some(block) => eval_statement(block, env, scope, depth - 1),
                        None => Ok(Object::Null),
                    },
                    Err(e) => Err(e),
                },
                Err(e) => Err(e),
            }
        },
        Expression::FunctionLiteral { parameters, body } => Ok(
            Object::FunctionObject {
                parameters: clone_expressions(parameters),
                body: clone_statement(body),
                env: scope,
            },
        ),
        Expression::CallExpression { function, arguments } => {
            match eval_expression(function, env, scope, depth - 1) {
                Ok(f) => match eval_expressions(arguments, env, scope, depth - 1) {
                    Ok(values) => apply_function(f, values, env, depth - 1),
                    Err(e) => Err(e),
                },
                Err(e) => Err(e),
            }
        },
    }
}

/// Evaluates the expressions of `es` from left to right.
pub fn eval_expressions(
    es: &Vec<Expression>,
    env: &mut Environment,
    scope: usize,
    depth: usize,
) -> (r: Result<Vec<Object>, EvalError>)
    ensures
        final(env)@ == semantics::eval_expressions(
            expressions_view(es@),
            0,
            old(env)@,
            scope as nat,
            depth as nat,
        ).env,
        match semantics::eval_expressions(
            expressions_view(es@),
            0,
            old(env)@,
            scope as nat,
            depth as nat,
        ).result {
            Ok(values) => r matches Ok(v) && objects_view(v@) == values,
            Err(e) => r matches Err(x) && x@ == e,
        },
    decreases depth, es.len() + 1,
{
    let ghost views = expressions_view(es@);
    let ghost start = env@;
    let mut values: Vec<Object> = Vec::new();
    let mut i: usize = 0;
    assert(objects_view(values@) =~= Seq::<ObjectView>::empty());
    while i < es.len()
        invariant
            i <= es.len(),
            views == expressions_view(es@),
            start == old(env)@,
            semantics::eval_expressions(views, 0, start, scope as nat, depth as nat) == ({
                let rest = semantics::eval_expressions(
                    views,
                    i as nat,
                    env@,
                    scope as nat,
                    depth as nat,
                );
                match rest.result {
                    Ok(more) => Outcome { result: Ok(objects_view(values@) + more), env: rest.env },
                    Err(e) => rest,
                }
            }),
        decreases es.len() - i,
    {
        let ghost before = objects_view(values@);
        let ghost here = env@;
        let value = match eval_expression(&es[i], env, scope, depth) {
            Ok(value) => value,
            Err(e) => {
                return Err(e);
            },
        };
        values.push(value);
        proof {
            assert(objects_view(values@) =~= before.push(value@));
            let rest = semantics::eval_expressions(
                views,
                (i + 1) as nat,
                env@,
                scope as nat,
                depth as nat,
            );
            match rest.result {
                Ok(more) => {
                    assert(before + (seq![value@] + more) =~= before.push(value@) + more);
                },
                Err(e) => {},
            }
        }
        i += 1;
    }
    assert(objects_view(values@) + Seq::<ObjectView>::empty() =~= objects_view(values@));
    Ok(values)
}

/// Calls the value `f` with the arguments `values`.
pub fn apply_function(f: Object, values: Vec<Object>, env: &mut Environment, depth: usize) -> (r:
    Result<Object, EvalError>)
    ensures
        agrees(
            r,
            final(env)@,
            semantics::apply_function(f@, objects_view(values@), old(env)@, depth as nat),
        ),
    decreases depth, 1nat,
{
    match f {
        Object::FunctionObject { parameters, body, env: defined } => {
            if parameters.len() != values.len() {
                return Err(
                    EvalError::WrongArgumentCount {
                        expected: parameters.len(),
                        found: values.len(),
                    },
                );
            }
            let ghost names = expressions_view(parameters@);
            let ghost given = objects_view(values@);
            let child = env.extend(defined);
            let mut k: usize = 0;
            while k < parameters.len()
                invariant
                    k <= parameters.len() == values.len(),
                    names == expressions_view(parameters@),
                    given == objects_view(values@),
                    child == old(env)@.scopes.len(),
                    env@ == bind_parameters(
                        extend(old(env)@, defined as nat),
                        child as nat,
                        names,
                        given,
                        k as nat,
                    ),
                decreases parameters.len() - k,
            {
                match &parameters[k] {
                    Expression::Identifier(name) => {
                        env.bind(child, name.clone(), clone_object(&values[k]));
                    },
                    _ => {},
                }
                k += 1;
            }
            match eval_statement(&body, env, child, depth) {
                Ok(value) => Ok(unwrap_return_value(value)),
                Err(e) => Err(e),
            }
        },
        other => Err(EvalError::NotAFunction(other)),
    }
}

/// Evaluates a statement in the scope at place `scope`, with `depth` levels
/// of nesting left.
pub fn eval_statement(
    statement: &Statement,
    env: &mut Environment,
    scope: usize,
    depth: usize,
) -> (r: Result<Object, EvalError>)
    ensures
        agrees(
            r,
            final(env)@,
            semantics::eval_statement(statement@, old(env)@, scope as nat, depth as nat),
        ),
    decreases depth, 0nat,
{
    if depth == 0 {
        return Err(EvalError::StackOverflow);
    }
    match statement {
        Statement::EmptyStatement => Ok(Object::Null),
        Statement::ExpressionStatement(e) => eval_expression(e, env, scope, depth - 1),
        Statement::BlockStatement { statements } => eval_statements(
            statements,
            env,
            scope,
            depth - 1,
        ),
        Statement::ReturnStatement(e) => match eval_expression(e, env, scope, depth - 1) {
            Ok(value) => Ok(Object::ReturnValue(Box::new(value))),
            Err(e) => Err(e),
        },
        Statement::LetStatement { name, value } => match eval_expression(
            value,
            env,
            scope,
            depth - 1,
        ) {
            Ok(v) => {
                env.bind(scope, name.clone(), v);
                Ok(Object::Null)
            },
            Err(e) => Err(e),
        },
    }
}

/// Evaluates statements in order, up to the first that gives a returned
/// value.
pub fn eval_statements(
    statements: &Vec<Statement>,
    env: &mut Environment,
    scope: usize,
    depth: usize,
) -> (r: Result<Object, EvalError>)
    ensures
        agrees(
            r,
            final(env)@,
            semantics::eval_statements(
                statements_view(statements@),
                0,
                old(env)@,
                scope as nat,
                depth as nat,
            ),
        ),
    decreases depth, statements.len() + 1,
{
    let ghost views = statements_view(statements@);
    let mut result = Object::Null;
    let mut i: usize = 0;
    while i < statements.len()
        invariant
            i <= statements.len(),
            views == statements_view(statements@),
            semantics::eval_statements(views, 0, old(env)@, scope as nat, depth as nat) == (if i
                < statements.len() {
                semantics::eval_statements(views, i as nat, env@, scope as nat, depth as nat)
            } else {
                Outcome { result: Ok(result@), env: env@ }
            }),
        decreases statements.len() - i,
    {
        result = match eval_statement(&statements[i], env, scope, depth) {
            Ok(value) => value,
            Err(e) => {
                return Err(e);
            },
        };
        if is_return_value(&result) {
            return Ok(result);
        }
        i += 1;
    }
    Ok(result)
}

/// Evaluates a program in the outermost scope of `env`.
pub fn eval(program: &Program, env: &mut Environment) -> (r: Result<Object, EvalError>)
    ensures
        agrees(
            r,
            final(env)@,
            semantics::eval_program(program@.statements, old(env)@, MAX_DEPTH as nat),
        ),
{
    match eval_statements(&program.statements, env, 0, MAX_DEPTH) {
        Ok(value) => Ok(unwrap_return_value(value)),
        Err(e) => Err(e),
    }
}

/// Evaluates a program in an environment of its own.
pub fn eval_program(program: Program) -> (r: Result<Object, EvalError>)
    ensures
        result_is(
            r,
            semantics::eval_program(program@.statements, fresh(), MAX_DEPTH as nat).result,
        ),
{
    let mut env = Environment::new();
    eval(&program, &mut env)
}

} // verus!
