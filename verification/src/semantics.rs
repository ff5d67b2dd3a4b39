//! What a program means: the value of each expression and statement in an
//! environment.
use crate::ast::{ExpressionView, StatementView};
use crate::object::{bind, extend, lookup, truth, EnvironmentView, EvalErrorView, ObjectView};
use vstd::prelude::*;

verus! {

/// What evaluating a piece of a program gives: a value or the error that
/// ended the evaluation, and the environment as the evaluation left it.
pub struct Outcome<T> {
    pub result: Result<T, EvalErrorView>,
    pub env: EnvironmentView,
}

/// The quotient of `a` by `b`, rounded towards zero.
pub open spec fn quotient(a: int, b: int) -> int {
    if a >= 0 && b > 0 {
        a / b
    } else if a >= 0 && b < 0 {
        -(a / (-b))
    } else if a < 0 && b > 0 {
        -((-a) / b)
    } else if a < 0 && b < 0 {
        (-a) / (-b)
    } else {
        0
    }
}

/// The integer `n` as a value, or the overflow of `first operator second`
/// if `n` does not fit in 64 bits.
pub open spec fn integer_or_overflow(
    n: int,
    first: i64,
    operator: Seq<char>,
    second: i64,
) -> Result<ObjectView,EvalErrorView> {
    if i64::MIN <= n <= i64::MAX {
        Ok(ObjectView::Integer(n as i64))
    } else {
        Err(EvalErrorView::IntegerOverflow { first, operator, second })
    }
}

/// An infix operator on two integers: arithmetic in 64 bits, where a
/// result out of range and a division by zero are errors, and the
/// comparisons.
pub open spec fn integer_infix(operator: Seq<char>, a: i64, b: i64) -> Result<
    ObjectView,
    EvalErrorView,
> {
    if operator == seq!['+'] {
        integer_or_overflow(a + b, a, operator, b)
    } else if operator == seq!['-'] {
        integer_or_overflow(a - b, a, operator, b)
    } else if operator == seq!['*'] {
        integer_or_overflow(a * b, a, operator, b)
    } else if operator == seq!['/'] {
        if b == 0 {
            Err(EvalErrorView::DivisionByZero { dividend: a })
        } else {
            integer_or_overflow(quotient(a as int, b as int), a, operator, b)
        }
    } else if operator == seq!['<'] {
        Ok(ObjectView::Boolean(a < b))
    } else if operator == seq!['>'] {
        Ok(ObjectView::Boolean(a > b))
    } else if operator == seq!['=', '='] {
        Ok(ObjectView::Boolean(a == b))
    } else if operator == seq!['!', '='] {
        Ok(ObjectView::Boolean(a != b))
    } else {
        Err(
            EvalErrorView::UnknownOperator {
                left: ObjectView::Integer(a),
                operator,
                right: ObjectView::Integer(b),
            },
        )
    }
}

/// An infix operator on two values. Both must be integers, both booleans or
/// both null; booleans and null can only be compared for equality.
pub open spec fn apply_infix(operator: Seq<char>, left: ObjectView, right: ObjectView) -> Result<
    ObjectView,
    EvalErrorView,
> {
    match (left, right) {
        (ObjectView::Integer(a), ObjectView::Integer(b)) => integer_infix(operator, a, b),
        (ObjectView::Boolean(a), ObjectView::Boolean(b)) => if operator == seq!['=', '='] {
            Ok(ObjectView::Boolean(a == b))
        } else if operator == seq!['!', '='] {
            Ok(ObjectView::Boolean(a != b))
        } else {
            Err(EvalErrorView::UnknownOperator { left, operator, right })
        },
        (ObjectView::Null, ObjectView::Null) => if operator == seq!['=', '='] {
            Ok(ObjectView::Boolean(true))
        } else if operator == seq!['!', '='] {
            Ok(ObjectView::Boolean(false))
        } else {
            Err(EvalErrorView::UnknownOperator { left, operator, right })
        },
        _ => Err(EvalErrorView::TypeMismatch { left, operator, right }),
    }
}

/// `!` on a value: the negation of its truth value.
pub open spec fn apply_bang(right: ObjectView) -> Result<ObjectView, EvalErrorView> {
    match truth(right) {
        Ok(b) => Ok(ObjectView::Boolean(!b)),
        Err(e) => Err(e),
    }
}

/// `-` on a value: the negative of an integer, if it fits in 64 bits.
pub open spec fn apply_minus(right: ObjectView) -> Result<ObjectView, EvalErrorView> {
    match right {
        ObjectView::Integer(i) => integer_or_overflow(-i, 0, seq!['-'], i),
        _ => Err(EvalErrorView::InvalidNegation(right)),
    }
}

/// A prefix operator on a value. An operator other than `!` and `-` gives
/// null.
pub open spec fn apply_prefix(operator: Seq<char>, right: ObjectView) -> Result<
    ObjectView,
    EvalErrorView,
> {
    if operator == seq!['!'] {
        apply_bang(right)
    } else if operator == seq!['-'] {
        apply_minus(right)
    } else {
        Ok(ObjectView::Null)
    }
}

/// A value with one return wrapper taken off, if it has one.
pub open spec fn unwrap_return(o: ObjectView) -> ObjectView {
    match o {
        ObjectView::ReturnValue(inner) => *inner,
        _ => o,
    }
}

/// The environment after the first `k` parameters were bound to the first
/// `k` arguments in the scope at place `scope`. A parameter that is no
/// identifier binds nothing.
pub open spec fn bind_parameters(
    env: EnvironmentView,
    scope: nat,
    parameters: Seq<ExpressionView>,
    arguments: Seq<ObjectView>,
    k: nat,
) -> EnvironmentView
    decreases k,
{
    if k == 0 {
        env
    } else {
        let before = bind_parameters(env, scope, parameters, arguments, (k - 1) as nat);
        match parameters[k - 1] {
            ExpressionView::Identifier(name) => bind(before, scope, name, arguments[k - 1]),
            _ => before,
        }
    }
}

/// The value of an expression in the scope at place `scope`, with `fuel`
/// levels of nesting left. Each nested expression, statement and call uses
/// up one level; with none left the evaluation ends in `StackOverflow`.
pub open spec fn eval_expression(
    e: ExpressionView,
    env: EnvironmentView,
    scope: nat,
    fuel: nat,
) -> Outcome<ObjectView>
    decreases fuel, 0nat,
{
    if fuel == 0 {
        Outcome { result: Err(EvalErrorView::StackOverflow), env }
    } else {
        let rest = (fuel - 1) as nat;
        match e {
            ExpressionView::Empty => Outcome { result: Ok(ObjectView::Null), env },
            ExpressionView::Integer(i) => Outcome { result: Ok(ObjectView::Integer(i)), env },
            ExpressionView::Boolean(b) => Outcome { result: Ok(ObjectView::Boolean(b)), env },
            ExpressionView::Identifier(name) => match lookup(env, scope, name) {
                Some(value) => Outcome { result: Ok(value), env },
                None => Outcome { result: Err(EvalErrorView::IdentifierNotFound(name)), env },
            },
            ExpressionView::Prefix { operator, right } => {
                let operand = eval_expression(*right, env, scope, rest);
                match operand.result {
                    Err(e) => operand,
                    Ok(value) => Outcome {
                        result: apply_prefix(operator, value),
                        env: operand.env,
                    },
                }
            },
            ExpressionView::Infix { left, operator, right } => {
                let first = eval_expression(*left, env, scope, rest);
                match first.result {
                    Err(e) => first,
                    Ok(a) => {
                        let second = eval_expression(*right, first.env, scope, rest);
                        match second.result {
                            Err(e) => second,
                            Ok(b) => Outcome {
                                result: apply_infix(operator, a, b),
                                env: second.env,
                            },
                        }
                    },
                }
            },
            ExpressionView::If { condition, consequence, alternative } => {
                let tested = eval_expression(*condition, env, scope, rest);
                match tested.result {
                    Err(e) => tested,
                    Ok(value) => match truth(value) {
                        Err(e) => Outcome { result: Err(e), env: tested.env },
                        Ok(true) => eval_statement(*consequence, tested.env, scope, rest),
                        Ok(false) => match alternative {
                            Some(block) => eval_statement(*block, tested.env, scope, rest),
                            None => Outcome { result: Ok(ObjectView::Null), env: tested.env },
                        },
                    },
                }
            },
            ExpressionView::Function { parameters, body } => Outcome {
                result: Ok(ObjectView::Function { parameters, body: *body, env: scope }),
                env,
            },
            ExpressionView::Call { function, arguments } => {
                let callee = eval_expression(*function, env, scope, rest);
                match callee.result {
                    Err(e) => callee,
                    Ok(f) => {
                        let given = eval_expressions(arguments, 0, callee.env, scope, rest);
                        match given.result {
                            Err(e) => Outcome { result: Err(e), env: given.env },
                            Ok(values) => apply_function(f, values, given.env, rest),
                        }
                    },
                }
            },
        }
    }
}

/// The values of the expressions of `es` from place `i` on, evaluated from
/// left to right, each in the environment that the one before it left.
pub open spec fn eval_expressions(
    es: Seq<ExpressionView>,
    i: nat,
    env: EnvironmentView,
    scope: nat,
    fuel: nat,
) -> Outcome<Seq<ObjectView>>
    decreases fuel, es.len() - i + 1,
{
    if i >= es.len() {
        Outcome { result: Ok(Seq::empty()), env }
    } else {
        let first = eval_expression(es[i as int], env, scope, fuel);
        match first.result {
            Err(e) => Outcome { result: Err(e), env: first.env },
            Ok(value) => {
                let others = eval_expressions(es, i + 1, first.env, scope, fuel);
                match others.result {
                    Err(e) => others,
                    Ok(values) => Outcome { result: Ok(seq![value] + values), env: others.env },
                }
            },
        }
    }
}

/// A call of the value `f` with the arguments `values`. A function runs its
/// body in a new scope, enclosed by the scope in which the function was
/// defined, with its parameters bound to the arguments; what the body
/// returns is the value of the call.
pub open spec fn apply_function(
    f: ObjectView,
    values: Seq<ObjectView>,
    env: EnvironmentView,
    fuel: nat,
) -> Outcome<ObjectView>
    decreases fuel, 1nat,
{
    match f {
        ObjectView::Function { parameters, body, env: defined } => if parameters.len()
            != values.len() {
            Outcome {
                result: Err(
                    EvalErrorView::WrongArgumentCount {
                        expected: parameters.len(),
                        found: values.len(),
                    },
                ),
                env,
            }
        } else {
            let child = env.scopes.len();
            let bound = bind_parameters(
                extend(env, defined),
                child,
                parameters,
                values,
                parameters.len(),
            );
            let ran = eval_statement(body, bound, child, fuel);
            match ran.result {
                Err(e) => ran,
                Ok(value) => Outcome { result: Ok(unwrap_return(value)), env: ran.env },
            }
        },
        _ => Outcome { result: Err(EvalErrorView::NotAFunction(f)), env },
    }
}

/// The value of a statement in the scope at place `scope`. `let` binds its
/// name in that scope and gives null; `return` wraps the value of its
/// expression.
pub open spec fn eval_statement(
    s: StatementView,
    env: EnvironmentView,
    scope: nat,
    fuel: nat,
) -> Outcome<ObjectView>
    decreases fuel, 0nat,
{
    if fuel == 0 {
        Outcome { result: Err(EvalErrorView::StackOverflow), env }
    } else {
        let rest = (fuel - 1) as nat;
        match s {
            StatementView::Empty => Outcome { result: Ok(ObjectView::Null), env },
            StatementView::Expression(e) => eval_expression(e, env, scope, rest),
            StatementView::Block { statements } => eval_statements(statements, 0, env, scope, rest),
            StatementView::Return(e) => {
                let returned = eval_expression(e, env, scope, rest);
                match returned.result {
                    Err(e) => returned,
                    Ok(value) => Outcome {
                        result: Ok(ObjectView::ReturnValue(Box::new(value))),
                        env: returned.env,
                    },
                }
            },
            StatementView::Let { name, value } => {
                let computed = eval_expression(value, env, scope, rest);
                match computed.result {
                    Err(e) => computed,
                    Ok(v) => Outcome {
                        result: Ok(ObjectView::Null),
                        env: bind(computed.env, scope, name, v),
                    },
                }
            },
        }
    }
}

/// The value of the statements of `ss` from place `i` on: that of the first
/// one that gives a returned value, or else that of the last; null if there
/// is none.
pub open spec fn eval_statements(
    ss: Seq<StatementView>,
    i: nat,
    env: EnvironmentView,
    scope: nat,
    fuel: nat,
) -> Outcome<ObjectView>
    decreases fuel, ss.len() - i + 1,
{
    if i >= ss.len() {
        Outcome { result: Ok(ObjectView::Null), env }
    } else {
        let first = eval_statement(ss[i as int], env, scope, fuel);
        match first.result {
            Err(e) => first,
            Ok(value) => if value is ReturnValue || i + 1 >= ss.len() {
                first
            } else {
                eval_statements(ss, i + 1, first.env, scope, fuel)
            },
        }
    }
}

/// The value of a program in the outermost scope of `env`: that of its
/// statements, with the return wrapper of a returned value taken off.
pub open spec fn eval_program(ss: Seq<StatementView>, env: EnvironmentView, fuel: nat) -> Outcome<
    ObjectView,
> {
    let ran = eval_statements(ss, 0, env, 0, fuel);
    match ran.result {
        Err(e) => ran,
        Ok(value) => Outcome { result: Ok(unwrap_return(value)), env: ran.env },
    }
}

} // verus!
