//! Integer arithmetic: the value of an expression that is made of integers
//! and the operators `+`, `-`, `*` and `/`, and its evaluation.
use crate::ast::{ExpressionView, StatementView};
use crate::notation::is_operator_expression;
use crate::object::{EnvironmentView, EvalErrorView, ObjectView};
use crate::semantics::{
    apply_infix, apply_prefix, eval_expression, eval_program, eval_statement, eval_statements,
    integer_infix, quotient, Outcome,
};
use vstd::prelude::*;

verus! {

/// Whether `text` is one of the four arithmetic operators.
pub open spec fn is_arithmetic_operator(text: Seq<char>) -> bool {
    text == seq!['+'] || text == seq!['-'] || text == seq!['*'] || text == seq!['/']
}

/// Whether an expression is made of integers that are not negative, the
/// prefix `-` and the four arithmetic operators only.
pub open spec fn is_arithmetic(e: ExpressionView) -> bool
    decreases e,
{
    match e {
        ExpressionView::Integer(i) => i >= 0,
        ExpressionView::Prefix { operator, right } => operator == seq!['-'] && is_arithmetic(
            *right,
        ),
        ExpressionView::Infix { left, operator, right } => is_arithmetic_operator(operator)
            && is_arithmetic(*left) && is_arithmetic(*right),
        _ => false,
    }
}

/// The number that an arithmetic expression denotes. A quotient is rounded
/// towards zero.
pub open spec fn arithmetic_value(e: ExpressionView) -> int
    decreases e,
{
    match e {
        ExpressionView::Integer(i) => i as int,
        ExpressionView::Prefix { operator, right } => -arithmetic_value(*right),
        ExpressionView::Infix { left, operator, right } => {
            let a = arithmetic_value(*left);
            let b = arithmetic_value(*right);
            if operator == seq!['+'] {
                a + b
            } else if operator == seq!['-'] {
                a - b
            } else if operator == seq!['*'] {
                a * b
            } else {
                quotient(a, b)
            }
        },
        _ => 0,
    }
}

/// Whether an arithmetic expression can be computed in 64 bits: it and
/// each of its parts denote a number that fits, and nothing is divided by
/// zero.
pub open spec fn is_computable(e: ExpressionView) -> bool
    decreases e,
{
    &&& i64::MIN <= arithmetic_value(e) <= i64::MAX
    &&& match e {
        ExpressionView::Prefix { operator, right } => is_computable(*right),
        ExpressionView::Infix { left, operator, right } => {
            &&& is_computable(*left)
            &&& is_computable(*right)
            &&& operator == seq!['/'] ==> arithmetic_value(*right) != 0
        },
        _ => true,
    }
}

/// How deeply the operators of an expression are nested, counting the
/// expression itself.
pub open spec fn depth(e: ExpressionView) -> nat
    decreases e,
{
    match e {
        ExpressionView::Prefix { operator, right } => 1 + depth(*right),
        ExpressionView::Infix { left, operator, right } => 1 + if depth(*left) >= depth(*right) {
            depth(*left)
        } else {
            depth(*right)
        },
        _ => 1,
    }
}

/// The four arithmetic operators are four.
proof fn lemma_arithmetic_operators_differ()
    ensures
        seq!['+'] != seq!['-'],
        seq!['+'] != seq!['*'],
        seq!['+'] != seq!['/'],
        seq!['-'] != seq!['*'],
        seq!['-'] != seq!['/'],
        seq!['*'] != seq!['/'],
        seq!['-'] != seq!['!'],
{
    assert(seq!['+'][0] == '+');
    assert(seq!['-'][0] == '-');
    assert(seq!['*'][0] == '*');
    assert(seq!['/'][0] == '/');
    assert(seq!['!'][0] == '!');
}

/// An arithmetic expression is an operator expression.
pub proof fn lemma_arithmetic_is_operator_expression(e: ExpressionView)
    requires
        is_arithmetic(e),
    ensures
        is_operator_expression(e),
    decreases e,
{
    lemma_arithmetic_operators_differ();
    match e {
        ExpressionView::Prefix { operator, right } => {
            lemma_arithmetic_is_operator_expression(*right);
        },
        ExpressionView::Infix { left, operator, right } => {
            lemma_arithmetic_is_operator_expression(*left);
            lemma_arithmetic_is_operator_expression(*right);
        },
        _ => {},
    }
}

/// An arithmetic expression that can be computed evaluates to the number
/// it denotes, in any environment, which it leaves as it is, if it is not
/// nested more deeply than the evaluator goes.
pub proof fn lemma_arithmetic_evaluates(
    e: ExpressionView,
    env: EnvironmentView,
    scope: nat,
    fuel: nat,
)
    requires
        is_arithmetic(e),
        is_computable(e),
        fuel >= depth(e),
    ensures
        eval_expression(e, env, scope, fuel) == (Outcome {
            result: Ok::<ObjectView, EvalErrorView>(
                ObjectView::Integer(arithmetic_value(e) as i64),
            ),
            env,
        }),
    decreases e,
{
    lemma_arithmetic_operators_differ();
    let rest = (fuel - 1) as nat;
    match e {
        ExpressionView::Prefix { operator, right } => {
            lemma_arithmetic_evaluates(*right, env, scope, rest);
            assert(is_computable(*right));
            let v = arithmetic_value(*right);
            assert(i64::MIN <= v <= i64::MAX);
            assert(apply_prefix(operator, ObjectView::Integer(v as i64)) == Ok::<
                ObjectView,
                EvalErrorView,
            >(ObjectView::Integer((-v) as i64)));
        },
        ExpressionView::Infix { left, operator, right } => {
            lemma_arithmetic_evaluates(*left, env, scope, rest);
            lemma_arithmetic_evaluates(*right, env, scope, rest);
            assert(is_computable(*left));
            assert(is_computable(*right));
            let x = arithmetic_value(*left);
            let y = arithmetic_value(*right);
            assert(i64::MIN <= x <= i64::MAX);
            assert(i64::MIN <= y <= i64::MAX);
            let a = x as i64;
            let b = y as i64;
            assert(a == x && b == y);
            if operator == seq!['+'] {
                assert(arithmetic_value(e) == a + b);
            } else if operator == seq!['-'] {
                assert(arithmetic_value(e) == a - b);
            } else if operator == seq!['*'] {
                assert(arithmetic_value(e) == a * b);
            } else {
                assert(operator == seq!['/']);
                assert(arithmetic_value(e) == quotient(a as int, b as int));
            }
            assert(integer_infix(operator, a, b) == Ok::<ObjectView, EvalErrorView>(
                ObjectView::Integer(arithmetic_value(e) as i64),
            ));
            assert(apply_infix(operator, ObjectView::Integer(a), ObjectView::Integer(b))
                == integer_infix(operator, a, b));
        },
        _ => {},
    }
}

/// The program that is one arithmetic expression has the value of the
/// expression.
pub proof fn lemma_arithmetic_program(e: ExpressionView, env: EnvironmentView, fuel: nat)
    requires
        is_arithmetic(e),
        is_computable(e),
        fuel > depth(e),
    ensures
        eval_program(seq![StatementView::Expression(e)], env, fuel) == (Outcome {
            result: Ok::<ObjectView, EvalErrorView>(
                ObjectView::Integer(arithmetic_value(e) as i64),
            ),
            env,
        }),
{
    let ss = seq![StatementView::Expression(e)];
    lemma_arithmetic_evaluates(e, env, 0, (fuel - 1) as nat);
    assert(eval_statement(ss[0], env, 0, fuel) == eval_expression(e, env, 0, (fuel - 1) as nat));
    assert(eval_statements(ss, 0, env, 0, fuel) == eval_statement(ss[0], env, 0, fuel));
}

} // verus!
