//! What holds of the language as a whole: the end of the input, scoping,
//! truth values, returned values, the grouping of operators and the
//! arithmetic they stand for, the errors of a malformed `let` and of
//! evaluation, and printing and parsing as inverses.
use crate::{evaluate_source, parse_source};
use crate::arithmetic::{
    arithmetic_value, depth, is_arithmetic, is_computable, lemma_arithmetic_is_operator_expression,
    lemma_arithmetic_program,
};
use crate::ast::{print_program, ExpressionView, ProgramView, StatementView};
use crate::evaluator::MAX_DEPTH;
use crate::grammar::{
    climb, expression, infix, is_binary_operator, let_statement, prefix, program, statement,
    ParseError, Precedence,
};
use crate::lexer::{lemma_scan_progress, lemma_skip_blank_bounds, scan, token_stream};
use crate::notation::{
    is_operator_expression, lemma_notation_program, lemma_notation_text, notation, notation_text,
};
use crate::object::{
    bind, describe, eval_error_text, fresh, lookup, truth, EnvironmentView, EvalErrorView,
    ObjectView,
};
use crate::parsed::{
    legible_statements, lemma_proper_legible_statements, lemma_proper_program,
    lemma_proper_statements_from_each, lemma_stream_lexed,
};
use crate::printed::{printable_program, program_tokens};
use crate::printed_text::lemma_program_text;
use crate::round_trip::lemma_program_tokens_read_back;
use crate::semantics::{
    apply_bang, apply_infix, eval_expression, eval_program, eval_statement, eval_statements,
    Outcome,
};
use crate::sequences::{at, lemma_at_whole};
use crate::spelling::{lemma_reads_stream, reads};
use crate::token::{eof_token, kind, tok, TokenType, TokenView};
use vstd::prelude::*;

verus! {

/// Once the lexer has given `EOF` it gives `EOF` again, from the same
/// place, however often it is asked.
pub proof fn lemma_end_of_input_is_final(s: Seq<char>, p: int)
    requires
        0 <= p <= s.len(),
        scan(s, p).token.token_type == TokenType::EOF,
    ensures
        scan(s, p).token == eof_token(),
        scan(s, scan(s, p).next) == scan(s, p),
{
    lemma_scan_progress(s, p);
    lemma_skip_blank_bounds(s, scan(s, p).next);
}

/// A name that was just bound in a scope stands for the value it was bound
/// to, whatever it stood for before.
pub proof fn lemma_bound_name_is_found(
    env: EnvironmentView,
    scope: nat,
    name: Seq<char>,
    value: ObjectView,
)
    requires
        scope < env.scopes.len(),
    ensures
        lookup(bind(env, scope, name, value), scope, name) == Some(value),
{
}

/// Binding a name in a scope changes nothing for the scopes at lower
/// places, which are the only ones that can enclose it: a scope reads from
/// the scopes around it and never writes to them.
pub proof fn lemma_bind_keeps_outer_scopes(
    env: EnvironmentView,
    scope: nat,
    name: Seq<char>,
    value: ObjectView,
    outer: nat,
    other: Seq<char>,
)
    requires
        outer < scope,
    ensures
        lookup(bind(env, scope, name, value), outer, other) == lookup(env, outer, other),
    decreases outer,
{
    if outer < env.scopes.len() && !env.scopes[outer as int].store.contains_key(other) {
        match env.scopes[outer as int].outer {
            Some(next) => {
                if next < outer {
                    lemma_bind_keeps_outer_scopes(env, scope, name, value, next, other);
                }
            },
            None => {},
        }
    }
}

/// Binding a name changes nothing for any other name: what `other` stood
/// for in the scope before, it stands for after.
pub proof fn lemma_bind_keeps_other_names(
    env: EnvironmentView,
    scope: nat,
    name: Seq<char>,
    value: ObjectView,
    other: Seq<char>,
)
    requires
        other != name,
    ensures
        lookup(bind(env, scope, name, value), scope, other) == lookup(env, scope, other),
{
    if scope < env.scopes.len() && !env.scopes[scope as int].store.contains_key(other) {
        match env.scopes[scope as int].outer {
            Some(next) => {
                if next < scope {
                    lemma_bind_keeps_outer_scopes(env, scope, name, value, next, other);
                }
            },
            None => {},
        }
    }
}

/// Binding a name again does not reach back to what was bound from it:
/// after `b` was bound to what `a` stood for, a new binding of `a` leaves
/// `b` as it was.
pub proof fn lemma_rebinding_keeps_copies(
    env: EnvironmentView,
    scope: nat,
    a: Seq<char>,
    b: Seq<char>,
    first: ObjectView,
    second: ObjectView,
)
    requires
        scope < env.scopes.len(),
        a != b,
    ensures
        ({
            let e1 = bind(env, scope, a, first);
            let e2 = bind(e1, scope, b, lookup(e1, scope, a)->0);
            let e3 = bind(e2, scope, a, second);
            lookup(e3, scope, b) == Some(first) && lookup(e3, scope, a) == Some(second)
        }),
{
    let e1 = bind(env, scope, a, first);
    let e2 = bind(e1, scope, b, first);
    lemma_bound_name_is_found(env, scope, a, first);
    lemma_bound_name_is_found(e1, scope, b, first);
    lemma_bind_keeps_other_names(e2, scope, a, second, b);
    lemma_bound_name_is_found(e2, scope, a, second);
}

/// `!` on an integer is true for zero and false for every other integer.
pub proof fn lemma_bang_of_integer(i: i64)
    ensures
        apply_bang(ObjectView::Integer(i)) == Ok::<ObjectView, EvalErrorView>(
            ObjectView::Boolean(i == 0),
        ),
{
}

/// `!` applied twice gives the truth value of the operand.
pub proof fn lemma_double_bang(value: ObjectView)
    requires
        truth(value) is Ok,
    ensures
        apply_bang(apply_bang(value)->Ok_0) == Ok::<ObjectView, EvalErrorView>(
            ObjectView::Boolean(truth(value)->Ok_0),
        ),
{
}

/// A statement that gives a returned value ends the statements it stands
/// among: what follows it is not evaluated, and the returned value, still
/// wrapped, is the value of the whole.
pub proof fn lemma_return_ends_statements(
    ss: Seq<StatementView>,
    i: nat,
    env: EnvironmentView,
    scope: nat,
    fuel: nat,
)
    requires
        i < ss.len(),
        eval_statement(ss[i as int], env, scope, fuel).result matches Ok(value)
            && value is ReturnValue,
    ensures
        eval_statements(ss, i, env, scope, fuel) == eval_statement(ss[i as int], env, scope, fuel),
{
}

/// The value of a program whose statements give a returned value is that
/// value without its wrapper.
pub proof fn lemma_program_unwraps_returned_value(
    ss: Seq<StatementView>,
    env: EnvironmentView,
    fuel: nat,
)
    requires
        eval_statements(ss, 0, env, 0, fuel).result matches Ok(value) && value is ReturnValue,
    ensures
        eval_program(ss, env, fuel).result == Ok::<ObjectView, EvalErrorView>(
            *eval_statements(ss, 0, env, 0, fuel).result->Ok_0->ReturnValue_0,
        ),
        eval_program(ss, env, fuel).env == eval_statements(
            ss,
            0,
            env,
            0,
            fuel,
        ).env,
{
}

/// A `let` that is not followed by an identifier is an error that names
/// the token found in its place, and so is a program that holds it as a
/// statement at place `i`.
pub proof fn lemma_let_needs_identifier(ts: Seq<TokenView>, i: int)
    requires
        kind(ts, i) == TokenType::LET,
        kind(ts, i + 1) != TokenType::IDENT,
    ensures
        statement(ts, i) == Err::<(StatementView, nat), ParseError>(
            ParseError::UnexpectedToken { expected: TokenType::IDENT, found: kind(ts, i + 1) },
        ),
        program(ts, i) == Err::<Seq<StatementView>, ParseError>(
            ParseError::UnexpectedToken { expected: TokenType::IDENT, found: kind(ts, i + 1) },
        ),
{
}

/// A `let` whose identifier is not followed by `=` is an error that names
/// the token found in its place.
pub proof fn lemma_let_needs_assign(ts: Seq<TokenView>, i: int)
    requires
        kind(ts, i) == TokenType::LET,
        kind(ts, i + 1) == TokenType::IDENT,
        kind(ts, i + 2) != TokenType::ASSIGN,
    ensures
        statement(ts, i) == Err::<(StatementView, nat), ParseError>(
            ParseError::UnexpectedToken { expected: TokenType::ASSIGN, found: kind(ts, i + 2) },
        ),
        program(ts, i) == Err::<Seq<StatementView>, ParseError>(
            ParseError::UnexpectedToken { expected: TokenType::ASSIGN, found: kind(ts, i + 2) },
        ),
{
}

/// A `let` whose expression is not followed by `;` is an error that names
/// the token found in its place.
pub proof fn lemma_let_needs_semicolon(ts: Seq<TokenView>, i: int)
    requires
        kind(ts, i) == TokenType::LET,
        kind(ts, i + 1) == TokenType::IDENT,
        kind(ts, i + 2) == TokenType::ASSIGN,
        expression(ts, i + 3, Precedence::LOWEST) matches Ok((value, n)) && kind(ts, i + 3 + n + 1)
            != TokenType::SEMICOLON,
    ensures
        statement(ts, i) matches Err(ParseError::UnexpectedToken { expected, found }) && expected
            == TokenType::SEMICOLON,
        program(ts, i) matches Err(ParseError::UnexpectedToken { expected, found }) && expected
            == TokenType::SEMICOLON,
{
}

/// No sequence of tokens is a `let` statement unless it spells
/// `let IDENT = EXPR ;`.
pub proof fn lemma_let_statement_shape(ts: Seq<TokenView>, i: int)
    requires
        let_statement(ts, i) is Ok,
    ensures
        kind(ts, i + 1) == TokenType::IDENT,
        kind(ts, i + 2) == TokenType::ASSIGN,
        expression(ts, i + 3, Precedence::LOWEST) matches Ok((value, n)) && kind(ts, i + 3 + n + 1)
            == TokenType::SEMICOLON && let_statement(ts, i) == Ok::<
            (StatementView, nat),
            ParseError,
        >((StatementView::Let { name: tok(ts, i + 1).literal, value }, 3 + n + 1)),
{
}

/// Whether the token at place `i` ends an expression: it is a semicolon or
/// no operator at all.
pub open spec fn ends_expression(ts: Seq<TokenView>, i: int) -> bool {
    kind(ts, i) == TokenType::SEMICOLON || Precedence::of(kind(ts, i)) == Precedence::LOWEST
}

/// The infix expression `left operator right`.
pub open spec fn binary(
    left: ExpressionView,
    operator: Seq<char>,
    right: ExpressionView,
) -> ExpressionView {
    ExpressionView::Infix { left: Box::new(left), operator, right: Box::new(right) }
}

/// An expression of one token followed by a token that ends it.
proof fn lemma_operand_alone(ts: Seq<TokenView>, i: int, x: ExpressionView, min: Precedence)
    requires
        prefix(ts, i) == Ok::<(ExpressionView, nat), ParseError>((x, 0)),
        ends_expression(ts, i + 1),
    ensures
        expression(ts, i, min) == Ok::<(ExpressionView, nat), ParseError>((x, 0)),
{
    assert(climb(ts, i, x, min) == Ok::<(ExpressionView, nat), ParseError>((x, 0)));
}

/// How two binary operators in a row group their three operands: the
/// second operator takes the middle operand only if it binds more strongly
/// than the first. Operators of one level group from the left.
pub proof fn lemma_binary_grouping(
    ts: Seq<TokenView>,
    i: int,
    x: ExpressionView,
    y: ExpressionView,
    z: ExpressionView,
)
    requires
        prefix(ts, i) == Ok::<(ExpressionView, nat), ParseError>((x, 0)),
        is_binary_operator(kind(ts, i + 1)),
        prefix(ts, i + 2) == Ok::<(ExpressionView, nat), ParseError>((y, 0)),
        is_binary_operator(kind(ts, i + 3)),
        prefix(ts, i + 4) == Ok::<(ExpressionView, nat), ParseError>((z, 0)),
        ends_expression(ts, i + 5),
    ensures
        expression(ts, i, Precedence::LOWEST) == Ok::<(ExpressionView, nat), ParseError>(
            (
                if Precedence::of(kind(ts, i + 1)).level() < Precedence::of(
                    kind(ts, i + 3),
                ).level() {
                    binary(
                        x,
                        tok(ts, i + 1).literal,
                        binary(y, tok(ts, i + 3).literal, z),
                    )
                } else {
                    binary(
                        binary(x, tok(ts, i + 1).literal, y),
                        tok(ts, i + 3).literal,
                        z,
                    )
                },
                4,
            ),
        ),
{
    let first = Precedence::of(kind(ts, i + 1));
    let second = Precedence::of(kind(ts, i + 3));
    let o1 = tok(ts, i + 1).literal;
    let o2 = tok(ts, i + 3).literal;
    lemma_operand_alone(ts, i + 4, z, second);
    assert(infix(ts, i + 3, y) == Ok::<(ExpressionView, nat), ParseError>((binary(y, o2, z), 1)));
    if first.level() < second.level() {
        let yz = binary(y, o2, z);
        assert(climb(ts, i + 4, yz, first) == Ok::<(ExpressionView, nat), ParseError>((yz, 0)));
        assert(climb(ts, i + 2, y, first) == Ok::<(ExpressionView, nat), ParseError>((yz, 2)));
        assert(expression(ts, i + 2, first) == Ok::<(ExpressionView, nat), ParseError>((yz, 2)));
        let whole = binary(x, o1, yz);
        assert(infix(ts, i + 1, x) == Ok::<(ExpressionView, nat), ParseError>((whole, 3)));
        assert(climb(ts, i + 4, whole, Precedence::LOWEST) == Ok::<
            (ExpressionView, nat),
            ParseError,
        >((whole, 0)));
        assert(climb(ts, i, x, Precedence::LOWEST) == Ok::<(ExpressionView, nat), ParseError>(
            (whole, 4),
        ));
    } else {
        let xy = binary(x, o1, y);
        assert(climb(ts, i + 2, y, first) == Ok::<(ExpressionView, nat), ParseError>((y, 0)));
        assert(expression(ts, i + 2, first) == Ok::<(ExpressionView, nat), ParseError>((y, 0)));
        assert(infix(ts, i + 1, x) == Ok::<(ExpressionView, nat), ParseError>((xy, 1)));
        let whole = binary(xy, o2, z);
        assert(infix(ts, i + 3, xy) == Ok::<(ExpressionView, nat), ParseError>((whole, 1)));
        assert(climb(ts, i + 4, whole, Precedence::LOWEST) == Ok::<
            (ExpressionView, nat),
            ParseError,
        >((whole, 0)));
        assert(climb(ts, i + 2, xy, Precedence::LOWEST) == Ok::<
            (ExpressionView, nat),
            ParseError,
        >((whole, 2)));
        assert(climb(ts, i, x, Precedence::LOWEST) == Ok::<(ExpressionView, nat), ParseError>(
            (whole, 4),
        ));
    }
}

/// The text of a printable program is a program text, and it reads as the
/// program that was printed: printing and then parsing gives back the
/// syntax tree.
pub proof fn lemma_printed_program_parses_back(p: ProgramView)
    requires
        printable_program(p),
    ensures
        parse_source(print_program(p)) == Ok::<Seq<StatementView>, ParseError>(p.statements),
{
    let text = print_program(p);
    let toks = program_tokens(p);
    lemma_program_text(p);
    lemma_at_whole(text);
    assert(reads(text, 0, toks, text.len() as int));
    lemma_reads_stream(text, 0, toks);
    let ts = token_stream(text, 0);
    assert(ts.subrange(0, toks.len() as int) =~= toks);
    lemma_program_tokens_read_back(p, ts);
}

/// Printing is idempotent across a parse: the text of a printable program
/// parses, and what it parses to prints as the same text again.
pub proof fn lemma_printing_twice_gives_the_same_text(p: ProgramView)
    requires
        printable_program(p),
    ensures
        parse_source(print_program(p)) matches Ok(statements) && print_program(
            ProgramView { statements },
        ) == print_program(p),
{
    lemma_printed_program_parses_back(p);
}

/// Every program that is parsed from a text and is legible stands in its
/// own text as itself: printing it and parsing the text gives the program
/// again, and so printing a second time gives the same text.
///
/// A program is legible if the condition of each `if` is a prefix or infix
/// expression and no bare expression is followed, among the statements of
/// the program or of a block, by a statement whose text starts with `(`.
/// The text of any other program reads as another program or as none: of
/// `if (x) { y }` the text is `if x {...}`, and of `a; (b)` it is `a` and
/// `b` on two lines, which reads as the call `a(b)`.
pub proof fn lemma_parse_print_parse(source: Seq<char>)
    requires
        parse_source(source) matches Ok(statements) && legible_statements(statements, 0),
    ensures
        ({
            let p = ProgramView { statements: parse_source(source)->Ok_0 };
            &&& parse_source(print_program(p)) == Ok::<Seq<StatementView>, ParseError>(
                p.statements,
            )
            &&& print_program(ProgramView { statements: parse_source(print_program(p))->Ok_0 })
                == print_program(p)
        }),
{
    let statements = parse_source(source)->Ok_0;
    let p = ProgramView { statements };
    lemma_stream_lexed(source, 0);
    lemma_proper_program(token_stream(source, 0), 0);
    lemma_proper_statements_from_each(statements, 0);
    lemma_proper_legible_statements(statements, 0);
    lemma_printed_program_parses_back(p);
}


/// The parser reads the usual notation: the text of an operator expression,
/// written with parentheses only where an operand holds together less
/// strongly than its place asks, is a program of one statement, which is
/// that expression. So `*` and `/` bind more strongly than `+` and `-`,
/// these more strongly than `<` and `>`, these more strongly than `==` and
/// `!=`, a prefix operator binds more strongly than all of them, and
/// operators of one level group from the left.
pub proof fn lemma_usual_notation_parses(e: ExpressionView)
    requires
        is_operator_expression(e),
    ensures
        parse_source(notation_text(e, 0)) == Ok::<Seq<StatementView>, ParseError>(
            seq![StatementView::Expression(e)],
        ),
{
    let text = notation_text(e, 0);
    let toks = notation(e, 0);
    lemma_notation_text(e, 0);
    lemma_at_whole(text);
    assert(reads(text, 0, toks, text.len() as int));
    lemma_reads_stream(text, 0, toks);
    let ts = token_stream(text, 0);
    assert(ts.subrange(0, toks.len() as int) =~= toks);
    lemma_notation_program(e, ts);
}

/// Evaluation agrees with integer arithmetic: the text of an arithmetic
/// expression in the usual notation has the value that the expression
/// denotes, if that number and those that its parts denote fit in 64 bits,
/// nothing is divided by zero, and the expression is not nested more
/// deeply than the evaluator goes.
pub proof fn lemma_arithmetic_text_evaluates(e: ExpressionView)
    requires
        is_arithmetic(e),
        is_computable(e),
        depth(e) < MAX_DEPTH,
    ensures
        evaluate_source(notation_text(e, 0)) == Ok::<
            Result<ObjectView, EvalErrorView>,
            ParseError,
        >(Ok(ObjectView::Integer(arithmetic_value(e) as i64))),
{
    lemma_arithmetic_is_operator_expression(e);
    lemma_usual_notation_parses(e);
    lemma_arithmetic_program(e, fresh(), MAX_DEPTH as nat);
}


/// Whether two values are of one of the kinds that an infix operator
/// takes: both integers, both booleans or both null.
pub open spec fn same_kind(left: ObjectView, right: ObjectView) -> bool {
    ||| left is Integer && right is Integer
    ||| left is Boolean && right is Boolean
    ||| left is Null && right is Null
}

/// An infix operator on two values that are not of one kind is a type
/// mismatch, whatever the operator, and the message of the error starts
/// with `type mismatch: ` and names both values and the operator.
pub proof fn lemma_mixed_operands_are_a_type_mismatch(
    operator: Seq<char>,
    left: ObjectView,
    right: ObjectView,
)
    requires
        !same_kind(left, right),
    ensures
        apply_infix(operator, left, right) == Err::<ObjectView, EvalErrorView>(
            EvalErrorView::TypeMismatch { left, operator, right },
        ),
        eval_error_text(EvalErrorView::TypeMismatch { left, operator, right })
            == "type mismatch: "@ + describe(left) + seq![' '] + operator + seq![' '] + describe(
            right,
        ),
{
}

/// A name that no scope from the current one outwards binds is an error,
/// and the message of the error is `identifier not found: ` and the name.
pub proof fn lemma_unbound_name_is_not_found(
    name: Seq<char>,
    env: EnvironmentView,
    scope: nat,
    fuel: nat,
)
    requires
        lookup(env, scope, name) is None,
        fuel > 0,
    ensures
        eval_expression(ExpressionView::Identifier(name), env, scope, fuel) == (Outcome {
            result: Err::<ObjectView, EvalErrorView>(EvalErrorView::IdentifierNotFound(name)),
            env,
        }),
        eval_error_text(EvalErrorView::IdentifierNotFound(name)) == "identifier not found: "@
            + name,
{
}

} // verus!
