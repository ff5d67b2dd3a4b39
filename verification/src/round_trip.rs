//! The tokens of a printable syntax tree are parsed as that tree.
use crate::ast::{ExpressionView, ProgramView, StatementView};
use crate::grammar::{
    arguments_rest, block, block_rest, call_arguments, climb, expression, expression_statement,
    function_literal, function_parameters, grouped_expression, if_expression, infix,
    is_binary_operator, let_statement, parameters_rest, prefix, prefix_expression, program,
    return_statement, statement, ParseError, Precedence,
};
use crate::parser::shift;
use crate::printed::{
    expression_tokens, is_binary_operator_text, is_name, list_tokens, operator_token,
    printable_expression, printable_expressions, printable_program, printable_statement,
    printable_statements, program_tokens, statement_tokens, statements_tokens, token,
};
use crate::sequences::{at, lemma_at_item, lemma_at_split};
use crate::text::{
    all_digits, decimal_digits, decimal_value, digit_char, digit_value, int_text, integer_of,
    is_digit, IntegerError,
};
use crate::token::{kind, tok, TokenType, TokenView};
use vstd::prelude::*;

verus! {

/// Where `part` stands, each of its tokens stands at its place.
pub proof fn lemma_at_token(ts: Seq<TokenView>, i: int, part: Seq<TokenView>, j: int)
    requires
        at(ts, i, part),
        0 <= j < part.len(),
    ensures
        tok(ts, i + j) == part[j],
{
    lemma_at_item(ts, i, part, j);
}

/// The digits of a number are digits, and they denote the number.
pub proof fn lemma_decimal_digits_value(n: nat)
    ensures
        decimal_digits(n).len() > 0,
        all_digits(decimal_digits(n)),
        decimal_value(decimal_digits(n)) == n,
    decreases n,
{
    if n < 10 {
        let s = decimal_digits(n);
        assert(s =~= seq![digit_char(n as int)]);
        assert(s.drop_last() =~= Seq::<char>::empty());
        assert(decimal_value(s.drop_last()) == 0);
        assert(digit_value(s.last()) == n);
    } else {
        lemma_decimal_digits_value(n / 10);
        let s = decimal_digits(n);
        let head = decimal_digits(n / 10);
        assert(s.drop_last() =~= head);
        assert(s.last() == digit_char((n % 10) as int));
        assert(digit_value(s.last()) == n % 10);
        assert forall|i: int| 0 <= i < s.len() implies is_digit(#[trigger] s[i]) by {
            if i < head.len() {
                assert(s[i] == head[i]);
            }
        }
    }
}

/// The text of an integer that is not negative reads as that integer.
pub proof fn lemma_integer_text_reads_back(i: i64)
    requires
        i >= 0,
    ensures
        integer_of(int_text(i as int)) == Ok::<i64, IntegerError>(i),
{
    lemma_decimal_digits_value(i as nat);
}

/// What an operator's text says of its token.
pub proof fn lemma_operator_token(text: Seq<char>)
    ensures
        operator_token(text).literal == text,
        text == seq!['!'] ==> operator_token(text).token_type == TokenType::BANG,
        text == seq!['-'] ==> operator_token(text).token_type == TokenType::MINUS,
        is_binary_operator_text(text) ==> is_binary_operator(operator_token(text).token_type),
{
    if text == seq!['!'] {
        assert(text.len() == 1 && text[0] == '!');
        assert(seq!['+'][0] == '+');
        assert(seq!['-'][0] == '-');
        assert(seq!['*'][0] == '*');
        assert(seq!['/'][0] == '/');
        assert(seq!['<'][0] == '<');
        assert(seq!['>'][0] == '>');
        assert(seq!['=', '='].len() == 2);
        assert(seq!['!', '='].len() == 2);
    }
    if text == seq!['-'] {
        assert(text.len() == 1 && text[0] == '-');
        assert(seq!['+'][0] == '+');
    }
}

/// Whether an expression can start with a token of category `t`.
pub open spec fn starts_expression(t: TokenType) -> bool {
    t == TokenType::IDENT || t == TokenType::INT || t == TokenType::TRUE || t == TokenType::FALSE
        || t == TokenType::LPAREN || t == TokenType::IF || t == TokenType::FUNCTION
}

/// Whether a statement can start with a token of category `t`.
pub open spec fn starts_statement(t: TokenType) -> bool {
    starts_expression(t) || t == TokenType::LET || t == TokenType::RETURN || t
        == TokenType::LBRACE
}

/// A printable expression has tokens, and the first of them is one that
/// starts an expression.
pub proof fn lemma_expression_starts(e: ExpressionView)
    requires
        printable_expression(e),
    ensures
        expression_tokens(e).len() > 0,
        starts_expression(expression_tokens(e).first().token_type),
    decreases e,
{
    match e {
        ExpressionView::Call { function, arguments } => {
            lemma_expression_starts(*function);
        },
        _ => {},
    }
}

/// A printable statement has tokens, and the first of them is one that
/// starts a statement.
pub proof fn lemma_statement_starts(s: StatementView)
    requires
        printable_statement(s),
    ensures
        statement_tokens(s).len() > 0,
        starts_statement(statement_tokens(s).first().token_type),
        s is Expression ==> starts_expression(statement_tokens(s).first().token_type),
{
    match s {
        StatementView::Expression(e) => {
            lemma_expression_starts(e);
        },
        _ => {},
    }
}

/// Whether a token of category `t` can follow a bare expression that is a
/// statement: it neither continues the expression nor belongs to it.
pub open spec fn ends_statement(t: TokenType) -> bool {
    Precedence::of(t) == Precedence::LOWEST && t != TokenType::SEMICOLON && t != TokenType::ELSE
}

/// The tokens after the expression at place `k` of a list: a comma and the
/// rest of the list, or nothing after the last.
pub open spec fn list_tail(es: Seq<ExpressionView>, k: nat) -> Seq<TokenView> {
    if k + 1 < es.len() {
        seq![token(TokenType::COMMA, seq![','])] + list_tokens(es, k + 1)
    } else {
        Seq::empty()
    }
}

/// The parameters of a function after the one at place `j` of `ts`, which
/// is place `k` of the list.
proof fn lemma_parameters_rest(params: Seq<ExpressionView>, k: nat, ts: Seq<TokenView>, j: int)
    requires
        k < params.len(),
        forall|i: int|
            0 <= i < params.len() ==> (#[trigger] params[i]) is Identifier && is_name(
                params[i]->Identifier_0,
            ),
        at(ts, j + 1, list_tail(params, k)),
        kind(ts, j + 1 + list_tail(params, k).len()) == TokenType::RPAREN,
    ensures
        parameters_rest(ts, j) == Ok::<(Seq<ExpressionView>, nat), ParseError>(
            (params.skip(k as int + 1), (list_tail(params, k).len() + 1) as nat),
        ),
    decreases params.len() - k,
{
    if k + 1 < params.len() {
        let next = params[k as int + 1];
        let comma = seq![token(TokenType::COMMA, seq![','])];
        let rest = list_tokens(params, k + 1);
        assert(params[k as int + 1] is Identifier);
        let name = next->Identifier_0;
        assert(expression_tokens(next) == seq![token(TokenType::IDENT, name)]);
        assert(rest == expression_tokens(next) + list_tail(params, k + 1)) by {
            if k + 2 < params.len() {
                assert(rest == expression_tokens(next) + seq![token(TokenType::COMMA, seq![','])]
                    + list_tokens(params, k + 2));
                assert(rest =~= expression_tokens(next) + list_tail(params, k + 1));
            } else {
                assert(rest =~= expression_tokens(next) + list_tail(params, k + 1));
            }
        }
        lemma_at_split(ts, j + 1, comma, rest);
        lemma_at_token(ts, j + 1, comma, 0);
        lemma_at_split(ts, j + 2, expression_tokens(next), list_tail(params, k + 1));
        lemma_at_token(ts, j + 2, expression_tokens(next), 0);
        lemma_parameters_rest(params, k + 1, ts, j + 2);
        assert(seq![next] + params.skip(k as int + 2) =~= params.skip(k as int + 1));
    } else {
        assert(params.skip(k as int + 1) =~= Seq::<ExpressionView>::empty());
    }
}

/// The parameters of a function, with their `(` at place `i`.
proof fn lemma_parameters(params: Seq<ExpressionView>, ts: Seq<TokenView>, i: int)
    requires
        forall|k: int|
            0 <= k < params.len() ==> (#[trigger] params[k]) is Identifier && is_name(
                params[k]->Identifier_0,
            ),
        kind(ts, i) == TokenType::LPAREN,
        at(ts, i + 1, list_tokens(params, 0)),
        kind(ts, i + 1 + list_tokens(params, 0).len()) == TokenType::RPAREN,
    ensures
        function_parameters(ts, i) == Ok::<(Seq<ExpressionView>, nat), ParseError>(
            (params, (list_tokens(params, 0).len() + 1) as nat),
        ),
{
    if params.len() == 0 {
        assert(params =~= Seq::<ExpressionView>::empty());
    } else {
        let first = params[0];
        assert(params[0] is Identifier);
        let name = first->Identifier_0;
        assert(expression_tokens(first) == seq![token(TokenType::IDENT, name)]);
        assert(list_tokens(params, 0) =~= expression_tokens(first) + list_tail(params, 0));
        lemma_at_split(ts, i + 1, expression_tokens(first), list_tail(params, 0));
        lemma_at_token(ts, i + 1, expression_tokens(first), 0);
        lemma_parameters_rest(params, 0, ts, i + 1);
        assert(seq![first] + params.skip(1) =~= params);
    }
}

/// The expression in parentheses: where the tokens of a printable prefix
/// or infix expression stand, the first is `(`, the last is `)`, and what
/// stands between them reads as the expression.
pub proof fn lemma_group(e: ExpressionView, ts: Seq<TokenView>, i: int)
    requires
        printable_expression(e),
        e is Prefix || e is Infix,
        at(ts, i, expression_tokens(e)),
    ensures
        expression_tokens(e).len() >= 3,
        kind(ts, i) == TokenType::LPAREN,
        kind(ts, i + expression_tokens(e).len() - 1) == TokenType::RPAREN,
        expression(ts, i + 1, Precedence::LOWEST) == Ok::<(ExpressionView, nat), ParseError>(
            (e, (expression_tokens(e).len() - 3) as nat),
        ),
    decreases e, 1nat,
{
    if e is Prefix {
        lemma_group_prefix(e, ts, i);
    } else {
        lemma_group_infix(e, ts, i);
    }
}

/// `lemma_group` for a prefix expression.
proof fn lemma_group_prefix(e: ExpressionView, ts: Seq<TokenView>, i: int)
    requires
        printable_expression(e),
        e is Prefix,
        at(ts, i, expression_tokens(e)),
    ensures
        expression_tokens(e).len() >= 3,
        kind(ts, i) == TokenType::LPAREN,
        kind(ts, i + expression_tokens(e).len() - 1) == TokenType::RPAREN,
        expression(ts, i + 1, Precedence::LOWEST) == Ok::<(ExpressionView, nat), ParseError>(
            (e, (expression_tokens(e).len() - 3) as nat),
        ),
    decreases e, 0nat,
{
    let open = seq![token(TokenType::LPAREN, seq!['('])];
    let close = seq![token(TokenType::RPAREN, seq![')'])];
    let operator = e->Prefix_operator;
    let right = *e->Prefix_right;
    let op = seq![operator_token(operator)];
    let r = expression_tokens(right);
    assert(expression_tokens(e) =~= open + op + r + close);
    lemma_operator_token(operator);
    lemma_expression_starts(right);
    lemma_at_split(ts, i, open + op + r, close);
    lemma_at_split(ts, i, open + op, r);
    lemma_at_split(ts, i, open, op);
    lemma_at_token(ts, i, open, 0);
    lemma_at_token(ts, i + 1, op, 0);
    lemma_at_token(ts, i + 2 + r.len(), close, 0);
    let end = i + 2 + r.len() - 1;
    assert(kind(ts, end + 1) == TokenType::RPAREN);
    assert(kind(ts, i + 1) == TokenType::BANG || kind(ts, i + 1) == TokenType::MINUS);
    assert(tok(ts, i + 1).literal == operator);
    assert(expression(ts, i + 2, Precedence::PREFIX) == Ok::<(ExpressionView, nat), ParseError>(
        (right, (r.len() - 1) as nat),
    )) by {
        lemma_expression(right, ts, i + 2, Precedence::PREFIX);
        assert(climb(ts, end, right, Precedence::PREFIX) == Ok::<
            (ExpressionView, nat),
            ParseError,
        >((right, 0)));
    }
    assert(prefix_expression(ts, i + 1) == Ok::<(ExpressionView, nat), ParseError>((e, r.len())));
    assert(prefix(ts, i + 1) == Ok::<(ExpressionView, nat), ParseError>((e, r.len())));
    assert(climb(ts, i + 1 + r.len(), e, Precedence::LOWEST) == Ok::<
        (ExpressionView, nat),
        ParseError,
    >((e, 0)));
}

/// `lemma_group` for an infix expression.
proof fn lemma_group_infix(e: ExpressionView, ts: Seq<TokenView>, i: int)
    requires
        printable_expression(e),
        e is Infix,
        at(ts, i, expression_tokens(e)),
    ensures
        expression_tokens(e).len() >= 3,
        kind(ts, i) == TokenType::LPAREN,
        kind(ts, i + expression_tokens(e).len() - 1) == TokenType::RPAREN,
        expression(ts, i + 1, Precedence::LOWEST) == Ok::<(ExpressionView, nat), ParseError>(
            (e, (expression_tokens(e).len() - 3) as nat),
        ),
    decreases e, 0nat,
{
    let open = seq![token(TokenType::LPAREN, seq!['('])];
    let close = seq![token(TokenType::RPAREN, seq![')'])];
    let left = *e->Infix_left;
    let operator = e->Infix_operator;
    let right = *e->Infix_right;
    let l = expression_tokens(left);
    let op = seq![operator_token(operator)];
    let r = expression_tokens(right);
    assert(expression_tokens(e) =~= open + l + op + r + close);
    lemma_operator_token(operator);
    lemma_expression_starts(left);
    lemma_expression_starts(right);
    lemma_at_split(ts, i, open + l + op + r, close);
    lemma_at_split(ts, i, open + l + op, r);
    lemma_at_split(ts, i, open + l, op);
    lemma_at_split(ts, i, open, l);
    lemma_at_token(ts, i, open, 0);
    lemma_at_token(ts, i + 1 + l.len(), op, 0);
    lemma_at_token(ts, i + 2 + l.len() + r.len(), close, 0);
    let at_op = i + 1 + l.len();
    let level = Precedence::of(kind(ts, at_op));
    let end = at_op + r.len();
    assert(is_binary_operator(kind(ts, at_op)));
    assert(tok(ts, at_op).literal == operator);
    assert(kind(ts, end + 1) == TokenType::RPAREN);
    assert(expression(ts, at_op + 1, level) == Ok::<(ExpressionView, nat), ParseError>(
        (right, (r.len() - 1) as nat),
    )) by {
        lemma_expression(right, ts, at_op + 1, level);
        assert(climb(ts, end, right, level) == Ok::<(ExpressionView, nat), ParseError>(
            (right, 0),
        ));
    }
    assert(infix(ts, at_op, left) == Ok::<(ExpressionView, nat), ParseError>((e, r.len())));
    assert(climb(ts, end, e, Precedence::LOWEST) == Ok::<(ExpressionView, nat), ParseError>(
        (e, 0),
    ));
    assert(climb(ts, at_op - 1, left, Precedence::LOWEST) == Ok::<
        (ExpressionView, nat),
        ParseError,
    >((e, (1 + r.len()) as nat)));
    assert(expression(ts, i + 1, Precedence::LOWEST) == Ok::<(ExpressionView, nat), ParseError>(
        (e, (l.len() + r.len()) as nat),
    )) by {
        lemma_expression(left, ts, i + 1, Precedence::LOWEST);
    }
}

/// Reading an expression from where the tokens of a printable expression
/// stand is reading that expression and then going on from its last token.
pub proof fn lemma_expression(e: ExpressionView, ts: Seq<TokenView>, i: int, min: Precedence)
    requires
        printable_expression(e),
        at(ts, i, expression_tokens(e)),
        min.level() <= Precedence::PREFIX.level(),
        kind(ts, i + expression_tokens(e).len()) != TokenType::ELSE,
    ensures
        expression_tokens(e).len() > 0,
        expression(ts, i, min) == shift(
            climb(ts, i + expression_tokens(e).len() - 1, e, min),
            (expression_tokens(e).len() - 1) as nat,
        ),
    decreases e, 3nat,
{
    lemma_expression_starts(e);
    if e is Call {
        lemma_call(e, ts, i, min);
    } else {
        lemma_primary(e, ts, i);
    }
}

/// An expression that is no call is read without its continuation.
proof fn lemma_primary(e: ExpressionView, ts: Seq<TokenView>, i: int)
    requires
        printable_expression(e),
        !(e is Call),
        at(ts, i, expression_tokens(e)),
        kind(ts, i + expression_tokens(e).len()) != TokenType::ELSE,
    ensures
        expression_tokens(e).len() > 0,
        prefix(ts, i) == Ok::<(ExpressionView, nat), ParseError>(
            (e, (expression_tokens(e).len() - 1) as nat),
        ),
    decreases e, 2nat,
{
    let t = expression_tokens(e);
    lemma_expression_starts(e);
    lemma_at_token(ts, i, t, 0);
    match e {
        ExpressionView::Integer(value) => {
            lemma_integer_text_reads_back(value);
        },
        ExpressionView::Prefix { .. } => {
            lemma_group(e, ts, i);
            assert(grouped_expression(ts, i) == Ok::<(ExpressionView, nat), ParseError>(
                (e, (t.len() - 1) as nat),
            ));
        },
        ExpressionView::Infix { .. } => {
            lemma_group(e, ts, i);
            assert(grouped_expression(ts, i) == Ok::<(ExpressionView, nat), ParseError>(
                (e, (t.len() - 1) as nat),
            ));
        },
        ExpressionView::If { .. } => {
            lemma_if(e, ts, i);
        },
        ExpressionView::Function { .. } => {
            lemma_function(e, ts, i);
        },
        _ => {},
    }
}

/// Where the tokens of a printable `if` stand, the `if` is read.
proof fn lemma_if(e: ExpressionView, ts: Seq<TokenView>, i: int)
    requires
        printable_expression(e),
        e is If,
        at(ts, i, expression_tokens(e)),
        kind(ts, i + expression_tokens(e).len()) != TokenType::ELSE,
    ensures
        if_expression(ts, i) == Ok::<(ExpressionView, nat), ParseError>(
            (e, (expression_tokens(e).len() - 1) as nat),
        ),
    decreases e, 0nat,
{
    let t = expression_tokens(e);
    let condition = *e->If_condition;
    let consequence = *e->If_consequence;
    let alternative = e->If_alternative;
    let head = seq![token(TokenType::IF, "if"@)];
    let c = expression_tokens(condition);
    let yes = statement_tokens(consequence);
    let no = match alternative {
        Some(block) => seq![token(TokenType::ELSE, "else"@)] + statement_tokens(*block),
        None => Seq::empty(),
    };
    assert(t =~= head + c + yes + no);
    lemma_at_split(ts, i, head + c + yes, no);
    lemma_at_split(ts, i, head + c, yes);
    lemma_at_split(ts, i, head, c);
    lemma_group(condition, ts, i + 1);
    lemma_block(consequence, ts, i + 1 + c.len());
    let close = i + c.len();
    let end = i + c.len() + yes.len();
    assert(kind(ts, i + 1) == TokenType::LPAREN);
    assert(expression(ts, i + 2, Precedence::LOWEST) == Ok::<(ExpressionView, nat), ParseError>(
        (condition, (c.len() - 3) as nat),
    ));
    assert(kind(ts, close) == TokenType::RPAREN);
    assert(kind(ts, close + 1) == TokenType::LBRACE);
    assert(block(ts, close + 1) == Ok::<(StatementView, nat), ParseError>(
        (consequence, (yes.len() - 1) as nat),
    ));
    match alternative {
        Some(other) => {
            let word = seq![token(TokenType::ELSE, "else"@)];
            let o = statement_tokens(*other);
            lemma_at_split(ts, end + 1, word, o);
            lemma_at_token(ts, end + 1, word, 0);
            lemma_block(*other, ts, end + 2);
            assert(kind(ts, end + 1) == TokenType::ELSE);
            assert(kind(ts, end + 2) == TokenType::LBRACE);
            assert(block(ts, end + 2) == Ok::<(StatementView, nat), ParseError>(
                (*other, (o.len() - 1) as nat),
            ));
        },
        None => {
            assert(kind(ts, end + 1) != TokenType::ELSE);
        },
    }
}

/// Where the tokens of a printable function literal stand, the function
/// literal is read.
proof fn lemma_function(e: ExpressionView, ts: Seq<TokenView>, i: int)
    requires
        printable_expression(e),
        e is Function,
        at(ts, i, expression_tokens(e)),
    ensures
        function_literal(ts, i) == Ok::<(ExpressionView, nat), ParseError>(
            (e, (expression_tokens(e).len() - 1) as nat),
        ),
    decreases e, 0nat,
{
    let t = expression_tokens(e);
    let parameters = e->Function_parameters;
    let body = *e->Function_body;
    let head = seq![token(TokenType::FUNCTION, "fn"@), token(TokenType::LPAREN, seq!['('])];
    let p = list_tokens(parameters, 0);
    let close = seq![token(TokenType::RPAREN, seq![')'])];
    let b = statement_tokens(body);
    assert(t =~= head + p + close + b);
    lemma_at_split(ts, i, head + p + close, b);
    lemma_at_split(ts, i, head + p, close);
    lemma_at_split(ts, i, head, p);
    lemma_at_token(ts, i, head, 1);
    lemma_at_token(ts, i + 2 + p.len(), close, 0);
    lemma_parameters(parameters, ts, i + 1);
    lemma_block(body, ts, i + 3 + p.len());
    assert(kind(ts, i + 1) == TokenType::LPAREN);
    assert(function_parameters(ts, i + 1) == Ok::<(Seq<ExpressionView>, nat), ParseError>(
        (parameters, (p.len() + 1) as nat),
    ));
    assert(kind(ts, i + 3 + p.len()) == TokenType::LBRACE);
    assert(block(ts, i + 3 + p.len()) == Ok::<(StatementView, nat), ParseError>(
        (body, (b.len() - 1) as nat),
    ));
}

/// Where the tokens of a printable call stand, the callee is read, and
/// the arguments are folded into it.
proof fn lemma_call(e: ExpressionView, ts: Seq<TokenView>, i: int, min: Precedence)
    requires
        printable_expression(e),
        e is Call,
        at(ts, i, expression_tokens(e)),
        min.level() <= Precedence::PREFIX.level(),
    ensures
        expression_tokens(e).len() > 0,
        expression(ts, i, min) == shift(
            climb(ts, i + expression_tokens(e).len() - 1, e, min),
            (expression_tokens(e).len() - 1) as nat,
        ),
    decreases e, 0nat,
{
    let t = expression_tokens(e);
    let function = *e->Call_function;
    let arguments = e->Call_arguments;
    let f = expression_tokens(function);
    let open = seq![token(TokenType::LPAREN, seq!['('])];
    let a = list_tokens(arguments, 0);
    let close = seq![token(TokenType::RPAREN, seq![')'])];
    assert(t =~= f + open + a + close);
    lemma_at_split(ts, i, f + open + a, close);
    lemma_at_split(ts, i, f + open, a);
    lemma_at_split(ts, i, f, open);
    lemma_at_token(ts, i + f.len(), open, 0);
    lemma_at_token(ts, i + f.len() + 1 + a.len(), close, 0);
    let paren = i + f.len();
    assert(kind(ts, paren) == TokenType::LPAREN);
    lemma_expression(function, ts, i, min);
    lemma_arguments(arguments, ts, paren);
    assert(infix(ts, paren, function) == Ok::<(ExpressionView, nat), ParseError>(
        (e, (1 + a.len()) as nat),
    ));
    let after = climb(ts, paren + 1 + a.len(), e, min);
    assert(climb(ts, paren - 1, function, min) == shift(after, (2 + a.len()) as nat));
    assert(shift(shift(after, (2 + a.len()) as nat), (f.len() - 1) as nat) == shift(
        after,
        (t.len() - 1) as nat,
    ));
}

/// The arguments of a call, with their `(` at place `i`.
pub proof fn lemma_arguments(args: Seq<ExpressionView>, ts: Seq<TokenView>, i: int)
    requires
        printable_expressions(args, 0),
        kind(ts, i) == TokenType::LPAREN,
        at(ts, i + 1, list_tokens(args, 0)),
        kind(ts, i + 1 + list_tokens(args, 0).len()) == TokenType::RPAREN,
    ensures
        call_arguments(ts, i) == Ok::<(Seq<ExpressionView>, nat), ParseError>(
            (args, (list_tokens(args, 0).len() + 1) as nat),
        ),
    decreases args, args.len() + 1,
{
    if args.len() == 0 {
        assert(args =~= Seq::<ExpressionView>::empty());
    } else {
        let first = args[0];
        let f = expression_tokens(first);
        lemma_expression_starts(first);
        assert(list_tokens(args, 0) =~= f + list_tail(args, 0));
        lemma_at_split(ts, i + 1, f, list_tail(args, 0));
        lemma_at_token(ts, i + 1, f, 0);
        lemma_list_follower(args, 0, ts, i + 1 + f.len());
        lemma_expression(first, ts, i + 1, Precedence::LOWEST);
        let end = i + f.len();
        assert(climb(ts, end, first, Precedence::LOWEST) == Ok::<
            (ExpressionView, nat),
            ParseError,
        >((first, 0)));
        lemma_arguments_rest(args, 0, ts, end);
        assert(seq![first] + args.skip(1) =~= args);
    }
}

/// After an expression of a list comes a comma or, after the last, the
/// token that follows the list.
proof fn lemma_list_follower(es: Seq<ExpressionView>, k: nat, ts: Seq<TokenView>, j: int)
    requires
        k < es.len(),
        at(ts, j, list_tail(es, k)),
        kind(ts, j + list_tail(es, k).len()) == TokenType::RPAREN,
    ensures
        kind(ts, j) == TokenType::COMMA || kind(ts, j) == TokenType::RPAREN,
        k + 1 < es.len() <==> kind(ts, j) == TokenType::COMMA,
{
    if k + 1 < es.len() {
        let comma = seq![token(TokenType::COMMA, seq![','])];
        lemma_at_split(ts, j, comma, list_tokens(es, k + 1));
        lemma_at_token(ts, j, comma, 0);
    }
}

/// The arguments of a call after the one whose last token stands at place
/// `j` of `ts`, which is place `k` of the list.
pub proof fn lemma_arguments_rest(args: Seq<ExpressionView>, k: nat, ts: Seq<TokenView>, j: int)
    requires
        k < args.len(),
        printable_expressions(args, k),
        at(ts, j + 1, list_tail(args, k)),
        kind(ts, j + 1 + list_tail(args, k).len()) == TokenType::RPAREN,
    ensures
        arguments_rest(ts, j) == Ok::<(Seq<ExpressionView>, nat), ParseError>(
            (args.skip(k as int + 1), (list_tail(args, k).len() + 1) as nat),
        ),
    decreases args, args.len() - k,
{
    lemma_list_follower(args, k, ts, j + 1);
    if k + 1 < args.len() {
        let next = args[k as int + 1];
        let n = expression_tokens(next);
        assert(printable_expressions(args, k + 1));
        assert(printable_expression(next));
        let comma = seq![token(TokenType::COMMA, seq![','])];
        let rest = list_tokens(args, k + 1);
        lemma_expression_starts(next);
        assert(rest =~= n + list_tail(args, k + 1));
        lemma_at_split(ts, j + 1, comma, rest);
        lemma_at_split(ts, j + 2, n, list_tail(args, k + 1));
        lemma_list_follower(args, k + 1, ts, j + 2 + n.len());
        lemma_expression(next, ts, j + 2, Precedence::LOWEST);
        let end = j + 1 + n.len();
        assert(climb(ts, end, next, Precedence::LOWEST) == Ok::<
            (ExpressionView, nat),
            ParseError,
        >((next, 0)));
        lemma_arguments_rest(args, k + 1, ts, end);
        assert(seq![next] + args.skip(k as int + 2) =~= args.skip(k as int + 1));
    } else {
        assert(args.skip(k as int + 1) =~= Seq::<ExpressionView>::empty());
    }
}

/// Where the tokens of a printable block stand, the block is read.
pub proof fn lemma_block(s: StatementView, ts: Seq<TokenView>, i: int)
    requires
        s is Block,
        printable_statement(s),
        at(ts, i, statement_tokens(s)),
    ensures
        statement_tokens(s).len() >= 2,
        kind(ts, i) == TokenType::LBRACE,
        block(ts, i) == Ok::<(StatementView, nat), ParseError>(
            (s, (statement_tokens(s).len() - 1) as nat),
        ),
    decreases s, 0nat,
{
    match s {
        StatementView::Block { statements } => {
            let open = seq![token(TokenType::LBRACE, seq!['{'])];
            let inner = statements_tokens(statements, 0);
            let close = seq![token(TokenType::RBRACE, seq!['}'])];
            assert(statement_tokens(s) =~= open + inner + close);
            lemma_at_split(ts, i, open + inner, close);
            lemma_at_split(ts, i, open, inner);
            lemma_at_token(ts, i, open, 0);
            lemma_at_token(ts, i + 1 + inner.len(), close, 0);
            lemma_block_rest(statements, 0, ts, i + 1);
            assert(statements.skip(0) =~= statements);
        },
        _ => {},
    }
}

/// Where the tokens of printable statements stand before a `}`, the
/// statements are read up to it.
pub proof fn lemma_block_rest(ss: Seq<StatementView>, from: nat, ts: Seq<TokenView>, j: int)
    requires
        from <= ss.len(),
        printable_statements(ss, from),
        at(ts, j, statements_tokens(ss, from)),
        kind(ts, j + statements_tokens(ss, from).len()) == TokenType::RBRACE,
    ensures
        block_rest(ts, j) == Ok::<(Seq<StatementView>, nat), ParseError>(
            (ss.skip(from as int), statements_tokens(ss, from).len()),
        ),
    decreases ss, ss.len() - from,
{
    if from == ss.len() {
        assert(ss.skip(from as int) =~= Seq::<StatementView>::empty());
    } else {
        let first = ss[from as int];
        let f = statement_tokens(first);
        let rest = statements_tokens(ss, from + 1);
        lemma_statement_starts(first);
        lemma_at_split(ts, j, f, rest);
        lemma_at_token(ts, j, f, 0);
        if from + 1 < ss.len() {
            assert(printable_statements(ss, from + 1));
            let second = statement_tokens(ss[from as int + 1]);
            lemma_statement_starts(ss[from as int + 1]);
            assert(rest == second + statements_tokens(ss, from + 2));
            lemma_at_split(ts, j + f.len(), second, statements_tokens(ss, from + 2));
            lemma_at_token(ts, j + f.len(), second, 0);
        } else {
            assert(rest =~= Seq::<TokenView>::empty());
        }
        lemma_statement(first, ts, j);
        lemma_block_rest(ss, from + 1, ts, j + f.len());
        assert(seq![first] + ss.skip(from as int + 1) =~= ss.skip(from as int));
    }
}

/// Where the tokens of a printable statement stand, the statement is read;
/// a bare expression, if what follows it can follow a statement.
#[verifier::rlimit(60)]
pub proof fn lemma_statement(s: StatementView, ts: Seq<TokenView>, i: int)
    requires
        printable_statement(s),
        at(ts, i, statement_tokens(s)),
        s is Expression ==> ends_statement(kind(ts, i + statement_tokens(s).len())),
    ensures
        statement_tokens(s).len() > 0,
        statement(ts, i) == Ok::<(StatementView, nat), ParseError>(
            (s, (statement_tokens(s).len() - 1) as nat),
        ),
    decreases s, 2nat,
{
    let t = statement_tokens(s);
    lemma_statement_starts(s);
    lemma_at_token(ts, i, t, 0);
    match s {
        StatementView::Empty => {},
        StatementView::Let { .. } => {
            lemma_let(s, ts, i);
        },
        StatementView::Return(_) => {
            lemma_return(s, ts, i);
        },
        StatementView::Expression(_) => {
            lemma_bare(s, ts, i);
        },
        StatementView::Block { .. } => {
            lemma_block(s, ts, i);
        },
    }
}

/// `lemma_statement` for a `let`.
proof fn lemma_let(s: StatementView, ts: Seq<TokenView>, i: int)
    requires
        printable_statement(s),
        s is Let,
        at(ts, i, statement_tokens(s)),
    ensures
        let_statement(ts, i) == Ok::<(StatementView, nat), ParseError>(
            (s, (statement_tokens(s).len() - 1) as nat),
        ),
    decreases s, 0nat,
{
    let t = statement_tokens(s);
    let name = s->Let_name;
    let value = s->Let_value;
    let head = seq![
        token(TokenType::LET, "let"@),
        token(TokenType::IDENT, name),
        token(TokenType::ASSIGN, seq!['=']),
    ];
    let v = expression_tokens(value);
    let semicolon = seq![token(TokenType::SEMICOLON, seq![';'])];
    assert(t =~= head + v + semicolon);
    lemma_at_split(ts, i, head + v, semicolon);
    lemma_at_split(ts, i, head, v);
    lemma_at_token(ts, i, head, 1);
    lemma_at_token(ts, i, head, 2);
    lemma_at_token(ts, i + 3 + v.len(), semicolon, 0);
    let end = i + 3 + v.len() - 1;
    assert(kind(ts, i + 1) == TokenType::IDENT);
    assert(tok(ts, i + 1).literal == name);
    assert(kind(ts, i + 2) == TokenType::ASSIGN);
    assert(kind(ts, end + 1) == TokenType::SEMICOLON);
    assert(expression(ts, i + 3, Precedence::LOWEST) == Ok::<(ExpressionView, nat), ParseError>(
        (value, (v.len() - 1) as nat),
    )) by {
        lemma_expression(value, ts, i + 3, Precedence::LOWEST);
        assert(climb(ts, end, value, Precedence::LOWEST) == Ok::<
            (ExpressionView, nat),
            ParseError,
        >((value, 0)));
    }
}

/// `lemma_statement` for a `return`.
proof fn lemma_return(s: StatementView, ts: Seq<TokenView>, i: int)
    requires
        printable_statement(s),
        s is Return,
        at(ts, i, statement_tokens(s)),
    ensures
        return_statement(ts, i) == Ok::<(StatementView, nat), ParseError>(
            (s, (statement_tokens(s).len() - 1) as nat),
        ),
    decreases s, 0nat,
{
    let t = statement_tokens(s);
    let value = s->Return_0;
    let head = seq![token(TokenType::RETURN, "return"@)];
    let v = expression_tokens(value);
    let semicolon = seq![token(TokenType::SEMICOLON, seq![';'])];
    assert(t =~= head + v + semicolon);
    lemma_at_split(ts, i, head + v, semicolon);
    lemma_at_split(ts, i, head, v);
    lemma_at_token(ts, i + 1 + v.len(), semicolon, 0);
    let end = i + 1 + v.len() - 1;
    assert(kind(ts, end + 1) == TokenType::SEMICOLON);
    assert(expression(ts, i + 1, Precedence::LOWEST) == Ok::<(ExpressionView, nat), ParseError>(
        (value, (v.len() - 1) as nat),
    )) by {
        lemma_expression(value, ts, i + 1, Precedence::LOWEST);
        assert(climb(ts, end, value, Precedence::LOWEST) == Ok::<
            (ExpressionView, nat),
            ParseError,
        >((value, 0)));
    }
}

/// `lemma_statement` for a bare expression.
#[verifier::rlimit(60)]
proof fn lemma_bare(s: StatementView, ts: Seq<TokenView>, i: int)
    requires
        printable_statement(s),
        s is Expression,
        at(ts, i, statement_tokens(s)),
        ends_statement(kind(ts, i + statement_tokens(s).len())),
    ensures
        expression_statement(ts, i) == Ok::<(StatementView, nat), ParseError>(
            (s, (statement_tokens(s).len() - 1) as nat),
        ),
    decreases s, 0nat,
{
    let t = statement_tokens(s);
    let value = s->Expression_0;
    let end = i + t.len() - 1;
    assert(expression(ts, i, Precedence::LOWEST) == Ok::<(ExpressionView, nat), ParseError>(
        (value, (t.len() - 1) as nat),
    )) by {
        lemma_expression(value, ts, i, Precedence::LOWEST);
        assert(climb(ts, end, value, Precedence::LOWEST) == Ok::<
            (ExpressionView, nat),
            ParseError,
        >((value, 0)));
    }
}

/// Where the tokens of printable statements stand before the end of the
/// tokens, the statements are read as a program.
pub proof fn lemma_program_rest(ss: Seq<StatementView>, from: nat, ts: Seq<TokenView>, j: int)
    requires
        from <= ss.len(),
        printable_statements(ss, from),
        at(ts, j, statements_tokens(ss, from)),
        kind(ts, j + statements_tokens(ss, from).len()) == TokenType::EOF,
    ensures
        program(ts, j) == Ok::<Seq<StatementView>, ParseError>(ss.skip(from as int)),
    decreases ss.len() - from,
{
    if from == ss.len() {
        assert(ss.skip(from as int) =~= Seq::<StatementView>::empty());
    } else {
        let first = ss[from as int];
        let f = statement_tokens(first);
        let rest = statements_tokens(ss, from + 1);
        lemma_statement_starts(first);
        lemma_at_split(ts, j, f, rest);
        lemma_at_token(ts, j, f, 0);
        if from + 1 < ss.len() {
            assert(printable_statements(ss, from + 1));
            let second = statement_tokens(ss[from as int + 1]);
            lemma_statement_starts(ss[from as int + 1]);
            assert(rest == second + statements_tokens(ss, from + 2));
            lemma_at_split(ts, j + f.len(), second, statements_tokens(ss, from + 2));
            lemma_at_token(ts, j + f.len(), second, 0);
        } else {
            assert(rest =~= Seq::<TokenView>::empty());
        }
        lemma_statement(first, ts, j);
        lemma_program_rest(ss, from + 1, ts, j + f.len());
        assert(seq![first] + ss.skip(from as int + 1) =~= ss.skip(from as int));
    }
}

/// The tokens of a printable program, ended by `EOF`, read as that
/// program.
pub proof fn lemma_program_tokens_read_back(p: ProgramView, ts: Seq<TokenView>)
    requires
        printable_program(p),
        at(ts, 0, program_tokens(p)),
        kind(ts, program_tokens(p).len() as int) == TokenType::EOF,
    ensures
        program(ts, 0) == Ok::<Seq<StatementView>, ParseError>(p.statements),
{
    lemma_program_rest(p.statements, 0, ts, 0);
    assert(p.statements.skip(0) =~= p.statements);
}

} // verus!
