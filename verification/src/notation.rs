//! Expressions in the usual notation, with parentheses only where the
//! levels of the operators ask for them: the parser reads such a text as
//! the expression it was written for.
use crate::ast::{ExpressionView, StatementView};
use crate::grammar::{
    climb, expression, expression_statement, grouped_expression, infix, is_binary_operator, prefix,
    prefix_expression, program, statement, ParseError, Precedence,
};
use crate::parser::shift;
use crate::printed::{
    is_binary_operator_text, is_name, is_prefix_operator_text, operator_token, token,
};
use crate::printed_text::lemma_fixed_texts;
use crate::round_trip::{
    lemma_at_token, lemma_decimal_digits_value, lemma_integer_text_reads_back, lemma_operator_token,
};
use crate::sequences::{at, lemma_at_split};
use crate::spelling::{
    lemma_bang_before, lemma_free_binary, lemma_free_free, lemma_free_spells, lemma_free_symbol,
    lemma_free_then, lemma_spells_digits, lemma_spells_word, lemma_then_free, spells,
};
use crate::text::{decimal_digits, int_text, is_digit, is_ident_char};
use crate::token::{kind, tok, TokenType, TokenView};
use vstd::prelude::*;

verus! {

/// Whether an expression is made of names, integers that are not
/// negative, booleans, and prefix and infix operators only.
pub open spec fn is_operator_expression(e: ExpressionView) -> bool
    decreases e,
{
    match e {
        ExpressionView::Identifier(name) => is_name(name),
        ExpressionView::Integer(i) => i >= 0,
        ExpressionView::Boolean(b) => true,
        ExpressionView::Prefix { operator, right } => is_prefix_operator_text(operator)
            && is_operator_expression(*right),
        ExpressionView::Infix { left, operator, right } => is_binary_operator_text(operator)
            && is_operator_expression(*left) && is_operator_expression(*right),
        _ => false,
    }
}

/// The level of the operator that `text` spells.
pub open spec fn operator_level(text: Seq<char>) -> int {
    Precedence::of(operator_token(text).token_type).level()
}

/// How strongly an expression holds together: an infix expression as
/// strongly as its operator binds, every other more strongly than any
/// binary operator and than a prefix operator binds its operand.
pub open spec fn binding(e: ExpressionView) -> int {
    match e {
        ExpressionView::Infix { left, operator, right } => operator_level(operator),
        _ => 6,
    }
}

/// The tokens of an expression that stands where only what holds together
/// more strongly than `min` can stand without parentheses.
pub open spec fn notation(e: ExpressionView, min: int) -> Seq<TokenView>
    decreases e, 1nat,
{
    if binding(e) > min {
        bare(e)
    } else {
        seq![token(TokenType::LPAREN, seq!['('])] + bare(e) + seq![
            token(TokenType::RPAREN, seq![')']),
        ]
    }
}

/// The tokens of an expression without parentheses around it. The left
/// operand of a binary operator stands bare if it holds together at least
/// as strongly as the operator binds, the right operand only if more
/// strongly, and the operand of a prefix operator if it is no infix
/// expression.
pub open spec fn bare(e: ExpressionView) -> Seq<TokenView>
    decreases e, 0nat,
{
    match e {
        ExpressionView::Identifier(name) => seq![token(TokenType::IDENT, name)],
        ExpressionView::Integer(i) => seq![token(TokenType::INT, int_text(i as int))],
        ExpressionView::Boolean(b) => if b {
            seq![token(TokenType::TRUE, "true"@)]
        } else {
            seq![token(TokenType::FALSE, "false"@)]
        },
        ExpressionView::Prefix { operator, right } => seq![operator_token(operator)] + notation(
            *right,
            5,
        ),
        ExpressionView::Infix { left, operator, right } => notation(
            *left,
            operator_level(operator) - 1,
        ) + seq![operator_token(operator)] + notation(*right, operator_level(operator)),
        _ => Seq::empty(),
    }
}

/// Whether the token at place `i` leaves alone an expression that holds
/// together as strongly as `level`: it is a semicolon, or no operator that
/// binds more strongly than `level` or than a prefix operator.
pub open spec fn leaves_alone(ts: Seq<TokenView>, i: int, level: int) -> bool {
    kind(ts, i) == TokenType::SEMICOLON || (Precedence::of(kind(ts, i)).level() <= level
        && Precedence::of(kind(ts, i)).level() <= 5)
}

/// The level of a binary operator lies between those of `==` and `*`.
pub proof fn lemma_operator_level(text: Seq<char>)
    requires
        is_binary_operator_text(text),
    ensures
        1 <= operator_level(text) <= 4,
{
}

/// Reading an expression from where the bare tokens of an operator
/// expression stand, with a minimum below its binding, is reading that
/// expression and then going on from its last token.
pub proof fn lemma_bare(e: ExpressionView, ts: Seq<TokenView>, i: int, min: Precedence)
    requires
        is_operator_expression(e),
        at(ts, i, bare(e)),
        min.level() < binding(e),
        min.level() <= 5,
        leaves_alone(ts, i + bare(e).len(), binding(e)),
    ensures
        bare(e).len() > 0,
        expression(ts, i, min) == shift(
            climb(ts, i + bare(e).len() - 1, e, min),
            (bare(e).len() - 1) as nat,
        ),
    decreases e, 1nat,
{
    let t = bare(e);
    match e {
        ExpressionView::Identifier(name) => {
            lemma_at_token(ts, i, t, 0);
            assert(prefix(ts, i) == Ok::<(ExpressionView, nat), ParseError>((e, 0)));
        },
        ExpressionView::Integer(value) => {
            lemma_at_token(ts, i, t, 0);
            lemma_integer_text_reads_back(value);
            assert(prefix(ts, i) == Ok::<(ExpressionView, nat), ParseError>((e, 0)));
        },
        ExpressionView::Boolean(b) => {
            lemma_at_token(ts, i, t, 0);
            assert(prefix(ts, i) == Ok::<(ExpressionView, nat), ParseError>((e, 0)));
        },
        ExpressionView::Prefix { .. } => {
            lemma_bare_prefix(e, ts, i, min);
        },
        ExpressionView::Infix { .. } => {
            lemma_bare_infix(e, ts, i, min);
        },
        _ => {},
    }
}

/// `lemma_bare` for a prefix expression.
proof fn lemma_bare_prefix(e: ExpressionView, ts: Seq<TokenView>, i: int, min: Precedence)
    requires
        is_operator_expression(e),
        e is Prefix,
        at(ts, i, bare(e)),
        min.level() <= 5,
        leaves_alone(ts, i + bare(e).len(), 5),
    ensures
        bare(e).len() > 0,
        expression(ts, i, min) == shift(
            climb(ts, i + bare(e).len() - 1, e, min),
            (bare(e).len() - 1) as nat,
        ),
    decreases e, 0nat,
{
    let operator = e->Prefix_operator;
    let right = *e->Prefix_right;
    let op = seq![operator_token(operator)];
    let r = notation(right, 5);
    assert(bare(e) =~= op + r);
    lemma_operator_token(operator);
    lemma_at_split(ts, i, op, r);
    lemma_at_token(ts, i, op, 0);
    lemma_notation(right, ts, i + 1, 5, Precedence::PREFIX);
    let end = i + r.len();
    assert(kind(ts, i) == TokenType::BANG || kind(ts, i) == TokenType::MINUS);
    assert(tok(ts, i).literal == operator);
    assert(climb(ts, end, right, Precedence::PREFIX) == Ok::<(ExpressionView, nat), ParseError>(
        (right, 0),
    ));
    assert(expression(ts, i + 1, Precedence::PREFIX) == Ok::<(ExpressionView, nat), ParseError>(
        (right, (r.len() - 1) as nat),
    ));
    assert(prefix_expression(ts, i) == Ok::<(ExpressionView, nat), ParseError>((e, r.len())));
    assert(prefix(ts, i) == Ok::<(ExpressionView, nat), ParseError>((e, r.len())));
}

/// `lemma_bare` for an infix expression.
proof fn lemma_bare_infix(e: ExpressionView, ts: Seq<TokenView>, i: int, min: Precedence)
    requires
        is_operator_expression(e),
        e is Infix,
        at(ts, i, bare(e)),
        min.level() < binding(e),
        leaves_alone(ts, i + bare(e).len(), binding(e)),
    ensures
        bare(e).len() > 0,
        expression(ts, i, min) == shift(
            climb(ts, i + bare(e).len() - 1, e, min),
            (bare(e).len() - 1) as nat,
        ),
    decreases e, 0nat,
{
    let left = *e->Infix_left;
    let operator = e->Infix_operator;
    let right = *e->Infix_right;
    let level = operator_level(operator);
    let l = notation(left, level - 1);
    let op = seq![operator_token(operator)];
    let r = notation(right, level);
    let t = bare(e);
    assert(t =~= l + op + r);
    lemma_operator_token(operator);
    lemma_operator_level(operator);
    lemma_at_split(ts, i, l + op, r);
    lemma_at_split(ts, i, l, op);
    lemma_at_token(ts, i + l.len(), op, 0);
    let at_op = i + l.len();
    let binds = Precedence::of(kind(ts, at_op));
    assert(is_binary_operator(kind(ts, at_op)));
    assert(binds.level() == level);
    assert(tok(ts, at_op).literal == operator);
    lemma_notation(left, ts, i, level - 1, min);
    lemma_notation(right, ts, at_op + 1, level, binds);
    let end = at_op + r.len();
    assert(climb(ts, end, right, binds) == Ok::<(ExpressionView, nat), ParseError>((right, 0)));
    assert(expression(ts, at_op + 1, binds) == Ok::<(ExpressionView, nat), ParseError>(
        (right, (r.len() - 1) as nat),
    ));
    assert(infix(ts, at_op, left) == Ok::<(ExpressionView, nat), ParseError>((e, r.len())));
    let after = climb(ts, end, e, min);
    assert(climb(ts, at_op - 1, left, min) == shift(after, (1 + r.len()) as nat));
    assert(shift(shift(after, (1 + r.len()) as nat), (l.len() - 1) as nat) == shift(
        after,
        (t.len() - 1) as nat,
    ));
}

/// Reading an expression from where the tokens of an operator expression
/// stand, bare or in parentheses as its place asks, is reading that
/// expression and then going on from its last token.
pub proof fn lemma_notation(
    e: ExpressionView,
    ts: Seq<TokenView>,
    i: int,
    place: int,
    min: Precedence,
)
    requires
        is_operator_expression(e),
        at(ts, i, notation(e, place)),
        min.level() <= place <= 5,
        binding(e) > place ==> leaves_alone(ts, i + notation(e, place).len(), binding(e)),
    ensures
        notation(e, place).len() > 0,
        expression(ts, i, min) == shift(
            climb(ts, i + notation(e, place).len() - 1, e, min),
            (notation(e, place).len() - 1) as nat,
        ),
    decreases e, 2nat,
{
    if binding(e) > place {
        lemma_bare(e, ts, i, min);
    } else {
        let open = seq![token(TokenType::LPAREN, seq!['('])];
        let close = seq![token(TokenType::RPAREN, seq![')'])];
        let b = bare(e);
        assert(notation(e, place) =~= open + b + close);
        lemma_at_split(ts, i, open + b, close);
        lemma_at_split(ts, i, open, b);
        lemma_at_token(ts, i, open, 0);
        lemma_at_token(ts, i + 1 + b.len(), close, 0);
        lemma_operator_level(e->Infix_operator);
        lemma_bare(e, ts, i + 1, Precedence::LOWEST);
        let end = i + b.len();
        assert(kind(ts, end + 1) == TokenType::RPAREN);
        assert(climb(ts, end, e, Precedence::LOWEST) == Ok::<(ExpressionView, nat), ParseError>(
            (e, 0),
        ));
        assert(expression(ts, i + 1, Precedence::LOWEST) == Ok::<
            (ExpressionView, nat),
            ParseError,
        >((e, (b.len() - 1) as nat)));
        assert(grouped_expression(ts, i) == Ok::<(ExpressionView, nat), ParseError>(
            (e, (b.len() + 1) as nat),
        ));
        assert(prefix(ts, i) == Ok::<(ExpressionView, nat), ParseError>(
            (e, (b.len() + 1) as nat),
        ));
    }
}

/// The tokens of an operator expression in the usual notation, ended by
/// `EOF`, read as the program that is this one expression.
pub proof fn lemma_notation_program(e: ExpressionView, ts: Seq<TokenView>)
    requires
        is_operator_expression(e),
        at(ts, 0, notation(e, 0)),
        kind(ts, notation(e, 0).len() as int) == TokenType::EOF,
    ensures
        program(ts, 0) == Ok::<Seq<StatementView>, ParseError>(
            seq![StatementView::Expression(e)],
        ),
{
    let t = notation(e, 0);
    if e is Infix {
        lemma_operator_level(e->Infix_operator);
    }
    lemma_notation(e, ts, 0, 0, Precedence::LOWEST);
    lemma_at_token(ts, 0, t, 0);
    let end = t.len() - 1;
    assert(climb(ts, end, e, Precedence::LOWEST) == Ok::<(ExpressionView, nat), ParseError>(
        (e, 0),
    ));
    assert(expression(ts, 0, Precedence::LOWEST) == Ok::<(ExpressionView, nat), ParseError>(
        (e, end as nat),
    ));
    assert(expression_statement(ts, 0) == Ok::<(StatementView, nat), ParseError>(
        (StatementView::Expression(e), end as nat),
    ));
    lemma_notation_starts(e, 0);
    assert(statement(ts, 0) == Ok::<(StatementView, nat), ParseError>(
        (StatementView::Expression(e), end as nat),
    ));
    assert(program(ts, end + 1) == Ok::<Seq<StatementView>, ParseError>(Seq::empty()));
    assert(seq![StatementView::Expression(e)] + Seq::<StatementView>::empty() =~= seq![
        StatementView::Expression(e),
    ]);
}

/// The first token of an operator expression starts an expression.
pub proof fn lemma_notation_starts(e: ExpressionView, place: int)
    requires
        is_operator_expression(e),
    ensures
        notation(e, place).len() > 0,
        bare(e).len() > 0,
        ({
            let t = notation(e, place).first().token_type;
            t == TokenType::IDENT || t == TokenType::INT || t == TokenType::TRUE || t
                == TokenType::FALSE || t == TokenType::LPAREN || t == TokenType::BANG || t
                == TokenType::MINUS
        }),
        ({
            let t = bare(e).first().token_type;
            t == TokenType::IDENT || t == TokenType::INT || t == TokenType::TRUE || t
                == TokenType::FALSE || t == TokenType::LPAREN || t == TokenType::BANG || t
                == TokenType::MINUS
        }),
    decreases e,
{
    match e {
        ExpressionView::Prefix { operator, right } => {
            lemma_operator_token(operator);
        },
        ExpressionView::Infix { left, operator, right } => {
            lemma_notation_starts(*left, operator_level(operator) - 1);
            let l = notation(*left, operator_level(operator) - 1);
            assert(bare(e).first() == l.first());
        },
        _ => {},
    }
}


/// The text of an expression in the usual notation, in a place where only
/// what holds together more strongly than `min` stands without parentheses.
pub open spec fn notation_text(e: ExpressionView, min: int) -> Seq<char>
    decreases e, 1nat,
{
    if binding(e) > min {
        bare_text(e)
    } else {
        seq!['('] + bare_text(e) + seq![')']
    }
}

/// The text of an expression in the usual notation, without parentheses
/// around it: a prefix operator stands right before its operand, a binary
/// operator between blanks.
pub open spec fn bare_text(e: ExpressionView) -> Seq<char>
    decreases e, 0nat,
{
    match e {
        ExpressionView::Identifier(name) => name,
        ExpressionView::Integer(i) => int_text(i as int),
        ExpressionView::Boolean(b) => if b {
            "true"@
        } else {
            "false"@
        },
        ExpressionView::Prefix { operator, right } => operator + notation_text(*right, 5),
        ExpressionView::Infix { left, operator, right } => notation_text(
            *left,
            operator_level(operator) - 1,
        ) + seq![' '] + operator + seq![' '] + notation_text(*right, operator_level(operator)),
        _ => Seq::empty(),
    }
}

/// The bare text of an operator expression is read as its bare tokens,
/// wherever it stands before a break; and it does not start with `=`.
pub proof fn lemma_bare_text(e: ExpressionView)
    requires
        is_operator_expression(e),
    ensures
        spells(bare_text(e), bare(e)),
        bare_text(e).len() > 0,
        bare_text(e)[0] != '=',
    decreases e, 0nat,
{
    lemma_fixed_texts();
    match e {
        ExpressionView::Identifier(name) => {
            lemma_spells_word(name);
            assert(is_ident_char(name[0]));
        },
        ExpressionView::Integer(i) => {
            lemma_decimal_digits_value(i as nat);
            lemma_spells_digits(decimal_digits(i as nat));
            assert(is_digit(decimal_digits(i as nat)[0]));
        },
        ExpressionView::Boolean(b) => {},
        ExpressionView::Prefix { operator, right } => {
            lemma_notation_text(*right, 5);
            lemma_operator_token(operator);
            let r = notation_text(*right, 5);
            let tr = notation(*right, 5);
            if operator == seq!['!'] {
                lemma_bang_before(r, tr);
            } else {
                lemma_free_symbol('-', TokenType::MINUS);
                lemma_free_then(operator, seq![operator_token(operator)], r, tr);
            }
            assert(bare_text(e)[0] == operator[0]);
        },
        ExpressionView::Infix { left, operator, right } => {
            let level = operator_level(operator);
            lemma_notation_text(*left, level - 1);
            lemma_notation_text(*right, level);
            lemma_free_binary(operator);
            let l = notation_text(*left, level - 1);
            let tl = notation(*left, level - 1);
            let r = notation_text(*right, level);
            let tr = notation(*right, level);
            let middle = seq![' '] + operator + seq![' '];
            let top = seq![operator_token(operator)];
            assert(middle[0] == ' ');
            lemma_then_free(l, tl, middle, top);
            lemma_free_then(l + middle, tl + top, r, tr);
            assert(bare_text(e) =~= (l + middle) + r);
            assert(bare(e) =~= (tl + top) + tr);
            assert(bare_text(e)[0] == l[0]);
        },
        _ => {},
    }
}

/// The text of an operator expression in the usual notation is read as
/// its tokens, wherever it stands before a break; and it does not start
/// with `=`.
pub proof fn lemma_notation_text(e: ExpressionView, place: int)
    requires
        is_operator_expression(e),
    ensures
        spells(notation_text(e, place), notation(e, place)),
        notation_text(e, place).len() > 0,
        notation_text(e, place)[0] != '=',
    decreases e, 1nat,
{
    lemma_fixed_texts();
    lemma_bare_text(e);
    if binding(e) <= place {
        let b = bare_text(e);
        let tb = bare(e);
        let open = seq!['('];
        let topen = seq![token(TokenType::LPAREN, seq!['('])];
        let close = seq![')'];
        let tclose = seq![token(TokenType::RPAREN, seq![')'])];
        lemma_then_free(b, tb, close, tclose);
        lemma_free_free(open, topen, b + close, tb + tclose);
        lemma_free_spells(open + (b + close), topen + (tb + tclose));
        assert(notation_text(e, place) =~= open + (b + close));
        assert(notation(e, place) =~= topen + (tb + tclose));
    }
}

} // verus!
