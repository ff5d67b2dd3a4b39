//! What every syntax tree that is parsed from a text is like, and which of
//! them stand in their own text as themselves.
use crate::ast::{ExpressionView, StatementView};
use crate::grammar::{
    arguments_rest, block, block_rest, call_arguments, climb, expression, expression_statement,
    function_literal, function_parameters, grouped_expression, if_expression, infix,
    is_binary_operator, let_statement, parameters_rest, prefix, prefix_expression, program,
    remaining, return_statement, statement, Precedence,
};
use crate::lexer::{
    digits_end, lemma_digits_end_bounds, lemma_scan_progress, lemma_skip_blank_bounds,
    lemma_word_end_bounds, scan, skip_blank, token_stream, word_end,
};
use crate::printed::{
    is_binary_operator_text, is_name, is_prefix_operator_text, operator_kind, printable_expression,
    printable_expressions, printable_statement, printable_statements, statement_tokens,
};
use crate::text::{all_digits, integer_of, is_digit, is_ident_char};
use crate::token::{kind, tok, TokenType, TokenView};
use vstd::prelude::*;

verus! {

/// Whether a token is as the lexer gives it: the text of an identifier is
/// a name, that of an integer literal is digits, and that of an operator
/// is the operator.
pub open spec fn lexed_token(t: TokenView) -> bool {
    match t.token_type {
        TokenType::IDENT => is_name(t.literal),
        TokenType::INT => t.literal.len() > 0 && all_digits(t.literal),
        TokenType::BANG => t.literal == seq!['!'],
        TokenType::PLUS => t.literal == seq!['+'],
        TokenType::MINUS => t.literal == seq!['-'],
        TokenType::ASTERISK => t.literal == seq!['*'],
        TokenType::SLASH => t.literal == seq!['/'],
        TokenType::LT => t.literal == seq!['<'],
        TokenType::GT => t.literal == seq!['>'],
        TokenType::EQ => t.literal == seq!['=', '='],
        TokenType::NOT_EQ => t.literal == seq!['!', '='],
        _ => true,
    }
}

/// Whether all the tokens of `ts` are as the lexer gives them.
pub open spec fn lexed(ts: Seq<TokenView>) -> bool {
    forall|i: int| 0 <= i < ts.len() ==> lexed_token(#[trigger] ts[i])
}

/// Every token that is scanned is as the lexer gives it.
pub proof fn lemma_scan_lexed(s: Seq<char>, p: int)
    requires
        0 <= p <= s.len(),
    ensures
        lexed_token(scan(s, p).token),
{
    lemma_skip_blank_bounds(s, p);
    let q = skip_blank(s, p);
    if q < s.len() {
        let c = s[q];
        lemma_digits_end_bounds(s, q);
        lemma_word_end_bounds(s, q);
        let t = scan(s, p).token;
        if c == '=' && q + 1 < s.len() && s[q + 1] == '=' {
            assert(s.subrange(q, q + 2) =~= seq!['=', '=']);
        } else if c == '!' && q + 1 < s.len() && s[q + 1] == '=' {
            assert(s.subrange(q, q + 2) =~= seq!['!', '=']);
        } else if crate::lexer::symbol_kind(c) is Some {
            assert(s.subrange(q, q + 1) =~= seq![c]);
        } else if is_digit(c) {
            let d = s.subrange(q, digits_end(s, q));
            assert(digits_end(s, q) > q);
            assert forall|i: int| 0 <= i < d.len() implies is_digit(#[trigger] d[i]) by {
                assert(is_digit(s[q + i]));
            }
        } else if is_ident_char(c) {
            let w = s.subrange(q, word_end(s, q));
            assert(word_end(s, q) > q);
            assert forall|i: int| 0 <= i < w.len() implies is_ident_char(#[trigger] w[i]) by {
                assert(is_ident_char(s[q + i]));
            }
        }
    }
}

/// All the tokens of a text are as the lexer gives them.
pub proof fn lemma_stream_lexed(s: Seq<char>, p: int)
    requires
        0 <= p <= s.len(),
    ensures
        lexed(token_stream(s, p)),
    decreases s.len() - p,
{
    lemma_scan_lexed(s, p);
    lemma_scan_progress(s, p);
    let sc = scan(s, p);
    if sc.token.token_type != TokenType::EOF {
        lemma_stream_lexed(s, sc.next);
        let rest = token_stream(s, sc.next);
        let all = token_stream(s, p);
        assert(all =~= seq![sc.token] + rest);
        assert forall|i: int| 0 <= i < all.len() implies lexed_token(#[trigger] all[i]) by {
            if i > 0 {
                assert(all[i] == rest[i - 1]);
            }
        }
    }
}

/// Whether an expression is as the parser builds them from the lexer's
/// tokens: its names are identifiers, its integers are not negative, its
/// operators are operators, and the branches of an `if` and the body of a
/// function are blocks.
pub open spec fn proper_expression(e: ExpressionView) -> bool
    decreases e, 0nat,
{
    match e {
        ExpressionView::Empty => false,
        ExpressionView::Identifier(name) => is_name(name),
        ExpressionView::Integer(i) => i >= 0,
        ExpressionView::Boolean(b) => true,
        ExpressionView::Prefix { operator, right } => is_prefix_operator_text(operator)
            && proper_expression(*right),
        ExpressionView::Infix { left, operator, right } => is_binary_operator_text(operator)
            && proper_expression(*left) && proper_expression(*right),
        ExpressionView::If { condition, consequence, alternative } => {
            &&& proper_expression(*condition)
            &&& *consequence is Block
            &&& proper_statement(*consequence)
            &&& match alternative {
                Some(block) => *block is Block && proper_statement(*block),
                None => true,
            }
        },
        ExpressionView::Function { parameters, body } => {
            &&& names_only(parameters)
            &&& *body is Block
            &&& proper_statement(*body)
        },
        ExpressionView::Call { function, arguments } => proper_expression(*function)
            && proper_expressions(arguments, 0),
    }
}

/// Whether all of `es` are identifiers.
pub open spec fn names_only(es: Seq<ExpressionView>) -> bool {
    forall|i: int|
        0 <= i < es.len() ==> (#[trigger] es[i]) is Identifier && is_name(es[i]->Identifier_0)
}

/// Whether the expressions of `es` from place `from` on are proper.
pub open spec fn proper_expressions(es: Seq<ExpressionView>, from: nat) -> bool
    decreases es, es.len() - from,
{
    if from >= es.len() {
        true
    } else {
        proper_expression(es[from as int]) && proper_expressions(es, from + 1)
    }
}

/// Whether a statement is as the parser builds them.
pub open spec fn proper_statement(s: StatementView) -> bool
    decreases s, 0nat,
{
    match s {
        StatementView::Empty => false,
        StatementView::Let { name, value } => is_name(name) && proper_expression(value),
        StatementView::Return(e) => proper_expression(e),
        StatementView::Expression(e) => proper_expression(e),
        StatementView::Block { statements } => proper_statements(statements, 0),
    }
}

/// Whether the statements of `ss` from place `from` on are proper.
pub open spec fn proper_statements(ss: Seq<StatementView>, from: nat) -> bool
    decreases ss, ss.len() - from,
{
    if from >= ss.len() {
        true
    } else {
        proper_statement(ss[from as int]) && proper_statements(ss, from + 1)
    }
}

/// Whether the text of an expression can be read in one way only: the
/// condition of every `if` in it is a prefix or infix expression, which is
/// written in parentheses, and so it is with its parts.
pub open spec fn legible_expression(e: ExpressionView) -> bool
    decreases e, 0nat,
{
    match e {
        ExpressionView::Prefix { operator, right } => legible_expression(*right),
        ExpressionView::Infix { left, operator, right } => legible_expression(*left)
            && legible_expression(*right),
        ExpressionView::If { condition, consequence, alternative } => {
            &&& *condition is Prefix || *condition is Infix
            &&& legible_expression(*condition)
            &&& legible_statement(*consequence)
            &&& match alternative {
                Some(block) => legible_statement(*block),
                None => true,
            }
        },
        ExpressionView::Function { parameters, body } => legible_statement(*body),
        ExpressionView::Call { function, arguments } => legible_expression(*function)
            && legible_expressions(arguments, 0),
        _ => true,
    }
}

/// Whether the expressions of `es` from place `from` on are legible.
pub open spec fn legible_expressions(es: Seq<ExpressionView>, from: nat) -> bool
    decreases es, es.len() - from,
{
    if from >= es.len() {
        true
    } else {
        legible_expression(es[from as int]) && legible_expressions(es, from + 1)
    }
}

/// Whether the text of a statement can be read in one way only.
pub open spec fn legible_statement(s: StatementView) -> bool
    decreases s, 0nat,
{
    match s {
        StatementView::Let { name, value } => legible_expression(value),
        StatementView::Return(e) => legible_expression(e),
        StatementView::Expression(e) => legible_expression(e),
        StatementView::Block { statements } => legible_statements(statements, 0),
        StatementView::Empty => true,
    }
}

/// Whether the text of the statements of `ss` from place `from` on can be
/// read in one way only: each is legible, and none that is a bare
/// expression is followed by a statement whose text starts with `(`.
pub open spec fn legible_statements(ss: Seq<StatementView>, from: nat) -> bool
    decreases ss, ss.len() - from,
{
    if from >= ss.len() {
        true
    } else {
        &&& legible_statement(ss[from as int])
        &&& (ss[from as int] is Expression && from + 1 < ss.len() ==> statement_tokens(
            ss[from as int + 1],
        ).first().token_type != TokenType::LPAREN)
        &&& legible_statements(ss, from + 1)
    }
}

/// An expression that is proper and legible is printable.
pub proof fn lemma_proper_legible_expression(e: ExpressionView)
    requires
        proper_expression(e),
        legible_expression(e),
    ensures
        printable_expression(e),
    decreases e, 0nat,
{
    match e {
        ExpressionView::Prefix { operator, right } => {
            lemma_proper_legible_expression(*right);
        },
        ExpressionView::Infix { left, operator, right } => {
            lemma_proper_legible_expression(*left);
            lemma_proper_legible_expression(*right);
        },
        ExpressionView::If { condition, consequence, alternative } => {
            lemma_proper_legible_expression(*condition);
            lemma_proper_legible_statement(*consequence);
            match alternative {
                Some(block) => {
                    lemma_proper_legible_statement(*block);
                },
                None => {},
            }
        },
        ExpressionView::Function { parameters, body } => {
            lemma_proper_legible_statement(*body);
        },
        ExpressionView::Call { function, arguments } => {
            lemma_proper_legible_expression(*function);
            lemma_proper_legible_expressions(arguments, 0);
        },
        _ => {},
    }
}

/// Expressions that are proper and legible are printable.
pub proof fn lemma_proper_legible_expressions(es: Seq<ExpressionView>, from: nat)
    requires
        proper_expressions(es, from),
        legible_expressions(es, from),
    ensures
        printable_expressions(es, from),
    decreases es, es.len() - from,
{
    if from < es.len() {
        lemma_proper_legible_expression(es[from as int]);
        lemma_proper_legible_expressions(es, from + 1);
    }
}

/// A statement that is proper and legible is printable.
pub proof fn lemma_proper_legible_statement(s: StatementView)
    requires
        proper_statement(s),
        legible_statement(s),
    ensures
        printable_statement(s),
    decreases s, 0nat,
{
    match s {
        StatementView::Let { name, value } => {
            lemma_proper_legible_expression(value);
        },
        StatementView::Return(e) => {
            lemma_proper_legible_expression(e);
        },
        StatementView::Expression(e) => {
            lemma_proper_legible_expression(e);
        },
        StatementView::Block { statements } => {
            lemma_proper_legible_statements(statements, 0);
        },
        StatementView::Empty => {},
    }
}

/// Statements that are proper and legible are printable.
pub proof fn lemma_proper_legible_statements(ss: Seq<StatementView>, from: nat)
    requires
        proper_statements(ss, from),
        legible_statements(ss, from),
    ensures
        printable_statements(ss, from),
    decreases ss, ss.len() - from,
{
    if from < ss.len() {
        lemma_proper_legible_statement(ss[from as int]);
        lemma_proper_legible_statements(ss, from + 1);
    }
}

/// Expressions are proper from place `from` on if each of them is.
pub proof fn lemma_proper_expressions_from_each(es: Seq<ExpressionView>, from: nat)
    requires
        forall|i: int| from <= i < es.len() ==> proper_expression(#[trigger] es[i]),
    ensures
        proper_expressions(es, from),
    decreases es.len() - from,
{
    if from < es.len() {
        lemma_proper_expressions_from_each(es, from + 1);
    }
}

/// Statements are proper from place `from` on if each of them is.
pub proof fn lemma_proper_statements_from_each(ss: Seq<StatementView>, from: nat)
    requires
        forall|i: int| from <= i < ss.len() ==> proper_statement(#[trigger] ss[i]),
    ensures
        proper_statements(ss, from),
    decreases ss.len() - from,
{
    if from < ss.len() {
        lemma_proper_statements_from_each(ss, from + 1);
    }
}

/// Whether each of `es` is proper.
pub open spec fn each_proper_expression(es: Seq<ExpressionView>) -> bool {
    forall|i: int| 0 <= i < es.len() ==> proper_expression(#[trigger] es[i])
}

/// Whether each of `ss` is proper.
pub open spec fn each_proper_statement(ss: Seq<StatementView>) -> bool {
    forall|i: int| 0 <= i < ss.len() ==> proper_statement(#[trigger] ss[i])
}

/// The token at any place of lexed tokens is as the lexer gives it.
pub proof fn lemma_tok_lexed(ts: Seq<TokenView>, i: int)
    requires
        lexed(ts),
    ensures
        lexed_token(tok(ts, i)),
{
    if 0 <= i < ts.len() {
        assert(lexed_token(ts[i]));
    }
}

/// The text of a binary operator's token is a binary operator.
pub proof fn lemma_binary_token_text(t: TokenView)
    requires
        lexed_token(t),
        is_binary_operator(t.token_type),
    ensures
        is_binary_operator_text(t.literal),
        operator_kind(t.literal) == Some(t.token_type),
{
    let text = t.literal;
    assert(seq!['+'][0] == '+' && seq!['+'].len() == 1);
    assert(seq!['-'][0] == '-' && seq!['-'].len() == 1);
    assert(seq!['*'][0] == '*' && seq!['*'].len() == 1);
    assert(seq!['/'][0] == '/' && seq!['/'].len() == 1);
    assert(seq!['<'][0] == '<' && seq!['<'].len() == 1);
    assert(seq!['>'][0] == '>' && seq!['>'].len() == 1);
    assert(seq!['=', '='][0] == '=' && seq!['=', '='].len() == 2);
    assert(seq!['!', '='][0] == '!' && seq!['!', '='].len() == 2);
}

/// What is parsed as the parameters of a function is identifiers.
proof fn lemma_proper_parameters_rest(ts: Seq<TokenView>, i: int)
    requires
        lexed(ts),
    ensures
        parameters_rest(ts, i) matches Ok((params, n)) ==> names_only(params),
    decreases remaining(ts, i),
{
    if kind(ts, i + 1) == TokenType::COMMA && kind(ts, i + 2) == TokenType::IDENT {
        lemma_proper_parameters_rest(ts, i + 2);
        lemma_tok_lexed(ts, i + 2);
        match parameters_rest(ts, i + 2) {
            Ok((rest, n)) => {
                let all = seq![ExpressionView::Identifier(tok(ts, i + 2).literal)] + rest;
                assert forall|j: int| 0 <= j < all.len() implies (#[trigger] all[j])
                    is Identifier && is_name(all[j]->Identifier_0) by {
                    if j > 0 {
                        assert(all[j] == rest[j - 1]);
                    }
                }
            },
            Err(e) => {},
        }
    }
}

/// What is parsed as the parameters of a function, with their `(`, is
/// identifiers.
proof fn lemma_proper_parameters(ts: Seq<TokenView>, i: int)
    requires
        lexed(ts),
    ensures
        function_parameters(ts, i) matches Ok((params, n)) ==> names_only(params),
{
    if kind(ts, i + 1) == TokenType::IDENT {
        lemma_proper_parameters_rest(ts, i + 1);
        lemma_tok_lexed(ts, i + 1);
        match parameters_rest(ts, i + 1) {
            Ok((rest, n)) => {
                let all = seq![ExpressionView::Identifier(tok(ts, i + 1).literal)] + rest;
                assert forall|j: int| 0 <= j < all.len() implies (#[trigger] all[j])
                    is Identifier && is_name(all[j]->Identifier_0) by {
                    if j > 0 {
                        assert(all[j] == rest[j - 1]);
                    }
                }
            },
            Err(e) => {},
        }
    }
}

/// What is parsed as a program is proper statements.
pub proof fn lemma_proper_program(ts: Seq<TokenView>, i: int)
    requires
        lexed(ts),
    ensures
        program(ts, i) matches Ok(ss) ==> each_proper_statement(ss),
    decreases remaining(ts, i),
{
    if kind(ts, i) != TokenType::EOF {
        lemma_proper_statement(ts, i);
        match statement(ts, i) {
            Ok((first, n)) => {
                lemma_proper_program(ts, i + n + 1);
                match program(ts, i + n + 1) {
                    Ok(rest) => {
                        let all = seq![first] + rest;
                        assert forall|j: int| 0 <= j < all.len() implies proper_statement(
                            #[trigger] all[j],
                        ) by {
                            if j > 0 {
                                assert(all[j] == rest[j - 1]);
                            }
                        }
                    },
                    Err(e) => {},
                }
            },
            Err(e) => {},
        }
    }
}

/// What is parsed as a statement is a proper statement.
pub proof fn lemma_proper_statement(ts: Seq<TokenView>, i: int)
    requires
        lexed(ts),
    ensures
        statement(ts, i) matches Ok((s, n)) ==> proper_statement(s),
    decreases remaining(ts, i), 5nat,
{
    match kind(ts, i) {
        TokenType::LET => {
            lemma_proper_let(ts, i);
        },
        TokenType::RETURN => {
            lemma_proper_return(ts, i);
        },
        TokenType::LBRACE => {
            lemma_proper_block(ts, i);
        },
        _ => {
            lemma_proper_expression_statement(ts, i);
        },
    }
}

/// What is parsed as a `let` is a proper statement.
proof fn lemma_proper_let(ts: Seq<TokenView>, i: int)
    requires
        lexed(ts),
    ensures
        let_statement(ts, i) matches Ok((s, n)) ==> proper_statement(s),
    decreases remaining(ts, i), 4nat,
{
    lemma_tok_lexed(ts, i + 1);
    if kind(ts, i + 1) == TokenType::IDENT && kind(ts, i + 2) == TokenType::ASSIGN {
        lemma_proper_expression(ts, i + 3, Precedence::LOWEST);
    }
}

/// What is parsed as a `return` is a proper statement.
proof fn lemma_proper_return(ts: Seq<TokenView>, i: int)
    requires
        lexed(ts),
    ensures
        return_statement(ts, i) matches Ok((s, n)) ==> proper_statement(s),
    decreases remaining(ts, i), 4nat,
{
    lemma_proper_expression(ts, i + 1, Precedence::LOWEST);
}

/// What is parsed as a bare expression is a proper statement.
proof fn lemma_proper_expression_statement(ts: Seq<TokenView>, i: int)
    requires
        lexed(ts),
    ensures
        expression_statement(ts, i) matches Ok((s, n)) ==> proper_statement(s),
    decreases remaining(ts, i), 4nat,
{
    lemma_proper_expression(ts, i, Precedence::LOWEST);
}

/// What is parsed as a block is a proper block.
proof fn lemma_proper_block(ts: Seq<TokenView>, i: int)
    requires
        lexed(ts),
    ensures
        block(ts, i) matches Ok((s, n)) ==> s is Block && proper_statement(s),
    decreases remaining(ts, i), 4nat,
{
    if kind(ts, i) == TokenType::LBRACE {
        lemma_proper_block_rest(ts, i + 1);
        match block_rest(ts, i + 1) {
            Ok((statements, n)) => {
                lemma_proper_statements_from_each(statements, 0);
            },
            Err(e) => {},
        }
    }
}

/// What is parsed as the statements of a block is proper statements.
proof fn lemma_proper_block_rest(ts: Seq<TokenView>, i: int)
    requires
        lexed(ts),
    ensures
        block_rest(ts, i) matches Ok((ss, n)) ==> each_proper_statement(ss),
    decreases remaining(ts, i), 6nat,
{
    if kind(ts, i) != TokenType::RBRACE && kind(ts, i) != TokenType::EOF {
        lemma_proper_statement(ts, i);
        match statement(ts, i) {
            Ok((first, n)) => {
                lemma_proper_block_rest(ts, i + n + 1);
                match block_rest(ts, i + n + 1) {
                    Ok((rest, m)) => {
                        let all = seq![first] + rest;
                        assert forall|j: int| 0 <= j < all.len() implies proper_statement(
                            #[trigger] all[j],
                        ) by {
                            if j > 0 {
                                assert(all[j] == rest[j - 1]);
                            }
                        }
                    },
                    Err(e) => {},
                }
            },
            Err(e) => {},
        }
    }
}

/// What is parsed as an expression is a proper expression.
pub proof fn lemma_proper_expression(ts: Seq<TokenView>, i: int, min: Precedence)
    requires
        lexed(ts),
    ensures
        expression(ts, i, min) matches Ok((e, n)) ==> proper_expression(e),
    decreases remaining(ts, i), 3nat,
{
    lemma_proper_prefix(ts, i);
    match prefix(ts, i) {
        Ok((left, n)) => {
            lemma_proper_climb(ts, i + n, left, min);
        },
        Err(e) => {},
    }
}

/// What a proper expression is continued to is a proper expression.
proof fn lemma_proper_climb(ts: Seq<TokenView>, i: int, left: ExpressionView, min: Precedence)
    requires
        lexed(ts),
        proper_expression(left),
    ensures
        climb(ts, i, left, min) matches Ok((e, n)) ==> proper_expression(e),
    decreases remaining(ts, i), 2nat,
{
    if kind(ts, i + 1) != TokenType::SEMICOLON && min.level() < Precedence::of(
        kind(ts, i + 1),
    ).level() {
        lemma_proper_infix(ts, i + 1, left);
        match infix(ts, i + 1, left) {
            Ok((joined, n)) => {
                lemma_proper_climb(ts, i + 1 + n, joined, min);
            },
            Err(e) => {},
        }
    }
}

/// What is parsed as an expression without its continuation is a proper
/// expression.
proof fn lemma_proper_prefix(ts: Seq<TokenView>, i: int)
    requires
        lexed(ts),
    ensures
        prefix(ts, i) matches Ok((e, n)) ==> proper_expression(e),
    decreases remaining(ts, i), 2nat,
{
    lemma_tok_lexed(ts, i);
    match kind(ts, i) {
        TokenType::INT => {
            let text = tok(ts, i).literal;
            if integer_of(text) is Ok {
                crate::text::lemma_decimal_value_nonnegative(text);
            }
        },
        TokenType::BANG => {
            lemma_proper_prefix_expression(ts, i);
        },
        TokenType::MINUS => {
            lemma_proper_prefix_expression(ts, i);
        },
        TokenType::LPAREN => {
            lemma_proper_grouped(ts, i);
        },
        TokenType::IF => {
            lemma_proper_if(ts, i);
        },
        TokenType::FUNCTION => {
            lemma_proper_function(ts, i);
        },
        _ => {},
    }
}

/// What is parsed as a prefix expression is a proper expression.
proof fn lemma_proper_prefix_expression(ts: Seq<TokenView>, i: int)
    requires
        lexed(ts),
    ensures
        prefix_expression(ts, i) matches Ok((e, n)) ==> proper_expression(e),
    decreases remaining(ts, i), 1nat,
{
    lemma_tok_lexed(ts, i);
    if kind(ts, i) == TokenType::BANG || kind(ts, i) == TokenType::MINUS {
        lemma_proper_expression(ts, i + 1, Precedence::PREFIX);
    }
}

/// What is parsed in parentheses is a proper expression.
proof fn lemma_proper_grouped(ts: Seq<TokenView>, i: int)
    requires
        lexed(ts),
    ensures
        grouped_expression(ts, i) matches Ok((e, n)) ==> proper_expression(e),
    decreases remaining(ts, i), 1nat,
{
    if kind(ts, i) == TokenType::LPAREN {
        lemma_proper_expression(ts, i + 1, Precedence::LOWEST);
    }
}

/// What is parsed as an `if` is a proper expression.
proof fn lemma_proper_if(ts: Seq<TokenView>, i: int)
    requires
        lexed(ts),
    ensures
        if_expression(ts, i) matches Ok((e, n)) ==> proper_expression(e),
    decreases remaining(ts, i), 1nat,
{
    if kind(ts, i + 1) == TokenType::LPAREN {
        lemma_proper_expression(ts, i + 2, Precedence::LOWEST);
        match expression(ts, i + 2, Precedence::LOWEST) {
            Ok((condition, n)) => {
                let close = i + 2 + n + 1;
                if kind(ts, close) == TokenType::RPAREN && kind(ts, close + 1)
                    == TokenType::LBRACE {
                    lemma_proper_block(ts, close + 1);
                    match block(ts, close + 1) {
                        Ok((consequence, m)) => {
                            let end = close + 1 + m;
                            if kind(ts, end + 1) == TokenType::ELSE && kind(ts, end + 2)
                                == TokenType::LBRACE {
                                lemma_proper_block(ts, end + 2);
                            }
                        },
                        Err(e) => {},
                    }
                }
            },
            Err(e) => {},
        }
    }
}

/// What is parsed as a function literal is a proper expression.
proof fn lemma_proper_function(ts: Seq<TokenView>, i: int)
    requires
        lexed(ts),
    ensures
        function_literal(ts, i) matches Ok((e, n)) ==> proper_expression(e),
    decreases remaining(ts, i), 1nat,
{
    if kind(ts, i + 1) == TokenType::LPAREN {
        lemma_proper_parameters(ts, i + 1);
        match function_parameters(ts, i + 1) {
            Ok((parameters, n)) => {
                let close = i + 1 + n;
                if kind(ts, close + 1) == TokenType::LBRACE {
                    lemma_proper_block(ts, close + 1);
                }
            },
            Err(e) => {},
        }
    }
}

/// What an operator makes of a proper expression is a proper expression.
proof fn lemma_proper_infix(ts: Seq<TokenView>, i: int, left: ExpressionView)
    requires
        lexed(ts),
        proper_expression(left),
    ensures
        infix(ts, i, left) matches Ok((e, n)) ==> proper_expression(e),
    decreases remaining(ts, i), 2nat,
{
    lemma_tok_lexed(ts, i);
    if kind(ts, i) == TokenType::LPAREN {
        lemma_proper_call_arguments(ts, i);
        match call_arguments(ts, i) {
            Ok((arguments, n)) => {
                lemma_proper_expressions_from_each(arguments, 0);
            },
            Err(e) => {},
        }
    } else if is_binary_operator(kind(ts, i)) {
        lemma_binary_token_text(tok(ts, i));
        lemma_proper_expression(ts, i + 1, Precedence::of(kind(ts, i)));
    }
}

/// What is parsed as the arguments of a call is proper expressions.
proof fn lemma_proper_call_arguments(ts: Seq<TokenView>, i: int)
    requires
        lexed(ts),
    ensures
        call_arguments(ts, i) matches Ok((es, n)) ==> each_proper_expression(es),
    decreases remaining(ts, i), 0nat,
{
    if kind(ts, i) == TokenType::LPAREN && kind(ts, i + 1) != TokenType::RPAREN {
        lemma_proper_expression(ts, i + 1, Precedence::LOWEST);
        match expression(ts, i + 1, Precedence::LOWEST) {
            Ok((first, n)) => {
                lemma_proper_arguments_rest(ts, i + 1 + n);
                match arguments_rest(ts, i + 1 + n) {
                    Ok((rest, m)) => {
                        let all = seq![first] + rest;
                        assert forall|j: int| 0 <= j < all.len() implies proper_expression(
                            #[trigger] all[j],
                        ) by {
                            if j > 0 {
                                assert(all[j] == rest[j - 1]);
                            }
                        }
                    },
                    Err(e) => {},
                }
            },
            Err(e) => {},
        }
    }
}

/// What is parsed as further arguments of a call is proper expressions.
proof fn lemma_proper_arguments_rest(ts: Seq<TokenView>, i: int)
    requires
        lexed(ts),
    ensures
        arguments_rest(ts, i) matches Ok((es, n)) ==> each_proper_expression(es),
    decreases remaining(ts, i), 0nat,
{
    if kind(ts, i + 1) == TokenType::COMMA {
        lemma_proper_expression(ts, i + 2, Precedence::LOWEST);
        match expression(ts, i + 2, Precedence::LOWEST) {
            Ok((first, n)) => {
                lemma_proper_arguments_rest(ts, i + 2 + n);
                match arguments_rest(ts, i + 2 + n) {
                    Ok((rest, m)) => {
                        let all = seq![first] + rest;
                        assert forall|j: int| 0 <= j < all.len() implies proper_expression(
                            #[trigger] all[j],
                        ) by {
                            if j > 0 {
                                assert(all[j] == rest[j - 1]);
                            }
                        }
                    },
                    Err(e) => {},
                }
            },
            Err(e) => {},
        }
    }
}

} // verus!
