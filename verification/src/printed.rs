//! The tokens that the text of a syntax tree consists of, and the trees
//! whose text reads as themselves.
use crate::ast::{ExpressionView, ProgramView, StatementView};
use crate::grammar::is_binary_operator;
use crate::text::{int_text, is_ident_char};
use crate::token::{is_keyword, TokenType, TokenView};
use vstd::prelude::*;

verus! {

/// The token of category `t` with the text `text`.
pub open spec fn token(t: TokenType, text: Seq<char>) -> TokenView {
    TokenView { token_type: t, literal: text }
}

/// The category of the operator that `text` spells, if it spells one.
pub open spec fn operator_kind(text: Seq<char>) -> Option<TokenType> {
    if text == seq!['+'] {
        Some(TokenType::PLUS)
    } else if text == seq!['-'] {
        Some(TokenType::MINUS)
    } else if text == seq!['*'] {
        Some(TokenType::ASTERISK)
    } else if text == seq!['/'] {
        Some(TokenType::SLASH)
    } else if text == seq!['<'] {
        Some(TokenType::LT)
    } else if text == seq!['>'] {
        Some(TokenType::GT)
    } else if text == seq!['=', '='] {
        Some(TokenType::EQ)
    } else if text == seq!['!', '='] {
        Some(TokenType::NOT_EQ)
    } else if text == seq!['!'] {
        Some(TokenType::BANG)
    } else {
        None
    }
}

/// Whether `text` is a prefix operator: `!` or `-`.
pub open spec fn is_prefix_operator_text(text: Seq<char>) -> bool {
    text == seq!['!'] || text == seq!['-']
}

/// Whether `text` is one of the eight binary operators.
pub open spec fn is_binary_operator_text(text: Seq<char>) -> bool {
    operator_kind(text) matches Some(t) && is_binary_operator(t)
}

/// The token of the operator that `text` spells.
pub open spec fn operator_token(text: Seq<char>) -> TokenView {
    token(
        match operator_kind(text) {
            Some(t) => t,
            None => TokenType::ILLEGAL,
        },
        text,
    )
}

/// Whether `name` can be the text of an identifier token: a word that is
/// not reserved.
pub open spec fn is_name(name: Seq<char>) -> bool {
    &&& name.len() > 0
    &&& forall|i: int| 0 <= i < name.len() ==> is_ident_char(#[trigger] name[i])
    &&& !is_keyword(name)
}

/// The tokens that the text of an expression consists of.
pub open spec fn expression_tokens(e: ExpressionView) -> Seq<TokenView>
    decreases e, 0nat,
{
    match e {
        ExpressionView::Empty => Seq::empty(),
        ExpressionView::Identifier(name) => seq![token(TokenType::IDENT, name)],
        ExpressionView::Integer(i) => seq![token(TokenType::INT, int_text(i as int))],
        ExpressionView::Boolean(b) => if b {
            seq![token(TokenType::TRUE, "true"@)]
        } else {
            seq![token(TokenType::FALSE, "false"@)]
        },
        ExpressionView::Prefix { operator, right } => seq![
            token(TokenType::LPAREN, seq!['(']),
            operator_token(operator),
        ] + expression_tokens(*right) + seq![token(TokenType::RPAREN, seq![')'])],
        ExpressionView::Infix { left, operator, right } => seq![
            token(TokenType::LPAREN, seq!['(']),
        ] + expression_tokens(*left) + seq![operator_token(operator)] + expression_tokens(*right)
            + seq![token(TokenType::RPAREN, seq![')'])],
        ExpressionView::If { condition, consequence, alternative } => seq![
            token(TokenType::IF, "if"@),
        ] + expression_tokens(*condition) + statement_tokens(*consequence) + (match alternative {
            Some(block) => seq![token(TokenType::ELSE, "else"@)] + statement_tokens(*block),
            None => Seq::empty(),
        }),
        ExpressionView::Function { parameters, body } => seq![
            token(TokenType::FUNCTION, "fn"@),
            token(TokenType::LPAREN, seq!['(']),
        ] + list_tokens(parameters, 0) + seq![token(TokenType::RPAREN, seq![')'])]
            + statement_tokens(*body),
        ExpressionView::Call { function, arguments } => expression_tokens(*function) + seq![
            token(TokenType::LPAREN, seq!['(']),
        ] + list_tokens(arguments, 0) + seq![token(TokenType::RPAREN, seq![')'])],
    }
}

/// The tokens of the expressions of `es` from place `from` on, with a comma
/// between each two.
pub open spec fn list_tokens(es: Seq<ExpressionView>, from: nat) -> Seq<TokenView>
    decreases es, es.len() - from,
{
    if from >= es.len() {
        Seq::empty()
    } else if from + 1 == es.len() {
        expression_tokens(es[from as int])
    } else {
        expression_tokens(es[from as int]) + seq![token(TokenType::COMMA, seq![','])]
            + list_tokens(es, from + 1)
    }
}

/// The tokens that the text of a statement consists of.
pub open spec fn statement_tokens(s: StatementView) -> Seq<TokenView>
    decreases s, 0nat,
{
    match s {
        StatementView::Empty => Seq::empty(),
        StatementView::Let { name, value } => seq![
            token(TokenType::LET, "let"@),
            token(TokenType::IDENT, name),
            token(TokenType::ASSIGN, seq!['=']),
        ] + expression_tokens(value) + seq![token(TokenType::SEMICOLON, seq![';'])],
        StatementView::Return(e) => seq![token(TokenType::RETURN, "return"@)] + expression_tokens(
            e,
        ) + seq![token(TokenType::SEMICOLON, seq![';'])],
        StatementView::Expression(e) => expression_tokens(e),
        StatementView::Block { statements } => seq![token(TokenType::LBRACE, seq!['{'])]
            + statements_tokens(statements, 0) + seq![token(TokenType::RBRACE, seq!['}'])],
    }
}

/// The tokens of the statements of `ss` from place `from` on.
pub open spec fn statements_tokens(ss: Seq<StatementView>, from: nat) -> Seq<TokenView>
    decreases ss, ss.len() - from,
{
    if from >= ss.len() {
        Seq::empty()
    } else {
        statement_tokens(ss[from as int]) + statements_tokens(ss, from + 1)
    }
}

/// Whether an expression is one that a text can stand for and that stands
/// in its own text as itself: its names are identifiers, its integers are
/// not negative, its operators are operators, the condition of an `if` is
/// an expression that is written in parentheses, and the branches of an `if`
/// and the body of a function are blocks.
pub open spec fn printable_expression(e: ExpressionView) -> bool
    decreases e, 0nat,
{
    match e {
        ExpressionView::Empty => false,
        ExpressionView::Identifier(name) => is_name(name),
        ExpressionView::Integer(i) => i >= 0,
        ExpressionView::Boolean(b) => true,
        ExpressionView::Prefix { operator, right } => is_prefix_operator_text(operator)
            && printable_expression(*right),
        ExpressionView::Infix { left, operator, right } => is_binary_operator_text(operator)
            && printable_expression(*left) && printable_expression(*right),
        ExpressionView::If { condition, consequence, alternative } => {
            &&& *condition is Prefix || *condition is Infix
            &&& printable_expression(*condition)
            &&& *consequence is Block
            &&& printable_statement(*consequence)
            &&& match alternative {
                Some(block) => *block is Block && printable_statement(*block),
                None => true,
            }
        },
        ExpressionView::Function { parameters, body } => {
            &&& forall|i: int|
                0 <= i < parameters.len() ==> (#[trigger] parameters[i]) is Identifier
                    && is_name(parameters[i]->Identifier_0)
            &&& *body is Block
            &&& printable_statement(*body)
        },
        ExpressionView::Call { function, arguments } => printable_expression(*function)
            && printable_expressions(arguments, 0),
    }
}

/// Whether the expressions of `es` from place `from` on are printable.
pub open spec fn printable_expressions(es: Seq<ExpressionView>, from: nat) -> bool
    decreases es, es.len() - from,
{
    if from >= es.len() {
        true
    } else {
        printable_expression(es[from as int]) && printable_expressions(es, from + 1)
    }
}

/// Whether a statement is one that stands in its own text as itself.
pub open spec fn printable_statement(s: StatementView) -> bool
    decreases s, 0nat,
{
    match s {
        StatementView::Empty => false,
        StatementView::Let { name, value } => is_name(name) && printable_expression(value),
        StatementView::Return(e) => printable_expression(e),
        StatementView::Expression(e) => printable_expression(e),
        StatementView::Block { statements } => printable_statements(statements, 0),
    }
}

/// Whether the statements of `ss` from place `from` on stand in their
/// text as themselves: each is printable, and none that is a bare
/// expression is followed by a statement whose text starts with `(`, which
/// would read as the arguments of a call.
pub open spec fn printable_statements(ss: Seq<StatementView>, from: nat) -> bool
    decreases ss, ss.len() - from,
{
    if from >= ss.len() {
        true
    } else {
        &&& printable_statement(ss[from as int])
        &&& (ss[from as int] is Expression && from + 1 < ss.len() ==> statement_tokens(
            ss[from as int + 1],
        ).first().token_type != TokenType::LPAREN)
        &&& printable_statements(ss, from + 1)
    }
}

/// Whether a program stands in its own text as itself.
pub open spec fn printable_program(p: ProgramView) -> bool {
    printable_statements(p.statements, 0)
}

/// The tokens that the text of a program consists of, without the `EOF`
/// that ends them.
pub open spec fn program_tokens(p: ProgramView) -> Seq<TokenView> {
    statements_tokens(p.statements, 0)
}

} // verus!
