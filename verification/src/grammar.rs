//! The grammar, as functions from a place in a sequence of tokens to the
//! syntax tree that starts there.
use crate::ast::{ExpressionView, StatementView};
use crate::text::{integer_of, IntegerError};
use crate::token::{kind, tok, TokenType, TokenView};
use vstd::prelude::*;

verus! {

/// Why a token sequence is not a program.
#[derive(Debug, PartialEq, Eq, Clone, Copy, Structural)]
pub enum ParseError {
    /// The grammar asks for a token of category `expected` where one of
    /// category `found` stands.
    UnexpectedToken { expected: TokenType, found: TokenType },
    /// No expression starts with a token of this category.
    NoPrefixParseFunction(TokenType),
    /// An integer literal has no value in 64 bits.
    InvalidInteger(IntegerError),
}

/// How strongly an operator binds, lowest first.
#[allow(non_camel_case_types)]
#[derive(Debug, PartialEq, Eq, Clone, Copy, Structural)]
pub enum Precedence {
    LOWEST,
    EQUALS,
    LESSGREATER,
    SUM,
    PRODUCT,
    PREFIX,
    CALL,
}

impl Precedence {
    /// The place of this level in the order of levels.
    pub open spec fn level(self) -> int {
        match self {
            Precedence::LOWEST => 0,
            Precedence::EQUALS => 1,
            Precedence::LESSGREATER => 2,
            Precedence::SUM => 3,
            Precedence::PRODUCT => 4,
            Precedence::PREFIX => 5,
            Precedence::CALL => 6,
        }
    }

    /// The level at which a token of category `t` continues an expression;
    /// `LOWEST` for a token that continues none.
    pub open spec fn of(t: TokenType) -> Precedence {
        match t {
            TokenType::EQ => Precedence::EQUALS,
            TokenType::NOT_EQ => Precedence::EQUALS,
            TokenType::LT => Precedence::LESSGREATER,
            TokenType::GT => Precedence::LESSGREATER,
            TokenType::PLUS => Precedence::SUM,
            TokenType::MINUS => Precedence::SUM,
            TokenType::SLASH => Precedence::PRODUCT,
            TokenType::ASTERISK => Precedence::PRODUCT,
            TokenType::LPAREN => Precedence::CALL,
            _ => Precedence::LOWEST,
        }
    }
}

/// Whether a token of category `t` is a binary operator.
pub open spec fn is_binary_operator(t: TokenType) -> bool {
    t == TokenType::PLUS || t == TokenType::MINUS || t == TokenType::SLASH || t
        == TokenType::ASTERISK || t == TokenType::EQ || t == TokenType::NOT_EQ || t
        == TokenType::LT || t == TokenType::GT
}

/// How many places lie between `i` and the end of `ts`.
pub open spec fn remaining(ts: Seq<TokenView>, i: int) -> nat {
    if i < ts.len() {
        (ts.len() - i) as nat
    } else {
        0
    }
}

/// What a grammar rule makes of the tokens from some place on: a value and
/// the number of tokens between that place and the last token of the value,
/// or the first error.
pub type Parsed<T> = Result<(T, nat), ParseError>;

/// The error for a token of the wrong category at place `i`.
pub open spec fn unexpected(ts: Seq<TokenView>, i: int, expected: TokenType) -> ParseError {
    ParseError::UnexpectedToken { expected, found: kind(ts, i) }
}

/// A program: statements up to the end of the tokens, each followed by one
/// token that is passed over.
pub open spec fn program(ts: Seq<TokenView>, i: int) -> Result<Seq<StatementView>, ParseError>
    decreases remaining(ts, i),
{
    if kind(ts, i) == TokenType::EOF {
        Ok(Seq::empty())
    } else {
        match statement(ts, i) {
            Err(e) => Err(e),
            Ok((first, n)) => match program(ts, i + n + 1) {
                Err(e) => Err(e),
                Ok(rest) => Ok(seq![first] + rest),
            },
        }
    }
}

/// A statement that starts at place `i`: `let`, `return`, a block or an
/// expression statement, told apart by the first token.
pub open spec fn statement(ts: Seq<TokenView>, i: int) -> Parsed<StatementView>
    decreases remaining(ts, i), 5nat,
{
    match kind(ts, i) {
        TokenType::LET => let_statement(ts, i),
        TokenType::RETURN => return_statement(ts, i),
        TokenType::LBRACE => block(ts, i),
        _ => expression_statement(ts, i),
    }
}

/// `let IDENT = EXPR ;`, with `let` at place `i`.
pub open spec fn let_statement(ts: Seq<TokenView>, i: int) -> Parsed<StatementView>
    decreases remaining(ts, i), 4nat,
{
    if kind(ts, i + 1) != TokenType::IDENT {
        Err(unexpected(ts, i + 1, TokenType::IDENT))
    } else if kind(ts, i + 2) != TokenType::ASSIGN {
        Err(unexpected(ts, i + 2, TokenType::ASSIGN))
    } else {
        match expression(ts, i + 3, Precedence::LOWEST) {
            Err(e) => Err(e),
            Ok((value, n)) => if kind(ts, i + 3 + n + 1) != TokenType::SEMICOLON {
                Err(unexpected(ts, i + 3 + n + 1, TokenType::SEMICOLON))
            } else {
                Ok((StatementView::Let { name: tok(ts, i + 1).literal, value }, 3 + n + 1))
            },
        }
    }
}

/// `return EXPR ;`, with `return` at place `i`.
pub open spec fn return_statement(ts: Seq<TokenView>, i: int) -> Parsed<StatementView>
    decreases remaining(ts, i), 4nat,
{
    match expression(ts, i + 1, Precedence::LOWEST) {
        Err(e) => Err(e),
        Ok((value, n)) => if kind(ts, i + 1 + n + 1) != TokenType::SEMICOLON {
            Err(unexpected(ts, i + 1 + n + 1, TokenType::SEMICOLON))
        } else {
            Ok((StatementView::Return(value), 1 + n + 1))
        },
    }
}

/// An expression, and the semicolon after it if there is one.
pub open spec fn expression_statement(ts: Seq<TokenView>, i: int) -> Parsed<StatementView>
    decreases remaining(ts, i), 4nat,
{
    match expression(ts, i, Precedence::LOWEST) {
        Err(e) => Err(e),
        Ok((value, n)) => if kind(ts, i + n + 1) == TokenType::SEMICOLON {
            Ok((StatementView::Expression(value), n + 1))
        } else {
            Ok((StatementView::Expression(value), n))
        },
    }
}

/// A block: `{` at place `i`, statements, and the `}` that ends them.
pub open spec fn block(ts: Seq<TokenView>, i: int) -> Parsed<StatementView>
    decreases remaining(ts, i), 4nat,
{
    if kind(ts, i) != TokenType::LBRACE {
        Err(unexpected(ts, i, TokenType::LBRACE))
    } else {
        match block_rest(ts, i + 1) {
            Err(e) => Err(e),
            Ok((statements, n)) => Ok((StatementView::Block { statements }, 1 + n)),
        }
    }
}

/// The statements of a block from place `i` on, up to its `}`. Each
/// statement is followed by one token that is passed over.
pub open spec fn block_rest(ts: Seq<TokenView>, i: int) -> Parsed<Seq<StatementView>>
    decreases remaining(ts, i), 6nat,
{
    if kind(ts, i) == TokenType::RBRACE {
        Ok((Seq::empty(), 0))
    } else if kind(ts, i) == TokenType::EOF {
        Err(unexpected(ts, i, TokenType::RBRACE))
    } else {
        match statement(ts, i) {
            Err(e) => Err(e),
            Ok((first, n)) => match block_rest(ts, i + n + 1) {
                Err(e) => Err(e),
                Ok((rest, m)) => Ok((seq![first] + rest, n + 1 + m)),
            },
        }
    }
}

/// An expression that starts at place `i` and takes in every operator that
/// binds more strongly than `min`.
pub open spec fn expression(ts: Seq<TokenView>, i: int, min: Precedence) -> Parsed<ExpressionView>
    decreases remaining(ts, i), 3nat,
{
    match prefix(ts, i) {
        Err(e) => Err(e),
        Ok((left, n)) => match climb(ts, i + n, left, min) {
            Err(e) => Err(e),
            Ok((whole, m)) => Ok((whole, n + m)),
        },
    }
}

/// Continues the expression `left`, whose last token stands at place `i`:
/// as long as the next token is no semicolon and binds more strongly than
/// `min`, it and what follows it are folded into the expression.
pub open spec fn climb(ts: Seq<TokenView>, i: int, left: ExpressionView, min: Precedence) -> Parsed<
    ExpressionView,
>
    decreases remaining(ts, i), 2nat,
{
    if kind(ts, i + 1) != TokenType::SEMICOLON && min.level() < Precedence::of(
        kind(ts, i + 1),
    ).level() {
        match infix(ts, i + 1, left) {
            Err(e) => Err(e),
            Ok((joined, n)) => match climb(ts, i + 1 + n, joined, min) {
                Err(e) => Err(e),
                Ok((whole, m)) => Ok((whole, 1 + n + m)),
            },
        }
    } else {
        Ok((left, 0))
    }
}

/// An expression without its continuation, told by the token at place `i`:
/// an identifier, a literal, a prefix operator with its operand, a group in
/// parentheses, an `if` or a function literal.
pub open spec fn prefix(ts: Seq<TokenView>, i: int) -> Parsed<ExpressionView>
    decreases remaining(ts, i), 2nat,
{
    match kind(ts, i) {
        TokenType::IDENT => Ok((ExpressionView::Identifier(tok(ts, i).literal), 0)),
        TokenType::INT => match integer_of(tok(ts, i).literal) {
            Ok(value) => Ok((ExpressionView::Integer(value), 0)),
            Err(e) => Err(ParseError::InvalidInteger(e)),
        },
        TokenType::TRUE => Ok((ExpressionView::Boolean(true), 0)),
        TokenType::FALSE => Ok((ExpressionView::Boolean(false), 0)),
        TokenType::BANG => prefix_expression(ts, i),
        TokenType::MINUS => prefix_expression(ts, i),
        TokenType::LPAREN => grouped_expression(ts, i),
        TokenType::IF => if_expression(ts, i),
        TokenType::FUNCTION => function_literal(ts, i),
        _ => Err(ParseError::NoPrefixParseFunction(kind(ts, i))),
    }
}

/// `!` or `-` at place `i`, and its operand.
pub open spec fn prefix_expression(ts: Seq<TokenView>, i: int) -> Parsed<ExpressionView>
    decreases remaining(ts, i), 1nat,
{
    if kind(ts, i) != TokenType::BANG && kind(ts, i) != TokenType::MINUS {
        Err(unexpected(ts, i, TokenType::BANG))
    } else {
        match expression(ts, i + 1, Precedence::PREFIX) {
            Err(e) => Err(e),
            Ok((right, n)) => Ok(
                (
                    ExpressionView::Prefix {
                        operator: tok(ts, i).literal,
                        right: Box::new(right),
                    },
                    1 + n,
                ),
            ),
        }
    }
}

/// `(` at place `i`, an expression, and `)`.
pub open spec fn grouped_expression(ts: Seq<TokenView>, i: int) -> Parsed<ExpressionView>
    decreases remaining(ts, i), 1nat,
{
    if kind(ts, i) != TokenType::LPAREN {
        Err(unexpected(ts, i, TokenType::LPAREN))
    } else {
        match expression(ts, i + 1, Precedence::LOWEST) {
            Err(e) => Err(e),
            Ok((inner, n)) => if kind(ts, i + 1 + n + 1) != TokenType::RPAREN {
                Err(unexpected(ts, i + 1 + n + 1, TokenType::RPAREN))
            } else {
                Ok((inner, 1 + n + 1))
            },
        }
    }
}

/// `if ( EXPR ) BLOCK`, with `if` at place `i`, and `else BLOCK` if `else`
/// follows.
pub open spec fn if_expression(ts: Seq<TokenView>, i: int) -> Parsed<ExpressionView>
    decreases remaining(ts, i), 1nat,
{
    if kind(ts, i + 1) != TokenType::LPAREN {
        Err(unexpected(ts, i + 1, TokenType::LPAREN))
    } else {
        match expression(ts, i + 2, Precedence::LOWEST) {
            Err(e) => Err(e),
            Ok((condition, n)) => {
                let close = i + 2 + n + 1;
                if kind(ts, close) != TokenType::RPAREN {
                    Err(unexpected(ts, close, TokenType::RPAREN))
                } else if kind(ts, close + 1) != TokenType::LBRACE {
                    Err(unexpected(ts, close + 1, TokenType::LBRACE))
                } else {
                    match block(ts, close + 1) {
                        Err(e) => Err(e),
                        Ok((consequence, m)) => {
                            let end = close + 1 + m;
                            if kind(ts, end + 1) != TokenType::ELSE {
                                Ok(
                                    (
                                        ExpressionView::If {
                                            condition: Box::new(condition),
                                            consequence: Box::new(consequence),
                                            alternative: None,
                                        },
                                        (2 + n + 1 + 1 + m) as nat,
                                    ),
                                )
                            } else if kind(ts, end + 2) != TokenType::LBRACE {
                                Err(unexpected(ts, end + 2, TokenType::LBRACE))
                            } else {
                                match block(ts, end + 2) {
                                    Err(e) => Err(e),
                                    Ok((alternative, k)) => Ok(
                                        (
                                            ExpressionView::If {
                                                condition: Box::new(condition),
                                                consequence: Box::new(consequence),
                                                alternative: Some(Box::new(alternative)),
                                            },
                                            (2 + n + 1 + 1 + m + 2 + k) as nat,
                                        ),
                                    ),
                                }
                            }
                        },
                    }
                }
            },
        }
    }
}

/// The parameters of a function literal: `(` at place `i`, identifiers
/// separated by commas, and `)`.
pub open spec fn function_parameters(ts: Seq<TokenView>, i: int) -> Parsed<Seq<ExpressionView>> {
    if kind(ts, i + 1) == TokenType::RPAREN {
        Ok((Seq::empty(), 1))
    } else if kind(ts, i + 1) != TokenType::IDENT {
        Err(unexpected(ts, i + 1, TokenType::IDENT))
    } else {
        match parameters_rest(ts, i + 1) {
            Err(e) => Err(e),
            Ok((rest, n)) => Ok(
                (seq![ExpressionView::Identifier(tok(ts, i + 1).literal)] + rest, 1 + n),
            ),
        }
    }
}

/// The parameters after the one at place `i`, up to the `)`.
pub open spec fn parameters_rest(ts: Seq<TokenView>, i: int) -> Parsed<Seq<ExpressionView>>
    decreases remaining(ts, i),
{
    if kind(ts, i + 1) == TokenType::COMMA {
        if kind(ts, i + 2) != TokenType::IDENT {
            Err(unexpected(ts, i + 2, TokenType::IDENT))
        } else {
            match parameters_rest(ts, i + 2) {
                Err(e) => Err(e),
                Ok((rest, n)) => Ok(
                    (seq![ExpressionView::Identifier(tok(ts, i + 2).literal)] + rest, 2 + n),
                ),
            }
        }
    } else if kind(ts, i + 1) == TokenType::RPAREN {
        Ok((Seq::empty(), 1))
    } else {
        Err(unexpected(ts, i + 1, TokenType::RPAREN))
    }
}

/// `fn ( PARAMETERS ) BLOCK`, with `fn` at place `i`.
pub open spec fn function_literal(ts: Seq<TokenView>, i: int) -> Parsed<ExpressionView>
    decreases remaining(ts, i), 1nat,
{
    if kind(ts, i + 1) != TokenType::LPAREN {
        Err(unexpected(ts, i + 1, TokenType::LPAREN))
    } else {
        match function_parameters(ts, i + 1) {
            Err(e) => Err(e),
            Ok((parameters, n)) => {
                let close = i + 1 + n;
                if kind(ts, close + 1) != TokenType::LBRACE {
                    Err(unexpected(ts, close + 1, TokenType::LBRACE))
                } else {
                    match block(ts, close + 1) {
                        Err(e) => Err(e),
                        Ok((body, m)) => Ok(
                            (
                                ExpressionView::Function { parameters, body: Box::new(body) },
                                (1 + n + 1 + m) as nat,
                            ),
                        ),
                    }
                }
            },
        }
    }
}

/// What the operator at place `i` makes of the expression `left` before
/// it: `(` takes the arguments of a call, a binary operator takes a right
/// operand that binds more strongly than itself, and any other token
/// leaves the expression as it is.
pub open spec fn infix(ts: Seq<TokenView>, i: int, left: ExpressionView) -> Parsed<ExpressionView>
    decreases remaining(ts, i), 2nat,
{
    if kind(ts, i) == TokenType::LPAREN {
        match call_arguments(ts, i) {
            Err(e) => Err(e),
            Ok((arguments, n)) => Ok(
                (ExpressionView::Call { function: Box::new(left), arguments }, n),
            ),
        }
    } else if is_binary_operator(kind(ts, i)) {
        match expression(ts, i + 1, Precedence::of(kind(ts, i))) {
            Err(e) => Err(e),
            Ok((right, n)) => Ok(
                (
                    ExpressionView::Infix {
                        left: Box::new(left),
                        operator: tok(ts, i).literal,
                        right: Box::new(right),
                    },
                    1 + n,
                ),
            ),
        }
    } else {
        Ok((left, 0))
    }
}

/// The arguments of a call: `(` at place `i`, expressions separated by
/// commas, and `)`.
pub open spec fn call_arguments(ts: Seq<TokenView>, i: int) -> Parsed<Seq<ExpressionView>>
    decreases remaining(ts, i), 0nat,
{
    if kind(ts, i) != TokenType::LPAREN {
        Err(unexpected(ts, i, TokenType::LPAREN))
    } else if kind(ts, i + 1) == TokenType::RPAREN {
        Ok((Seq::empty(), 1))
    } else {
        match expression(ts, i + 1, Precedence::LOWEST) {
            Err(e) => Err(e),
            Ok((first, n)) => match arguments_rest(ts, i + 1 + n) {
                Err(e) => Err(e),
                Ok((rest, m)) => Ok((seq![first] + rest, 1 + n + m)),
            },
        }
    }
}

/// The arguments after the one that ends at place `i`, up to the `)`.
pub open spec fn arguments_rest(ts: Seq<TokenView>, i: int) -> Parsed<Seq<ExpressionView>>
    decreases remaining(ts, i), 0nat,
{
    if kind(ts, i + 1) == TokenType::COMMA {
        match expression(ts, i + 2, Precedence::LOWEST) {
            Err(e) => Err(e),
            Ok((first, n)) => match arguments_rest(ts, i + 2 + n) {
                Err(e) => Err(e),
                Ok((rest, m)) => Ok((seq![first] + rest, 2 + n + m)),
            },
        }
    } else if kind(ts, i + 1) == TokenType::RPAREN {
        Ok((Seq::empty(), 1))
    } else {
        Err(unexpected(ts, i + 1, TokenType::RPAREN))
    }
}

} // verus!
