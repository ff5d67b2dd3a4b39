//! The parser: recursive descent with one token of lookahead, folding
//! operators by their levels, proved against `grammar`.
use crate::ast::{
    expressions_view, statements_view, Expression, ExpressionView, Program, Statement,
    StatementView,
};
use crate::grammar::{
    arguments_rest, block, block_rest, call_arguments, climb, expression, expression_statement,
    function_literal, function_parameters, grouped_expression, if_expression, infix,
    is_binary_operator, let_statement, parameters_rest, prefix, prefix_expression, program,
    remaining, return_statement, statement, unexpected, ParseError, Parsed, Precedence,
};
use crate::lexer::{cursor_after, lemma_token_stream_at, scan, token_stream, Lexer};
use crate::text::{parse_integer, push_text, IntegerError};
use crate::token::{kind, kind_name, tok, Token, TokenType, TokenView};
use vstd::prelude::*;

verus! {

/// The message of an integer that could not be read.
pub open spec fn integer_error_text(e: IntegerError) -> Seq<char> {
    match e {
        IntegerError::Empty => "cannot parse integer from empty string"@,
        IntegerError::InvalidDigit => "invalid digit found in string"@,
        IntegerError::Overflow => "number too large to fit in target type"@,
    }
}

/// The message of a parse error.
pub open spec fn parse_error_text(e: ParseError) -> Seq<char> {
    match e {
        ParseError::UnexpectedToken { expected, found } => "expected next token to be "@
            + kind_name(expected) + ", got "@ + kind_name(found) + " instead"@,
        ParseError::NoPrefixParseFunction(t) => "no prefix parse function for "@ + kind_name(t)
            + " found"@,
        ParseError::InvalidInteger(e) => integer_error_text(e),
    }
}

impl ParseError {
    /// The message that describes this error.
    pub fn message(&self) -> (text: String)
        ensures
            text@ == parse_error_text(*self),
    {
        let mut out = String::new();
        match self {
            ParseError::UnexpectedToken { expected, found } => {
                push_text(&mut out, "expected next token to be ");
                push_text(&mut out, expected.name());
                push_text(&mut out, ", got ");
                push_text(&mut out, found.name());
                push_text(&mut out, " instead");
            },
            ParseError::NoPrefixParseFunction(t) => {
                push_text(&mut out, "no prefix parse function for ");
                push_text(&mut out, t.name());
                push_text(&mut out, " found");
            },
            ParseError::InvalidInteger(e) => {
                match e {
                    IntegerError::Empty => {
                        push_text(&mut out, "cannot parse integer from empty string");
                    },
                    IntegerError::InvalidDigit => {
                        push_text(&mut out, "invalid digit found in string");
                    },
                    IntegerError::Overflow => {
                        push_text(&mut out, "number too large to fit in target type");
                    },
                }
            },
        }
        assert(out@ =~= parse_error_text(*self));
        out
    }
}

impl Precedence {
    /// The level at which a token of category `t` continues an expression.
    pub fn from_token_type(t: TokenType) -> (p: Precedence)
        ensures
            p == Precedence::of(t),
    {
        match t {
            TokenType::EQ => Precedence::EQUALS,
            TokenType::NOT_EQ => Precedence::EQUALS,
            TokenType::LT => Precedence::LESSGREATER,
            TokenType::GT => Precedence::LESSGREATER,
            TokenType::PLUS => Precedence::SUM,
            TokenType::MINUS => Precedence::SUM,
            TokenType::SLASH => Precedence::PRODUCT,
            TokenType::ASTERISK => Precedence::PRODUCT,
            TokenType::LPAREN => Precedence::CALL,
            _ => Precedence::LOWEST,
        }
    }

    /// The place of this level in the order of levels, as a number.
    pub fn rank(&self) -> (r: u8)
        ensures
            r == self.level(),
    {
        match self {
            Precedence::LOWEST => 0,
            Precedence::EQUALS => 1,
            Precedence::LESSGREATER => 2,
            Precedence::SUM => 3,
            Precedence::PRODUCT => 4,
            Precedence::PREFIX => 5,
            Precedence::CALL => 6,
        }
    }
}

/// The rule by which an expression starts.
#[derive(Debug, PartialEq, Eq, Clone, Copy, Structural)]
pub enum PrefixRule {
    Identifier,
    IntegerLiteral,
    Boolean,
    PrefixExpression,
    GroupedExpression,
    IfExpression,
    FunctionLiteral,
}

/// The rule by which an expression goes on.
#[derive(Debug, PartialEq, Eq, Clone, Copy, Structural)]
pub enum InfixRule {
    InfixExpression,
    CallExpression,
}

/// The result `r` with `k` more tokens counted before it.
pub open spec fn shift<T>(r: Parsed<T>, k: nat) -> Parsed<T> {
    match r {
        Ok((value, n)) => Ok((value, k + n)),
        Err(e) => Err(e),
    }
}

/// The list `r` with the items `head`, which took `k` tokens, before it.
pub open spec fn prepend<T>(head: Seq<T>, k: nat, r: Parsed<Seq<T>>) -> Parsed<Seq<T>> {
    match r {
        Ok((rest, n)) => Ok((head + rest, k + n)),
        Err(e) => Err(e),
    }
}

/// Whether the result `r` of a rule that moved the parser by `moved` tokens
/// is what the grammar gives.
pub open spec fn yields_expression(
    r: Result<Expression, ParseError>,
    moved: int,
    expected: Parsed<ExpressionView>,
) -> bool {
    match expected {
        Ok((value, n)) => r matches Ok(x) && x@ == value && moved == n,
        Err(e) => r matches Err(x) && x == e,
    }
}

/// As `yields_expression`, for a statement.
pub open spec fn yields_statement(
    r: Result<Statement, ParseError>,
    moved: int,
    expected: Parsed<StatementView>,
) -> bool {
    match expected {
        Ok((value, n)) => r matches Ok(x) && x@ == value && moved == n,
        Err(e) => r matches Err(x) && x == e,
    }
}

/// As `yields_expression`, for a list of expressions.
pub open spec fn yields_expressions(
    r: Result<Vec<Expression>, ParseError>,
    moved: int,
    expected: Parsed<Seq<ExpressionView>>,
) -> bool {
    match expected {
        Ok((value, n)) => r matches Ok(x) && expressions_view(x@) == value && moved == n,
        Err(e) => r matches Err(x) && x == e,
    }
}

/// A recursive-descent parser with one token of lookahead. It draws its
/// tokens from a lexer, one at a time.
pub struct Parser {
    lexer: Lexer,
    cur_token: Token,
    peek_token: Token,
    start: Ghost<int>,
    index: Ghost<int>,
}

impl Parser {
    /// The tokens that this parser reads: those of the lexer's text from
    /// where the lexer stood when the parser was made.
    pub closed spec fn tokens(&self) -> Seq<TokenView> {
        token_stream(self.lexer.input(), self.start@)
    }

    /// The place of the current token among `tokens()`.
    pub closed spec fn index(&self) -> int {
        self.index@
    }

    /// The current token and the one after it are those at `index()` and
    /// `index() + 1`, and the lexer stands behind them.
    #[verifier::opaque]
    pub closed spec fn wf(&self) -> bool {
        &&& 0 <= self.start@ <= self.lexer.input().len()
        &&& 0 <= self.index@
        &&& self.cur_token@ == tok(self.tokens(), self.index@)
        &&& self.peek_token@ == tok(self.tokens(), self.index@ + 1)
        &&& self.lexer.cursor() == cursor_after(
            self.lexer.input(),
            self.start@,
            (self.index@ + 2) as nat,
        )
    }

    /// A parser over the tokens that `lexer` has yet to give.
    pub fn new(lexer: Lexer) -> (p: Parser)
        ensures
            p.wf(),
            p.index() == 0,
            p.tokens() == token_stream(lexer.input(), lexer.cursor()),
    {
        let mut lexer = lexer;
        let ghost text = lexer.input();
        let ghost start = lexer.cursor();
        let cur_token = lexer.next_token();
        let peek_token = lexer.next_token();
        proof {
            reveal(Parser::wf);
            lemma_token_stream_at(text, start, 0);
            lemma_token_stream_at(text, start, 1);
            assert(cursor_after(text, start, 1) == scan(text, cursor_after(text, start, 0)).next);
            assert(cursor_after(text, start, 2) == scan(text, cursor_after(text, start, 1)).next);
        }
        Parser { lexer, cur_token, peek_token, start: Ghost(start), index: Ghost(0) }
    }

    /// Moves on by one token.
    pub fn next_token(&mut self)
        requires
            old(self).wf(),
        ensures
            final(self).wf(),
            final(self).tokens() == old(self).tokens(),
            final(self).index() == old(self).index() + 1,
    {
        proof {
            reveal(Parser::wf);
            let text = self.lexer.input();
            let read = (self.index@ + 2) as nat;
            lemma_token_stream_at(text, self.start@, read);
            assert(cursor_after(text, self.start@, read + 1) == scan(
                text,
                cursor_after(text, self.start@, read),
            ).next);
        }
        let next = self.lexer.next_token();
        let token_type = self.peek_token.token_type;
        let literal = self.peek_token.literal.clone();
        self.cur_token = Token { token_type, literal };
        self.peek_token = next;
        self.index = Ghost(self.index@ + 1);
    }

    /// Moves on by one token if the next token is of category `t`.
    fn expect_peek(&mut self, t: TokenType) -> (found: bool)
        requires
            old(self).wf(),
        ensures
            final(self).wf(),
            final(self).tokens() == old(self).tokens(),
            found == (kind(old(self).tokens(), old(self).index() + 1) == t),
            final(self).index() == if found {
                old(self).index() + 1
            } else {
                old(self).index()
            },
    {
        if self.peek_kind() == t {
            self.next_token();
            true
        } else {
            false
        }
    }

    /// The category of the current token.
    fn cur_kind(&self) -> (t: TokenType)
        requires
            self.wf(),
        ensures
            t == kind(self.tokens(), self.index()),
    {
        proof {
            reveal(Parser::wf);
        }
        self.cur_token.token_type
    }

    /// The category of the next token.
    fn peek_kind(&self) -> (t: TokenType)
        requires
            self.wf(),
        ensures
            t == kind(self.tokens(), self.index() + 1),
    {
        proof {
            reveal(Parser::wf);
        }
        self.peek_token.token_type
    }

    /// The text of the current token.
    fn cur_literal(&self) -> (text: String)
        requires
            self.wf(),
        ensures
            text@ == tok(self.tokens(), self.index()).literal,
    {
        proof {
            reveal(Parser::wf);
        }
        self.cur_token.literal.clone()
    }

    /// The error for a next token that is not of category `expected`.
    fn peek_error(&self, expected: TokenType) -> (e: ParseError)
        requires
            self.wf(),
        ensures
            e == unexpected(self.tokens(), self.index() + 1, expected),
    {
        ParseError::UnexpectedToken { expected, found: self.peek_kind() }
    }

    /// The level of the current token.
    fn cur_precedence(&self) -> (p: Precedence)
        requires
            self.wf(),
        ensures
            p == Precedence::of(kind(self.tokens(), self.index())),
    {
        Precedence::from_token_type(self.cur_kind())
    }

    /// The rule for an expression that starts with a token of category `t`.
    fn get_prefix_parse_fn(&self, t: TokenType) -> (rule: Option<PrefixRule>)
        ensures
            rule == match t {
                TokenType::IDENT => Some(PrefixRule::Identifier),
                TokenType::INT => Some(PrefixRule::IntegerLiteral),
                TokenType::TRUE => Some(PrefixRule::Boolean),
                TokenType::FALSE => Some(PrefixRule::Boolean),
                TokenType::BANG => Some(PrefixRule::PrefixExpression),
                TokenType::MINUS => Some(PrefixRule::PrefixExpression),
                TokenType::LPAREN => Some(PrefixRule::GroupedExpression),
                TokenType::IF => Some(PrefixRule::IfExpression),
                TokenType::FUNCTION => Some(PrefixRule::FunctionLiteral),
                _ => None,
            },
    {
        match t {
            TokenType::IDENT => Some(PrefixRule::Identifier),
            TokenType::INT => Some(PrefixRule::IntegerLiteral),
            TokenType::TRUE => Some(PrefixRule::Boolean),
            TokenType::FALSE => Some(PrefixRule::Boolean),
            TokenType::BANG => Some(PrefixRule::PrefixExpression),
            TokenType::MINUS => Some(PrefixRule::PrefixExpression),
            TokenType::LPAREN => Some(PrefixRule::GroupedExpression),
            TokenType::IF => Some(PrefixRule::IfExpression),
            TokenType::FUNCTION => Some(PrefixRule::FunctionLiteral),
            _ => None,
        }
    }

    /// The rule for an expression that goes on with a token of category `t`.
    fn get_infix_parse_fn(&self, t: TokenType) -> (rule: Option<InfixRule>)
        ensures
            rule == if t == TokenType::LPAREN {
                Some(InfixRule::CallExpression)
            } else if is_binary_operator(t) {
                Some(InfixRule::InfixExpression)
            } else {
                None
            },
    {
        match t {
            TokenType::PLUS => Some(InfixRule::InfixExpression),
            TokenType::MINUS => Some(InfixRule::InfixExpression),
            TokenType::SLASH => Some(InfixRule::InfixExpression),
            TokenType::ASTERISK => Some(InfixRule::InfixExpression),
            TokenType::EQ => Some(InfixRule::InfixExpression),
            TokenType::NOT_EQ => Some(InfixRule::InfixExpression),
            TokenType::LT => Some(InfixRule::InfixExpression),
            TokenType::GT => Some(InfixRule::InfixExpression),
            TokenType::LPAREN => Some(InfixRule::CallExpression),
            _ => None,
        }
    }

    /// Reads statements up to the end of the tokens.
    pub fn parse_program(&mut self) -> (r: Result<Program, ParseError>)
        requires
            old(self).wf(),
        ensures
            final(self).wf(),
            final(self).tokens() == old(self).tokens(),
            match program(old(self).tokens(), old(self).index()) {
                Ok(statements) => r matches Ok(p) && p@.statements == statements && kind(
                    final(self).tokens(),
                    final(self).index(),
                ) == TokenType::EOF,
                Err(e) => r matches Err(x) && x == e,
            },
    {
        let ghost ts = self.tokens();
        let ghost first = self.index();
        let mut statements: Vec<Statement> = Vec::new();
        while self.cur_kind() != TokenType::EOF
            invariant
                self.wf(),
                self.tokens() == ts,
                ts == old(self).tokens(),
                first == old(self).index(),
                program(ts, first) == match program(ts, self.index()) {
                    Ok(rest) => Ok::<Seq<StatementView>, ParseError>(
                        statements_view(statements@) + rest,
                    ),
                    Err(e) => Err(e),
                },
            decreases remaining(ts, self.index()),
        {
            let ghost here = self.index();
            let ghost before = statements_view(statements@);
            let stmt = match self.parse_statement() {
                Ok(stmt) => stmt,
                Err(e) => {
                    return Err(e);
                },
            };
            statements.push(stmt);
            self.next_token();
            proof {
                let n = statement(ts, here)->Ok_0.1;
                assert(statements_view(statements@) =~= before.push(stmt@));
                match program(ts, here + n + 1) {
                    Ok(rest) => {
                        assert(before + (seq![stmt@] + rest) =~= before.push(stmt@) + rest);
                    },
                    Err(e) => {},
                }
            }
        }
        assert(statements_view(statements@) + Seq::<StatementView>::empty() =~= statements_view(
            statements@,
        ));
        Ok(Program { statements })
    }

    /// Reads one statement.
    fn parse_statement(&mut self) -> (r: Result<Statement, ParseError>)
        requires
            old(self).wf(),
        ensures
            final(self).wf(),
            final(self).tokens() == old(self).tokens(),
            yields_statement(
                r,
                final(self).index() - old(self).index(),
                statement(old(self).tokens(), old(self).index()),
            ),
        decreases remaining(old(self).tokens(), old(self).index()), 5nat,
    {
        match self.cur_kind() {
            TokenType::LET => self.parse_let_statement(),
            TokenType::RETURN => self.parse_return_statement(),
            TokenType::LBRACE => self.parse_block_statement(),
            _ => self.parse_expression_statement(),
        }
    }

    /// Reads `let IDENT = EXPR ;`.
    fn parse_let_statement(&mut self) -> (r: Result<Statement, ParseError>)
        requires
            old(self).wf(),
        ensures
            final(self).wf(),
            final(self).tokens() == old(self).tokens(),
            yields_statement(
                r,
                final(self).index() - old(self).index(),
                let_statement(old(self).tokens(), old(self).index()),
            ),
        decreases remaining(old(self).tokens(), old(self).index()), 4nat,
    {
        let ghost ts = self.tokens();
        let ghost i = self.index();
        if !self.expect_peek(TokenType::IDENT) {
            return Err(self.peek_error(TokenType::IDENT));
        }
        let name = self.cur_literal();
        assert(name@ == tok(ts, i + 1).literal);
        if !self.expect_peek(TokenType::ASSIGN) {
            return Err(self.peek_error(TokenType::ASSIGN));
        }
        self.next_token();
        let value = match self.parse_expression(Precedence::LOWEST) {
            Ok(value) => value,
            Err(e) => {
                assert(expression(ts, i + 3, Precedence::LOWEST) == Err::<
                    (ExpressionView, nat),
                    ParseError,
                >(e));
                return Err(e);
            },
        };
        let ghost n = expression(ts, i + 3, Precedence::LOWEST)->Ok_0.1;
        assert(expression(ts, i + 3, Precedence::LOWEST) == Ok::<
            (ExpressionView, nat),
            ParseError,
        >((value@, n)));
        assert(self.index() == i + 3 + n);
        if !self.expect_peek(TokenType::SEMICOLON) {
            return Err(self.peek_error(TokenType::SEMICOLON));
        }
        Ok(Statement::LetStatement { name, value })
    }

    /// Reads `return EXPR ;`.
    fn parse_return_statement(&mut self) -> (r: Result<Statement, ParseError>)
        requires
            old(self).wf(),
        ensures
            final(self).wf(),
            final(self).tokens() == old(self).tokens(),
            yields_statement(
                r,
                final(self).index() - old(self).index(),
                return_statement(old(self).tokens(), old(self).index()),
            ),
        decreases remaining(old(self).tokens(), old(self).index()), 4nat,
    {
        let ghost ts = self.tokens();
        let ghost i = self.index();
        self.next_token();
        let value = match self.parse_expression(Precedence::LOWEST) {
            Ok(value) => value,
            Err(e) => {
                assert(expression(ts, i + 1, Precedence::LOWEST) == Err::<
                    (ExpressionView, nat),
                    ParseError,
                >(e));
                return Err(e);
            },
        };
        let ghost n = expression(ts, i + 1, Precedence::LOWEST)->Ok_0.1;
        assert(expression(ts, i + 1, Precedence::LOWEST) == Ok::<
            (ExpressionView, nat),
            ParseError,
        >((value@, n)));
        assert(self.index() == i + 1 + n);
        if !self.expect_peek(TokenType::SEMICOLON) {
            return Err(self.peek_error(TokenType::SEMICOLON));
        }
        Ok(Statement::ReturnStatement(value))
    }

    /// Reads a block, from its `{` to its `}`.
    fn parse_block_statement(&mut self) -> (r: Result<Statement, ParseError>)
        requires
            old(self).wf(),
            kind(old(self).tokens(), old(self).index()) == TokenType::LBRACE,
        ensures
            final(self).wf(),
            final(self).tokens() == old(self).tokens(),
            yields_statement(
                r,
                final(self).index() - old(self).index(),
                block(old(self).tokens(), old(self).index()),
            ),
        decreases remaining(old(self).tokens(), old(self).index()), 4nat,
    {
        let ghost ts = self.tokens();
        self.next_token();
        let ghost first = self.index();
        let mut statements: Vec<Statement> = Vec::new();
        while self.cur_kind() != TokenType::RBRACE && self.cur_kind()
            != TokenType::EOF
            invariant
                self.wf(),
                self.tokens() == ts,
                first <= self.index(),
                first == old(self).index() + 1,
                kind(ts, old(self).index()) == TokenType::LBRACE,
                ts == old(self).tokens(),
                block_rest(ts, first) == prepend(
                    statements_view(statements@),
                    (self.index() - first) as nat,
                    block_rest(ts, self.index()),
                ),
            decreases remaining(ts, self.index()),
        {
            let ghost here = self.index();
            let ghost before = statements_view(statements@);
            let stmt = match self.parse_statement() {
                Ok(stmt) => stmt,
                Err(e) => {
                    return Err(e);
                },
            };
            statements.push(stmt);
            self.next_token();
            proof {
                let n = statement(ts, here)->Ok_0.1;
                assert(statements_view(statements@) =~= before.push(stmt@));
                match block_rest(ts, here + n + 1) {
                    Ok((rest, m)) => {
                        assert(before + (seq![stmt@] + rest) =~= before.push(stmt@) + rest);
                    },
                    Err(e) => {},
                }
            }
        }
        if self.cur_kind() == TokenType::EOF {
            return Err(
                ParseError::UnexpectedToken {
                    expected: TokenType::RBRACE,
                    found: self.cur_kind(),
                },
            );
        }
        assert(statements_view(statements@) + Seq::<StatementView>::empty() =~= statements_view(
            statements@,
        ));
        Ok(Statement::BlockStatement { statements })
    }

    /// Reads an expression and the semicolon after it, if there is one.
    fn parse_expression_statement(&mut self) -> (r: Result<Statement, ParseError>)
        requires
            old(self).wf(),
        ensures
            final(self).wf(),
            final(self).tokens() == old(self).tokens(),
            yields_statement(
                r,
                final(self).index() - old(self).index(),
                expression_statement(old(self).tokens(), old(self).index()),
            ),
        decreases remaining(old(self).tokens(), old(self).index()), 4nat,
    {
        let value = match self.parse_expression(Precedence::LOWEST) {
            Ok(value) => value,
            Err(e) => {
                return Err(e);
            },
        };
        if self.peek_kind() == TokenType::SEMICOLON {
            self.next_token();
        }
        Ok(Statement::ExpressionStatement(value))
    }

    /// Reads an expression with every operator that binds more strongly
    /// than `precedence`.
    fn parse_expression(&mut self, precedence: Precedence) -> (r: Result<Expression, ParseError>)
        requires
            old(self).wf(),
        ensures
            final(self).wf(),
            final(self).tokens() == old(self).tokens(),
            yields_expression(
                r,
                final(self).index() - old(self).index(),
                expression(old(self).tokens(), old(self).index(), precedence),
            ),
        decreases remaining(old(self).tokens(), old(self).index()), 3nat,
    {
        let ghost ts = self.tokens();
        let ghost first = self.index();
        let mut left = match self.parse_prefix() {
            Ok(left) => left,
            Err(e) => {
                return Err(e);
            },
        };
        while self.peek_kind() != TokenType::SEMICOLON && precedence.rank()
            < Precedence::from_token_type(self.peek_kind()).rank()
            invariant
                self.wf(),
                self.tokens() == ts,
                ts == old(self).tokens(),
                first == old(self).index(),
                first <= self.index(),
                expression(ts, first, precedence) == shift(
                    climb(ts, self.index(), left@, precedence),
                    (self.index() - first) as nat,
                ),
            decreases remaining(ts, self.index()),
        {
            self.next_token();
            left = match self.parse_infix(left) {
                Ok(joined) => joined,
                Err(e) => {
                    return Err(e);
                },
            };
        }
        Ok(left)
    }

    /// Reads an expression without its continuation.
    fn parse_prefix(&mut self) -> (r: Result<Expression, ParseError>)
        requires
            old(self).wf(),
        ensures
            final(self).wf(),
            final(self).tokens() == old(self).tokens(),
            yields_expression(
                r,
                final(self).index() - old(self).index(),
                prefix(old(self).tokens(), old(self).index()),
            ),
        decreases remaining(old(self).tokens(), old(self).index()), 2nat,
    {
        match self.get_prefix_parse_fn(self.cur_kind()) {
            None => Err(ParseError::NoPrefixParseFunction(self.cur_kind())),
            Some(PrefixRule::Identifier) => self.parse_identifier(),
            Some(PrefixRule::IntegerLiteral) => self.parse_integer_literal(),
            Some(PrefixRule::Boolean) => self.parse_boolean(),
            Some(PrefixRule::PrefixExpression) => self.parse_prefix_expression(),
            Some(PrefixRule::GroupedExpression) => self.parse_grouped_expression(),
            Some(PrefixRule::IfExpression) => self.parse_if_expression(),
            Some(PrefixRule::FunctionLiteral) => self.parse_function_literal(),
        }
    }

    /// Folds the operator at the current token, and what follows it, into
    /// the expression `left`.
    fn parse_infix(&mut self, left: Expression) -> (r: Result<Expression, ParseError>)
        requires
            old(self).wf(),
        ensures
            final(self).wf(),
            final(self).tokens() == old(self).tokens(),
            yields_expression(
                r,
                final(self).index() - old(self).index(),
                infix(old(self).tokens(), old(self).index(), left@),
            ),
        decreases remaining(old(self).tokens(), old(self).index()), 2nat,
    {
        match self.get_infix_parse_fn(self.cur_kind()) {
            None => Ok(left),
            Some(InfixRule::InfixExpression) => self.parse_infix_expression(left),
            Some(InfixRule::CallExpression) => self.parse_call_expression(left),
        }
    }

    /// The identifier at the current token.
    fn parse_identifier(&mut self) -> (r: Result<Expression, ParseError>)
        requires
            old(self).wf(),
            kind(old(self).tokens(), old(self).index()) == TokenType::IDENT,
        ensures
            *final(self) == *old(self),
            yields_expression(r, 0, prefix(old(self).tokens(), old(self).index())),
    {
        Ok(Expression::Identifier(self.cur_literal()))
    }

    /// The integer literal at the current token.
    fn parse_integer_literal(&mut self) -> (r: Result<Expression, ParseError>)
        requires
            old(self).wf(),
            kind(old(self).tokens(), old(self).index()) == TokenType::INT,
        ensures
            *final(self) == *old(self),
            yields_expression(r, 0, prefix(old(self).tokens(), old(self).index())),
    {
        match parse_integer(self.cur_literal().as_str()) {
            Ok(value) => Ok(Expression::IntegerLiteral(value)),
            Err(e) => Err(ParseError::InvalidInteger(e)),
        }
    }

    /// The boolean literal at the current token.
    fn parse_boolean(&mut self) -> (r: Result<Expression, ParseError>)
        requires
            old(self).wf(),
            kind(old(self).tokens(), old(self).index()) == TokenType::TRUE || kind(
                old(self).tokens(),
                old(self).index(),
            ) == TokenType::FALSE,
        ensures
            *final(self) == *old(self),
            yields_expression(r, 0, prefix(old(self).tokens(), old(self).index())),
    {
        Ok(Expression::Boolean(self.cur_kind() == TokenType::TRUE))
    }

    /// Reads `!` or `-` and its operand.
    fn parse_prefix_expression(&mut self) -> (r: Result<Expression, ParseError>)
        requires
            old(self).wf(),
            kind(old(self).tokens(), old(self).index()) == TokenType::BANG || kind(
                old(self).tokens(),
                old(self).index(),
            ) == TokenType::MINUS,
        ensures
            final(self).wf(),
            final(self).tokens() == old(self).tokens(),
            yields_expression(
                r,
                final(self).index() - old(self).index(),
                prefix_expression(old(self).tokens(), old(self).index()),
            ),
        decreases remaining(old(self).tokens(), old(self).index()), 1nat,
    {
        let operator = self.cur_literal();
        self.next_token();
        let right = match self.parse_expression(Precedence::PREFIX) {
            Ok(right) => right,
            Err(e) => {
                return Err(e);
            },
        };
        Ok(Expression::PrefixExpression { operator, right: Box::new(right) })
    }

    /// Reads an expression in parentheses.
    fn parse_grouped_expression(&mut self) -> (r: Result<Expression, ParseError>)
        requires
            old(self).wf(),
            kind(old(self).tokens(), old(self).index()) == TokenType::LPAREN,
        ensures
            final(self).wf(),
            final(self).tokens() == old(self).tokens(),
            yields_expression(
                r,
                final(self).index() - old(self).index(),
                grouped_expression(old(self).tokens(), old(self).index()),
            ),
        decreases remaining(old(self).tokens(), old(self).index()), 1nat,
    {
        self.next_token();
        let inner = match self.parse_expression(Precedence::LOWEST) {
            Ok(inner) => inner,
            Err(e) => {
                return Err(e);
            },
        };
        if !self.expect_peek(TokenType::RPAREN) {
            return Err(self.peek_error(TokenType::RPAREN));
        }
        Ok(inner)
    }

    /// Reads `if ( EXPR ) BLOCK`, and `else BLOCK` if `else` follows.
    fn parse_if_expression(&mut self) -> (r: Result<Expression, ParseError>)
        requires
            old(self).wf(),
        ensures
            final(self).wf(),
            final(self).tokens() == old(self).tokens(),
            yields_expression(
                r,
                final(self).index() - old(self).index(),
                if_expression(old(self).tokens(), old(self).index()),
            ),
        decreases remaining(old(self).tokens(), old(self).index()), 1nat,
    {
        if !self.expect_peek(TokenType::LPAREN) {
            return Err(self.peek_error(TokenType::LPAREN));
        }
        self.next_token();
        let condition = match self.parse_expression(Precedence::LOWEST) {
            Ok(condition) => condition,
            Err(e) => {
                return Err(e);
            },
        };
        if !self.expect_peek(TokenType::RPAREN) {
            return Err(self.peek_error(TokenType::RPAREN));
        }
        if !self.expect_peek(TokenType::LBRACE) {
            return Err(self.peek_error(TokenType::LBRACE));
        }
        let consequence = match self.parse_block_statement() {
            Ok(consequence) => consequence,
            Err(e) => {
                return Err(e);
            },
        };
        let alternative = if self.peek_kind() == TokenType::ELSE {
            self.next_token();
            if !self.expect_peek(TokenType::LBRACE) {
                return Err(self.peek_error(TokenType::LBRACE));
            }
            match self.parse_block_statement() {
                Ok(alternative) => Some(Box::new(alternative)),
                Err(e) => {
                    return Err(e);
                },
            }
        } else {
            None
        };
        Ok(
            Expression::IfExpression {
                condition: Box::new(condition),
                consequence: Box::new(consequence),
                alternative,
            },
        )
    }

    /// Reads the parameters of a function literal, from `(` to `)`.
    fn parse_function_parameters(&mut self) -> (r: Result<Vec<Expression>, ParseError>)
        requires
            old(self).wf(),
        ensures
            final(self).wf(),
            final(self).tokens() == old(self).tokens(),
            yields_expressions(
                r,
                final(self).index() - old(self).index(),
                function_parameters(old(self).tokens(), old(self).index()),
            ),
    {
        let ghost ts = self.tokens();
        let mut identifiers: Vec<Expression> = Vec::new();
        if self.peek_kind() == TokenType::RPAREN {
            self.next_token();
            assert(expressions_view(identifiers@) =~= Seq::<ExpressionView>::empty());
            return Ok(identifiers);
        }
        if !self.expect_peek(TokenType::IDENT) {
            return Err(self.peek_error(TokenType::IDENT));
        }
        let ghost first = self.index();
        let ghost head = seq![ExpressionView::Identifier(tok(ts, first).literal)];
        identifiers.push(Expression::Identifier(self.cur_literal()));
        assert(expressions_view(identifiers@) =~= head);
        while self.peek_kind() == TokenType::COMMA
            invariant
                self.wf(),
                self.tokens() == ts,
                first <= self.index(),
                ts == old(self).tokens(),
                first == old(self).index() + 1,
                kind(ts, first) == TokenType::IDENT,
                kind(ts, first) != TokenType::RPAREN,
                prepend(head, 0, parameters_rest(ts, first)) == prepend(
                    expressions_view(identifiers@),
                    (self.index() - first) as nat,
                    parameters_rest(ts, self.index()),
                ),
            decreases remaining(ts, self.index()),
        {
            let ghost here = self.index();
            let ghost before = expressions_view(identifiers@);
            self.next_token();
            if !self.expect_peek(TokenType::IDENT) {
                return Err(self.peek_error(TokenType::IDENT));
            }
            let parameter = Expression::Identifier(self.cur_literal());
            identifiers.push(parameter);
            proof {
                assert(expressions_view(identifiers@) =~= before.push(parameter@));
                match parameters_rest(ts, here + 2) {
                    Ok((rest, m)) => {
                        assert(before + (seq![parameter@] + rest) =~= before.push(parameter@)
                            + rest);
                    },
                    Err(e) => {},
                }
            }
        }
        if !self.expect_peek(TokenType::RPAREN) {
            return Err(self.peek_error(TokenType::RPAREN));
        }
        assert(expressions_view(identifiers@) + Seq::<ExpressionView>::empty()
            =~= expressions_view(identifiers@));
        Ok(identifiers)
    }

    /// Reads `fn ( PARAMETERS ) BLOCK`.
    fn parse_function_literal(&mut self) -> (r: Result<Expression, ParseError>)
        requires
            old(self).wf(),
        ensures
            final(self).wf(),
            final(self).tokens() == old(self).tokens(),
            yields_expression(
                r,
                final(self).index() - old(self).index(),
                function_literal(old(self).tokens(), old(self).index()),
            ),
        decreases remaining(old(self).tokens(), old(self).index()), 1nat,
    {
        if !self.expect_peek(TokenType::LPAREN) {
            return Err(self.peek_error(TokenType::LPAREN));
        }
        let parameters = match self.parse_function_parameters() {
            Ok(parameters) => parameters,
            Err(e) => {
                return Err(e);
            },
        };
        if !self.expect_peek(TokenType::LBRACE) {
            return Err(self.peek_error(TokenType::LBRACE));
        }
        let body = match self.parse_block_statement() {
            Ok(body) => body,
            Err(e) => {
                return Err(e);
            },
        };
        Ok(Expression::FunctionLiteral { parameters, body: Box::new(body) })
    }

    /// Reads a binary operator and its right operand.
    fn parse_infix_expression(&mut self, left: Expression) -> (r: Result<Expression, ParseError>)
        requires
            old(self).wf(),
            is_binary_operator(kind(old(self).tokens(), old(self).index())),
        ensures
            final(self).wf(),
            final(self).tokens() == old(self).tokens(),
            yields_expression(
                r,
                final(self).index() - old(self).index(),
                infix(old(self).tokens(), old(self).index(), left@),
            ),
        decreases remaining(old(self).tokens(), old(self).index()), 1nat,
    {
        let operator = self.cur_literal();
        let precedence = self.cur_precedence();
        self.next_token();
        let right = match self.parse_expression(precedence) {
            Ok(right) => right,
            Err(e) => {
                return Err(e);
            },
        };
        Ok(Expression::InfixExpression { left: Box::new(left), operator, right: Box::new(right) })
    }

    /// Reads the arguments of a call, from `(` to `)`.
    fn parse_call_arguments(&mut self) -> (r: Result<Vec<Expression>, ParseError>)
        requires
            old(self).wf(),
            kind(old(self).tokens(), old(self).index()) == TokenType::LPAREN,
        ensures
            final(self).wf(),
            final(self).tokens() == old(self).tokens(),
            yields_expressions(
                r,
                final(self).index() - old(self).index(),
                call_arguments(old(self).tokens(), old(self).index()),
            ),
        decreases remaining(old(self).tokens(), old(self).index()), 0nat,
    {
        let ghost ts = self.tokens();
        let ghost open = self.index();
        let mut args: Vec<Expression> = Vec::new();
        if self.peek_kind() == TokenType::RPAREN {
            self.next_token();
            assert(expressions_view(args@) =~= Seq::<ExpressionView>::empty());
            return Ok(args);
        }
        self.next_token();
        let first = match self.parse_expression(Precedence::LOWEST) {
            Ok(first) => first,
            Err(e) => {
                return Err(e);
            },
        };
        args.push(first);
        assert(expressions_view(args@) =~= seq![first@]);
        while self.peek_kind() == TokenType::COMMA
            invariant
                self.wf(),
                self.tokens() == ts,
                ts == old(self).tokens(),
                open == old(self).index(),
                open < self.index(),
                kind(ts, open) == TokenType::LPAREN,
                call_arguments(ts, open) == prepend(
                    expressions_view(args@),
                    (self.index() - open) as nat,
                    arguments_rest(ts, self.index()),
                ),
            decreases remaining(ts, self.index()),
        {
            let ghost here = self.index();
            let ghost before = expressions_view(args@);
            self.next_token();
            self.next_token();
            let argument = match self.parse_expression(Precedence::LOWEST) {
                Ok(argument) => argument,
                Err(e) => {
                    return Err(e);
                },
            };
            args.push(argument);
            proof {
                let n = expression(ts, here + 2, Precedence::LOWEST)->Ok_0.1;
                assert(expressions_view(args@) =~= before.push(argument@));
                match arguments_rest(ts, here + 2 + n) {
                    Ok((rest, m)) => {
                        assert(before + (seq![argument@] + rest) =~= before.push(argument@)
                            + rest);
                    },
                    Err(e) => {},
                }
            }
        }
        if !self.expect_peek(TokenType::RPAREN) {
            return Err(self.peek_error(TokenType::RPAREN));
        }
        assert(expressions_view(args@) + Seq::<ExpressionView>::empty() =~= expressions_view(
            args@,
        ));
        Ok(args)
    }

    /// Reads the arguments of a call of `function`.
    fn parse_call_expression(&mut self, function: Expression) -> (r: Result<
        Expression,
        ParseError,
    >)
        requires
            old(self).wf(),
            kind(old(self).tokens(), old(self).index()) == TokenType::LPAREN,
        ensures
            final(self).wf(),
            final(self).tokens() == old(self).tokens(),
            yields_expression(
                r,
                final(self).index() - old(self).index(),
                infix(old(self).tokens(), old(self).index(), function@),
            ),
        decreases remaining(old(self).tokens(), old(self).index()), 1nat,
    {
        let arguments = match self.parse_call_arguments() {
            Ok(arguments) => arguments,
            Err(e) => {
                return Err(e);
            },
        };
        Ok(Expression::CallExpression { function: Box::new(function), arguments })
    }
}

} // verus!
