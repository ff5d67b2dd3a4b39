//! The lexer: what the tokens of a text are, and the scanner that gives
//! them one at a time.
use crate::text::{
    can_use_as_ident, char_is_digit, char_is_whitespace, is_digit, is_ident_char, is_whitespace,
    text_of, to_chars,
};
use crate::token::{eof_token, keyword_at, keyword_kind, tok, Token, TokenType, TokenView};
use vstd::prelude::*;

verus! {

/// The first position at or after `p` that holds no white space.
pub open spec fn skip_blank(s: Seq<char>, p: int) -> int
    decreases s.len() - p,
{
    if 0 <= p < s.len() && is_whitespace(s[p]) {
        skip_blank(s, p + 1)
    } else {
        p
    }
}

/// The end of the longest run of ASCII digits that starts at `p`.
pub open spec fn digits_end(s: Seq<char>, p: int) -> int
    decreases s.len() - p,
{
    if 0 <= p < s.len() && is_digit(s[p]) {
        digits_end(s, p + 1)
    } else {
        p
    }
}

/// The end of the longest run of identifier characters that starts at `p`.
pub open spec fn word_end(s: Seq<char>, p: int) -> int
    decreases s.len() - p,
{
    if 0 <= p < s.len() && is_ident_char(s[p]) {
        word_end(s, p + 1)
    } else {
        p
    }
}

/// The category of a token that is always the single character `c`.
pub open spec fn symbol_kind(c: char) -> Option<TokenType> {
    if c == '=' {
        Some(TokenType::ASSIGN)
    } else if c == '+' {
        Some(TokenType::PLUS)
    } else if c == '-' {
        Some(TokenType::MINUS)
    } else if c == '!' {
        Some(TokenType::BANG)
    } else if c == '*' {
        Some(TokenType::ASTERISK)
    } else if c == '/' {
        Some(TokenType::SLASH)
    } else if c == '<' {
        Some(TokenType::LT)
    } else if c == '>' {
        Some(TokenType::GT)
    } else if c == ',' {
        Some(TokenType::COMMA)
    } else if c == ';' {
        Some(TokenType::SEMICOLON)
    } else if c == '(' {
        Some(TokenType::LPAREN)
    } else if c == ')' {
        Some(TokenType::RPAREN)
    } else if c == '{' {
        Some(TokenType::LBRACE)
    } else if c == '}' {
        Some(TokenType::RBRACE)
    } else {
        None
    }
}

/// A token together with the position at which scanning goes on.
pub struct Scan {
    pub token: TokenView,
    pub next: int,
}

/// The token that the text `s` holds at or after position `p`.
///
/// White space is skipped. `==` and `!=` are one token each, every other
/// operator and delimiter is one character. A run of digits is an integer
/// literal, a run of identifier characters is a keyword or an identifier,
/// and any other character is an illegal token of its own. At the end of
/// the text the token is `EOF`, and scanning stays there.
pub open spec fn scan(s: Seq<char>, p: int) -> Scan {
    let q = skip_blank(s, p);
    if !(0 <= q < s.len()) {
        Scan { token: eof_token(), next: q }
    } else {
        let c = s[q];
        if c == '=' && q + 1 < s.len() && s[q + 1] == '=' {
            Scan {
                token: TokenView { token_type: TokenType::EQ, literal: s.subrange(q, q + 2) },
                next: q + 2,
            }
        } else if c == '!' && q + 1 < s.len() && s[q + 1] == '=' {
            Scan {
                token: TokenView { token_type: TokenType::NOT_EQ, literal: s.subrange(q, q + 2) },
                next: q + 2,
            }
        } else if let Some(kind) = symbol_kind(c) {
            Scan {
                token: TokenView { token_type: kind, literal: s.subrange(q, q + 1) },
                next: q + 1,
            }
        } else if is_digit(c) {
            let e = digits_end(s, q);
            Scan {
                token: TokenView { token_type: TokenType::INT, literal: s.subrange(q, e) },
                next: e,
            }
        } else if is_ident_char(c) {
            let e = word_end(s, q);
            let word = s.subrange(q, e);
            Scan {
                token: TokenView { token_type: keyword_kind(word), literal: word },
                next: e,
            }
        } else {
            Scan {
                token: TokenView { token_type: TokenType::ILLEGAL, literal: s.subrange(q, q + 1) },
                next: q + 1,
            }
        }
    }
}

/// Skipping white space goes forwards, stays in the text, passes only over
/// white space and stops before a character that is none.
pub proof fn lemma_skip_blank_bounds(s: Seq<char>, p: int)
    requires
        0 <= p <= s.len(),
    ensures
        p <= skip_blank(s, p) <= s.len(),
        skip_blank(s, p) < s.len() ==> !is_whitespace(s[skip_blank(s, p)]),
        forall|i: int| p <= i < skip_blank(s, p) ==> is_whitespace(#[trigger] s[i]),
    decreases s.len() - p,
{
    if p < s.len() && is_whitespace(s[p]) {
        lemma_skip_blank_bounds(s, p + 1);
    }
}

/// A run of digits lies in the text, holds only digits and ends before a
/// character that is none.
pub proof fn lemma_digits_end_bounds(s: Seq<char>, p: int)
    requires
        0 <= p <= s.len(),
    ensures
        p <= digits_end(s, p) <= s.len(),
        digits_end(s, p) < s.len() ==> !is_digit(s[digits_end(s, p)]),
        forall|i: int| p <= i < digits_end(s, p) ==> is_digit(#[trigger] s[i]),
    decreases s.len() - p,
{
    if p < s.len() && is_digit(s[p]) {
        lemma_digits_end_bounds(s, p + 1);
    }
}

/// A run of identifier characters lies in the text, holds only such
/// characters and ends before a character that is none.
pub proof fn lemma_word_end_bounds(s: Seq<char>, p: int)
    requires
        0 <= p <= s.len(),
    ensures
        p <= word_end(s, p) <= s.len(),
        word_end(s, p) < s.len() ==> !is_ident_char(s[word_end(s, p)]),
        forall|i: int| p <= i < word_end(s, p) ==> is_ident_char(#[trigger] s[i]),
    decreases s.len() - p,
{
    if p < s.len() && is_ident_char(s[p]) {
        lemma_word_end_bounds(s, p + 1);
    }
}

/// Scanning never moves backwards or past the end of the text, and moves
/// forwards unless the text has ended; the text has ended exactly when the
/// token is `EOF`.
pub proof fn lemma_scan_progress(s: Seq<char>, p: int)
    requires
        0 <= p <= s.len(),
    ensures
        p <= scan(s, p).next <= s.len(),
        scan(s, p).token.token_type != TokenType::EOF ==> p < scan(s, p).next,
        scan(s, p).token.token_type == TokenType::EOF ==> scan(s, p).next == s.len() && scan(
            s,
            p,
        ).token == eof_token(),
        scan(s, p).token.token_type == TokenType::EOF <==> skip_blank(s, p) == s.len(),
{
    lemma_skip_blank_bounds(s, p);
    let q = skip_blank(s, p);
    if q < s.len() {
        lemma_digits_end_bounds(s, q);
        lemma_word_end_bounds(s, q);
        crate::token::lemma_keyword_kind_by_chars(s.subrange(q, word_end(s, q)));
    }
}

/// The tokens of the text `s` from position `p` on, up to and including
/// the one `EOF` that ends them.
pub open spec fn token_stream(s: Seq<char>, p: int) -> Seq<TokenView>
    decreases s.len() - p,
{
    if 0 <= p <= s.len() {
        let sc = scan(s, p);
        if sc.token.token_type == TokenType::EOF {
            seq![sc.token]
        } else {
            proof {
                lemma_scan_progress(s, p);
            }
            seq![sc.token] + token_stream(s, sc.next)
        }
    } else {
        seq![eof_token()]
    }
}

/// The position at which scanning stands after `n` tokens were read from
/// position `p` on.
pub open spec fn cursor_after(s: Seq<char>, p: int, n: nat) -> int
    decreases n,
{
    if n == 0 {
        p
    } else {
        scan(s, cursor_after(s, p, (n - 1) as nat)).next
    }
}

/// Reading one token and then `n` more is reading `n + 1` tokens.
pub proof fn lemma_cursor_after_shift(s: Seq<char>, p: int, n: nat)
    ensures
        cursor_after(s, scan(s, p).next, n) == cursor_after(s, p, n + 1),
    decreases n,
{
    if n > 0 {
        lemma_cursor_after_shift(s, p, (n - 1) as nat);
        assert(cursor_after(s, p, n + 1) == scan(s, cursor_after(s, p, n)).next);
    } else {
        assert(cursor_after(s, p, 1) == scan(s, cursor_after(s, p, 0)).next);
    }
}

/// The token at place `n` of the token stream is the one that the `n + 1`st
/// read returns, also when that place lies past the `EOF` that ends the
/// stream.
pub proof fn lemma_token_stream_at(s: Seq<char>, p: int, n: nat)
    requires
        0 <= p <= s.len(),
    ensures
        0 <= cursor_after(s, p, n) <= s.len(),
        tok(token_stream(s, p), n as int) == scan(s, cursor_after(s, p, n)).token,
    decreases n,
{
    lemma_scan_progress(s, p);
    if n > 0 {
        let next = scan(s, p).next;
        lemma_token_stream_at(s, next, (n - 1) as nat);
        lemma_cursor_after_shift(s, p, (n - 1) as nat);
        if scan(s, p).token.token_type == TokenType::EOF {
            lemma_scan_progress(s, next);
            lemma_skip_blank_bounds(s, next);
        }
    }
}

/// Turns source text into tokens, one at a time, on demand.
#[derive(Debug)]
pub struct Lexer {
    chars: Vec<char>,
    position: usize,
}

impl Lexer {
    #[verifier::type_invariant]
    spec fn well_formed(self) -> bool {
        self.position <= self.chars.len()
    }

    /// The text that this lexer reads.
    pub closed spec fn input(&self) -> Seq<char> {
        self.chars@
    }

    /// The position in the text at which the next token is looked for.
    pub closed spec fn cursor(&self) -> int {
        self.position as int
    }

    /// A lexer at the start of `input`.
    pub fn new(input: &str) -> (l: Lexer)
        ensures
            l.input() == input@,
            l.cursor() == 0,
    {
        Lexer { chars: to_chars(input), position: 0 }
    }

    /// Moves on by one character, unless the text has ended.
    fn read_symbol(&mut self)
        ensures
            final(self).chars == old(self).chars,
            final(self).position == if old(self).position < old(self).chars.len() {
                old(self).position + 1
            } else {
                old(self).position as int
            },
    {
        proof {
            use_type_invariant(&*self);
        }
        if self.position < self.chars.len() {
            self.position = self.position + 1;
        }
    }

    /// The character after the current one, if there is one.
    fn peak_symbol(&self) -> (c: Option<char>)
        ensures
            c == if self.position + 1 < self.chars.len() {
                Some(self.chars@[self.position + 1])
            } else {
                None
            },
    {
        proof {
            use_type_invariant(self);
        }
        if self.position < self.chars.len() && self.position + 1 < self.chars.len() {
            Some(self.chars[self.position + 1])
        } else {
            None
        }
    }

    /// Moves to the first character that is not white space.
    fn skip_whitespace(&mut self)
        ensures
            final(self).chars == old(self).chars,
            final(self).position == skip_blank(old(self).chars@, old(self).position as int),
    {
        proof {
            use_type_invariant(&*self);
        }
        while self.position < self.chars.len() && char_is_whitespace(self.chars[self.position])
            invariant
                self.chars == old(self).chars,
                self.position <= self.chars.len(),
                skip_blank(self.chars@, self.position as int) == skip_blank(
                    old(self).chars@,
                    old(self).position as int,
                ),
            decreases self.chars.len() - self.position,
        {
            self.position = self.position + 1;
        }
    }

    /// Reads the identifier that starts at the current character, and stops
    /// on its last character.
    fn read_identifier(&mut self) -> (word: String)
        requires
            old(self).position < old(self).chars.len(),
            is_ident_char(old(self).chars@[old(self).position as int]),
        ensures
            final(self).chars == old(self).chars,
            old(self).position <= final(self).position < final(self).chars.len(),
            final(self).position + 1 == word_end(old(self).chars@, old(self).position as int),
            word@ == old(self).chars@.subrange(
                old(self).position as int,
                final(self).position + 1,
            ),
    {
        let start = self.position;
        loop
            invariant
                self.chars == old(self).chars,
                start == old(self).position,
                start <= self.position < self.chars.len(),
                word_end(self.chars@, self.position as int) == word_end(
                    self.chars@,
                    start as int,
                ),
                is_ident_char(self.chars@[self.position as int]),
            ensures
                self.chars == old(self).chars,
                start <= self.position < self.chars.len(),
                self.position + 1 == word_end(self.chars@, start as int),
            decreases self.chars.len() - self.position,
        {
            match self.peak_symbol() {
                Some(symbol) => {
                    if can_use_as_ident(symbol) {
                        assert(word_end(self.chars@, self.position as int) == word_end(
                            self.chars@,
                            self.position + 1,
                        ));
                        self.read_symbol();
                    } else {
                        assert(word_end(self.chars@, self.position + 1) == self.position + 1);
                        break ;
                    }
                },
                None => {
                    assert(word_end(self.chars@, self.position + 1) == self.position + 1);
                    break ;
                },
            }
        }
        text_of(&self.chars, start, self.position + 1)
    }

    /// Reads the number that starts at the current character, and stops on
    /// its last digit.
    fn read_number(&mut self) -> (digits: String)
        requires
            old(self).position < old(self).chars.len(),
            is_digit(old(self).chars@[old(self).position as int]),
        ensures
            final(self).chars == old(self).chars,
            old(self).position <= final(self).position < final(self).chars.len(),
            final(self).position + 1 == digits_end(old(self).chars@, old(self).position as int),
            digits@ == old(self).chars@.subrange(
                old(self).position as int,
                final(self).position + 1,
            ),
    {
        let start = self.position;
        loop
            invariant
                self.chars == old(self).chars,
                start == old(self).position,
                start <= self.position < self.chars.len(),
                digits_end(self.chars@, self.position as int) == digits_end(
                    self.chars@,
                    start as int,
                ),
                is_digit(self.chars@[self.position as int]),
            ensures
                self.chars == old(self).chars,
                start <= self.position < self.chars.len(),
                self.position + 1 == digits_end(self.chars@, start as int),
            decreases self.chars.len() - self.position,
        {
            match self.peak_symbol() {
                Some(symbol) => {
                    if char_is_digit(symbol) {
                        assert(digits_end(self.chars@, self.position as int) == digits_end(
                            self.chars@,
                            self.position + 1,
                        ));
                        self.read_symbol();
                    } else {
                        assert(digits_end(self.chars@, self.position + 1) == self.position + 1);
                        break ;
                    }
                },
                None => {
                    assert(digits_end(self.chars@, self.position + 1) == self.position + 1);
                    break ;
                },
            }
        }
        text_of(&self.chars, start, self.position + 1)
    }

    /// Returns the next token and moves past it. Once the text has ended,
    /// every call returns the `EOF` token.
    pub fn next_token(&mut self) -> (token: Token)
        ensures
            final(self).input() == old(self).input(),
            token@ == scan(old(self).input(), old(self).cursor()).token,
            final(self).cursor() == scan(old(self).input(), old(self).cursor()).next,
            0 <= old(self).cursor() <= old(self).input().len(),
    {
        proof {
            use_type_invariant(&*self);
            lemma_skip_blank_bounds(self.chars@, self.position as int);
        }
        self.skip_whitespace();
        if self.position >= self.chars.len() {
            return Token { token_type: TokenType::EOF, literal: String::new() };
        }
        let start = self.position;
        let symbol = self.chars[self.position];
        let token = if symbol == '=' {
            if self.peak_symbol() == Some('=') {
                self.read_symbol();
                Token { token_type: TokenType::EQ, literal: text_of(&self.chars, start, start + 2) }
            } else {
                Token {
                    token_type: TokenType::ASSIGN,
                    literal: text_of(&self.chars, start, start + 1),
                }
            }
        } else if symbol == '+' {
            Token { token_type: TokenType::PLUS, literal: text_of(&self.chars, start, start + 1) }
        } else if symbol == '-' {
            Token { token_type: TokenType::MINUS, literal: text_of(&self.chars, start, start + 1) }
        } else if symbol == '!' {
            if self.peak_symbol() == Some('=') {
                self.read_symbol();
                Token {
                    token_type: TokenType::NOT_EQ,
                    literal: text_of(&self.chars, start, start + 2),
                }
            } else {
                Token {
                    token_type: TokenType::BANG,
                    literal: text_of(&self.chars, start, start + 1),
                }
            }
        } else if symbol == '*' {
            Token {
                token_type: TokenType::ASTERISK,
                literal: text_of(&self.chars, start, start + 1),
            }
        } else if symbol == '/' {
            Token { token_type: TokenType::SLASH, literal: text_of(&self.chars, start, start + 1) }
        } else if symbol == '<' {
            Token { token_type: TokenType::LT, literal: text_of(&self.chars, start, start + 1) }
        } else if symbol == '>' {
            Token { token_type: TokenType::GT, literal: text_of(&self.chars, start, start + 1) }
        } else if symbol == ',' {
            Token { token_type: TokenType::COMMA, literal: text_of(&self.chars, start, start + 1) }
        } else if symbol == ';' {
            Token {
                token_type: TokenType::SEMICOLON,
                literal: text_of(&self.chars, start, start + 1),
            }
        } else if symbol == '(' {
            Token { token_type: TokenType::LPAREN, literal: text_of(&self.chars, start, start + 1) }
        } else if symbol == ')' {
            Token { token_type: TokenType::RPAREN, literal: text_of(&self.chars, start, start + 1) }
        } else if symbol == '{' {
            Token { token_type: TokenType::LBRACE, literal: text_of(&self.chars, start, start + 1) }
        } else if symbol == '}' {
            Token { token_type: TokenType::RBRACE, literal: text_of(&self.chars, start, start + 1) }
        } else if char_is_digit(symbol) {
            let literal = self.read_number();
            Token { token_type: TokenType::INT, literal }
        } else if can_use_as_ident(symbol) {
            let literal = self.read_identifier();
            let kind = keyword_at(&self.chars, start, self.position + 1);
            Token { token_type: kind, literal }
        } else {
            Token {
                token_type: TokenType::ILLEGAL,
                literal: text_of(&self.chars, start, start + 1),
            }
        };
        self.read_symbol();
        token
    }

    /// The next token, or `None` once the text has ended.
    pub fn next(&mut self) -> (item: Option<Token>)
        ensures
            final(self).input() == old(self).input(),
            final(self).cursor() == scan(old(self).input(), old(self).cursor()).next,
            0 <= old(self).cursor() <= old(self).input().len(),
            match item {
                Some(token) => token@ == scan(old(self).input(), old(self).cursor()).token
                    && token.token_type != TokenType::EOF,
                None => scan(old(self).input(), old(self).cursor()).token.token_type
                    == TokenType::EOF,
            },
    {
        let token = self.next_token();
        if token.token_type == TokenType::EOF {
            None
        } else {
            Some(token)
        }
    }
}

} // verus!
