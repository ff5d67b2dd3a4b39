//! Tokens and their categories.
use crate::text::to_chars;
use vstd::prelude::*;

verus! {

/// The closed set of lexical categories.
#[allow(non_camel_case_types)]
#[derive(Debug, PartialEq, Eq, Clone, Copy, Structural)]
pub enum TokenType {
    ILLEGAL,
    EOF,
    // Identifiers + literals
    IDENT,
    INT,
    // Operators
    ASSIGN,
    PLUS,
    MINUS,
    BANG,
    ASTERISK,
    SLASH,
    LT,
    GT,
    EQ,
    NOT_EQ,
    // Delimiters
    COMMA,
    SEMICOLON,
    LPAREN,
    RPAREN,
    LBRACE,
    RBRACE,
    // Keywords
    FUNCTION,
    LET,
    TRUE,
    FALSE,
    IF,
    ELSE,
    RETURN,
}

/// A lexical unit: its category and the exact source text it was read from.
#[derive(Debug, PartialEq, Eq, Clone)]
pub struct Token {
    pub token_type: TokenType,
    pub literal: String,
}

/// The mathematical value of a [`Token`]: its category and its text as a
/// sequence of characters.
pub struct TokenView {
    pub token_type: TokenType,
    pub literal: Seq<char>,
}

impl View for Token {
    type V = TokenView;

    open spec fn view(&self) -> TokenView {
        TokenView { token_type: self.token_type, literal: self.literal@ }
    }
}

/// The end-of-input token: category `EOF`, empty text.
pub open spec fn eof_token() -> TokenView {
    TokenView { token_type: TokenType::EOF, literal: Seq::empty() }
}

/// The token at place `i` of `ts`; past the end (and before the start) it
/// is `EOF`.
pub open spec fn tok(ts: Seq<TokenView>, i: int) -> TokenView {
    if 0 <= i < ts.len() {
        ts[i]
    } else {
        eof_token()
    }
}

/// The category of the token at place `i`.
pub open spec fn kind(ts: Seq<TokenView>, i: int) -> TokenType {
    tok(ts, i).token_type
}

/// The category of a scanned word: the keyword it spells, or `IDENT`.
pub open spec fn keyword_kind(word: Seq<char>) -> TokenType {
    if word == seq!['f', 'n'] {
        TokenType::FUNCTION
    } else if word == seq!['l', 'e', 't'] {
        TokenType::LET
    } else if word == seq!['t', 'r', 'u', 'e'] {
        TokenType::TRUE
    } else if word == seq!['f', 'a', 'l', 's', 'e'] {
        TokenType::FALSE
    } else if word == seq!['i', 'f'] {
        TokenType::IF
    } else if word == seq!['e', 'l', 's', 'e'] {
        TokenType::ELSE
    } else if word == seq!['r', 'e', 't', 'u', 'r', 'n'] {
        TokenType::RETURN
    } else {
        TokenType::IDENT
    }
}

/// Whether `word` spells one of the reserved words.
pub open spec fn is_keyword(word: Seq<char>) -> bool {
    keyword_kind(word) != TokenType::IDENT
}

/// The name under which a category appears in diagnostics.
pub open spec fn kind_name(t: TokenType) -> Seq<char> {
    match t {
        TokenType::ILLEGAL => "ILLEGAL"@,
        TokenType::EOF => "EOF"@,
        TokenType::IDENT => "IDENT"@,
        TokenType::INT => "INT"@,
        TokenType::ASSIGN => "ASSIGN"@,
        TokenType::PLUS => "PLUS"@,
        TokenType::MINUS => "MINUS"@,
        TokenType::BANG => "BANG"@,
        TokenType::ASTERISK => "ASTERISK"@,
        TokenType::SLASH => "SLASH"@,
        TokenType::LT => "LT"@,
        TokenType::GT => "GT"@,
        TokenType::EQ => "EQ"@,
        TokenType::NOT_EQ => "NOT_EQ"@,
        TokenType::COMMA => "COMMA"@,
        TokenType::SEMICOLON => "SEMICOLON"@,
        TokenType::LPAREN => "LPAREN"@,
        TokenType::RPAREN => "RPAREN"@,
        TokenType::LBRACE => "LBRACE"@,
        TokenType::RBRACE => "RBRACE"@,
        TokenType::FUNCTION => "FUNCTION"@,
        TokenType::LET => "LET"@,
        TokenType::TRUE => "TRUE"@,
        TokenType::FALSE => "FALSE"@,
        TokenType::IF => "IF"@,
        TokenType::ELSE => "ELSE"@,
        TokenType::RETURN => "RETURN"@,
    }
}

/// `keyword_kind` decided character by character.
pub proof fn lemma_keyword_kind_by_chars(w: Seq<char>)
    ensures
        keyword_kind(w) == (if w.len() == 2 && w[0] == 'f' && w[1] == 'n' {
            TokenType::FUNCTION
        } else if w.len() == 3 && w[0] == 'l' && w[1] == 'e' && w[2] == 't' {
            TokenType::LET
        } else if w.len() == 4 && w[0] == 't' && w[1] == 'r' && w[2] == 'u' && w[3] == 'e' {
            TokenType::TRUE
        } else if w.len() == 5 && w[0] == 'f' && w[1] == 'a' && w[2] == 'l' && w[3] == 's' && w[4]
            == 'e' {
            TokenType::FALSE
        } else if w.len() == 2 && w[0] == 'i' && w[1] == 'f' {
            TokenType::IF
        } else if w.len() == 4 && w[0] == 'e' && w[1] == 'l' && w[2] == 's' && w[3] == 'e' {
            TokenType::ELSE
        } else if w.len() == 6 && w[0] == 'r' && w[1] == 'e' && w[2] == 't' && w[3] == 'u' && w[4]
            == 'r' && w[5] == 'n' {
            TokenType::RETURN
        } else {
            TokenType::IDENT
        }),
{
    assert((w == seq!['f', 'n']) <==> (w =~= seq!['f', 'n']));
    assert((w == seq!['l', 'e', 't']) <==> (w =~= seq!['l', 'e', 't']));
    assert((w == seq!['t', 'r', 'u', 'e']) <==> (w =~= seq!['t', 'r', 'u', 'e']));
    assert((w == seq!['f', 'a', 'l', 's', 'e']) <==> (w =~= seq!['f', 'a', 'l', 's', 'e']));
    assert((w == seq!['i', 'f']) <==> (w =~= seq!['i', 'f']));
    assert((w == seq!['e', 'l', 's', 'e']) <==> (w =~= seq!['e', 'l', 's', 'e']));
    assert((w == seq!['r', 'e', 't', 'u', 'r', 'n']) <==> (w =~= seq![
        'r',
        'e',
        't',
        'u',
        'r',
        'n',
    ]));
}

/// Classifies the word `chars[start..end]`.
pub fn keyword_at(chars: &Vec<char>, start: usize, end: usize) -> (kind: TokenType)
    requires
        start <= end <= chars.len(),
    ensures
        kind == keyword_kind(chars@.subrange(start as int, end as int)),
{
    proof {
        lemma_keyword_kind_by_chars(chars@.subrange(start as int, end as int));
    }
    let n: usize = end - start;
    if n == 2 {
        if chars[start] == 'f' && chars[start + 1] == 'n' {
            TokenType::FUNCTION
        } else if chars[start] == 'i' && chars[start + 1] == 'f' {
            TokenType::IF
        } else {
            TokenType::IDENT
        }
    } else if n == 3 {
        if chars[start] == 'l' && chars[start + 1] == 'e' && chars[start + 2] == 't' {
            TokenType::LET
        } else {
            TokenType::IDENT
        }
    } else if n == 4 {
        if chars[start] == 't' && chars[start + 1] == 'r' && chars[start + 2] == 'u' && chars[start
            + 3] == 'e' {
            TokenType::TRUE
        } else if chars[start] == 'e' && chars[start + 1] == 'l' && chars[start + 2] == 's'
            && chars[start + 3] == 'e' {
            TokenType::ELSE
        } else {
            TokenType::IDENT
        }
    } else if n == 5 {
        if chars[start] == 'f' && chars[start + 1] == 'a' && chars[start + 2] == 'l' && chars[start
            + 3] == 's' && chars[start + 4] == 'e' {
            TokenType::FALSE
        } else {
            TokenType::IDENT
        }
    } else if n == 6 {
        if chars[start] == 'r' && chars[start + 1] == 'e' && chars[start + 2] == 't' && chars[start
            + 3] == 'u' && chars[start + 4] == 'r' && chars[start + 5] == 'n' {
            TokenType::RETURN
        } else {
            TokenType::IDENT
        }
    } else {
        TokenType::IDENT
    }
}

impl TokenType {
    /// Reclassifies a scanned word: a reserved word gives its keyword
    /// category, any other word is a plain identifier.
    pub fn lookup_ident(ident: &str) -> (kind: TokenType)
        ensures
            kind == keyword_kind(ident@),
    {
        let chars = to_chars(ident);
        let kind = keyword_at(&chars, 0, chars.len());
        assert(chars@.subrange(0, chars.len() as int) =~= ident@);
        kind
    }

    /// The name of this category as diagnostics print it.
    pub fn name(&self) -> (s: &'static str)
        ensures
            s@ == kind_name(*self),
    {
        match self {
            TokenType::ILLEGAL => "ILLEGAL",
            TokenType::EOF => "EOF",
            TokenType::IDENT => "IDENT",
            TokenType::INT => "INT",
            TokenType::ASSIGN => "ASSIGN",
            TokenType::PLUS => "PLUS",
            TokenType::MINUS => "MINUS",
            TokenType::BANG => "BANG",
            TokenType::ASTERISK => "ASTERISK",
            TokenType::SLASH => "SLASH",
            TokenType::LT => "LT",
            TokenType::GT => "GT",
            TokenType::EQ => "EQ",
            TokenType::NOT_EQ => "NOT_EQ",
            TokenType::COMMA => "COMMA",
            TokenType::SEMICOLON => "SEMICOLON",
            TokenType::LPAREN => "LPAREN",
            TokenType::RPAREN => "RPAREN",
            TokenType::LBRACE => "LBRACE",
            TokenType::RBRACE => "RBRACE",
            TokenType::FUNCTION => "FUNCTION",
            TokenType::LET => "LET",
            TokenType::TRUE => "TRUE",
            TokenType::FALSE => "FALSE",
            TokenType::IF => "IF",
            TokenType::ELSE => "ELSE",
            TokenType::RETURN => "RETURN",
        }
    }
}

} // verus!
