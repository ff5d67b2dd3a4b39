use monkey::lexer::Lexer;
use monkey::token::{Token, TokenType};
#[test]
fn test_next_token1() {
    let input = "=+(){},;";
    let tests = vec![
        Token {
            token_type: TokenType::ASSIGN,
            literal: "=".to_string(),
        },
        Token {
            token_type: TokenType::PLUS,
            literal: "+".to_string(),
        },
        Token {
            token_type: TokenType::LPAREN,
            literal: "(".to_string(),
        },
        Token {
            token_type: TokenType::RPAREN,
            literal: ")".to_string(),
        },
        Token {
            token_type: TokenType::LBRACE,
            literal: "{".to_string(),
        },
        Token {
            token_type: TokenType::RBRACE,
            literal: "}".to_string(),
        },
        Token {
            token_type: TokenType::COMMA,
            literal: ",".to_string(),
        },
        Token {
            token_type: TokenType::SEMICOLON,
            literal: ";".to_string(),
        },
        Token {
            token_type: TokenType::EOF,
            literal: "".to_string(),
        },
    ];

    let mut l = Lexer::new(input);
    for test in tests.iter() {
        let token: Token = l.next_token();
        assert_eq!(token, *test)
    }
}

#[test]
fn test_next_token2() {
    let input = "
        let five = 5;
        let ten = 10;
        
        let add = fn(x, y) {
            x + y;
        };
        let result = add(five, ten);

        !-/*5;
        5 < 10 > 5;

        if (5 < 10) {
            return true;
        } else {
            return false;
        }

        10 == 10;
        10 != 9;
        ";
    let tests = vec![
        Token {
            token_type: TokenType::LET,
            literal: "let".to_string(),
        },
        Token {
            token_type: TokenType::IDENT,
            literal: "five".to_string(),
        },
        Token {
            token_type: TokenType::ASSIGN,
            literal: "=".to_string(),
        },
        Token {
            token_type: TokenType::INT,
            literal: "5".to_string(),
        },
        Token {
            token_type: TokenType::SEMICOLON,
            literal: ";".to_string(),
        },
        Token {
            token_type: TokenType::LET,
            literal: "let".to_string(),
        },
        Token {
            token_type: TokenType::IDENT,
            literal: "ten".to_string(),
        },
        Token {
            token_type: TokenType::ASSIGN,
            literal: "=".to_string(),
        },
        Token {
            token_type: TokenType::INT,
            literal: "10".to_string(),
        },
        Token {
            token_type: TokenType::SEMICOLON,
            literal: ";".to_string(),
        },
        Token {
            token_type: TokenType::LET,
            literal: "let".to_string(),
        },
        Token {
            token_type: TokenType::IDENT,
            literal: "add".to_string(),
        },
        Token {
            token_type: TokenType::ASSIGN,
            literal: "=".to_string(),
        },
        Token {
            token_type: TokenType::FUNCTION,
            literal: "fn".to_string(),
        },
        Token {
            token_type: TokenType::LPAREN,
            literal: "(".to_string(),
        },
        Token {
            token_type: TokenType::IDENT,
            literal: "x".to_string(),
        },
        Token {
            token_type: TokenType::COMMA,
            literal: ",".to_string(),
        },
        Token {
            token_type: TokenType::IDENT,
            literal: "y".to_string(),
        },
        Token {
            token_type: TokenType::RPAREN,
            literal: ")".to_string(),
        },
        Token {
            token_type: TokenType::LBRACE,
            literal: "{".to_string(),
        },
        Token {
            token_type: TokenType::IDENT,
            literal: "x".to_string(),
        },
        Token {
            token_type: TokenType::PLUS,
            literal: "+".to_string(),
        },
        Token {
            token_type: TokenType::IDENT,
            literal: "y".to_string(),
        },
        Token {
            token_type: TokenType::SEMICOLON,
            literal: ";".to_string(),
        },
        Token {
            token_type: TokenType::RBRACE,
            literal: "}".to_string(),
        },
        Token {
            token_type: TokenType::SEMICOLON,
            literal: ";".to_string(),
        },
        Token {
            token_type: TokenType::LET,
            literal: "let".to_string(),
        },
        Token {
            token_type: TokenType::IDENT,
            literal: "result".to_string(),
        },
        Token {
            token_type: TokenType::ASSIGN,
            literal: "=".to_string(),
        },
        Token {
            token_type: TokenType::IDENT,
            literal: "add".to_string(),
        },
        Token {
            token_type: TokenType::LPAREN,
            literal: "(".to_string(),
        },
        Token {
            token_type: TokenType::IDENT,
            literal: "five".to_string(),
        },
        Token {
            token_type: TokenType::COMMA,
            literal: ",".to_string(),
        },
        Token {
            token_type: TokenType::IDENT,
            literal: "ten".to_string(),
        },
        Token {
            token_type: TokenType::RPAREN,
            literal: ")".to_string(),
        },
        Token {
            token_type: TokenType::SEMICOLON,
            literal: ";".to_string(),
        },
        Token {
            token_type: TokenType::BANG,
            literal: "!".to_string(),
        },
        Token {
            token_type: TokenType::MINUS,
            literal: "-".to_string(),
        },
        Token {
            token_type: TokenType::SLASH,
            literal: "/".to_string(),
        },
        Token {
            token_type: TokenType::ASTERISK,
            literal: "*".to_string(),
        },
        Token {
            token_type: TokenType::INT,
            literal: "5".to_string(),
        },
        Token {
            token_type: TokenType::SEMICOLON,
            literal: ";".to_string(),
        },
        Token {
            token_type: TokenType::INT,
            literal: "5".to_string(),
        },
        Token {
            token_type: TokenType::LT,
            literal: "<".to_string(),
        },
        Token {
            token_type: TokenType::INT,
            literal: "10".to_string(),
        },
        Token {
            token_type: TokenType::GT,
            literal: ">".to_string(),
        },
        Token {
            token_type: TokenType::INT,
            literal: "5".to_string(),
        },
        Token {
            token_type: TokenType::SEMICOLON,
            literal: ";".to_string(),
        },
        Token {
            token_type: TokenType::IF,
            literal: "if".to_string(),
        },
        Token {
            token_type: TokenType::LPAREN,
            literal: "(".to_string(),
        },
        Token {
            token_type: TokenType::INT,
            literal: "5".to_string(),
        },
        Token {
            token_type: TokenType::LT,
            literal: "<".to_string(),
        },
        Token {
            token_type: TokenType::INT,
            literal: "10".to_string(),
        },
        Token {
            token_type: TokenType::RPAREN,
            literal: ")".to_string(),
        },
        Token {
            token_type: TokenType::LBRACE,
            literal: "{".to_string(),
        },
        Token {
            token_type: TokenType::RETURN,
            literal: "return".to_string(),
        },
        Token {
            token_type: TokenType::TRUE,
            literal: "true".to_string(),
        },
        Token {
            token_type: TokenType::SEMICOLON,
            literal: ";".to_string(),
        },
        Token {
            token_type: TokenType::RBRACE,
            literal: "}".to_string(),
        },
        Token {
            token_type: TokenType::ELSE,
            literal: "else".to_string(),
        },
        Token {
            token_type: TokenType::LBRACE,
            literal: "{".to_string(),
        },
        Token {
            token_type: TokenType::RETURN,
            literal: "return".to_string(),
        },
        Token {
            token_type: TokenType::FALSE,
            literal: "false".to_string(),
        },
        Token {
            token_type: TokenType::SEMICOLON,
            literal: ";".to_string(),
        },
        Token {
            token_type: TokenType::RBRACE,
            literal: "}".to_string(),
        },
        Token {
            token_type: TokenType::INT,
            literal: "10".to_string(),
        },
        Token {
            token_type: TokenType::EQ,
            literal: "==".to_string(),
        },
        Token {
            token_type: TokenType::INT,
            literal: "10".to_string(),
        },
        Token {
            token_type: TokenType::SEMICOLON,
            literal: ";".to_string(),
        },
        Token {
            token_type: TokenType::INT,
            literal: "10".to_string(),
        },
        Token {
            token_type: TokenType::NOT_EQ,
            literal: "!=".to_string(),
        },
        Token {
            token_type: TokenType::INT,
            literal: "9".to_string(),
        },
        Token {
            token_type: TokenType::SEMICOLON,
            literal: ";".to_string(),
        },
        Token {
            token_type: TokenType::EOF,
            literal: "".to_string(),
        },
    ];

    let mut l = Lexer::new(input);
    for test in tests.iter() {
        let token: Token = l.next_token();
        assert_eq!(token, *test)
    }
}

#[test]
fn test_next_token3() {
    let input = "漢字 😄 ＋ 🇯🇵 \u{001B}";
    let tests = vec![
        Token {
            token_type: TokenType::IDENT,
            literal: "漢字".to_string(),
        },
        Token {
            token_type: TokenType::IDENT,
            literal: "😄".to_string(),
        },
        Token {
            token_type: TokenType::IDENT,
            literal: "＋".to_string(),
        },
        Token {
            token_type: TokenType::IDENT,
            literal: "🇯🇵".to_string(),
        },
        Token {
            token_type: TokenType::ILLEGAL,
            literal: "\u{001B}".to_string(),
        },
    ];
    let mut l = Lexer::new(input);
    for test in tests.iter() {
        let token: Token = l.next_token();
        assert_eq!(token, *test)
    }
}

#[test]
fn test_iterator() {
    let input = "let x = 5; let y = 10; let foobar = 838383;";
    let tests = vec![
        Token {
            token_type: TokenType::LET,
            literal: "let".to_string(),
        },
        Token {
            token_type: TokenType::IDENT,
            literal: "x".to_string(),
        },
        Token {
            token_type: TokenType::ASSIGN,
            literal: "=".to_string(),
        },
        Token {
            token_type: TokenType::INT,
            literal: "5".to_string(),
        },
        Token {
            token_type: TokenType::SEMICOLON,
            literal: ";".to_string(),
        },
        Token {
            token_type: TokenType::LET,
            literal: "let".to_string(),
        },
        Token {
            token_type: TokenType::IDENT,
            literal: "y".to_string(),
        },
        Token {
            token_type: TokenType::ASSIGN,
            literal: "=".to_string(),
        },
        Token {
            token_type: TokenType::INT,
            literal: "10".to_string(),
        },
        Token {
            token_type: TokenType::SEMICOLON,
            literal: ";".to_string(),
        },
        Token {
            token_type: TokenType::LET,
            literal: "let".to_string(),
        },
        Token {
            token_type: TokenType::IDENT,
            literal: "foobar".to_string(),
        },
        Token {
            token_type: TokenType::ASSIGN,
            literal: "=".to_string(),
        },
        Token {
            token_type: TokenType::INT,
            literal: "838383".to_string(),
        },
        Token {
            token_type: TokenType::SEMICOLON,
            literal: ";".to_string(),
        },
    ];
    let mut l = Lexer::new(input);
    let mut i = 0;
    while let Some(token) = l.next() {
        assert_eq!(token, tests[i]);
        i += 1;
    }
    assert_eq!(i, tests.len());
}

fn token(token_type: TokenType, literal: &str) -> Token {
    Token { token_type, literal: literal.to_string() }
}

fn all_tokens(input: &str) -> Vec<Token> {
    let mut l = Lexer::new(input);
    let mut tokens = Vec::new();
    while let Some(t) = l.next() {
        tokens.push(t);
    }
    tokens
}

#[test]
fn end_of_input_is_given_again_and_again() {
    let mut l = Lexer::new("x");
    assert_eq!(l.next_token(), token(TokenType::IDENT, "x"));
    for _ in 0..5 {
        assert_eq!(l.next_token(), token(TokenType::EOF, ""));
    }
    assert_eq!(l.next(), None);
}

#[test]
fn empty_and_blank_input_hold_no_token() {
    assert_eq!(all_tokens(""), vec![]);
    assert_eq!(all_tokens("  \t\r\n \u{a0}\u{3000}\u{2028} "), vec![]);
    assert_eq!(Lexer::new("").next_token(), token(TokenType::EOF, ""));
}

#[test]
fn two_character_operators_need_both_characters() {
    assert_eq!(
        all_tokens("= == === != ! =!= !"),
        vec![
            token(TokenType::ASSIGN, "="),
            token(TokenType::EQ, "=="),
            token(TokenType::EQ, "=="),
            token(TokenType::ASSIGN, "="),
            token(TokenType::NOT_EQ, "!="),
            token(TokenType::BANG, "!"),
            token(TokenType::ASSIGN, "="),
            token(TokenType::NOT_EQ, "!="),
            token(TokenType::BANG, "!"),
        ]
    );
    assert_eq!(
        all_tokens("= ="),
        vec![token(TokenType::ASSIGN, "="), token(TokenType::ASSIGN, "=")]
    );
}

#[test]
fn digits_and_words_are_maximal_runs() {
    assert_eq!(
        all_tokens("12ab34 x9y"),
        vec![
            token(TokenType::INT, "12"),
            token(TokenType::IDENT, "ab"),
            token(TokenType::INT, "34"),
            token(TokenType::IDENT, "x"),
            token(TokenType::INT, "9"),
            token(TokenType::IDENT, "y"),
        ]
    );
}

#[test]
fn only_ascii_digits_are_numbers() {
    assert_eq!(
        all_tokens("5² ٣"),
        vec![
            token(TokenType::INT, "5"),
            token(TokenType::IDENT, "²"),
            token(TokenType::IDENT, "٣"),
        ]
    );
}

#[test]
fn keywords_are_whole_words() {
    assert_eq!(
        all_tokens("fn let true false if else return fnx lets iff Return"),
        vec![
            token(TokenType::FUNCTION, "fn"),
            token(TokenType::LET, "let"),
            token(TokenType::TRUE, "true"),
            token(TokenType::FALSE, "false"),
            token(TokenType::IF, "if"),
            token(TokenType::ELSE, "else"),
            token(TokenType::RETURN, "return"),
            token(TokenType::IDENT, "fnx"),
            token(TokenType::IDENT, "lets"),
            token(TokenType::IDENT, "iff"),
            token(TokenType::IDENT, "Return"),
        ]
    );
}

#[test]
fn characters_of_no_token_are_illegal() {
    assert_eq!(
        all_tokens("a_b @ # \u{7f} [x] \"q\""),
        vec![
            token(TokenType::IDENT, "a"),
            token(TokenType::ILLEGAL, "_"),
            token(TokenType::IDENT, "b"),
            token(TokenType::ILLEGAL, "@"),
            token(TokenType::ILLEGAL, "#"),
            token(TokenType::ILLEGAL, "\u{7f}"),
            token(TokenType::ILLEGAL, "["),
            token(TokenType::IDENT, "x"),
            token(TokenType::ILLEGAL, "]"),
            token(TokenType::ILLEGAL, "\""),
            token(TokenType::IDENT, "q"),
            token(TokenType::ILLEGAL, "\""),
        ]
    );
}

#[test]
fn keyword_lookup() {
    assert_eq!(TokenType::lookup_ident("fn"), TokenType::FUNCTION);
    assert_eq!(TokenType::lookup_ident("let"), TokenType::LET);
    assert_eq!(TokenType::lookup_ident("true"), TokenType::TRUE);
    assert_eq!(TokenType::lookup_ident("false"), TokenType::FALSE);
    assert_eq!(TokenType::lookup_ident("if"), TokenType::IF);
    assert_eq!(TokenType::lookup_ident("else"), TokenType::ELSE);
    assert_eq!(TokenType::lookup_ident("return"), TokenType::RETURN);
    assert_eq!(TokenType::lookup_ident("foobar"), TokenType::IDENT);
    assert_eq!(TokenType::lookup_ident(""), TokenType::IDENT);
    assert_eq!(TokenType::lookup_ident("lett"), TokenType::IDENT);
    assert_eq!(TokenType::lookup_ident("fm"), TokenType::IDENT);
}

#[test]
fn names_of_the_categories() {
    let all = [
        TokenType::ILLEGAL,
        TokenType::EOF,
        TokenType::IDENT,
        TokenType::INT,
        TokenType::ASSIGN,
        TokenType::PLUS,
        TokenType::MINUS,
        TokenType::BANG,
        TokenType::ASTERISK,
        TokenType::SLASH,
        TokenType::LT,
        TokenType::GT,
        TokenType::EQ,
        TokenType::NOT_EQ,
        TokenType::COMMA,
        TokenType::SEMICOLON,
        TokenType::LPAREN,
        TokenType::RPAREN,
        TokenType::LBRACE,
        TokenType::RBRACE,
        TokenType::FUNCTION,
        TokenType::LET,
        TokenType::TRUE,
        TokenType::FALSE,
        TokenType::IF,
        TokenType::ELSE,
        TokenType::RETURN,
    ];
    for t in all {
        assert_eq!(t.name(), format!("{:?}", t));
    }
}
