//! Which texts the lexer reads as which tokens, wherever they stand.
use crate::lexer::{
    digits_end, lemma_scan_progress, scan, skip_blank, symbol_kind, token_stream, word_end,
};
use crate::printed::{is_binary_operator_text, operator_token, token};
use crate::sequences::{at, lemma_at_item, lemma_at_split};
use crate::text::{is_digit, is_ident_char, is_whitespace};
use crate::token::{eof_token, keyword_kind, lemma_keyword_kind_by_chars, TokenType, TokenView};
use vstd::prelude::*;

verus! {

/// Whether `c` ends every token before it and starts no `==`: it is no
/// identifier character, no digit and no `=`.
pub open spec fn is_break(c: char) -> bool {
    !is_ident_char(c) && !is_digit(c) && c != '='
}

/// Whether the text `s` ends at place `q` or goes on with a break.
pub open spec fn follower_ok(s: Seq<char>, q: int) -> bool {
    q >= s.len() || is_break(s[q])
}

/// Whether scanning `s` from place `p` gives the tokens `toks`, none of
/// them `EOF`, and then stands at place `q` or at blanks before it.
pub open spec fn reads(s: Seq<char>, p: int, toks: Seq<TokenView>, q: int) -> bool
    decreases toks.len(),
{
    if toks.len() == 0 {
        skip_blank(s, p) == skip_blank(s, q)
    } else {
        &&& scan(s, p).token == toks[0]
        &&& toks[0].token_type != TokenType::EOF
        &&& reads(s, scan(s, p).next, toks.drop_first(), q)
    }
}

/// Whether `text` is read as the tokens `toks` wherever it stands before a
/// break or the end of the text.
pub open spec fn spells(text: Seq<char>, toks: Seq<TokenView>) -> bool {
    forall|s: Seq<char>, p: int|
        #[trigger] at(s, p, text) && follower_ok(s, p + text.len()) ==> reads(
            s,
            p,
            toks,
            p + text.len(),
        )
}

/// Whether `text` is read as the tokens `toks` wherever it stands.
pub open spec fn spells_freely(text: Seq<char>, toks: Seq<TokenView>) -> bool {
    forall|s: Seq<char>, p: int| #[trigger] at(s, p, text) ==> reads(s, p, toks, p + text.len())
}

/// A run of white space is passed over.
pub proof fn lemma_blank_run(s: Seq<char>, p: int, q: int)
    requires
        0 <= p <= q <= s.len(),
        forall|i: int| p <= i < q ==> is_whitespace(#[trigger] s[i]),
    ensures
        skip_blank(s, p) == skip_blank(s, q),
    decreases q - p,
{
    if p < q {
        assert(is_whitespace(s[p]));
        lemma_blank_run(s, p + 1, q);
    }
}

/// A run of identifier characters that ends at `q` is a word that ends at
/// `q`.
pub proof fn lemma_word_run(s: Seq<char>, p: int, q: int)
    requires
        0 <= p <= q <= s.len(),
        forall|i: int| p <= i < q ==> is_ident_char(#[trigger] s[i]),
        q == s.len() || !is_ident_char(s[q]),
    ensures
        word_end(s, p) == q,
    decreases q - p,
{
    if p < q {
        assert(is_ident_char(s[p]));
        lemma_word_run(s, p + 1, q);
    }
}

/// A run of digits that ends at `q` is a number that ends at `q`.
pub proof fn lemma_digit_run(s: Seq<char>, p: int, q: int)
    requires
        0 <= p <= q <= s.len(),
        forall|i: int| p <= i < q ==> is_digit(#[trigger] s[i]),
        q == s.len() || !is_digit(s[q]),
    ensures
        digits_end(s, p) == q,
    decreases q - p,
{
    if p < q {
        assert(is_digit(s[p]));
        lemma_digit_run(s, p + 1, q);
    }
}

/// One token that is scanned is read.
pub proof fn lemma_reads_one(s: Seq<char>, p: int, t: TokenView, q: int)
    requires
        scan(s, p).token == t,
        scan(s, p).next == q,
        t.token_type != TokenType::EOF,
    ensures
        reads(s, p, seq![t], q),
{
    let toks = seq![t];
    assert(toks.drop_first() =~= Seq::<TokenView>::empty());
    assert(reads(s, q, toks.drop_first(), q));
}

/// What is read up to `q` and what is read from `q` on are read one after
/// the other.
pub proof fn lemma_reads_join(
    s: Seq<char>,
    p: int,
    a: Seq<TokenView>,
    q: int,
    b: Seq<TokenView>,
    r: int,
)
    requires
        reads(s, p, a, q),
        reads(s, q, b, r),
    ensures
        reads(s, p, a + b, r),
    decreases a.len(),
{
    if a.len() == 0 {
        assert(a + b =~= b);
        if b.len() > 0 {
            assert(scan(s, p) == scan(s, q));
        }
    } else {
        lemma_reads_join(s, scan(s, p).next, a.drop_first(), q, b, r);
        assert((a + b).drop_first() =~= a.drop_first() + b);
        assert((a + b)[0] == a[0]);
    }
}

/// Tokens that are read up to the end of a text are the text's tokens,
/// with the `EOF` that ends them.
pub proof fn lemma_reads_stream(s: Seq<char>, p: int, toks: Seq<TokenView>)
    requires
        0 <= p <= s.len(),
        reads(s, p, toks, s.len() as int),
    ensures
        token_stream(s, p) == toks + seq![eof_token()],
    decreases toks.len(),
{
    lemma_scan_progress(s, p);
    if toks.len() == 0 {
        assert(skip_blank(s, s.len() as int) == s.len());
        assert(token_stream(s, p) =~= toks + seq![eof_token()]);
    } else {
        lemma_reads_stream(s, scan(s, p).next, toks.drop_first());
        assert(seq![toks[0]] + (toks.drop_first() + seq![eof_token()]) =~= toks + seq![
            eof_token(),
        ]);
    }
}

/// What is read wherever it stands is read before a break too.
pub proof fn lemma_free_spells(text: Seq<char>, toks: Seq<TokenView>)
    requires
        spells_freely(text, toks),
    ensures
        spells(text, toks),
{
}

/// Two texts that are read wherever they stand are read one after the
/// other.
pub proof fn lemma_free_free(a: Seq<char>, ta: Seq<TokenView>, b: Seq<char>, tb: Seq<TokenView>)
    requires
        spells_freely(a, ta),
        spells_freely(b, tb),
    ensures
        spells_freely(a + b, ta + tb),
{
    let text = a + b;
    assert forall|s: Seq<char>, p: int| #[trigger] at(s, p, text) implies reads(
        s,
        p,
        ta + tb,
        p + text.len(),
    ) by {
        lemma_at_split(s, p, a, b);
        assert(reads(s, p, ta, p + a.len()));
        assert(reads(s, p + a.len(), tb, p + a.len() + b.len()));
        lemma_reads_join(s, p, ta, p + a.len(), tb, p + text.len());
    }
}

/// A text that is read wherever it stands, before one that is read before
/// a break.
pub proof fn lemma_free_then(a: Seq<char>, ta: Seq<TokenView>, b: Seq<char>, tb: Seq<TokenView>)
    requires
        spells_freely(a, ta),
        spells(b, tb),
    ensures
        spells(a + b, ta + tb),
{
    let text = a + b;
    assert forall|s: Seq<char>, p: int|
        #[trigger] at(s, p, text) && follower_ok(s, p + text.len()) implies reads(
        s,
        p,
        ta + tb,
        p + text.len(),
    ) by {
        lemma_at_split(s, p, a, b);
        assert(reads(s, p, ta, p + a.len()));
        assert(reads(s, p + a.len(), tb, p + a.len() + b.len()));
        lemma_reads_join(s, p, ta, p + a.len(), tb, p + text.len());
    }
}

/// A text that is read before a break, before one that starts with a
/// break and is read wherever it stands.
pub proof fn lemma_then_free(a: Seq<char>, ta: Seq<TokenView>, b: Seq<char>, tb: Seq<TokenView>)
    requires
        spells(a, ta),
        spells_freely(b, tb),
        b.len() > 0,
        is_break(b[0]),
    ensures
        spells_freely(a + b, ta + tb),
{
    let text = a + b;
    assert forall|s: Seq<char>, p: int| #[trigger] at(s, p, text) implies reads(
        s,
        p,
        ta + tb,
        p + text.len(),
    ) by {
        lemma_at_split(s, p, a, b);
        lemma_at_item(s, p + a.len(), b, 0);
        assert(follower_ok(s, p + a.len()));
        assert(reads(s, p, ta, p + a.len()));
        assert(reads(s, p + a.len(), tb, p + a.len() + b.len()));
        lemma_reads_join(s, p, ta, p + a.len(), tb, p + text.len());
    }
}

/// A text that is read before a break, before one that starts with a
/// break and is read before a break.
pub proof fn lemma_then_then(a: Seq<char>, ta: Seq<TokenView>, b: Seq<char>, tb: Seq<TokenView>)
    requires
        spells(a, ta),
        spells(b, tb),
        b.len() > 0,
        is_break(b[0]),
    ensures
        spells(a + b, ta + tb),
{
    let text = a + b;
    assert forall|s: Seq<char>, p: int|
        #[trigger] at(s, p, text) && follower_ok(s, p + text.len()) implies reads(
        s,
        p,
        ta + tb,
        p + text.len(),
    ) by {
        lemma_at_split(s, p, a, b);
        lemma_at_item(s, p + a.len(), b, 0);
        assert(follower_ok(s, p + a.len()));
        assert(reads(s, p, ta, p + a.len()));
        assert(reads(s, p + a.len(), tb, p + a.len() + b.len()));
        lemma_reads_join(s, p, ta, p + a.len(), tb, p + text.len());
    }
}

/// White space is read as no token.
pub proof fn lemma_free_blank(w: Seq<char>)
    requires
        forall|i: int| 0 <= i < w.len() ==> is_whitespace(#[trigger] w[i]),
    ensures
        spells_freely(w, Seq::empty()),
{
    assert forall|s: Seq<char>, p: int| #[trigger] at(s, p, w) implies reads(
        s,
        p,
        Seq::<TokenView>::empty(),
        p + w.len(),
    ) by {
        assert forall|i: int| p <= i < p + w.len() implies is_whitespace(#[trigger] s[i]) by {
            lemma_at_item(s, p, w, i - p);
            assert(is_whitespace(w[i - p]));
        }
        lemma_blank_run(s, p, p + w.len());
    }
}

/// An operator or delimiter of one character, other than `=` and `!`, is
/// read as its token wherever it stands.
pub proof fn lemma_free_symbol(c: char, k: TokenType)
    requires
        symbol_kind(c) == Some(k),
        c != '=',
        c != '!',
    ensures
        spells_freely(seq![c], seq![token(k, seq![c])]),
{
    let text = seq![c];
    assert forall|s: Seq<char>, p: int| #[trigger] at(s, p, text) implies reads(
        s,
        p,
        seq![token(k, seq![c])],
        p + text.len(),
    ) by {
        lemma_at_item(s, p, text, 0);
        assert(s[p] == c);
        assert(!is_whitespace(c));
        assert(skip_blank(s, p) == p);
        assert(s.subrange(p, p + 1) =~= seq![c]);
        lemma_reads_one(s, p, token(k, seq![c]), p + 1);
    }
}

/// `=` or `!` that is not followed by `=` is read as its token.
pub proof fn lemma_spells_lone(c: char, k: TokenType)
    requires
        symbol_kind(c) == Some(k),
    ensures
        spells(seq![c], seq![token(k, seq![c])]),
{
    let text = seq![c];
    assert forall|s: Seq<char>, p: int|
        #[trigger] at(s, p, text) && follower_ok(s, p + text.len()) implies reads(
        s,
        p,
        seq![token(k, seq![c])],
        p + text.len(),
    ) by {
        lemma_at_item(s, p, text, 0);
        assert(s[p] == c);
        assert(!is_whitespace(c));
        assert(skip_blank(s, p) == p);
        assert(s.subrange(p, p + 1) =~= seq![c]);
        lemma_reads_one(s, p, token(k, seq![c]), p + 1);
    }
}

/// `==` and `!=` are read as their tokens wherever they stand.
pub proof fn lemma_free_pair(c: char)
    requires
        c == '=' || c == '!',
    ensures
        spells_freely(
            seq![c, '='],
            seq![
                token(
                    if c == '=' {
                        TokenType::EQ
                    } else {
                        TokenType::NOT_EQ
                    },
                    seq![c, '='],
                ),
            ],
        ),
{
    let text = seq![c, '='];
    let k = if c == '=' {
        TokenType::EQ
    } else {
        TokenType::NOT_EQ
    };
    assert forall|s: Seq<char>, p: int| #[trigger] at(s, p, text) implies reads(
        s,
        p,
        seq![token(k, text)],
        p + text.len(),
    ) by {
        lemma_at_item(s, p, text, 0);
        lemma_at_item(s, p, text, 1);
        assert(skip_blank(s, p) == p);
        assert(s.subrange(p, p + 2) =~= text);
        lemma_reads_one(s, p, token(k, text), p + 2);
    }
}

/// A word is read as a keyword or an identifier wherever it stands before
/// a break.
pub proof fn lemma_spells_word(w: Seq<char>)
    requires
        w.len() > 0,
        forall|i: int| 0 <= i < w.len() ==> is_ident_char(#[trigger] w[i]),
    ensures
        spells(w, seq![token(keyword_kind(w), w)]),
{
    assert forall|s: Seq<char>, p: int|
        #[trigger] at(s, p, w) && follower_ok(s, p + w.len()) implies reads(
        s,
        p,
        seq![token(keyword_kind(w), w)],
        p + w.len(),
    ) by {
        assert forall|i: int| p <= i < p + w.len() implies is_ident_char(#[trigger] s[i]) by {
            lemma_at_item(s, p, w, i - p);
            assert(is_ident_char(w[i - p]));
        }
        lemma_word_run(s, p, p + w.len());
        assert(is_ident_char(s[p]));
        assert(skip_blank(s, p) == p);
        assert(symbol_kind(s[p]) is None);
        lemma_keyword_kind_by_chars(w);
        lemma_reads_one(s, p, token(keyword_kind(w), w), p + w.len());
    }
}

/// A run of digits is read as an integer literal wherever it stands before
/// a break.
pub proof fn lemma_spells_digits(d: Seq<char>)
    requires
        d.len() > 0,
        forall|i: int| 0 <= i < d.len() ==> is_digit(#[trigger] d[i]),
    ensures
        spells(d, seq![token(TokenType::INT, d)]),
{
    assert forall|s: Seq<char>, p: int|
        #[trigger] at(s, p, d) && follower_ok(s, p + d.len()) implies reads(
        s,
        p,
        seq![token(TokenType::INT, d)],
        p + d.len(),
    ) by {
        assert forall|i: int| p <= i < p + d.len() implies is_digit(#[trigger] s[i]) by {
            lemma_at_item(s, p, d, i - p);
            assert(is_digit(d[i - p]));
        }
        lemma_digit_run(s, p, p + d.len());
        assert(is_digit(s[p]));
        assert(skip_blank(s, p) == p);
        assert(symbol_kind(s[p]) is None);
        lemma_reads_one(s, p, token(TokenType::INT, d), p + d.len());
    }
}

/// `!` before a text that does not start with `=`.
pub proof fn lemma_bang_then(b: Seq<char>, tb: Seq<TokenView>)
    requires
        spells_freely(b, tb),
        b.len() > 0,
        b[0] != '=',
    ensures
        spells_freely(seq!['!'] + b, seq![token(TokenType::BANG, seq!['!'])] + tb),
{
    let a = seq!['!'];
    let ta = seq![token(TokenType::BANG, seq!['!'])];
    let text = a + b;
    assert forall|s: Seq<char>, p: int| #[trigger] at(s, p, text) implies reads(
        s,
        p,
        ta + tb,
        p + text.len(),
    ) by {
        lemma_at_split(s, p, a, b);
        lemma_at_item(s, p, a, 0);
        lemma_at_item(s, p + 1, b, 0);
        assert(skip_blank(s, p) == p);
        assert(s.subrange(p, p + 1) =~= a);
        lemma_reads_one(s, p, token(TokenType::BANG, seq!['!']), p + 1);
        assert(reads(s, p + 1, tb, p + 1 + b.len()));
        lemma_reads_join(s, p, ta, p + 1, tb, p + text.len());
    }
}

/// `!` before a text that does not start with `=` and is read before a
/// break.
pub proof fn lemma_bang_before(b: Seq<char>, tb: Seq<TokenView>)
    requires
        spells(b, tb),
        b.len() > 0,
        b[0] != '=',
    ensures
        spells(seq!['!'] + b, seq![token(TokenType::BANG, seq!['!'])] + tb),
{
    let a = seq!['!'];
    let ta = seq![token(TokenType::BANG, seq!['!'])];
    let text = a + b;
    assert forall|s: Seq<char>, p: int|
        #[trigger] at(s, p, text) && follower_ok(s, p + text.len()) implies reads(
        s,
        p,
        ta + tb,
        p + text.len(),
    ) by {
        lemma_at_split(s, p, a, b);
        lemma_at_item(s, p, a, 0);
        lemma_at_item(s, p + 1, b, 0);
        assert(skip_blank(s, p) == p);
        assert(s.subrange(p, p + 1) =~= a);
        lemma_reads_one(s, p, token(TokenType::BANG, seq!['!']), p + 1);
        assert(reads(s, p + 1, tb, p + 1 + b.len()));
        lemma_reads_join(s, p, ta, p + 1, tb, p + text.len());
    }
}

/// A binary operator between two blanks is read as its token wherever it
/// stands.
pub proof fn lemma_free_binary(op: Seq<char>)
    requires
        is_binary_operator_text(op),
    ensures
        spells_freely(seq![' '] + op + seq![' '], seq![operator_token(op)]),
{
    let blank = seq![' '];
    let none = Seq::<TokenView>::empty();
    lemma_free_blank(blank);
    if op == seq!['=', '='] {
        lemma_free_pair('=');
        lemma_free_free(blank, none, op, seq![operator_token(op)]);
    } else if op == seq!['!', '='] {
        lemma_free_pair('!');
        lemma_free_free(blank, none, op, seq![operator_token(op)]);
    } else {
        assert(op.len() == 1);
        let c = op[0];
        assert(op =~= seq![c]);
        let k = operator_token(op).token_type;
        assert(symbol_kind(c) == Some(k));
        assert(c != '=' && c != '!');
        lemma_free_symbol(c, k);
        lemma_free_free(blank, none, op, seq![operator_token(op)]);
    }
    assert(none + seq![operator_token(op)] =~= seq![operator_token(op)]);
    lemma_free_free(blank + op, seq![operator_token(op)], blank, none);
    assert(seq![operator_token(op)] + none =~= seq![operator_token(op)]);
}

} // verus!
