//! The text of a printable syntax tree is read by the lexer as the tokens
//! of the tree.
use crate::ast::{
    join, print_expression, print_expressions, print_program, print_statement, print_statements,
    ExpressionView, ProgramView, StatementView,
};
use crate::printed::{
    expression_tokens, list_tokens, operator_token, printable_expression, printable_expressions,
    printable_program, printable_statement, printable_statements, program_tokens, statement_tokens,
    statements_tokens, token,
};
use crate::round_trip::{lemma_decimal_digits_value, lemma_operator_token};
use crate::spelling::{
    lemma_bang_then, lemma_free_binary, lemma_free_blank, lemma_free_free, lemma_free_spells,
    lemma_free_symbol, lemma_free_then, lemma_spells_digits, lemma_spells_lone, lemma_spells_word,
    lemma_then_free, lemma_then_then, spells, spells_freely,
};
use crate::text::{decimal_digits, is_digit, is_ident_char};
use crate::token::{keyword_kind, lemma_keyword_kind_by_chars, TokenType, TokenView};
use vstd::prelude::*;

verus! {

/// A text joined before others stands first, with the separator after it
/// if others follow.
pub proof fn lemma_join_prepend(first: Seq<char>, rest: Seq<Seq<char>>, separator: Seq<char>)
    ensures
        join(seq![first] + rest, separator) == if rest.len() == 0 {
            first
        } else {
            first + separator + join(rest, separator)
        },
    decreases rest.len(),
{
    let all = seq![first] + rest;
    if rest.len() == 0 {
        assert(all[0] == first);
    } else if rest.len() == 1 {
        assert(all.drop_last() =~= seq![first]);
        assert(all.last() == rest[0]);
        assert(join(all.drop_last(), separator) == first);
    } else {
        lemma_join_prepend(first, rest.drop_last(), separator);
        assert(all.drop_last() =~= seq![first] + rest.drop_last());
        assert(all.last() == rest.last());
        assert(first + separator + join(rest.drop_last(), separator) + separator + rest.last()
            =~= first + separator + (join(rest.drop_last(), separator) + separator
            + rest.last()));
    }
}

/// The texts from place `k` on, joined: the one at place `k`, and after
/// the separator the rest, if there is any.
pub proof fn lemma_join_from(parts: Seq<Seq<char>>, separator: Seq<char>, k: int)
    requires
        0 <= k < parts.len(),
    ensures
        join(parts.skip(k), separator) == if k + 1 == parts.len() {
            parts[k]
        } else {
            parts[k] + separator + join(parts.skip(k + 1), separator)
        },
{
    assert(parts.skip(k) =~= seq![parts[k]] + parts.skip(k + 1));
    lemma_join_prepend(parts[k], parts.skip(k + 1), separator);
}

/// The texts that are the same wherever they stand in a printed program.
pub open spec fn fixed_texts() -> bool {
    &&& spells("true"@, seq![token(TokenType::TRUE, "true"@)])
    &&& spells("false"@, seq![token(TokenType::FALSE, "false"@)])
    &&& spells_freely("if "@, seq![token(TokenType::IF, "if"@)])
    &&& spells_freely("else "@, seq![token(TokenType::ELSE, "else"@)])
    &&& spells_freely("let "@, seq![token(TokenType::LET, "let"@)])
    &&& spells_freely("return "@, seq![token(TokenType::RETURN, "return"@)])
    &&& spells_freely(
        "fn("@,
        seq![token(TokenType::FUNCTION, "fn"@), token(TokenType::LPAREN, seq!['('])],
    )
    &&& spells_freely(", "@, seq![token(TokenType::COMMA, seq![','])])
    &&& spells_freely(") "@, seq![token(TokenType::RPAREN, seq![')'])])
    &&& spells_freely(" = "@, seq![token(TokenType::ASSIGN, seq!['='])])
    &&& spells_freely("{\n "@, seq![token(TokenType::LBRACE, seq!['{'])])
    &&& spells_freely("\n}"@, seq![token(TokenType::RBRACE, seq!['}'])])
    &&& spells_freely(seq!['('], seq![token(TokenType::LPAREN, seq!['('])])
    &&& spells_freely(seq![')'], seq![token(TokenType::RPAREN, seq![')'])])
    &&& spells_freely(seq![';'], seq![token(TokenType::SEMICOLON, seq![';'])])
    &&& spells_freely(seq![' '], Seq::<TokenView>::empty())
    &&& spells_freely(seq!['\n'], Seq::<TokenView>::empty())
    &&& "true"@.len() > 0 && "true"@[0] == 't'
    &&& "false"@.len() > 0 && "false"@[0] == 'f'
    &&& "if "@.len() > 0 && "if "@[0] == 'i'
    &&& "fn("@.len() > 0 && "fn("@[0] == 'f'
    &&& "else "@.len() > 0 && "else "@[0] == 'e'
    &&& "let "@.len() > 0 && "let "@[0] == 'l'
    &&& "return "@.len() > 0 && "return "@[0] == 'r'
    &&& ", "@.len() > 0 && ", "@[0] == ','
    &&& ") "@.len() > 0 && ") "@[0] == ')'
    &&& " = "@.len() > 0 && " = "@[0] == ' '
    &&& "{\n "@.len() > 0 && "{\n "@[0] == '{'
    &&& "\n}"@.len() > 0 && "\n}"@[0] == '\n'
}

/// A keyword followed by a blank.
proof fn lemma_keyword_blank(word: Seq<char>, k: TokenType)
    requires
        word.len() > 0,
        forall|i: int| 0 <= i < word.len() ==> is_ident_char(#[trigger] word[i]),
        keyword_kind(word) == k,
    ensures
        spells_freely(word + seq![' '], seq![token(k, word)]),
{
    lemma_spells_word(word);
    lemma_free_blank(seq![' ']);
    lemma_then_free(word, seq![token(k, word)], seq![' '], Seq::<TokenView>::empty());
    assert(seq![token(k, word)] + Seq::<TokenView>::empty() =~= seq![token(k, word)]);
}

/// The keywords of a printed program are read as their tokens.
proof fn lemma_fixed_words()
    ensures
        spells("true"@, seq![token(TokenType::TRUE, "true"@)]),
        spells("false"@, seq![token(TokenType::FALSE, "false"@)]),
        spells_freely("if "@, seq![token(TokenType::IF, "if"@)]),
        spells_freely("else "@, seq![token(TokenType::ELSE, "else"@)]),
        spells_freely("let "@, seq![token(TokenType::LET, "let"@)]),
        spells_freely("return "@, seq![token(TokenType::RETURN, "return"@)]),
        "true"@.len() > 0 && "true"@[0] == 't',
        "false"@.len() > 0 && "false"@[0] == 'f',
        "if "@.len() > 0 && "if "@[0] == 'i',
        "else "@.len() > 0 && "else "@[0] == 'e',
        "let "@.len() > 0 && "let "@[0] == 'l',
        "return "@.len() > 0 && "return "@[0] == 'r',
{
    reveal_strlit("true");
    reveal_strlit("false");
    reveal_strlit("if");
    reveal_strlit("if ");
    reveal_strlit("else");
    reveal_strlit("else ");
    reveal_strlit("let");
    reveal_strlit("let ");
    reveal_strlit("return");
    reveal_strlit("return ");
    lemma_keyword_kind_by_chars("true"@);
    lemma_keyword_kind_by_chars("false"@);
    lemma_keyword_kind_by_chars("if"@);
    lemma_keyword_kind_by_chars("else"@);
    lemma_keyword_kind_by_chars("let"@);
    lemma_keyword_kind_by_chars("return"@);
    lemma_spells_word("true"@);
    lemma_spells_word("false"@);
    lemma_keyword_blank("if"@, TokenType::IF);
    assert("if "@ =~= "if"@ + seq![' ']);
    lemma_keyword_blank("else"@, TokenType::ELSE);
    assert("else "@ =~= "else"@ + seq![' ']);
    lemma_keyword_blank("let"@, TokenType::LET);
    assert("let "@ =~= "let"@ + seq![' ']);
    lemma_keyword_blank("return"@, TokenType::RETURN);
    assert("return "@ =~= "return"@ + seq![' ']);
}

/// The delimiters of a printed program are read as their tokens.
proof fn lemma_fixed_signs()
    ensures
        spells_freely(
            "fn("@,
            seq![token(TokenType::FUNCTION, "fn"@), token(TokenType::LPAREN, seq!['('])],
        ),
        spells_freely(", "@, seq![token(TokenType::COMMA, seq![','])]),
        spells_freely(") "@, seq![token(TokenType::RPAREN, seq![')'])]),
        spells_freely(" = "@, seq![token(TokenType::ASSIGN, seq!['='])]),
        spells_freely("{\n "@, seq![token(TokenType::LBRACE, seq!['{'])]),
        spells_freely("\n}"@, seq![token(TokenType::RBRACE, seq!['}'])]),
        spells_freely(seq!['('], seq![token(TokenType::LPAREN, seq!['('])]),
        spells_freely(seq![')'], seq![token(TokenType::RPAREN, seq![')'])]),
        spells_freely(seq![';'], seq![token(TokenType::SEMICOLON, seq![';'])]),
        spells_freely(seq![' '], Seq::<TokenView>::empty()),
        spells_freely(seq!['\n'], Seq::<TokenView>::empty()),
        "fn("@.len() > 0 && "fn("@[0] == 'f',
        ", "@.len() > 0 && ", "@[0] == ',',
        ") "@.len() > 0 && ") "@[0] == ')',
        " = "@.len() > 0 && " = "@[0] == ' ',
        "{\n "@.len() > 0 && "{\n "@[0] == '{',
        "\n}"@.len() > 0 && "\n}"@[0] == '\n',
{
    reveal_strlit("fn");
    reveal_strlit("fn(");
    reveal_strlit(", ");
    reveal_strlit(") ");
    reveal_strlit(" = ");
    reveal_strlit("{\n ");
    reveal_strlit("\n}");
    let none = Seq::<TokenView>::empty();
    let blank = seq![' '];
    let open = token(TokenType::LPAREN, seq!['(']);
    let close = token(TokenType::RPAREN, seq![')']);
    lemma_free_blank(blank);
    lemma_free_blank(seq!['\n']);
    lemma_free_blank(seq!['\n', ' ']);
    lemma_free_symbol('(', TokenType::LPAREN);
    lemma_free_symbol(')', TokenType::RPAREN);
    lemma_free_symbol(';', TokenType::SEMICOLON);
    lemma_free_symbol(',', TokenType::COMMA);
    lemma_free_symbol('{', TokenType::LBRACE);
    lemma_free_symbol('}', TokenType::RBRACE);
    // fn(
    lemma_keyword_kind_by_chars("fn"@);
    lemma_spells_word("fn"@);
    lemma_then_free("fn"@, seq![token(TokenType::FUNCTION, "fn"@)], seq!['('], seq![open]);
    assert("fn("@ =~= "fn"@ + seq!['(']);
    assert(seq![token(TokenType::FUNCTION, "fn"@)] + seq![open] =~= seq![
        token(TokenType::FUNCTION, "fn"@),
        open,
    ]);
    // ", " and ") "
    lemma_free_free(seq![','], seq![token(TokenType::COMMA, seq![','])], blank, none);
    assert(", "@ =~= seq![','] + blank);
    assert(seq![token(TokenType::COMMA, seq![','])] + none =~= seq![
        token(TokenType::COMMA, seq![',']),
    ]);
    lemma_free_free(seq![')'], seq![close], blank, none);
    assert(") "@ =~= seq![')'] + blank);
    assert(seq![close] + none =~= seq![close]);
    // " = "
    let assign = token(TokenType::ASSIGN, seq!['=']);
    lemma_spells_lone('=', TokenType::ASSIGN);
    lemma_then_free(seq!['='], seq![assign], blank, none);
    assert(seq![assign] + none =~= seq![assign]);
    lemma_free_free(blank, none, seq!['='] + blank, seq![assign]);
    assert(none + seq![assign] =~= seq![assign]);
    assert(" = "@ =~= blank + (seq!['='] + blank));
    // "{\n " and "\n}"
    let lbrace = token(TokenType::LBRACE, seq!['{']);
    let rbrace = token(TokenType::RBRACE, seq!['}']);
    lemma_free_free(seq!['{'], seq![lbrace], seq!['\n', ' '], none);
    assert("{\n "@ =~= seq!['{'] + seq!['\n', ' ']);
    assert(seq![lbrace] + none =~= seq![lbrace]);
    lemma_free_free(seq!['\n'], none, seq!['}'], seq![rbrace]);
    assert("\n}"@ =~= seq!['\n'] + seq!['}']);
    assert(none + seq![rbrace] =~= seq![rbrace]);
}

/// The fixed texts of a printed program are read as their tokens.
pub proof fn lemma_fixed_texts()
    ensures
        fixed_texts(),
{
    lemma_fixed_words();
    lemma_fixed_signs();
}

/// Each of the expressions of a printable list is printable.
pub proof fn lemma_printable_expressions_each(es: Seq<ExpressionView>, k: nat)
    requires
        printable_expressions(es, k),
    ensures
        forall|i: int| k <= i < es.len() ==> printable_expression(#[trigger] es[i]),
    decreases es.len() - k,
{
    if k < es.len() {
        lemma_printable_expressions_each(es, k + 1);
    }
}

/// Each of the statements of a printable list is printable.
pub proof fn lemma_printable_statements_each(ss: Seq<StatementView>, k: nat)
    requires
        printable_statements(ss, k),
    ensures
        forall|i: int| k <= i < ss.len() ==> printable_statement(#[trigger] ss[i]),
    decreases ss.len() - k,
{
    if k < ss.len() {
        lemma_printable_statements_each(ss, k + 1);
    }
}

/// The text of a printable expression is read as the tokens of the
/// expression, wherever it stands before a break; and it does not start
/// with `=`.
pub proof fn lemma_expression_text(e: ExpressionView)
    requires
        printable_expression(e),
    ensures
        spells(print_expression(e), expression_tokens(e)),
        print_expression(e).len() > 0,
        print_expression(e)[0] != '=',
    decreases e, 1nat,
{
    lemma_fixed_texts();
    match e {
        ExpressionView::Empty => {},
        ExpressionView::Identifier(name) => {
            lemma_spells_word(name);
            assert(is_ident_char(name[0]));
        },
        ExpressionView::Integer(i) => {
            lemma_decimal_digits_value(i as nat);
            lemma_spells_digits(decimal_digits(i as nat));
            assert(is_digit(decimal_digits(i as nat)[0]));
        },
        ExpressionView::Boolean(b) => {},
        ExpressionView::Prefix { .. } => {
            lemma_prefix_text(e);
        },
        ExpressionView::Infix { .. } => {
            lemma_infix_text(e);
        },
        ExpressionView::If { .. } => {
            lemma_if_text(e);
        },
        ExpressionView::Function { .. } => {
            lemma_function_text(e);
        },
        ExpressionView::Call { .. } => {
            lemma_call_text(e);
        },
    }
}

/// `lemma_expression_text` for a prefix expression.
proof fn lemma_prefix_text(e: ExpressionView)
    requires
        printable_expression(e),
        e is Prefix,
    ensures
        spells(print_expression(e), expression_tokens(e)),
        print_expression(e).len() > 0,
        print_expression(e)[0] != '=',
    decreases e, 0nat,
{
    lemma_fixed_texts();
    let operator = e->Prefix_operator;
    let right = *e->Prefix_right;
    lemma_expression_text(right);
    lemma_operator_token(operator);
    let r = print_expression(right);
    let tr = expression_tokens(right);
    let open = seq!['('];
    let topen = seq![token(TokenType::LPAREN, seq!['('])];
    let close = seq![')'];
    let tclose = seq![token(TokenType::RPAREN, seq![')'])];
    let top = seq![operator_token(operator)];
    lemma_then_free(r, tr, close, tclose);
    if operator == seq!['!'] {
        lemma_bang_then(r + close, tr + tclose);
    } else {
        lemma_free_symbol('-', TokenType::MINUS);
        lemma_free_free(operator, top, r + close, tr + tclose);
    }
    lemma_free_free(open, topen, operator + (r + close), top + (tr + tclose));
    lemma_free_spells(open + (operator + (r + close)), topen + (top + (tr + tclose)));
    assert(print_expression(e) =~= open + (operator + (r + close)));
    assert(expression_tokens(e) =~= topen + (top + (tr + tclose)));
}

/// `lemma_expression_text` for an infix expression.
proof fn lemma_infix_text(e: ExpressionView)
    requires
        printable_expression(e),
        e is Infix,
    ensures
        spells(print_expression(e), expression_tokens(e)),
        print_expression(e).len() > 0,
        print_expression(e)[0] != '=',
    decreases e, 0nat,
{
    lemma_fixed_texts();
    let left = *e->Infix_left;
    let operator = e->Infix_operator;
    let right = *e->Infix_right;
    lemma_expression_text(left);
    lemma_expression_text(right);
    lemma_free_binary(operator);
    let l = print_expression(left);
    let tl = expression_tokens(left);
    let r = print_expression(right);
    let tr = expression_tokens(right);
    let open = seq!['('];
    let topen = seq![token(TokenType::LPAREN, seq!['('])];
    let close = seq![')'];
    let tclose = seq![token(TokenType::RPAREN, seq![')'])];
    let middle = seq![' '] + operator + seq![' '];
    let top = seq![operator_token(operator)];
    assert(middle[0] == ' ');
    lemma_then_free(l, tl, middle, top);
    lemma_then_free(r, tr, close, tclose);
    lemma_free_free(l + middle, tl + top, r + close, tr + tclose);
    lemma_free_free(open, topen, (l + middle) + (r + close), (tl + top) + (tr + tclose));
    lemma_free_spells(
        open + ((l + middle) + (r + close)),
        topen + ((tl + top) + (tr + tclose)),
    );
    assert(print_expression(e) =~= open + ((l + middle) + (r + close)));
    assert(expression_tokens(e) =~= topen + ((tl + top) + (tr + tclose)));
}

/// `lemma_expression_text` for an `if`.
proof fn lemma_if_text(e: ExpressionView)
    requires
        printable_expression(e),
        e is If,
    ensures
        spells(print_expression(e), expression_tokens(e)),
        print_expression(e).len() > 0,
        print_expression(e)[0] != '=',
    decreases e, 0nat,
{
    lemma_fixed_texts();
    let condition = *e->If_condition;
    let consequence = *e->If_consequence;
    let alternative = e->If_alternative;
    lemma_expression_text(condition);
    lemma_statement_text(consequence);
    let c = print_expression(condition);
    let tc = expression_tokens(condition);
    let yes = print_statement(consequence);
    let tyes = statement_tokens(consequence);
    let blank = seq![' '];
    let none = Seq::<TokenView>::empty();
    let word = seq![token(TokenType::IF, "if"@)];
    let no = match alternative {
        Some(block) => "else "@ + print_statement(*block),
        None => Seq::<char>::empty(),
    };
    let tno = match alternative {
        Some(block) => seq![token(TokenType::ELSE, "else"@)] + statement_tokens(*block),
        None => Seq::<TokenView>::empty(),
    };
    match alternative {
        Some(block) => {
            lemma_statement_text(*block);
            lemma_free_then(
                "else "@,
                seq![token(TokenType::ELSE, "else"@)],
                print_statement(*block),
                statement_tokens(*block),
            );
            lemma_free_then(blank, none, no, tno);
        },
        None => {
            lemma_free_spells(blank, none);
            assert(blank + no =~= blank);
            assert(none + tno =~= none);
        },
    }
    assert(spells(blank + no, none + tno));
    assert((blank + no)[0] == ' ');
    lemma_then_then(yes, tyes, blank + no, none + tno);
    lemma_free_then(blank, none, yes + (blank + no), tyes + (none + tno));
    assert((blank + (yes + (blank + no)))[0] == ' ');
    lemma_then_then(c, tc, blank + (yes + (blank + no)), none + (tyes + (none + tno)));
    lemma_free_then(
        "if "@,
        word,
        c + (blank + (yes + (blank + no))),
        tc + (none + (tyes + (none + tno))),
    );
    assert(print_expression(e) =~= "if "@ + (c + (blank + (yes + (blank + no)))));
    assert(expression_tokens(e) =~= word + (tc + (none + (tyes + (none + tno)))));
}

/// `lemma_expression_text` for a function literal.
proof fn lemma_function_text(e: ExpressionView)
    requires
        printable_expression(e),
        e is Function,
    ensures
        spells(print_expression(e), expression_tokens(e)),
        print_expression(e).len() > 0,
        print_expression(e)[0] != '=',
    decreases e, 0nat,
{
    lemma_fixed_texts();
    let parameters = e->Function_parameters;
    let body = *e->Function_body;
    lemma_statement_text(body);
    let b = print_statement(body);
    let tb = statement_tokens(body);
    let texts = print_expressions(parameters);
    let p = join(texts, ", "@);
    let tp = list_tokens(parameters, 0);
    let head = seq![token(TokenType::FUNCTION, "fn"@), token(TokenType::LPAREN, seq!['('])];
    let close = seq![token(TokenType::RPAREN, seq![')'])];
    if parameters.len() == 0 {
        assert(p =~= Seq::<char>::empty());
        assert(tp =~= Seq::<TokenView>::empty());
        lemma_free_then(") "@, close, b, tb);
        assert(p + ") "@ + b =~= ") "@ + b);
        assert(tp + close + tb =~= close + tb);
    } else {
        assert forall|i: int| 0 <= i < parameters.len() implies printable_expression(
            #[trigger] parameters[i],
        ) by {
            assert(parameters[i] is Identifier);
        }
        lemma_list_text(parameters, 0);
        assert(texts.skip(0) =~= texts);
        lemma_then_free(p, tp, ") "@, close);
        lemma_free_then(p + ") "@, tp + close, b, tb);
    }
    lemma_free_then("fn("@, head, p + ") "@ + b, tp + close + tb);
    assert(print_expression(e) =~= "fn("@ + (p + ") "@ + b));
    assert(expression_tokens(e) =~= head + (tp + close + tb));
}

/// `lemma_expression_text` for a call.
proof fn lemma_call_text(e: ExpressionView)
    requires
        printable_expression(e),
        e is Call,
    ensures
        spells(print_expression(e), expression_tokens(e)),
        print_expression(e).len() > 0,
        print_expression(e)[0] != '=',
    decreases e, 0nat,
{
    lemma_fixed_texts();
    let function = *e->Call_function;
    let arguments = e->Call_arguments;
    lemma_expression_text(function);
    let f = print_expression(function);
    let tf = expression_tokens(function);
    let texts = print_expressions(arguments);
    let a = join(texts, ", "@);
    let ta = list_tokens(arguments, 0);
    let open = seq!['('];
    let topen = seq![token(TokenType::LPAREN, seq!['('])];
    let close = seq![')'];
    let tclose = seq![token(TokenType::RPAREN, seq![')'])];
    lemma_then_free(f, tf, open, topen);
    if arguments.len() == 0 {
        assert(a =~= Seq::<char>::empty());
        assert(ta =~= Seq::<TokenView>::empty());
        assert(a + close =~= close);
        assert(ta + tclose =~= tclose);
    } else {
        lemma_printable_expressions_each(arguments, 0);
        lemma_list_text(arguments, 0);
        assert(texts.skip(0) =~= texts);
        lemma_then_free(a, ta, close, tclose);
    }
    lemma_free_free(f + open, tf + topen, a + close, ta + tclose);
    lemma_free_spells((f + open) + (a + close), (tf + topen) + (ta + tclose));
    assert(print_expression(e) =~= (f + open) + (a + close));
    assert(expression_tokens(e) =~= (tf + topen) + (ta + tclose));
    assert(print_expression(e)[0] == f[0]);
}

/// The texts of the printable expressions of a list from place `k` on,
/// with `, ` between each two, are read as the tokens of the list.
pub proof fn lemma_list_text(es: Seq<ExpressionView>, k: nat)
    requires
        k < es.len(),
        forall|i: int| k <= i < es.len() ==> printable_expression(#[trigger] es[i]),
    ensures
        spells(join(print_expressions(es).skip(k as int), ", "@), list_tokens(es, k)),
    decreases es, es.len() - k,
{
    lemma_fixed_texts();
    let texts = print_expressions(es);
    let first = es[k as int];
    lemma_join_from(texts, ", "@, k as int);
    lemma_expression_text(first);
    assert(texts[k as int] == print_expression(first));
    if k + 1 < es.len() {
        lemma_list_text(es, k + 1);
        let rest = join(texts.skip(k as int + 1), ", "@);
        let trest = list_tokens(es, k + 1);
        let comma = seq![token(TokenType::COMMA, seq![','])];
        lemma_free_then(", "@, comma, rest, trest);
        lemma_then_then(
            print_expression(first),
            expression_tokens(first),
            ", "@ + rest,
            comma + trest,
        );
        assert(join(texts.skip(k as int), ", "@) =~= print_expression(first) + (", "@ + rest));
        assert(list_tokens(es, k) =~= expression_tokens(first) + (comma + trest));
    }
}

/// The text of a printable statement is read as the tokens of the
/// statement, wherever it stands before a break.
pub proof fn lemma_statement_text(s: StatementView)
    requires
        printable_statement(s),
    ensures
        spells(print_statement(s), statement_tokens(s)),
        print_statement(s).len() > 0,
    decreases s, 1nat,
{
    lemma_fixed_texts();
    match s {
        StatementView::Empty => {},
        StatementView::Let { .. } => {
            lemma_let_text(s);
        },
        StatementView::Return(value) => {
            lemma_expression_text(value);
            let v = print_expression(value);
            let tv = expression_tokens(value);
            let semicolon = seq![';'];
            let tsemicolon = seq![token(TokenType::SEMICOLON, seq![';'])];
            let word = seq![token(TokenType::RETURN, "return"@)];
            lemma_then_free(v, tv, semicolon, tsemicolon);
            lemma_free_free("return "@, word, v + semicolon, tv + tsemicolon);
            lemma_free_spells("return "@ + (v + semicolon), word + (tv + tsemicolon));
            assert(print_statement(s) =~= "return "@ + (v + semicolon));
            assert(statement_tokens(s) =~= word + (tv + tsemicolon));
        },
        StatementView::Expression(value) => {
            lemma_expression_text(value);
        },
        StatementView::Block { .. } => {
            lemma_block_text(s);
        },
    }
}

/// `lemma_statement_text` for a `let`.
proof fn lemma_let_text(s: StatementView)
    requires
        printable_statement(s),
        s is Let,
    ensures
        spells(print_statement(s), statement_tokens(s)),
        print_statement(s).len() > 0,
    decreases s, 0nat,
{
    lemma_fixed_texts();
    let name = s->Let_name;
    let value = s->Let_value;
    lemma_expression_text(value);
    lemma_spells_word(name);
    let v = print_expression(value);
    let tv = expression_tokens(value);
    let semicolon = seq![';'];
    let tsemicolon = seq![token(TokenType::SEMICOLON, seq![';'])];
    let tname = seq![token(TokenType::IDENT, name)];
    let tassign = seq![token(TokenType::ASSIGN, seq!['='])];
    let word = seq![token(TokenType::LET, "let"@)];
    lemma_then_free(v, tv, semicolon, tsemicolon);
    lemma_free_free(" = "@, tassign, v + semicolon, tv + tsemicolon);
    assert((" = "@ + (v + semicolon))[0] == ' ');
    lemma_then_free(name, tname, " = "@ + (v + semicolon), tassign + (tv + tsemicolon));
    lemma_free_free(
        "let "@,
        word,
        name + (" = "@ + (v + semicolon)),
        tname + (tassign + (tv + tsemicolon)),
    );
    lemma_free_spells(
        "let "@ + (name + (" = "@ + (v + semicolon))),
        word + (tname + (tassign + (tv + tsemicolon))),
    );
    assert(print_statement(s) =~= "let "@ + (name + (" = "@ + (v + semicolon))));
    assert(statement_tokens(s) =~= word + (tname + (tassign + (tv + tsemicolon))));
}

/// `lemma_statement_text` for a block.
proof fn lemma_block_text(s: StatementView)
    requires
        printable_statement(s),
        s is Block,
    ensures
        spells(print_statement(s), statement_tokens(s)),
        print_statement(s).len() > 0,
    decreases s, 0nat,
{
    lemma_fixed_texts();
    let statements = s->Block_statements;
    let texts = print_statements(statements);
    let inner = join(texts, seq!['\n']);
    let tinner = statements_tokens(statements, 0);
    let topen = seq![token(TokenType::LBRACE, seq!['{'])];
    let tclose = seq![token(TokenType::RBRACE, seq!['}'])];
    if statements.len() == 0 {
        assert(inner =~= Seq::<char>::empty());
        assert(tinner =~= Seq::<TokenView>::empty());
        assert(inner + "\n}"@ =~= "\n}"@);
        assert(tinner + tclose =~= tclose);
    } else {
        lemma_printable_statements_each(statements, 0);
        lemma_statements_text(statements, 0);
        assert(texts.skip(0) =~= texts);
        lemma_then_free(inner, tinner, "\n}"@, tclose);
    }
    lemma_free_free("{\n "@, topen, inner + "\n}"@, tinner + tclose);
    lemma_free_spells("{\n "@ + (inner + "\n}"@), topen + (tinner + tclose));
    assert(print_statement(s) =~= "{\n "@ + (inner + "\n}"@));
    assert(statement_tokens(s) =~= topen + (tinner + tclose));
}

/// The texts of the printable statements of a list from place `k` on, one
/// to a line, are read as the tokens of the statements.
pub proof fn lemma_statements_text(ss: Seq<StatementView>, k: nat)
    requires
        k < ss.len(),
        forall|i: int| k <= i < ss.len() ==> printable_statement(#[trigger] ss[i]),
    ensures
        spells(join(print_statements(ss).skip(k as int), seq!['\n']), statements_tokens(ss, k)),
    decreases ss, ss.len() - k,
{
    lemma_fixed_texts();
    let texts = print_statements(ss);
    let first = ss[k as int];
    let line = seq!['\n'];
    let none = Seq::<TokenView>::empty();
    lemma_join_from(texts, line, k as int);
    lemma_statement_text(first);
    assert(texts[k as int] == print_statement(first));
    if k + 1 < ss.len() {
        lemma_statements_text(ss, k + 1);
        let rest = join(texts.skip(k as int + 1), line);
        let trest = statements_tokens(ss, k + 1);
        lemma_free_then(line, none, rest, trest);
        assert((line + rest)[0] == '\n');
        lemma_then_then(print_statement(first), statement_tokens(first), line + rest, none + trest);
        assert(join(texts.skip(k as int), line) =~= print_statement(first) + (line + rest));
        assert(statements_tokens(ss, k) =~= statement_tokens(first) + (none + trest));
    } else {
        assert(statements_tokens(ss, k + 1) =~= none);
        assert(statements_tokens(ss, k) =~= statement_tokens(first));
    }
}

/// The text of a printable program is read as the tokens of the program.
pub proof fn lemma_program_text(p: ProgramView)
    requires
        printable_program(p),
    ensures
        spells(print_program(p), program_tokens(p)),
{
    let texts = print_statements(p.statements);
    if p.statements.len() == 0 {
        assert(print_program(p) =~= Seq::<char>::empty());
        assert(program_tokens(p) =~= Seq::<TokenView>::empty());
        lemma_free_blank(Seq::<char>::empty());
        lemma_free_spells(Seq::<char>::empty(), Seq::<TokenView>::empty());
    } else {
        lemma_printable_statements_each(p.statements, 0);
        lemma_statements_text(p.statements, 0);
        assert(texts.skip(0) =~= texts);
    }
}

} // verus!
