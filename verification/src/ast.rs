//! The syntax tree: statements, expressions and programs, their
//! mathematical values, and their text.
use crate::text::{int_text, push_char, push_int, push_text};
use vstd::prelude::*;

verus! {

/// A statement of the language.
#[derive(Debug, PartialEq)]
pub enum Statement {
    EmptyStatement,
    LetStatement { name: String, value: Expression },
    ReturnStatement(Expression),
    ExpressionStatement(Expression),
    BlockStatement { statements: Vec<Statement> },
}

/// An expression of the language. A composite expression owns its parts.
#[derive(Debug, PartialEq)]
pub enum Expression {
    EmptyExpression,
    Identifier(String),
    IntegerLiteral(i64),
    Boolean(bool),
    PrefixExpression { operator: String, right: Box<Expression> },
    InfixExpression { left: Box<Expression>, operator: String, right: Box<Expression> },
    IfExpression {
        condition: Box<Expression>,
        consequence: Box<Statement>,
        alternative: Option<Box<Statement>>,
    },
    FunctionLiteral { parameters: Vec<Expression>, body: Box<Statement> },
    CallExpression { function: Box<Expression>, arguments: Vec<Expression> },
}

/// A program: statements in the order in which they are evaluated.
#[derive(Debug, PartialEq)]
pub struct Program {
    pub statements: Vec<Statement>,
}

/// The mathematical value of a [`Statement`].
pub enum StatementView {
    Empty,
    Let { name: Seq<char>, value: ExpressionView },
    Return(ExpressionView),
    Expression(ExpressionView),
    Block { statements: Seq<StatementView> },
}

/// The mathematical value of an [`Expression`].
pub enum ExpressionView {
    Empty,
    Identifier(Seq<char>),
    Integer(i64),
    Boolean(bool),
    Prefix { operator: Seq<char>, right: Box<ExpressionView> },
    Infix { left: Box<ExpressionView>, operator: Seq<char>, right: Box<ExpressionView> },
    If {
        condition: Box<ExpressionView>,
        consequence: Box<StatementView>,
        alternative: Option<Box<StatementView>>,
    },
    Function { parameters: Seq<ExpressionView>, body: Box<StatementView> },
    Call { function: Box<ExpressionView>, arguments: Seq<ExpressionView> },
}

/// The value of an expression: the same tree, with its texts as sequences
/// of characters and its lists as sequences.
pub open spec fn expression_view(e: Expression) -> ExpressionView
    decreases e,
{
    match e {
        Expression::EmptyExpression => ExpressionView::Empty,
        Expression::Identifier(name) => ExpressionView::Identifier(name@),
        Expression::IntegerLiteral(i) => ExpressionView::Integer(i),
        Expression::Boolean(b) => ExpressionView::Boolean(b),
        Expression::PrefixExpression { operator, right } => ExpressionView::Prefix {
            operator: operator@,
            right: Box::new(expression_view(*right)),
        },
        Expression::InfixExpression { left, operator, right } => ExpressionView::Infix {
            left: Box::new(expression_view(*left)),
            operator: operator@,
            right: Box::new(expression_view(*right)),
        },
        Expression::IfExpression { condition, consequence, alternative } => ExpressionView::If {
            condition: Box::new(expression_view(*condition)),
            consequence: Box::new(statement_view(*consequence)),
            alternative: match alternative {
                Some(block) => Some(Box::new(statement_view(*block))),
                None => None,
            },
        },
        Expression::FunctionLiteral { parameters, body } => ExpressionView::Function {
            parameters: expressions_view(parameters@),
            body: Box::new(statement_view(*body)),
        },
        Expression::CallExpression { function, arguments } => ExpressionView::Call {
            function: Box::new(expression_view(*function)),
            arguments: expressions_view(arguments@),
        },
    }
}

/// The values of the expressions in `es`, in order.
pub open spec fn expressions_view(es: Seq<Expression>) -> Seq<ExpressionView>
    decreases es,
{
    Seq::new(
        es.len(),
        |i: int|
            if 0 <= i < es.len() {
                expression_view(es[i])
            } else {
                ExpressionView::Empty
            },
    )
}

/// The values of the statements in `ss`, in order.
pub open spec fn statements_view(ss: Seq<Statement>) -> Seq<StatementView>
    decreases ss,
{
    Seq::new(
        ss.len(),
        |i: int|
            if 0 <= i < ss.len() {
                statement_view(ss[i])
            } else {
                StatementView::Empty
            },
    )
}

/// The value of a statement.
pub open spec fn statement_view(s: Statement) -> StatementView
    decreases s,
{
    match s {
        Statement::EmptyStatement => StatementView::Empty,
        Statement::LetStatement { name, value } => StatementView::Let {
            name: name@,
            value: expression_view(value),
        },
        Statement::ReturnStatement(e) => StatementView::Return(expression_view(e)),
        Statement::ExpressionStatement(e) => StatementView::Expression(expression_view(e)),
        Statement::BlockStatement { statements } => StatementView::Block {
            statements: statements_view(statements@),
        },
    }
}


impl View for Expression {
    type V = ExpressionView;

    open spec fn view(&self) -> ExpressionView {
        expression_view(*self)
    }
}

impl View for Statement {
    type V = StatementView;

    open spec fn view(&self) -> StatementView {
        statement_view(*self)
    }
}

/// The mathematical value of a [`Program`]: its statements in order.
pub struct ProgramView {
    pub statements: Seq<StatementView>,
}

impl View for Program {
    type V = ProgramView;

    open spec fn view(&self) -> ProgramView {
        ProgramView { statements: statements_view(self.statements@) }
    }
}

/// A copy of `e` with the same value.
pub fn clone_expression(e: &Expression) -> (res: Expression)
    ensures
        res@ == e@,
    decreases e,
{
    match e {
        Expression::EmptyExpression => Expression::EmptyExpression,
        Expression::Identifier(name) => Expression::Identifier(name.clone()),
        Expression::IntegerLiteral(i) => Expression::IntegerLiteral(*i),
        Expression::Boolean(b) => Expression::Boolean(*b),
        Expression::PrefixExpression { operator, right } => Expression::PrefixExpression {
            operator: operator.clone(),
            right: Box::new(clone_expression(right)),
        },
        Expression::InfixExpression { left, operator, right } => Expression::InfixExpression {
            left: Box::new(clone_expression(left)),
            operator: operator.clone(),
            right: Box::new(clone_expression(right)),
        },
        Expression::IfExpression { condition, consequence, alternative } => {
            let alternative = match alternative {
                Some(block) => Some(Box::new(clone_statement(block))),
                None => None,
            };
            Expression::IfExpression {
                condition: Box::new(clone_expression(condition)),
                consequence: Box::new(clone_statement(consequence)),
                alternative,
            }
        },
        Expression::FunctionLiteral { parameters, body } => Expression::FunctionLiteral {
            parameters: clone_expressions(parameters),
            body: Box::new(clone_statement(body)),
        },
        Expression::CallExpression { function, arguments } => Expression::CallExpression {
            function: Box::new(clone_expression(function)),
            arguments: clone_expressions(arguments),
        },
    }
}

/// A copy of the list `es` with the same values.
pub fn clone_expressions(es: &Vec<Expression>) -> (res: Vec<Expression>)
    ensures
        expressions_view(res@) == expressions_view(es@),
    decreases es,
{
    let mut res: Vec<Expression> = Vec::new();
    let mut i: usize = 0;
    while i < es.len()
        invariant
            i <= es.len(),
            res.len() == i,
            forall|j: int| 0 <= j < i ==> (#[trigger] res@[j])@ == es@[j]@,
        decreases es.len() - i,
    {
        res.push(clone_expression(&es[i]));
        i += 1;
    }
    assert(expressions_view(res@) =~= expressions_view(es@));
    res
}

/// A copy of `s` with the same value.
pub fn clone_statement(s: &Statement) -> (res: Statement)
    ensures
        res@ == s@,
    decreases s,
{
    match s {
        Statement::EmptyStatement => Statement::EmptyStatement,
        Statement::LetStatement { name, value } => Statement::LetStatement {
            name: name.clone(),
            value: clone_expression(value),
        },
        Statement::ReturnStatement(e) => Statement::ReturnStatement(clone_expression(e)),
        Statement::ExpressionStatement(e) => Statement::ExpressionStatement(clone_expression(e)),
        Statement::BlockStatement { statements } => Statement::BlockStatement {
            statements: clone_statements(statements),
        },
    }
}

/// A copy of the list `ss` with the same values.
pub fn clone_statements(ss: &Vec<Statement>) -> (res: Vec<Statement>)
    ensures
        statements_view(res@) == statements_view(ss@),
    decreases ss,
{
    let mut res: Vec<Statement> = Vec::new();
    let mut i: usize = 0;
    while i < ss.len()
        invariant
            i <= ss.len(),
            res.len() == i,
            forall|j: int| 0 <= j < i ==> (#[trigger] res@[j])@ == ss@[j]@,
        decreases ss.len() - i,
    {
        res.push(clone_statement(&ss[i]));
        i += 1;
    }
    assert(statements_view(res@) =~= statements_view(ss@));
    res
}

impl Clone for Expression {
    fn clone(&self) -> (res: Self)
        ensures
            res@ == self@,
    {
        clone_expression(self)
    }
}

impl Clone for Statement {
    fn clone(&self) -> (res: Self)
        ensures
            res@ == self@,
    {
        clone_statement(self)
    }
}

impl Clone for Program {
    fn clone(&self) -> (res: Self)
        ensures
            res@ == self@,
    {
        Program { statements: clone_statements(&self.statements) }
    }
}

/// The texts in `parts`, in order, with `separator` between each two.
pub open spec fn join(parts: Seq<Seq<char>>, separator: Seq<char>) -> Seq<char>
    decreases parts.len(),
{
    if parts.len() == 0 {
        Seq::empty()
    } else if parts.len() == 1 {
        parts[0]
    } else {
        join(parts.drop_last(), separator) + separator + parts.last()
    }
}

/// The text of an expression. Prefix and infix expressions are written in
/// parentheses, so the text shows how the operators were grouped.
pub open spec fn print_expression(e: ExpressionView) -> Seq<char>
    decreases e,
{
    match e {
        ExpressionView::Empty => Seq::empty(),
        ExpressionView::Identifier(name) => name,
        ExpressionView::Integer(i) => int_text(i as int),
        ExpressionView::Boolean(b) => if b {
            "true"@
        } else {
            "false"@
        },
        ExpressionView::Prefix { operator, right } => seq!['('] + operator + print_expression(
            *right,
        ) + seq![')'],
        ExpressionView::Infix { left, operator, right } => seq!['('] + print_expression(*left)
            + seq![' '] + operator + seq![' '] + print_expression(*right) + seq![')'],
        ExpressionView::If { condition, consequence, alternative } => "if "@ + print_expression(
            *condition,
        ) + seq![' '] + print_statement(*consequence) + seq![' '] + (match alternative {
            Some(block) => "else "@ + print_statement(*block),
            None => Seq::empty(),
        }),
        ExpressionView::Function { parameters, body } => "fn("@ + join(
            print_expressions(parameters),
            ", "@,
        ) + ") "@ + print_statement(*body),
        ExpressionView::Call { function, arguments } => print_expression(*function) + seq!['(']
            + join(print_expressions(arguments), ", "@) + seq![')'],
    }
}

/// The texts of the expressions in `es`, in order.
pub open spec fn print_expressions(es: Seq<ExpressionView>) -> Seq<Seq<char>>
    decreases es,
{
    Seq::new(
        es.len(),
        |i: int|
            if 0 <= i < es.len() {
                print_expression(es[i])
            } else {
                Seq::empty()
            },
    )
}

/// The text of a statement. An expression statement is written without a
/// semicolon; a block is written in braces, one statement to a line.
pub open spec fn print_statement(s: StatementView) -> Seq<char>
    decreases s,
{
    match s {
        StatementView::Empty => Seq::empty(),
        StatementView::Let { name, value } => "let "@ + name + " = "@ + print_expression(value)
            + seq![';'],
        StatementView::Return(e) => "return "@ + print_expression(e) + seq![';'],
        StatementView::Expression(e) => print_expression(e),
        StatementView::Block { statements } => "{\n "@ + join(
            print_statements(statements),
            seq!['\n'],
        ) + "\n}"@,
    }
}

/// The texts of the statements in `ss`, in order.
pub open spec fn print_statements(ss: Seq<StatementView>) -> Seq<Seq<char>>
    decreases ss,
{
    Seq::new(
        ss.len(),
        |i: int|
            if 0 <= i < ss.len() {
                print_statement(ss[i])
            } else {
                Seq::empty()
            },
    )
}

/// The text of a program: its statements, one to a line.
pub open spec fn print_program(p: ProgramView) -> Seq<char> {
    join(print_statements(p.statements), seq!['\n'])
}

/// Appends the text of `e` to `out`.
pub fn write_expression(e: &Expression, out: &mut String)
    ensures
        final(out)@ == old(out)@ + print_expression(e@),
    decreases e,
{
    match e {
        Expression::EmptyExpression => {},
        Expression::Identifier(name) => {
            push_text(out, name.as_str());
        },
        Expression::IntegerLiteral(i) => {
            push_int(out, *i);
        },
        Expression::Boolean(b) => {
            if *b {
                push_text(out, "true");
            } else {
                push_text(out, "false");
            }
        },
        Expression::PrefixExpression { operator, right } => {
            push_char(out, '(');
            push_text(out, operator.as_str());
            write_expression(right, out);
            push_char(out, ')');
            assert(out@ =~= old(out)@ + print_expression(e@));
        },
        Expression::InfixExpression { left, operator, right } => {
            push_char(out, '(');
            write_expression(left, out);
            push_char(out, ' ');
            push_text(out, operator.as_str());
            push_char(out, ' ');
            write_expression(right, out);
            push_char(out, ')');
            assert(out@ =~= old(out)@ + print_expression(e@));
        },
        Expression::IfExpression { condition, consequence, alternative } => {
            push_text(out, "if ");
            write_expression(condition, out);
            push_char(out, ' ');
            write_statement(consequence, out);
            push_char(out, ' ');
            match alternative {
                Some(block) => {
                    push_text(out, "else ");
                    write_statement(block, out);
                },
                None => {},
            }
            assert(out@ =~= old(out)@ + print_expression(e@));
        },
        Expression::FunctionLiteral { parameters, body } => {
            push_text(out, "fn(");
            write_expressions(parameters, out);
            push_text(out, ") ");
            write_statement(body, out);
            assert(out@ =~= old(out)@ + print_expression(e@));
        },
        Expression::CallExpression { function, arguments } => {
            write_expression(function, out);
            push_char(out, '(');
            write_expressions(arguments, out);
            push_char(out, ')');
            assert(out@ =~= old(out)@ + print_expression(e@));
        },
    }
}

/// Appends the texts of the expressions in `es` to `out`, separated by a
/// comma and a space.
pub fn write_expressions(es: &Vec<Expression>, out: &mut String)
    ensures
        final(out)@ == old(out)@ + join(print_expressions(expressions_view(es@)), ", "@),
    decreases es,
{
    let ghost texts = print_expressions(expressions_view(es@));
    let mut i: usize = 0;
    while i < es.len()
        invariant
            i <= es.len(),
            texts == print_expressions(expressions_view(es@)),
            out@ == old(out)@ + join(texts.take(i as int), ", "@),
        decreases es.len() - i,
    {
        let ghost before = out@;
        if i > 0 {
            push_text(out, ", ");
        }
        write_expression(&es[i], out);
        proof {
            let head = texts.take(i + 1);
            assert(head.drop_last() =~= texts.take(i as int));
            assert(head.last() == print_expression(es@[i as int]@));
            assert(out@ =~= old(out)@ + join(head, ", "@));
        }
        i += 1;
    }
    assert(texts.take(es.len() as int) =~= texts);
}

/// Appends the text of `s` to `out`.
pub fn write_statement(s: &Statement, out: &mut String)
    ensures
        final(out)@ == old(out)@ + print_statement(s@),
    decreases s,
{
    match s {
        Statement::EmptyStatement => {},
        Statement::LetStatement { name, value } => {
            push_text(out, "let ");
            push_text(out, name.as_str());
            push_text(out, " = ");
            write_expression(value, out);
            push_char(out, ';');
            assert(out@ =~= old(out)@ + print_statement(s@));
        },
        Statement::ReturnStatement(e) => {
            push_text(out, "return ");
            write_expression(e, out);
            push_char(out, ';');
            assert(out@ =~= old(out)@ + print_statement(s@));
        },
        Statement::ExpressionStatement(e) => {
            write_expression(e, out);
        },
        Statement::BlockStatement { statements } => {
            push_text(out, "{\n ");
            write_statements(statements, out);
            push_text(out, "\n}");
            assert(out@ =~= old(out)@ + print_statement(s@));
        },
    }
}

/// Appends the texts of the statements in `ss` to `out`, one to a line.
pub fn write_statements(ss: &Vec<Statement>, out: &mut String)
    ensures
        final(out)@ == old(out)@ + join(print_statements(statements_view(ss@)), seq!['\n']),
    decreases ss,
{
    let ghost texts = print_statements(statements_view(ss@));
    let mut i: usize = 0;
    while i < ss.len()
        invariant
            i <= ss.len(),
            texts == print_statements(statements_view(ss@)),
            out@ == old(out)@ + join(texts.take(i as int), seq!['\n']),
        decreases ss.len() - i,
    {
        if i > 0 {
            push_char(out, '\n');
        }
        write_statement(&ss[i], out);
        proof {
            let head = texts.take(i + 1);
            assert(head.drop_last() =~= texts.take(i as int));
            assert(head.last() == print_statement(ss@[i as int]@));
            assert(out@ =~= old(out)@ + join(head, seq!['\n']));
        }
        i += 1;
    }
    assert(texts.take(ss.len() as int) =~= texts);
}

impl Expression {
    /// The text of this expression.
    pub fn to_string(&self) -> (text: String)
        ensures
            text@ == print_expression(self@),
    {
        let mut out = String::new();
        write_expression(self, &mut out);
        assert(out@ =~= print_expression(self@));
        out
    }
}

impl Statement {
    /// The text of this statement.
    pub fn to_string(&self) -> (text: String)
        ensures
            text@ == print_statement(self@),
    {
        let mut out = String::new();
        write_statement(self, &mut out);
        assert(out@ =~= print_statement(self@));
        out
    }
}

impl Program {
    /// The text of this program.
    pub fn to_string(&self) -> (text: String)
        ensures
            text@ == print_program(self@),
    {
        let mut out = String::new();
        write_statements(&self.statements, &mut out);
        assert(out@ =~= print_program(self@));
        out
    }
}

} // verus!
