//! Runtime values, the errors of an evaluation, and the environment that
//! binds names to values.
use crate::ast::{
    clone_expressions, clone_statement, expressions_view, print_expression, write_expressions,
    write_statement, Expression, ExpressionView, Statement, StatementView,
};
use crate::text::{decimal_digits, int_text, push_char, push_decimal, push_int, push_text};
use vstd::prelude::*;

verus! {

/// A runtime value.
#[derive(Debug, PartialEq)]
pub enum Object {
    Integer(i64),
    Boolean(bool),
    Null,
    /// A value on its way out of the enclosing blocks.
    ReturnValue(Box<Object>),
    /// A function together with the scope in which it was defined.
    FunctionObject { parameters: Vec<Expression>, body: Statement, env: usize },
}

/// The mathematical value of an [`Object`].
pub enum ObjectView {
    Integer(i64),
    Boolean(bool),
    Null,
    ReturnValue(Box<ObjectView>),
    Function { parameters: Seq<ExpressionView>, body: StatementView, env: nat },
}

/// The value of an object.
pub open spec fn object_view(o: Object) -> ObjectView
    decreases o,
{
    match o {
        Object::Integer(i) => ObjectView::Integer(i),
        Object::Boolean(b) => ObjectView::Boolean(b),
        Object::Null => ObjectView::Null,
        Object::ReturnValue(inner) => ObjectView::ReturnValue(Box::new(object_view(*inner))),
        Object::FunctionObject { parameters, body, env } => ObjectView::Function {
            parameters: expressions_view(parameters@),
            body: body@,
            env: env as nat,
        },
    }
}

impl View for Object {
    type V = ObjectView;

    open spec fn view(&self) -> ObjectView {
        object_view(*self)
    }
}

/// The values of the objects in `os`, in order.
pub open spec fn objects_view(os: Seq<Object>) -> Seq<ObjectView> {
    Seq::new(os.len(), |i: int| os[i]@)
}

/// A copy of `o` with the same value.
pub fn clone_object(o: &Object) -> (res: Object)
    ensures
        res@ == o@,
    decreases o,
{
    match o {
        Object::Integer(i) => Object::Integer(*i),
        Object::Boolean(b) => Object::Boolean(*b),
        Object::Null => Object::Null,
        Object::ReturnValue(inner) => Object::ReturnValue(Box::new(clone_object(inner))),
        Object::FunctionObject { parameters, body, env } => Object::FunctionObject {
            parameters: clone_expressions(parameters),
            body: clone_statement(body),
            env: *env,
        },
    }
}

impl Clone for Object {
    fn clone(&self) -> (res: Self)
        ensures
            res@ == self@,
    {
        clone_object(self)
    }
}

/// The text of a value in diagnostics: its kind, and in parentheses what
/// it holds.
pub open spec fn describe(o: ObjectView) -> Seq<char>
    decreases o,
{
    match o {
        ObjectView::Integer(i) => "Integer("@ + int_text(i as int) + seq![')'],
        ObjectView::Boolean(b) => if b {
            "Boolean(true)"@
        } else {
            "Boolean(false)"@
        },
        ObjectView::Null => "Null"@,
        ObjectView::ReturnValue(inner) => "ReturnValue("@ + describe(*inner) + seq![')'],
        ObjectView::Function { parameters, body, env } => "FunctionObject("@ + print_expression(
            ExpressionView::Function { parameters, body: Box::new(body) },
        ) + seq![')'],
    }
}

/// Appends the text of `o` in diagnostics to `out`.
pub fn write_object(o: &Object, out: &mut String)
    ensures
        final(out)@ == old(out)@ + describe(o@),
    decreases o,
{
    match o {
        Object::Integer(i) => {
            push_text(out, "Integer(");
            push_int(out, *i);
            push_char(out, ')');
        },
        Object::Boolean(b) => {
            if *b {
                push_text(out, "Boolean(true)");
            } else {
                push_text(out, "Boolean(false)");
            }
        },
        Object::Null => {
            push_text(out, "Null");
        },
        Object::ReturnValue(inner) => {
            push_text(out, "ReturnValue(");
            write_object(inner, out);
            push_char(out, ')');
        },
        Object::FunctionObject { parameters, body, env } => {
            push_text(out, "FunctionObject(");
            push_text(out, "fn(");
            write_expressions(parameters, out);
            push_text(out, ") ");
            write_statement(body, out);
            push_char(out, ')');
        },
    }
    assert(out@ =~= old(out)@ + describe(o@));
}

/// Why an evaluation failed.
#[derive(Debug, PartialEq)]
pub enum EvalError {
    /// The operands of an infix operator are of different kinds.
    TypeMismatch { left: Object, operator: String, right: Object },
    /// The operands are of one kind, which has no such operator.
    UnknownOperator { left: Object, operator: String, right: Object },
    /// No scope from the current one outwards binds the name.
    IdentifierNotFound(String),
    /// The operand of a prefix `-` is no integer.
    InvalidNegation(Object),
    /// The value has no truth value.
    InvalidCast(Object),
    /// An integer was divided by zero.
    DivisionByZero { dividend: i64 },
    /// The result of an integer operation does not fit in 64 bits.
    IntegerOverflow { first: i64, operator: String, second: i64 },
    /// The callee of a call is no function.
    NotAFunction(Object),
    /// A function was called with more or fewer arguments than it has
    /// parameters.
    WrongArgumentCount { expected: usize, found: usize },
    /// Expressions or calls are nested more deeply than the evaluator goes.
    StackOverflow,
}

/// The mathematical value of an [`EvalError`].
pub enum EvalErrorView {
    TypeMismatch { left: ObjectView, operator: Seq<char>, right: ObjectView },
    UnknownOperator { left: ObjectView, operator: Seq<char>, right: ObjectView },
    IdentifierNotFound(Seq<char>),
    InvalidNegation(ObjectView),
    InvalidCast(ObjectView),
    DivisionByZero { dividend: i64 },
    IntegerOverflow { first: i64, operator: Seq<char>, second: i64 },
    NotAFunction(ObjectView),
    WrongArgumentCount { expected: nat, found: nat },
    StackOverflow,
}

impl View for EvalError {
    type V = EvalErrorView;

    open spec fn view(&self) -> EvalErrorView {
        match *self {
            EvalError::TypeMismatch { left, operator, right } => EvalErrorView::TypeMismatch {
                left: left@,
                operator: operator@,
                right: right@,
            },
            EvalError::UnknownOperator { left, operator, right } => EvalErrorView::UnknownOperator {
                left: left@,
                operator: operator@,
                right: right@,
            },
            EvalError::IdentifierNotFound(name) => EvalErrorView::IdentifierNotFound(name@),
            EvalError::InvalidNegation(o) => EvalErrorView::InvalidNegation(o@),
            EvalError::InvalidCast(o) => EvalErrorView::InvalidCast(o@),
            EvalError::DivisionByZero { dividend } => EvalErrorView::DivisionByZero { dividend },
            EvalError::IntegerOverflow { first, operator, second } =>
                EvalErrorView::IntegerOverflow { first, operator: operator@, second },
            EvalError::NotAFunction(o) => EvalErrorView::NotAFunction(o@),
            EvalError::WrongArgumentCount { expected, found } => EvalErrorView::WrongArgumentCount {
                expected: expected as nat,
                found: found as nat,
            },
            EvalError::StackOverflow => EvalErrorView::StackOverflow,
        }
    }
}

/// The message of an evaluation error.
pub open spec fn eval_error_text(e: EvalErrorView) -> Seq<char> {
    match e {
        EvalErrorView::TypeMismatch { left, operator, right } => "type mismatch: "@ + describe(left)
            + seq![' '] + operator + seq![' '] + describe(right),
        EvalErrorView::UnknownOperator { left, operator, right } => "unknown operator: "@
            + describe(left) + seq![' '] + operator + seq![' '] + describe(right),
        EvalErrorView::IdentifierNotFound(name) => "identifier not found: "@ + name,
        EvalErrorView::InvalidNegation(o) => "cannot use '-' operator on "@ + describe(o),
        EvalErrorView::InvalidCast(o) => "cannot cast "@ + describe(o) + " to boolean"@,
        EvalErrorView::DivisionByZero { dividend } => "division by zero: "@ + describe(
            ObjectView::Integer(dividend),
        ) + " / Integer(0)"@,
        EvalErrorView::IntegerOverflow { first, operator, second } => "integer overflow: "@
            + describe(ObjectView::Integer(first)) + seq![' '] + operator + seq![' '] + describe(
            ObjectView::Integer(second),
        ),
        EvalErrorView::NotAFunction(o) => "not a function: "@ + describe(o),
        EvalErrorView::WrongArgumentCount { expected, found } =>
            "wrong number of arguments: expected "@ + decimal_digits(expected) + ", got "@
                + decimal_digits(found),
        EvalErrorView::StackOverflow => "stack overflow"@,
    }
}

impl EvalError {
    /// The message that describes this error.
    pub fn message(&self) -> (text: String)
        ensures
            text@ == eval_error_text(self@),
    {
        let mut out = String::new();
        match self {
            EvalError::TypeMismatch { left, operator, right } => {
                push_text(&mut out, "type mismatch: ");
                write_object(left, &mut out);
                push_char(&mut out, ' ');
                push_text(&mut out, operator.as_str());
                push_char(&mut out, ' ');
                write_object(right, &mut out);
            },
            EvalError::UnknownOperator { left, operator, right } => {
                push_text(&mut out, "unknown operator: ");
                write_object(left, &mut out);
                push_char(&mut out, ' ');
                push_text(&mut out, operator.as_str());
                push_char(&mut out, ' ');
                write_object(right, &mut out);
            },
            EvalError::IdentifierNotFound(name) => {
                push_text(&mut out, "identifier not found: ");
                push_text(&mut out, name.as_str());
            },
            EvalError::InvalidNegation(o) => {
                push_text(&mut out, "cannot use '-' operator on ");
                write_object(o, &mut out);
            },
            EvalError::InvalidCast(o) => {
                push_text(&mut out, "cannot cast ");
                write_object(o, &mut out);
                push_text(&mut out, " to boolean");
            },
            EvalError::DivisionByZero { dividend } => {
                push_text(&mut out, "division by zero: ");
                write_object(&Object::Integer(*dividend), &mut out);
                push_text(&mut out, " / Integer(0)");
            },
            EvalError::IntegerOverflow { first, operator, second } => {
                push_text(&mut out, "integer overflow: ");
                write_object(&Object::Integer(*first), &mut out);
                push_char(&mut out, ' ');
                push_text(&mut out, operator.as_str());
                push_char(&mut out, ' ');
                write_object(&Object::Integer(*second), &mut out);
            },
            EvalError::NotAFunction(o) => {
                push_text(&mut out, "not a function: ");
                write_object(o, &mut out);
            },
            EvalError::WrongArgumentCount { expected, found } => {
                push_text(&mut out, "wrong number of arguments: expected ");
                push_decimal(&mut out, *expected as u64);
                push_text(&mut out, ", got ");
                push_decimal(&mut out, *found as u64);
            },
            EvalError::StackOverflow => {
                push_text(&mut out, "stack overflow");
            },
        }
        assert(out@ =~= eval_error_text(self@));
        out
    }
}

/// The truth value of a value: an integer is true unless it is zero, null is
/// false, and a value on its way out counts as the value it wraps. A
/// function has none.
pub open spec fn truth(o: ObjectView) -> Result<bool, EvalErrorView>
    decreases o,
{
    match o {
        ObjectView::Integer(i) => Ok(i != 0),
        ObjectView::Boolean(b) => Ok(b),
        ObjectView::Null => Ok(false),
        ObjectView::ReturnValue(inner) => truth(*inner),
        ObjectView::Function { .. } => Err(EvalErrorView::InvalidCast(o)),
    }
}

impl Object {
    /// The truth value of this value, as a boolean object.
    pub fn cast_to_boolean(&self) -> (r: Result<Object, EvalError>)
        ensures
            match truth(self@) {
                Ok(b) => r matches Ok(o) && o@ == ObjectView::Boolean(b),
                Err(e) => r matches Err(x) && x@ == e,
            },
        decreases self,
    {
        match self {
            Object::Integer(i) => Ok(Object::Boolean(*i != 0)),
            Object::Boolean(b) => Ok(Object::Boolean(*b)),
            Object::Null => Ok(Object::Boolean(false)),
            Object::ReturnValue(inner) => inner.cast_to_boolean(),
            Object::FunctionObject { .. } => Err(EvalError::InvalidCast(clone_object(self))),
        }
    }

    /// The text of this value in diagnostics.
    pub fn describe(&self) -> (text: String)
        ensures
            text@ == describe(self@),
    {
        let mut out = String::new();
        write_object(self, &mut out);
        assert(out@ =~= describe(self@));
        out
    }
}


/// One name with the value bound to it.
#[derive(Debug)]
pub struct Binding {
    name: String,
    value: Object,
}

/// The bindings of one scope, oldest first, and the scope around it.
#[derive(Debug)]
pub struct Scope {
    bindings: Vec<Binding>,
    outer: Option<usize>,
}

/// The scopes of one evaluation. A scope is known by its place in the
/// environment; place 0 is the outermost scope. A function value holds the
/// place of the scope in which it was defined, so all that is later bound
/// in that scope is seen by the function too.
#[derive(Debug)]
pub struct Environment {
    scopes: Vec<Scope>,
}

/// The mathematical value of a scope: what each name is bound to, and the
/// place of the enclosing scope.
pub struct ScopeView {
    pub store: Map<Seq<char>, ObjectView>,
    pub outer: Option<nat>,
}

/// The mathematical value of an [`Environment`]: its scopes by place.
pub struct EnvironmentView {
    pub scopes: Seq<ScopeView>,
}

/// What a list of bindings binds: for each name, the value of the last
/// binding of that name.
pub closed spec fn store_of(bindings: Seq<Binding>) -> Map<Seq<char>, ObjectView>
    decreases bindings.len(),
{
    if bindings.len() == 0 {
        Map::empty()
    } else {
        store_of(bindings.drop_last()).insert(bindings.last().name@, bindings.last().value@)
    }
}

impl View for Scope {
    type V = ScopeView;

    closed spec fn view(&self) -> ScopeView {
        ScopeView {
            store: store_of(self.bindings@),
            outer: match self.outer {
                Some(outer) => Some(outer as nat),
                None => None,
            },
        }
    }
}

impl View for Environment {
    type V = EnvironmentView;

    closed spec fn view(&self) -> EnvironmentView {
        EnvironmentView { scopes: Seq::new(self.scopes@.len(), |i: int| self.scopes@[i]@) }
    }
}

/// An environment with one empty scope and nothing around it.
pub open spec fn fresh() -> EnvironmentView {
    EnvironmentView { scopes: seq![ScopeView { store: Map::empty(), outer: None }] }
}

/// What `name` stands for in the scope at place `scope`: the value bound
/// there, or else what it stands for in the enclosing scope. A scope is
/// enclosed only by one at a lower place.
pub open spec fn lookup(env: EnvironmentView, scope: nat, name: Seq<char>) -> Option<ObjectView>
    decreases scope,
{
    if scope >= env.scopes.len() {
        None
    } else if env.scopes[scope as int].store.contains_key(name) {
        Some(env.scopes[scope as int].store[name])
    } else {
        match env.scopes[scope as int].outer {
            Some(outer) => if outer < scope {
                lookup(env, outer, name)
            } else {
                None
            },
            None => None,
        }
    }
}

/// The environment after `name` was bound to `value` in the scope at place
/// `scope`: only that scope changes, and in it only that name.
pub open spec fn bind(
    env: EnvironmentView,
    scope: nat,
    name: Seq<char>,
    value: ObjectView,
) -> EnvironmentView {if scope <env.scopes.len() {
        EnvironmentView {
            scopes: env.scopes.update(
                scope as int,
                ScopeView {
                    store: env.scopes[scope as int].store.insert(name, value),
                    outer: env.scopes[scope as int].outer,
                },
            ),
        }
    } else {
        env
    }
}

/// The environment with one more scope, empty, enclosed by the scope at
/// place `outer`. Its place is the number of scopes there were.
pub open spec fn extend(env: EnvironmentView, outer: nat) -> EnvironmentView {
    EnvironmentView {
        scopes: env.scopes.push(ScopeView { store: Map::empty(), outer: Some(outer) }),
    }
}

/// The value of the last binding of `name` in `bindings`.
fn find<'a>(bindings: &'a Vec<Binding>, name: &String) -> (r: Option<&'a Object>)
    ensures
        match r {
            Some(o) => store_of(bindings@).contains_key(name@) && store_of(bindings@)[name@]
                == o@,
            None => !store_of(bindings@).contains_key(name@),
        },
{
    let mut k: usize = bindings.len();
    assert(bindings@.take(k as int) =~= bindings@);
    while k > 0
        invariant
            k <= bindings.len(),
            store_of(bindings@).contains_key(name@) == store_of(
                bindings@.take(k as int),
            ).contains_key(name@),
            store_of(bindings@).contains_key(name@) ==> store_of(bindings@)[name@] == store_of(
                bindings@.take(k as int),
            )[name@],
        decreases k,
    {
        proof {
            let head = bindings@.take(k as int);
            assert(head.drop_last() =~= bindings@.take(k - 1));
            assert(head.last() == bindings@[k - 1]);
        }
        if bindings[k - 1].name == *name {
            return Some(&bindings[k - 1].value);
        }
        k -= 1;
    }
    None
}

impl Environment {
    /// An environment with one empty scope.
    pub fn new() -> (env: Self)
        ensures
            env@ == fresh(),
    {
        let mut scopes: Vec<Scope> = Vec::new();
        scopes.push(Scope { bindings: Vec::new(), outer: None });
        let env = Environment { scopes };
        assert(env@.scopes =~= fresh().scopes);
        env
    }

    /// The number of scopes.
    pub fn len(&self) -> (n: usize)
        ensures
            n == self@.scopes.len(),
    {
        self.scopes.len()
    }

    /// What `name` stands for in the scope at place `scope`.
    pub fn lookup(&self, scope: usize, name: &str) -> (r: Option<&Object>)
        ensures
            match lookup(self@, scope as nat, name@) {
                Some(v) => r matches Some(o) && o@ == v,
                None => r is None,
            },
    {
        let key = String::from_str(name);
        let mut at: usize = scope;
        loop
            invariant
                key@ == name@,
                lookup(self@, at as nat, name@) == lookup(self@, scope as nat, name@),
            decreases at,
        {
            if at >= self.scopes.len() {
                return None;
            }
            match find(&self.scopes[at].bindings, &key) {
                Some(o) => {
                    return Some(o);
                },
                None => {},
            }
            match self.scopes[at].outer {
                Some(outer) => {
                    if outer < at {
                        at = outer;
                    } else {
                        return None;
                    }
                },
                None => {
                    return None;
                },
            }
        }
    }

    /// Binds `name` to `value` in the scope at place `scope`. An earlier
    /// binding of the name in that scope is shadowed; other scopes stay as
    /// they are.
    pub fn bind(&mut self, scope: usize, name: String, value: Object)
        ensures
            final(self)@ == bind(old(self)@, scope as nat, name@, value@),
    {
        if scope < self.scopes.len() {
            let ghost before = self.scopes@[scope as int].bindings@;
            let ghost binding = Binding { name, value };
            self.scopes[scope].bindings.push(Binding { name, value });
            proof {
                let after = self.scopes@[scope as int].bindings@;
                assert(after.drop_last() =~= before);
                assert(after.last() == binding);
                assert(self@.scopes =~= bind(old(self)@, scope as nat, name@, value@).scopes);
            }
        }
    }

    /// Adds an empty scope enclosed by the scope at place `outer`, and
    /// returns its place.
    pub fn extend(&mut self, outer: usize) -> (child: usize)
        ensures
            final(self)@ == extend(old(self)@, outer as nat),
            child == old(self)@.scopes.len(),
    {
        let child = self.scopes.len();
        self.scopes.push(Scope { bindings: Vec::new(), outer: Some(outer) });
        assert(self@.scopes =~= extend(old(self)@, outer as nat).scopes);
        child
    }

    /// What `name` stands for in the outermost scope.
    pub fn get(&self, name: &str) -> (r: Option<&Object>)
        ensures
            match lookup(self@, 0, name@) {
                Some(v) => r matches Some(o) && o@ == v,
                None => r is None,
            },
    {
        self.lookup(0, name)
    }

    /// Binds `name` to `value` in the outermost scope.
    pub fn set(&mut self, name: String, value: Object)
        ensures
            final(self)@ == bind(old(self)@, 0, name@, value@),
    {
        self.bind(0, name, value)
    }
}

} // verus!
