//! The syntax tree that the parser builds and the code generator reads.
use vstd::prelude::*;

verus! {

/// The arguments of an action call: positional ones, named ones (each name
/// once, in the order it was first given) and an optional handler.
#[derive(Debug)]
pub struct ArgumentList {
    pub posargs: Vec<ExpressionBox>,
    pub kwargs: Vec<(String, ExpressionBox)>,
    pub handler: Option<Box<ExpressionBox>>,
}

#[derive(Debug)]
pub enum Expression {
    Identifier(String),
    ExplicitVariable { scope: String, name: String },
    /// A number, kept as the text of its literal.
    NumberLiteral(String),
    StringLiteral { parsing: String, text: String },
    ArrayLiteral(Vec<ExpressionBox>),
    FunctionCall { name: String, args: Vec<ExpressionBox> },
    MethodCall { object: String, method: String, args: ArgumentList },
    /// `() => { ... }`
    Handler(Vec<StatementBox>),
    /// `value::name`: a value of the game.
    GameValue(String),
    /// `object::method(args) { body }`, or `object::method!(args) { body }`
    /// when inverted: the body runs when the condition holds (or, inverted,
    /// when it does not).
    Condition { object: String, method: String, inverted: bool, args: ArgumentList, body: Vec<StatementBox> },
}

/// An expression and the line it starts on.
#[derive(Debug)]
pub struct ExpressionBox {
    pub content: Expression,
    pub line: u32,
}

impl ExpressionBox {
    pub fn unwrap(self) -> (e: Expression)
        ensures
            e == self.content,
    {
        self.content
    }
}

#[derive(Debug)]
pub enum Statement {
    FunctionDefinition { name: String, params: Vec<String>, body: Vec<StatementBox> },
    ProcessDefinition { name: String, params: Vec<String>, body: Vec<StatementBox> },
    EventDefinition { event: String, body: Vec<StatementBox> },
    VariableDefinition { scope: String, name: String, value: Option<ExpressionBox> },
    VariableSet { name: String, value: ExpressionBox },
    ExpressionStatement(ExpressionBox),
}

/// A statement and the line it starts on.
#[derive(Debug)]
pub struct StatementBox {
    pub content: Statement,
    pub line: u32,
}

// ---------------------------------------------------------------------------
// The same tree as mathematical values.

pub struct SpecArgumentList {
    pub posargs: Seq<SpecExpressionBox>,
    pub kwargs: Seq<(Seq<char>, SpecExpressionBox)>,
    pub handler: Option<Box<SpecExpressionBox>>,
}

pub enum SpecExpression {
    Identifier(Seq<char>),
    ExplicitVariable { scope: Seq<char>, name: Seq<char> },
    NumberLiteral(Seq<char>),
    StringLiteral { parsing: Seq<char>, text: Seq<char> },
    ArrayLiteral(Seq<SpecExpressionBox>),
    FunctionCall { name: Seq<char>, args: Seq<SpecExpressionBox> },
    MethodCall { object: Seq<char>, method: Seq<char>, args: SpecArgumentList },
    Handler(Seq<SpecStatementBox>),
    GameValue(Seq<char>),
    Condition {
        object: Seq<char>,
        method: Seq<char>,
        inverted: bool,
        args: SpecArgumentList,
        body: Seq<SpecStatementBox>,
    },
}

pub struct SpecExpressionBox {
    pub content: SpecExpression,
    pub line: u32,
}

pub enum SpecStatement {
    FunctionDefinition { name: Seq<char>, params: Seq<Seq<char>>, body: Seq<SpecStatementBox> },
    ProcessDefinition { name: Seq<char>, params: Seq<Seq<char>>, body: Seq<SpecStatementBox> },
    EventDefinition { event: Seq<char>, body: Seq<SpecStatementBox> },
    VariableDefinition { scope: Seq<char>, name: Seq<char>, value: Option<SpecExpressionBox> },
    VariableSet { name: Seq<char>, value: SpecExpressionBox },
    ExpressionStatement(SpecExpressionBox),
}

pub struct SpecStatementBox {
    pub content: SpecStatement,
    pub line: u32,
}

pub open spec fn strings_view(s: Seq<String>) -> Seq<Seq<char>> {
    s.map_values(|x: String| x@)
}

pub open spec fn expression_view(e: Expression) -> SpecExpression
    decreases e,
{
    match e {
        Expression::Identifier(n) => SpecExpression::Identifier(n@),
        Expression::ExplicitVariable { scope, name } => SpecExpression::ExplicitVariable {
            scope: scope@,
            name: name@,
        },
        Expression::NumberLiteral(v) => SpecExpression::NumberLiteral(v@),
        Expression::StringLiteral { parsing, text } => SpecExpression::StringLiteral {
            parsing: parsing@,
            text: text@,
        },
        Expression::ArrayLiteral(a) => SpecExpression::ArrayLiteral(eboxes_view(a@)),
        Expression::FunctionCall { name, args } => SpecExpression::FunctionCall {
            name: name@,
            args: eboxes_view(args@),
        },
        Expression::MethodCall { object, method, args } => SpecExpression::MethodCall {
            object: object@,
            method: method@,
            args: args_view(args),
        },
        Expression::Handler(body) => SpecExpression::Handler(sboxes_view(body@)),
        Expression::GameValue(name) => SpecExpression::GameValue(name@),
        Expression::Condition { object, method, inverted, args, body } => SpecExpression::Condition {
            object: object@,
            method: method@,
            inverted,
            args: args_view(args),
            body: sboxes_view(body@),
        },
    }
}

pub open spec fn ebox_view(b: ExpressionBox) -> SpecExpressionBox
    decreases b,
{
    SpecExpressionBox { content: expression_view(b.content), line: b.line }
}

pub open spec fn eboxes_view(s: Seq<ExpressionBox>) -> Seq<SpecExpressionBox>
    decreases s,
{
    Seq::new(s.len(), |i: int| if 0 <= i < s.len() { ebox_view(s[i]) } else { arbitrary() })
}

pub open spec fn kwargs_view(s: Seq<(String, ExpressionBox)>) -> Seq<(Seq<char>, SpecExpressionBox)>
    decreases s,
{
    Seq::new(
        s.len(),
        |i: int| if 0 <= i < s.len() { (s[i].0@, ebox_view(s[i].1)) } else { arbitrary() },
    )
}

pub open spec fn args_view(a: ArgumentList) -> SpecArgumentList
    decreases a,
{
    SpecArgumentList {
        posargs: eboxes_view(a.posargs@),
        kwargs: kwargs_view(a.kwargs@),
        handler: match a.handler {
            Some(h) => Some(Box::new(ebox_view(*h))),
            None => None,
        },
    }
}

pub open spec fn statement_view(s: Statement) -> SpecStatement
    decreases s,
{
    match s {
        Statement::FunctionDefinition { name, params, body } => SpecStatement::FunctionDefinition {
            name: name@,
            params: strings_view(params@),
            body: sboxes_view(body@),
        },
        Statement::ProcessDefinition { name, params, body } => SpecStatement::ProcessDefinition {
            name: name@,
            params: strings_view(params@),
            body: sboxes_view(body@),
        },
        Statement::EventDefinition { event, body } => SpecStatement::EventDefinition {
            event: event@,
            body: sboxes_view(body@),
        },
        Statement::VariableDefinition { scope, name, value } => SpecStatement::VariableDefinition {
            scope: scope@,
            name: name@,
            value: match value {
                Some(v) => Some(ebox_view(v)),
                None => None,
            },
        },
        Statement::VariableSet { name, value } => SpecStatement::VariableSet {
            name: name@,
            value: ebox_view(value),
        },
        Statement::ExpressionStatement(e) => SpecStatement::ExpressionStatement(ebox_view(e)),
    }
}

pub open spec fn sbox_view(b: StatementBox) -> SpecStatementBox
    decreases b,
{
    SpecStatementBox { content: statement_view(b.content), line: b.line }
}

pub open spec fn sboxes_view(s: Seq<StatementBox>) -> Seq<SpecStatementBox>
    decreases s,
{
    Seq::new(s.len(), |i: int| if 0 <= i < s.len() { sbox_view(s[i]) } else { arbitrary() })
}

impl View for Expression {
    type V = SpecExpression;

    open spec fn view(&self) -> SpecExpression {
        expression_view(*self)
    }
}

impl View for ExpressionBox {
    type V = SpecExpressionBox;

    open spec fn view(&self) -> SpecExpressionBox {
        ebox_view(*self)
    }
}

impl View for ArgumentList {
    type V = SpecArgumentList;

    open spec fn view(&self) -> SpecArgumentList {
        args_view(*self)
    }
}

impl View for Statement {
    type V = SpecStatement;

    open spec fn view(&self) -> SpecStatement {
        statement_view(*self)
    }
}

impl View for StatementBox {
    type V = SpecStatementBox;

    open spec fn view(&self) -> SpecStatementBox {
        sbox_view(*self)
    }
}

pub proof fn lemma_eboxes_push(s: Seq<ExpressionBox>, x: ExpressionBox)
    ensures
        eboxes_view(s.push(x)) == eboxes_view(s).push(ebox_view(x)),
{
    assert(eboxes_view(s.push(x)) =~= eboxes_view(s).push(ebox_view(x)));
}

pub proof fn lemma_sboxes_push(s: Seq<StatementBox>, x: StatementBox)
    ensures
        sboxes_view(s.push(x)) == sboxes_view(s).push(sbox_view(x)),
{
    assert(sboxes_view(s.push(x)) =~= sboxes_view(s).push(sbox_view(x)));
}

pub proof fn lemma_strings_push(s: Seq<String>, x: String)
    ensures
        strings_view(s.push(x)) == strings_view(s).push(x@),
{
    assert(strings_view(s.push(x)) =~= strings_view(s).push(x@));
}

pub proof fn lemma_kwargs_push(s: Seq<(String, ExpressionBox)>, x: (String, ExpressionBox))
    ensures
        kwargs_view(s.push(x)) == kwargs_view(s).push((x.0@, ebox_view(x.1))),
{
    assert(kwargs_view(s.push(x)) =~= kwargs_view(s).push((x.0@, ebox_view(x.1))));
}

pub proof fn lemma_kwargs_update(s: Seq<(String, ExpressionBox)>, i: int, x: (String, ExpressionBox))
    requires
        0 <= i < s.len(),
    ensures
        kwargs_view(s.update(i, x)) == kwargs_view(s).update(i, (x.0@, ebox_view(x.1))),
{
    assert(kwargs_view(s.update(i, x)) =~= kwargs_view(s).update(i, (x.0@, ebox_view(x.1))));
}

} // verus!
