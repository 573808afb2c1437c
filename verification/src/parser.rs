//! The parser: turns tokens into statements.
use vstd::prelude::*;
use vstd::string::StringExecFns;

use crate::ast::{
    ArgumentList, Expression, ExpressionBox, SpecArgumentList, SpecExpression, SpecExpressionBox,
    SpecStatement, SpecStatementBox, Statement, StatementBox, ebox_view, eboxes_view, kwargs_view,
    lemma_eboxes_push, lemma_kwargs_push, lemma_kwargs_update, lemma_sboxes_push, lemma_strings_push,
    sboxes_view, strings_view,
};
use crate::lexer::{Token, TokenType};
use crate::text::str_eq;

verus! {

/// What the parser was reading when it met an unexpected token.
#[derive(Debug, PartialEq, Eq, Structural, Clone, Copy)]
pub enum Context {
    VariableDeclaration,
    VariableSet,
    FunctionDeclaration,
    FunctionParameters,
    EventDefinition,
    Body,
    MethodCall,
    ArgumentList,
    Kwarg,
    ArrayLiteral,
    Handler,
    StatementEnd,
}

/// The phrase that ends an error message in the context `c`.
pub open spec fn context_phrase(c: Context) -> Seq<char> {
    match c {
        Context::VariableDeclaration => "when parsing variable declaration"@,
        Context::VariableSet => "when parsing variable set"@,
        Context::FunctionDeclaration => "when parsing function declaration"@,
        Context::FunctionParameters => "when parsing parameters in function declaration"@,
        Context::EventDefinition => "when parsing event definition"@,
        Context::Body => "when parsing body"@,
        Context::MethodCall => "when parsing method call"@,
        Context::ArgumentList => "when parsing argument list"@,
        Context::Kwarg => "when parsing kwarg in argument list"@,
        Context::ArrayLiteral => "when parsing an array literal"@,
        Context::Handler => "when parsing a handler"@,
        Context::StatementEnd => "at the end of a statement"@,
    }
}

impl Context {
    /// The phrase that ends an error message in this context.
    pub fn describe(&self) -> (r: &'static str)
        ensures
            r@ == context_phrase(*self),
    {
        match self {
            Context::VariableDeclaration => "when parsing variable declaration",
            Context::VariableSet => "when parsing variable set",
            Context::FunctionDeclaration => "when parsing function declaration",
            Context::FunctionParameters => "when parsing parameters in function declaration",
            Context::EventDefinition => "when parsing event definition",
            Context::Body => "when parsing body",
            Context::MethodCall => "when parsing method call",
            Context::ArgumentList => "when parsing argument list",
            Context::Kwarg => "when parsing kwarg in argument list",
            Context::ArrayLiteral => "when parsing an array literal",
            Context::Handler => "when parsing a handler",
            Context::StatementEnd => "at the end of a statement",
        }
    }
}

/// Why a token sequence is not a program.
#[derive(Debug)]
pub enum ParseError {
    /// The tokens ended where another one was needed.
    UnexpectedEof,
    ExpectedKind { expected: TokenType, got: TokenType, context: Context, line: u32 },
    ExpectedValue { expected: &'static str, got: String, context: Context, line: u32 },
    ExpectedVariableName { got: TokenType, line: u32 },
    /// `name: type` in a parameter list.
    ParameterTypes { line: u32 },
    /// A backquoted name after a prefix other than `ln`, `l`, `g`, `s`.
    UnknownVariableScope { line: u32 },
    /// A string after a prefix other than `p`, `l`, `m`, `j`.
    UnknownTextParsing { line: u32 },
    UnexpectedToken { value: String, line: u32 },
    /// A named argument whose name is not an identifier.
    KwargNotIdentifier { line: u32 },
}

// ---------------------------------------------------------------------------
// The grammar, as functions from a token sequence and a reading state to what
// is read there and the state after it.

/// Where the parser stands and the lines of the `_WARNTEST` markers it met.
pub struct PState {
    pub pos: int,
    pub warnings: Seq<u32>,
}

/// A value read and the state after it, or an error and the warnings met before it.
pub type PRes<T> = Result<(T, PState), (ParseError, Seq<u32>)>;

/// The state after one token was expected, or an error.
pub type Step = Result<PState, (ParseError, Seq<u32>)>;

pub open spec fn adv(st: PState) -> PState {
    PState { pos: st.pos + 1, warnings: st.warnings }
}

pub open spec fn done<T>(v: T, st: PState) -> PRes<T> {
    Ok((v, st))
}

pub open spec fn eof<T>(st: PState) -> PRes<T> {
    Err((ParseError::UnexpectedEof, st.warnings))
}

pub open spec fn fail<T>(e: ParseError, st: PState) -> PRes<T> {
    Err((e, st.warnings))
}

/// The token at `st` has the text `v`.
pub open spec fn value_at(toks: Seq<Token>, st: PState, v: Seq<char>) -> bool {
    0 <= st.pos < toks.len() && toks[st.pos].value@ == v
}

/// A token whose text is `v` and which is not a string.
pub open spec fn spec_expect_value(toks: Seq<Token>, st: PState, v: &'static str, ctx: Context) -> Step {
    if st.pos >= toks.len() {
        Err((ParseError::UnexpectedEof, st.warnings))
    } else {
        let t = toks[st.pos];
        if t.value@ == v@ && t.kind != TokenType::String {
            Ok(adv(st))
        } else {
            Err(
                (
                    ParseError::ExpectedValue { expected: v, got: t.value, context: ctx, line: t.line },
                    st.warnings,
                ),
            )
        }
    }
}

/// A token of kind `kind`.
pub open spec fn spec_expect_kind(toks: Seq<Token>, st: PState, kind: TokenType, ctx: Context) -> Step {
    if st.pos >= toks.len() {
        Err((ParseError::UnexpectedEof, st.warnings))
    } else {
        let t = toks[st.pos];
        if t.kind == kind {
            Ok(adv(st))
        } else {
            Err(
                (
                    ParseError::ExpectedKind { expected: kind, got: t.kind, context: ctx, line: t.line },
                    st.warnings,
                ),
            )
        }
    }
}

pub open spec fn is_scope_keyword(v: Seq<char>) -> bool {
    v == "line"@ || v == "local"@ || v == "game"@ || v == "save"@
}

/// The scope named by the prefix of a backquoted name.
pub open spec fn explicit_scope(prefix: Seq<char>) -> Option<Seq<char>> {
    if prefix == "ln"@ {
        Some("line"@)
    } else if prefix == "l"@ {
        Some("local"@)
    } else if prefix == "g"@ {
        Some("game"@)
    } else if prefix == "s"@ {
        Some("save"@)
    } else {
        None
    }
}

/// The text parsing named by the prefix of a string.
pub open spec fn text_parsing(prefix: Seq<char>) -> Option<Seq<char>> {
    if prefix == "p"@ {
        Some("plain"@)
    } else if prefix == "l"@ {
        Some("legacy"@)
    } else if prefix == "m"@ {
        Some("minimessage"@)
    } else if prefix == "j"@ {
        Some("json"@)
    } else {
        None
    }
}

/// The index of the named argument called `name` at or after `i`, or -1.
pub open spec fn kw_index(kws: Seq<(Seq<char>, SpecExpressionBox)>, name: Seq<char>, i: int) -> int
    decreases kws.len() - i,
{
    if i < 0 || i >= kws.len() {
        -1
    } else if kws[i].0 == name {
        i
    } else {
        kw_index(kws, name, i + 1)
    }
}

/// Named arguments after giving `name` the value `val`: it replaces the value
/// of an argument of that name, or comes last.
pub open spec fn kw_insert(
    kws: Seq<(Seq<char>, SpecExpressionBox)>,
    name: Seq<char>,
    val: SpecExpressionBox,
) -> Seq<(Seq<char>, SpecExpressionBox)> {
    let i = kw_index(kws, name, 0);
    if i >= 0 {
        kws.update(i, (name, val))
    } else {
        kws.push((name, val))
    }
}

pub open spec fn ebox(content: SpecExpression, line: u32) -> SpecExpressionBox {
    SpecExpressionBox { content, line }
}

pub open spec fn sbox(content: SpecStatement, line: u32) -> SpecStatementBox {
    SpecStatementBox { content, line }
}

// In the functions below, a branch that checks that a nested read moved
// forward (`st.pos < st2.pos <= toks.len()`) only ensures that the definition
// terminates: every read consumes at least one token, so its other arm is never
// taken (the parser's functions ensure that they move forward).

/// A statement.
pub open spec fn spec_stmt(toks: Seq<Token>, st: PState) -> PRes<SpecStatementBox>
    decreases toks.len() - st.pos, 3int,
{
    if st.pos >= toks.len() {
        eof(st)
    } else {
        let st1 = if toks[st.pos].value@ == "_WARNTEST"@ {
            PState { pos: st.pos + 1, warnings: st.warnings.push(toks[st.pos].line) }
        } else {
            st
        };
        if st1.pos >= toks.len() {
            eof(st1)
        } else {
            let v = toks[st1.pos].value@;
            if v == "function"@ {
                spec_function_def(toks, adv(st1), true)
            } else if v == "process"@ {
                spec_function_def(toks, adv(st1), false)
            } else if v == "event"@ {
                spec_event_def(toks, adv(st1))
            } else if is_scope_keyword(v) || v == "var"@ {
                spec_variable_def(toks, st1)
            } else {
                match spec_expr(toks, st1) {
                    Err(x) => Err(x),
                    Ok((e, st2)) => {
                        if !(st1.pos < st2.pos <= toks.len()) {
                            eof(st2)
                        } else {
                            match e.content {
                                SpecExpression::Identifier(name) if value_at(toks, st2, "="@) => {
                                    spec_variable_set(toks, st2, name, e.line)
                                },
                                SpecExpression::Condition { .. } => Ok(
                                    (sbox(SpecStatement::ExpressionStatement(e), e.line), st2),
                                ),
                                _ => match spec_expect_value(toks, st2, ";", Context::StatementEnd) {
                                    Err(x) => Err(x),
                                    Ok(st3) => Ok(
                                        (sbox(SpecStatement::ExpressionStatement(e), e.line), st3),
                                    ),
                                },
                            }
                        }
                    },
                }
            }
        }
    }
}

/// `line|local|game|save|var name [= value];`, where `var` declares a variable
/// of the default scope.
pub open spec fn spec_variable_def(toks: Seq<Token>, st: PState) -> PRes<SpecStatementBox>
    decreases toks.len() - st.pos, 2int,
{
    if st.pos >= toks.len() {
        eof(st)
    } else {
        let scoped: PRes<Seq<char>> = if is_scope_keyword(toks[st.pos].value@) {
            match spec_expect_kind(toks, st, TokenType::Identifier, Context::VariableDeclaration) {
                Err(x) => Err(x),
                Ok(st1) => Ok((toks[st.pos].value@, st1)),
            }
        } else {
            Ok(("default"@, adv(st)))
        };
        match scoped {
            Err(x) => Err(x),
            Ok((scope, st1)) => {
                if st1.pos >= toks.len() {
                    eof(st1)
                } else {
                    let nt = toks[st1.pos];
                    let st2 = adv(st1);
                    if !(nt.kind == TokenType::Identifier || nt.kind == TokenType::FString) {
                        fail(ParseError::ExpectedVariableName { got: nt.kind, line: nt.line }, st2)
                    } else if st2.pos >= toks.len() {
                        eof(st2)
                    } else if toks[st2.pos].value@ == "="@ {
                        match spec_expr(toks, adv(st2)) {
                            Err(x) => Err(x),
                            Ok((val, st3)) => match spec_expect_value(
                                toks,
                                st3,
                                ";",
                                Context::StatementEnd,
                            ) {
                                Err(x) => Err(x),
                                Ok(st4) => Ok(
                                    (
                                        sbox(
                                            SpecStatement::VariableDefinition {
                                                scope,
                                                name: nt.value@,
                                                value: Some(val),
                                            },
                                            nt.line,
                                        ),
                                        st4,
                                    ),
                                ),
                            },
                        }
                    } else {
                        match spec_expect_value(toks, st2, ";", Context::StatementEnd) {
                            Err(x) => Err(x),
                            Ok(st3) => Ok(
                                (
                                    sbox(
                                        SpecStatement::VariableDefinition {
                                            scope,
                                            name: nt.value@,
                                            value: None,
                                        },
                                        nt.line,
                                    ),
                                    st3,
                                ),
                            ),
                        }
                    }
                }
            },
        }
    }
}

/// `= value;` after the name `name` read on line `line`.
pub open spec fn spec_variable_set(toks: Seq<Token>, st: PState, name: Seq<char>, line: u32) -> PRes<
    SpecStatementBox,
>
    decreases toks.len() - st.pos, 0int,
{
    match spec_expect_value(toks, st, "=", Context::VariableSet) {
        Err(x) => Err(x),
        Ok(st1) => match spec_expr(toks, st1) {
            Err(x) => Err(x),
            Ok((val, st2)) => match spec_expect_value(toks, st2, ";", Context::StatementEnd) {
                Err(x) => Err(x),
                Ok(st3) => Ok((sbox(SpecStatement::VariableSet { name, value: val }, line), st3)),
            },
        },
    }
}

/// The parameter list after `(`, with the names `acc` read so far.
///
/// Names are separated by `,`; the list ends at `)`.
pub open spec fn spec_params(toks: Seq<Token>, st: PState, acc: Seq<Seq<char>>) -> PRes<Seq<Seq<char>>>
    decreases toks.len() - st.pos,
{
    if st.pos >= toks.len() {
        eof(st)
    } else if toks[st.pos].value@ == ")"@ {
        match spec_expect_value(toks, st, ")", Context::FunctionParameters) {
            Err(x) => Err(x),
            Ok(st1) => Ok((acc, st1)),
        }
    } else {
        match spec_expect_kind(toks, st, TokenType::Identifier, Context::FunctionParameters) {
            Err(x) => Err(x),
            Ok(st1) => {
                let acc2 = acc.push(toks[st.pos].value@);
                if st1.pos >= toks.len() {
                    eof(st1)
                } else if toks[st1.pos].value@ == ":"@ {
                    fail(ParseError::ParameterTypes { line: toks[st1.pos].line }, st1)
                } else if toks[st1.pos].value@ != ","@ {
                    match spec_expect_value(toks, st1, ")", Context::FunctionParameters) {
                        Err(x) => Err(x),
                        Ok(st2) => Ok((acc2, st2)),
                    }
                } else {
                    spec_params(toks, adv(st1), acc2)
                }
            },
        }
    }
}

/// `name(params) { body }` after `function` (when `func`) or `process`.
pub open spec fn spec_function_def(toks: Seq<Token>, st: PState, func: bool) -> PRes<SpecStatementBox>
    decreases toks.len() - st.pos, 1int,
{
    match spec_expect_kind(toks, st, TokenType::Identifier, Context::FunctionDeclaration) {
        Err(x) => Err(x),
        Ok(st1) => match spec_expect_value(toks, st1, "(", Context::FunctionDeclaration) {
            Err(x) => Err(x),
            Ok(st2) => spec_function_rest(toks, st, func, spec_params(toks, st2, seq![])),
        },
    }
}

/// The rest of a function definition that started at `st`, once its
/// parameter list was read (with the result `params`).
pub open spec fn spec_function_rest(
    toks: Seq<Token>,
    st: PState,
    func: bool,
    params: PRes<Seq<Seq<char>>>,
) -> PRes<SpecStatementBox>
    decreases toks.len() - st.pos, 0int,
{
    let name = toks[st.pos].value@;
    let line = toks[st.pos].line;
    match params {
        Err(x) => Err(x),
        Ok((params, st3)) => {
            if !(st.pos < st3.pos <= toks.len()) {
                eof(st3)
            } else {
                match spec_body(toks, st3) {
                    Err(x) => Err(x),
                    Ok((body, st4)) => {
                        let content = if func {
                            SpecStatement::FunctionDefinition { name, params, body }
                        } else {
                            SpecStatement::ProcessDefinition { name, params, body }
                        };
                        Ok((sbox(content, line), st4))
                    },
                }
            }
        },
    }
}

/// `<name> { body }` after `event`.
pub open spec fn spec_event_def(toks: Seq<Token>, st: PState) -> PRes<SpecStatementBox>
    decreases toks.len() - st.pos, 0int,
{
    match spec_expect_value(toks, st, "<", Context::EventDefinition) {
        Err(x) => Err(x),
        Ok(st1) => match spec_expect_kind(toks, st1, TokenType::Identifier, Context::EventDefinition) {
            Err(x) => Err(x),
            Ok(st2) => {
                let name = toks[st1.pos].value@;
                let line = toks[st1.pos].line;
                match spec_expect_value(toks, st2, ">", Context::EventDefinition) {
                    Err(x) => Err(x),
                    Ok(st3) => match spec_body(toks, st3) {
                        Err(x) => Err(x),
                        Ok((body, st4)) => Ok(
                            (sbox(SpecStatement::EventDefinition { event: name, body }, line), st4),
                        ),
                    },
                }
            },
        },
    }
}

/// `{ statements }`
pub open spec fn spec_body(toks: Seq<Token>, st: PState) -> PRes<Seq<SpecStatementBox>>
    decreases toks.len() - st.pos, 0int,
{
    match spec_expect_value(toks, st, "{", Context::Body) {
        Err(x) => Err(x),
        Ok(st1) => close_body(toks, spec_body_stmts(toks, st1, seq![])),
    }
}

/// The closing `}` after the statements `stmts` of a body.
pub open spec fn close_body(toks: Seq<Token>, stmts: PRes<Seq<SpecStatementBox>>) -> PRes<
    Seq<SpecStatementBox>,
> {
    match stmts {
        Err(x) => Err(x),
        Ok((stmts, st2)) => match spec_expect_value(toks, st2, "}", Context::Body) {
            Err(x) => Err(x),
            Ok(st3) => Ok((stmts, st3)),
        },
    }
}

/// Statements up to a `}`, after the statements `acc`.
pub open spec fn spec_body_stmts(toks: Seq<Token>, st: PState, acc: Seq<SpecStatementBox>) -> PRes<
    Seq<SpecStatementBox>,
>
    decreases toks.len() - st.pos, 4int,
{
    if st.pos >= toks.len() {
        eof(st)
    } else if toks[st.pos].value@ == "}"@ {
        Ok((acc, st))
    } else {
        match spec_stmt(toks, st) {
            Err(x) => Err(x),
            Ok((s, st2)) => {
                if !(st.pos < st2.pos <= toks.len()) {
                    eof(st2)
                } else {
                    spec_body_stmts(toks, st2, acc.push(s))
                }
            },
        }
    }
}

/// An expression.
pub open spec fn spec_expr(toks: Seq<Token>, st: PState) -> PRes<SpecExpressionBox>
    decreases toks.len() - st.pos, 1int,
{
    if st.pos >= toks.len() {
        eof(st)
    } else {
        let t = toks[st.pos];
        let line = t.line;
        let st1 = adv(st);
        match t.kind {
            TokenType::Identifier => {
                let name = t.value@;
                if st1.pos >= toks.len() {
                    eof(st1)
                } else {
                    let t1 = toks[st1.pos];
                    if t1.value@ == "::"@ {
                        let st2 = adv(st1);
                        match spec_expect_kind(toks, st2, TokenType::Identifier, Context::MethodCall) {
                            Err(x) => Err(x),
                            Ok(st3) => {
                                let method = toks[st2.pos].value@;
                                if name == "value"@ && !value_at(toks, st3, "("@) && !value_at(toks, st3, "!"@) {
                                    Ok((ebox(SpecExpression::GameValue(method), line), st3))
                                } else {
                                let inverted = value_at(toks, st3, "!"@);
                                let st3b = if inverted { adv(st3) } else { st3 };
                                match spec_mixed_args(toks, st3b) {
                                    Err(x) => Err(x),
                                    Ok((args, st4)) => {
                                        if inverted || value_at(toks, st4, "{"@) {
                                            if !(st.pos < st4.pos <= toks.len()) {
                                                eof(st4)
                                            } else {
                                                match spec_body(toks, st4) {
                                                    Err(x) => Err(x),
                                                    Ok((body, st5)) => Ok(
                                                        (
                                                            ebox(
                                                                SpecExpression::Condition {
                                                                    object: name,
                                                                    method,
                                                                    inverted,
                                                                    args,
                                                                    body,
                                                                },
                                                                line,
                                                            ),
                                                            st5,
                                                        ),
                                                    ),
                                                }
                                            }
                                        } else {
                                            Ok(
                                                (
                                                    ebox(
                                                        SpecExpression::MethodCall { object: name, method, args },
                                                        line,
                                                    ),
                                                    st4,
                                                ),
                                            )
                                        }
                                    },
                                }
                                }
                            },
                        }
                    } else if t1.value@ == "("@ {
                        match spec_pos_args(toks, st1) {
                            Err(x) => Err(x),
                            Ok((args, st2)) => Ok(
                                (ebox(SpecExpression::FunctionCall { name, args }, line), st2),
                            ),
                        }
                    } else if t1.kind == TokenType::FString {
                        match explicit_scope(name) {
                            None => fail(ParseError::UnknownVariableScope { line }, st1),
                            Some(scope) => Ok(
                                (
                                    ebox(
                                        SpecExpression::ExplicitVariable { scope, name: t1.value@ },
                                        line,
                                    ),
                                    adv(st1),
                                ),
                            ),
                        }
                    } else if t1.kind == TokenType::String {
                        match text_parsing(name) {
                            None => fail(ParseError::UnknownTextParsing { line }, st1),
                            Some(parsing) => Ok(
                                (
                                    ebox(
                                        SpecExpression::StringLiteral { parsing, text: t1.value@ },
                                        line,
                                    ),
                                    adv(st1),
                                ),
                            ),
                        }
                    } else {
                        Ok((ebox(SpecExpression::Identifier(name), line), st1))
                    }
                }
            },
            TokenType::Number => Ok((ebox(SpecExpression::NumberLiteral(t.value@), line), st1)),
            TokenType::String => Ok(
                (
                    ebox(SpecExpression::StringLiteral { parsing: "legacy"@, text: t.value@ }, line),
                    st1,
                ),
            ),
            TokenType::FString => Ok((ebox(SpecExpression::Identifier(t.value@), line), st1)),
            TokenType::Symbol => {
                if t.value@ == "["@ {
                    match spec_expect_value(toks, st, "[", Context::ArrayLiteral) {
                        Err(x) => Err(x),
                        Ok(st2) => close_array(toks, line, spec_array_items(toks, st2, seq![])),
                    }
                } else if t.value@ == "("@ {
                    match spec_expect_value(toks, st, "(", Context::Handler) {
                        Err(x) => Err(x),
                        Ok(st2) => match spec_expect_value(toks, st2, ")", Context::Handler) {
                            Err(x) => Err(x),
                            Ok(st3) => match spec_expect_value(toks, st3, "=>", Context::Handler) {
                                Err(x) => Err(x),
                                Ok(st4) => match spec_body(toks, st4) {
                                    Err(x) => Err(x),
                                    Ok((body, st5)) => Ok(
                                        (ebox(SpecExpression::Handler(body), line), st5),
                                    ),
                                },
                            },
                        },
                    }
                } else {
                    fail(ParseError::UnexpectedToken { value: t.value, line: t.line }, st)
                }
            },
        }
    }
}

/// The closing `]` after the items `items` of an array literal on line `line`.
pub open spec fn close_array(toks: Seq<Token>, line: u32, items: PRes<Seq<SpecExpressionBox>>) -> PRes<
    SpecExpressionBox,
> {
    match items {
        Err(x) => Err(x),
        Ok((items, st3)) => match spec_expect_value(toks, st3, "]", Context::ArrayLiteral) {
            Err(x) => Err(x),
            Ok(st4) => Ok((ebox(SpecExpression::ArrayLiteral(items), line), st4)),
        },
    }
}

/// Array items up to a `]`, after the items `acc`.
pub open spec fn spec_array_items(toks: Seq<Token>, st: PState, acc: Seq<SpecExpressionBox>) -> PRes<
    Seq<SpecExpressionBox>,
>
    decreases toks.len() - st.pos, 2int,
{
    if st.pos >= toks.len() {
        eof(st)
    } else if toks[st.pos].value@ == "]"@ {
        Ok((acc, st))
    } else {
        match spec_expr(toks, st) {
            Err(x) => Err(x),
            Ok((e, st2)) => {
                if !(st.pos < st2.pos <= toks.len()) {
                    eof(st2)
                } else if st2.pos >= toks.len() {
                    eof(st2)
                } else if toks[st2.pos].value@ == ","@ {
                    spec_array_items(toks, adv(st2), acc.push(e))
                } else {
                    Ok((acc.push(e), st2))
                }
            },
        }
    }
}

/// `(a, b, ...)` after a function name.
pub open spec fn spec_pos_args(toks: Seq<Token>, st: PState) -> PRes<Seq<SpecExpressionBox>>
    decreases toks.len() - st.pos, 0int,
{
    match spec_expect_value(toks, st, "(", Context::ArgumentList) {
        Err(x) => Err(x),
        Ok(st1) => spec_pos_items(toks, st1, seq![]),
    }
}

/// Positional arguments up to and with the closing `)`, after the arguments `acc`.
pub open spec fn spec_pos_items(toks: Seq<Token>, st: PState, acc: Seq<SpecExpressionBox>) -> PRes<
    Seq<SpecExpressionBox>,
>
    decreases toks.len() - st.pos, 2int,
{
    if st.pos >= toks.len() {
        eof(st)
    } else if toks[st.pos].value@ == ")"@ {
        match spec_expect_value(toks, st, ")", Context::ArgumentList) {
            Err(x) => Err(x),
            Ok(st1) => Ok((acc, st1)),
        }
    } else {
        match spec_expr(toks, st) {
            Err(x) => Err(x),
            Ok((e, st2)) => {
                if !(st.pos < st2.pos <= toks.len()) {
                    eof(st2)
                } else if st2.pos >= toks.len() {
                    eof(st2)
                } else if toks[st2.pos].value@ == ","@ {
                    spec_pos_items(toks, adv(st2), acc.push(e))
                } else {
                    match spec_expect_value(toks, st2, ")", Context::ArgumentList) {
                        Err(x) => Err(x),
                        Ok(st3) => Ok((acc.push(e), st3)),
                    }
                }
            },
        }
    }
}

/// The positional part of an action's argument list, after the arguments
/// `acc`: it ends at a `)` (read), at a `(` (left for a handler), or at an
/// identifier followed by `=`, whose name is returned as that of the first
/// named argument.
pub open spec fn spec_mixed_pos(toks: Seq<Token>, st: PState, acc: Seq<SpecExpressionBox>) -> PRes<
    (Seq<SpecExpressionBox>, Option<Seq<char>>),
>
    decreases toks.len() - st.pos, 2int,
{
    if st.pos >= toks.len() {
        eof(st)
    } else if toks[st.pos].value@ == ")"@ {
        match spec_expect_value(toks, st, ")", Context::ArgumentList) {
            Err(x) => Err(x),
            Ok(st1) => Ok(((acc, None), st1)),
        }
    } else if toks[st.pos].value@ == "("@ {
        Ok(((acc, None), st))
    } else {
        match spec_expr(toks, st) {
            Err(x) => Err(x),
            Ok((e, st2)) => {
                if !(st.pos < st2.pos <= toks.len()) {
                    eof(st2)
                } else if st2.pos >= toks.len() {
                    eof(st2)
                } else if toks[st2.pos].value@ == "="@ {
                    match e.content {
                        SpecExpression::Identifier(name) => Ok(((acc, Some(name)), st2)),
                        _ => fail(ParseError::KwargNotIdentifier { line: e.line }, st2),
                    }
                } else if toks[st2.pos].value@ == ","@ {
                    spec_mixed_pos(toks, adv(st2), acc.push(e))
                } else {
                    match spec_expect_value(toks, st2, ")", Context::ArgumentList) {
                        Err(x) => Err(x),
                        Ok(st3) => Ok(((acc.push(e), None), st3)),
                    }
                }
            },
        }
    }
}

/// Named arguments after the first one, added to `kws`: each round reads a
/// `,` and `name = value`, and the list ends at a `(` (left for a handler) or a `)` (read).
pub open spec fn spec_kw_loop(
    toks: Seq<Token>,
    st: PState,
    kws: Seq<(Seq<char>, SpecExpressionBox)>,
) -> PRes<Seq<(Seq<char>, SpecExpressionBox)>>
    decreases toks.len() - st.pos, 0int,
{
    if st.pos >= toks.len() {
        eof(st)
    } else if toks[st.pos].value@ == ","@ {
        let st1 = adv(st);
        match spec_expect_kind(toks, st1, TokenType::Identifier, Context::Kwarg) {
            Err(x) => Err(x),
            Ok(st2) => {
                let name = toks[st1.pos].value@;
                match spec_expect_value(toks, st2, "=", Context::Kwarg) {
                    Err(x) => Err(x),
                    Ok(st3) => match spec_expr(toks, st3) {
                        Err(x) => Err(x),
                        Ok((val, st4)) => {
                            if !(st.pos < st4.pos <= toks.len()) {
                                eof(st4)
                            } else {
                                spec_kw_loop(toks, st4, kw_insert(kws, name, val))
                            }
                        },
                    },
                }
            },
        }
    } else if toks[st.pos].value@ == "("@ {
        Ok((kws, st))
    } else {
        match spec_expect_value(toks, st, ")", Context::ArgumentList) {
            Err(x) => Err(x),
            Ok(st1) => Ok((kws, st1)),
        }
    }
}

/// An action's argument list: `(positional, name = value, ...)`, where a
/// handler expression may stand in place of the closing `)` and is then
/// followed by it.
pub open spec fn spec_mixed_args(toks: Seq<Token>, st: PState) -> PRes<SpecArgumentList>
    decreases toks.len() - st.pos, 2int,
{
    match spec_expect_value(toks, st, "(", Context::ArgumentList) {
        Err(x) => Err(x),
        Ok(st1) => spec_mixed_named(toks, st, spec_mixed_pos(toks, st1, seq![])),
    }
}

/// The named arguments of an argument list that started at `st`, once its
/// positional part was read (with the result `pos`).
pub open spec fn spec_mixed_named(
    toks: Seq<Token>,
    st: PState,
    pos: PRes<(Seq<SpecExpressionBox>, Option<Seq<char>>)>,
) -> PRes<SpecArgumentList>
    decreases toks.len() - st.pos, 1int,
{
    match pos {
        Err(x) => Err(x),
        Ok(((posargs, first), st2)) => {
            if !(st.pos < st2.pos <= toks.len()) {
                eof(st2)
            } else {
                match first {
                    None => spec_mixed_handler(toks, st, posargs, Ok((seq![], st2))),
                    Some(name) => match spec_expect_value(toks, st2, "=", Context::Kwarg) {
                        Err(x) => Err(x),
                        Ok(st3) => match spec_expr(toks, st3) {
                            Err(x) => Err(x),
                            Ok((val, st4)) => {
                                if !(st.pos < st4.pos <= toks.len()) {
                                    eof(st4)
                                } else {
                                    spec_mixed_handler(
                                        toks,
                                        st,
                                        posargs,
                                        spec_kw_loop(toks, st4, kw_insert(seq![], name, val)),
                                    )
                                }
                            },
                        },
                    },
                }
            }
        },
    }
}

/// The optional handler that ends an argument list that started at `st`, once
/// its positional arguments `posargs` and its named ones (the result `kw`) were read.
pub open spec fn spec_mixed_handler(
    toks: Seq<Token>,
    st: PState,
    posargs: Seq<SpecExpressionBox>,
    kw: PRes<Seq<(Seq<char>, SpecExpressionBox)>>,
) -> PRes<SpecArgumentList>
    decreases toks.len() - st.pos, 0int,
{
    match kw {
        Err(x) => Err(x),
        Ok((kwargs, st5)) => {
            if !(st.pos < st5.pos <= toks.len()) {
                eof(st5)
            } else if st5.pos >= toks.len() {
                eof(st5)
            } else if toks[st5.pos].value@ == "("@ {
                match spec_expr(toks, st5) {
                    Err(x) => Err(x),
                    Ok((h, st6)) => match spec_expect_value(toks, st6, ")", Context::ArgumentList) {
                        Err(x) => Err(x),
                        Ok(st7) => Ok(
                            (SpecArgumentList { posargs, kwargs, handler: Some(Box::new(h)) }, st7),
                        ),
                    },
                }
            } else {
                Ok((SpecArgumentList { posargs, kwargs, handler: None }, st5))
            }
        },
    }
}

/// Statements up to the end of the tokens, after the statements `acc`.
pub open spec fn spec_program_from(toks: Seq<Token>, st: PState, acc: Seq<SpecStatementBox>) -> PRes<
    Seq<SpecStatementBox>,
>
    decreases toks.len() - st.pos,
{
    if st.pos >= toks.len() {
        Ok((acc, st))
    } else {
        match spec_stmt(toks, st) {
            Err(x) => Err(x),
            Ok((s, st2)) => {
                if !(st.pos < st2.pos <= toks.len()) {
                    eof(st2)
                } else {
                    spec_program_from(toks, st2, acc.push(s))
                }
            },
        }
    }
}

/// A whole program: statements until the tokens end.
pub open spec fn spec_program(toks: Seq<Token>) -> PRes<Seq<SpecStatementBox>> {
    spec_program_from(toks, PState { pos: 0, warnings: seq![] }, seq![])
}

// ---------------------------------------------------------------------------
// The parser.

/// `r` is what `s` says: the same value and state, or the same error and warnings.
pub open spec fn agrees<T: View>(r: Result<T, ParseError>, st: PState, s: PRes<T::V>) -> bool {
    match s {
        Ok((v, st2)) => r matches Ok(x) && x@ == v && st == st2,
        Err((e, w)) => r matches Err(e2) && e2 == e && st.warnings == w,
    }
}

/// `agrees` for a sequence of statements.
pub open spec fn agrees_stmts(r: Result<Vec<StatementBox>, ParseError>, st: PState, s: PRes<Seq<SpecStatementBox>>) -> bool {
    match s {
        Ok((v, st2)) => r matches Ok(x) && sboxes_view(x@) == v && st == st2,
        Err((e, w)) => r matches Err(e2) && e2 == e && st.warnings == w,
    }
}

/// `agrees` for a sequence of expressions.
pub open spec fn agrees_exprs(r: Result<Vec<ExpressionBox>, ParseError>, st: PState, s: PRes<Seq<SpecExpressionBox>>) -> bool {
    match s {
        Ok((v, st2)) => r matches Ok(x) && eboxes_view(x@) == v && st == st2,
        Err((e, w)) => r matches Err(e2) && e2 == e && st.warnings == w,
    }
}

/// `agrees` for a single expected token.
pub open spec fn agrees_step<T>(r: Result<T, ParseError>, st: PState, s: Step) -> bool {
    match s {
        Ok(st2) => r is Ok && st == st2,
        Err((e, w)) => r matches Err(e2) && e2 == e && st.warnings == w,
    }
}

/// A word that starts a declaration: a scope, or `var` for the default scope.
fn declaration_keyword(v: &str) -> (r: bool)
    ensures
        r == (is_scope_keyword(v@) || v@ == "var"@),
{
    scope_keyword(v) || str_eq(v, "var")
}

fn scope_keyword(v: &str) -> (r: bool)
    ensures
        r == is_scope_keyword(v@),
{
    str_eq(v, "line") || str_eq(v, "local") || str_eq(v, "game") || str_eq(v, "save")
}

fn explicit_scope_exec(prefix: &str) -> (r: Option<String>)
    ensures
        match explicit_scope(prefix@) {
            Some(v) => r matches Some(x) && x@ == v,
            None => r is None,
        },
{
    if str_eq(prefix, "ln") {
        Some(String::from_str("line"))
    } else if str_eq(prefix, "l") {
        Some(String::from_str("local"))
    } else if str_eq(prefix, "g") {
        Some(String::from_str("game"))
    } else if str_eq(prefix, "s") {
        Some(String::from_str("save"))
    } else {
        None
    }
}

fn text_parsing_exec(prefix: &str) -> (r: Option<String>)
    ensures
        match text_parsing(prefix@) {
            Some(v) => r matches Some(x) && x@ == v,
            None => r is None,
        },
{
    if str_eq(prefix, "p") {
        Some(String::from_str("plain"))
    } else if str_eq(prefix, "l") {
        Some(String::from_str("legacy"))
    } else if str_eq(prefix, "m") {
        Some(String::from_str("minimessage"))
    } else if str_eq(prefix, "j") {
        Some(String::from_str("json"))
    } else {
        None
    }
}

/// Gives `name` the value `value` among the named arguments.
fn kw_insert_exec(kwargs: &mut Vec<(String, ExpressionBox)>, name: String, value: ExpressionBox)
    ensures
        kwargs_view(final(kwargs)@) == kw_insert(kwargs_view(old(kwargs)@), name@, value@),
{
    let ghost kv = kwargs_view(kwargs@);
    let mut i: usize = 0;
    while i < kwargs.len()
        invariant
            kv == kwargs_view(kwargs@),
            kwargs@ == old(kwargs)@,
            0 <= i <= kwargs@.len(),
            kw_index(kv, name@, i as int) == kw_index(kv, name@, 0),
        decreases kwargs@.len() - i,
    {
        if str_eq(kwargs[i].0.as_str(), name.as_str()) {
            assert(kw_index(kv, name@, i as int) == i);
            let ghost old_k = kwargs@;
            let ghost pair = (name, value);
            proof {
                lemma_kwargs_update(old_k, i as int, pair);
            }
            kwargs[i] = (name, value);
            return;
        }
        i += 1;
    }
    proof {
        lemma_kwargs_push(kwargs@, (name, value));
    }
    kwargs.push((name, value));
}

/// A parser over the tokens of one source file.
pub struct Parser<'a> {
    tokens: Vec<Token>,
    pos: usize,
    source: &'a String,
    file: &'a String,
    warnings: Vec<u32>,
}

impl<'a> Parser<'a> {
    /// The tokens being parsed.
    pub closed spec fn toks(&self) -> Seq<Token> {
        self.tokens@
    }

    /// Where the parser stands and the warnings it met.
    pub closed spec fn st(&self) -> PState {
        PState { pos: self.pos as int, warnings: self.warnings@ }
    }

    pub closed spec fn wf(&self) -> bool {
        self.pos <= self.tokens@.len()
    }

    /// A parser that stands before the first token and has met no warning.
    pub fn new(tokens: Vec<Token>, source: &'a String, file: &'a String) -> (p: Self)
        ensures
            p.wf(),
            p.toks() == tokens@,
            p.st() == (PState { pos: 0, warnings: seq![] }),
            p.source() == source,
            p.file() == file,
    {
        Parser { tokens, pos: 0, source, file, warnings: Vec::new() }
    }

    pub closed spec fn source(&self) -> &'a String {
        self.source
    }

    pub closed spec fn file(&self) -> &'a String {
        self.file
    }

    /// The source text the tokens come from.
    pub fn source_text(&self) -> (r: &'a String)
        ensures
            r == self.source(),
    {
        self.source
    }

    /// The name of the file the tokens come from.
    pub fn file_name(&self) -> (r: &'a String)
        ensures
            r == self.file(),
    {
        self.file
    }

    /// The lines of the `_WARNTEST` markers met so far; each stands for the
    /// warning "warning test".
    pub fn warnings(&self) -> (r: &Vec<u32>)
        ensures
            r@ == self.st().warnings,
    {
        &self.warnings
    }

    fn peek(&self) -> (r: Result<&Token, ParseError>)
        ensures
            match r {
                Ok(t) => self.st().pos < self.toks().len() && *t == self.toks()[self.st().pos],
                Err(e) => self.st().pos >= self.toks().len() && e == ParseError::UnexpectedEof,
            },
    {
        if self.pos < self.tokens.len() {
            Ok(&self.tokens[self.pos])
        } else {
            Err(ParseError::UnexpectedEof)
        }
    }

    fn peekv(&self) -> (r: Result<&str, ParseError>)
        ensures
            match r {
                Ok(v) => self.st().pos < self.toks().len() && v@ == self.toks()[self.st().pos].value@,
                Err(e) => self.st().pos >= self.toks().len() && e == ParseError::UnexpectedEof,
            },
    {
        Ok(self.peek()?.value.as_str())
    }

    /// Whether the next token's text is `v`.
    fn peek_is(&self, v: &str) -> (r: Result<bool, ParseError>)
        ensures
            match r {
                Ok(b) => self.st().pos < self.toks().len() && b == (self.toks()[self.st().pos].value@
                    == v@),
                Err(e) => self.st().pos >= self.toks().len() && e == ParseError::UnexpectedEof,
            },
    {
        Ok(str_eq(self.peekv()?, v))
    }

    fn previous(&self) -> (r: &Token)
        requires
            1 <= self.st().pos <= self.toks().len(),
        ensures
            *r == self.toks()[self.st().pos - 1],
    {
        &self.tokens[self.pos - 1]
    }

    fn consume(&mut self) -> (r: Result<&Token, ParseError>)
        requires
            old(self).wf(),
        ensures
            final(self).wf(),
            final(self).toks() == old(self).toks(),
            final(self).source() == old(self).source(),
            final(self).file() == old(self).file(),
            final(self).st().warnings == old(self).st().warnings,
            match r {
                Ok(t) => old(self).st().pos < old(self).toks().len() && *t == old(self).toks()[old(
                    self,
                ).st().pos] && final(self).st().pos == old(self).st().pos + 1,
                Err(e) => old(self).st().pos >= old(self).toks().len() && e == ParseError::UnexpectedEof
                    && final(self).st().pos == old(self).st().pos,
            },
    {
        if self.pos < self.tokens.len() {
            self.pos += 1;
            Ok(self.previous())
        } else {
            Err(ParseError::UnexpectedEof)
        }
    }

    fn expect_kind(&mut self, kind: TokenType, context: Context) -> (r: Result<&Token, ParseError>)
        requires
            old(self).wf(),
        ensures
            final(self).wf(),
            final(self).toks() == old(self).toks(),
            final(self).source() == old(self).source(),
            final(self).file() == old(self).file(),
            agrees_step(r, final(self).st(), spec_expect_kind(old(self).toks(), old(self).st(), kind, context)),
            r matches Ok(t) ==> *t == old(self).toks()[old(self).st().pos],
    {
        let token = self.consume()?;
        if token.kind == kind {
            Ok(self.previous())
        } else {
            Err(ParseError::ExpectedKind { expected: kind, got: token.kind, context, line: token.line })
        }
    }

    fn expect_value(&mut self, value: &'static str, context: Context) -> (r: Result<&Token, ParseError>)
        requires
            old(self).wf(),
        ensures
            final(self).wf(),
            final(self).toks() == old(self).toks(),
            final(self).source() == old(self).source(),
            final(self).file() == old(self).file(),
            agrees_step(r, final(self).st(), spec_expect_value(old(self).toks(), old(self).st(), value, context)),
            r matches Ok(t) ==> *t == old(self).toks()[old(self).st().pos],
    {
        let token = self.consume()?;
        if str_eq(token.value.as_str(), value) && token.kind != TokenType::String {
            Ok(self.previous())
        } else {
            Err(
                ParseError::ExpectedValue {
                    expected: value,
                    got: token.value.clone(),
                    context,
                    line: token.line,
                },
            )
        }
    }

    fn expect_identifier(&mut self, context: Context) -> (r: Result<&Token, ParseError>)
        requires
            old(self).wf(),
        ensures
            final(self).wf(),
            final(self).toks() == old(self).toks(),
            final(self).source() == old(self).source(),
            final(self).file() == old(self).file(),
            agrees_step(
                r,
                final(self).st(),
                spec_expect_kind(old(self).toks(), old(self).st(), TokenType::Identifier, context),
            ),
            r matches Ok(t) ==> *t == old(self).toks()[old(self).st().pos],
    {
        self.expect_kind(TokenType::Identifier, context)
    }
    /// Reads a statement.
    fn parse_stmt(&mut self) -> (r: Result<StatementBox, ParseError>)
        requires
            old(self).wf(),
        ensures
            final(self).wf(),
            final(self).toks() == old(self).toks(),
            final(self).source() == old(self).source(),
            final(self).file() == old(self).file(),
            agrees(r, final(self).st(), spec_stmt(old(self).toks(), old(self).st())),
            r is Ok ==> final(self).st().pos > old(self).st().pos,
        decreases old(self).toks().len() - old(self).st().pos, 3int,
    {
        let ghost toks = self.toks();
        let ghost st = self.st();
        if self.peek_is("_WARNTEST")? {
            let line = self.consume()?.line;
            self.warnings.push(line);
        }
        let ghost st1 = self.st();
        assert(st1.warnings =~= (if toks[st.pos].value@ == "_WARNTEST"@ {
            st.warnings.push(toks[st.pos].line)
        } else {
            st.warnings
        }));
        if self.peek_is("function")? {
            self.consume()?;
            return self.parse_function_def(true);
        } else if self.peek_is("process")? {
            self.consume()?;
            return self.parse_function_def(false);
        } else if self.peek_is("event")? {
            self.consume()?;
            return self.parse_event_def();
        } else if declaration_keyword(self.peekv()?) {
            return self.parse_variable_def();
        }
        let exprbox = self.parse_expr()?;
        let ExpressionBox { content, line } = exprbox;
        let content = match content {
            Expression::Identifier(name) => {
                if self.next_is("=") {
                    return self.parse_variable_set(name, line);
                }
                Expression::Identifier(name)
            },
            other => other,
        };
        let condition = matches!(content, Expression::Condition { .. });
        let exprbox = ExpressionBox { content, line };
        if !condition {
            self.expect_value(";", Context::StatementEnd)?;
        }
        Ok(StatementBox { content: Statement::ExpressionStatement(exprbox), line })
    }

    /// Whether there is a next token and its text is `v`.
    fn next_is(&self, v: &str) -> (r: bool)
        ensures
            r == value_at(self.toks(), self.st(), v@),
    {
        self.pos < self.tokens.len() && str_eq(self.tokens[self.pos].value.as_str(), v)
    }

    ///  `line|local|game|save|var name [= value];`
    fn parse_variable_def(&mut self) -> (r: Result<StatementBox, ParseError>)
        requires
            old(self).wf(),
        ensures
            final(self).wf(),
            final(self).toks() == old(self).toks(),
            final(self).source() == old(self).source(),
            final(self).file() == old(self).file(),
            agrees(r, final(self).st(), spec_variable_def(old(self).toks(), old(self).st())),
            r is Ok ==> final(self).st().pos > old(self).st().pos,
        decreases old(self).toks().len() - old(self).st().pos, 2int,
    {
        let scope = if scope_keyword(self.peekv()?) {
            self.expect_identifier(Context::VariableDeclaration)?.value.clone()
        } else {
            self.consume()?;
            String::from_str("default")
        };
        let nametoken = self.consume()?;
        let line = nametoken.line;
        let kind = nametoken.kind;
        let name = match kind {
            TokenType::Identifier => nametoken.value.clone(),
            TokenType::FString => nametoken.value.clone(),
            _ => return Err(ParseError::ExpectedVariableName { got: kind, line }),
        };
        let value = if self.peek_is("=")? {
            self.consume()?;
            Some(self.parse_expr()?)
        } else {
            None
        };
        self.expect_value(";", Context::StatementEnd)?;
        Ok(StatementBox { content: Statement::VariableDefinition { scope, name, value }, line })
    }

    ///  `= value;` after the variable `name` read on line `line`.
    fn parse_variable_set(&mut self, name: String, line: u32) -> (r: Result<StatementBox, ParseError>)
        requires
            old(self).wf(),
        ensures
            final(self).wf(),
            final(self).toks() == old(self).toks(),
            final(self).source() == old(self).source(),
            final(self).file() == old(self).file(),
            agrees(r, final(self).st(), spec_variable_set(old(self).toks(), old(self).st(), name@, line)),
            r is Ok ==> final(self).st().pos > old(self).st().pos,
        decreases old(self).toks().len() - old(self).st().pos, 0int,
    {
        self.expect_value("=", Context::VariableSet)?;
        let value = self.parse_expr()?;
        self.expect_value(";", Context::StatementEnd)?;
        Ok(StatementBox { content: Statement::VariableSet { name, value }, line })
    }

    ///  `name(params) { body }` after `function` (when `func`) or `process`.
    fn parse_function_def(&mut self, func: bool) -> (r: Result<StatementBox, ParseError>)
        requires
            old(self).wf(),
        ensures
            final(self).wf(),
            final(self).toks() == old(self).toks(),
            final(self).source() == old(self).source(),
            final(self).file() == old(self).file(),
            agrees(r, final(self).st(), spec_function_def(old(self).toks(), old(self).st(), func)),
            r is Ok ==> final(self).st().pos > old(self).st().pos,
        decreases old(self).toks().len() - old(self).st().pos, 0int,
    {
        let ghost toks = self.toks();
        let ghost st = self.st();
        let identifier = self.expect_identifier(Context::FunctionDeclaration)?;
        let name = identifier.value.clone();
        let line = identifier.line;
        self.expect_value("(", Context::FunctionDeclaration)?;
        let ghost st2 = self.st();
        let mut params: Vec<String> = Vec::new();
        assert(strings_view(params@) =~= seq![]);
        assert(spec_function_def(toks, st, func) == spec_function_rest(toks, st, func, spec_params(toks, st2, seq![])));
        loop
            invariant_except_break
            spec_function_def(toks, st, func) == spec_function_rest(toks, st, func, spec_params(toks, st2, seq![])),
                toks == old(self).toks(),
                st == old(self).st(),
                self.wf(),
                self.toks() == toks,
                self.source() == old(self).source(),
                self.file() == old(self).file(),
                st2.pos <= self.st().pos,
                st2.warnings == self.st().warnings,
                spec_params(toks, st2, seq![]) == spec_params(toks, self.st(), strings_view(params@)),
            ensures
            spec_function_def(toks, st, func) == spec_function_rest(toks, st, func, spec_params(toks, st2, seq![])),
                self.wf(),
                self.toks() == toks,
                self.source() == old(self).source(),
                self.file() == old(self).file(),
                st2.pos < self.st().pos,
                spec_params(toks, st2, seq![]) == done(strings_view(params@), self.st()),
            decreases toks.len() - self.st().pos,
        {
            if self.peek_is(")")? {
                self.expect_value(")", Context::FunctionParameters)?;
                break ;
            }
            let param = self.expect_identifier(Context::FunctionParameters)?.value.clone();
            proof {
                lemma_strings_push(params@, param);
            }
            params.push(param);
            if self.peek_is(":")? {
                let line = self.consume()?.line;
                return Err(ParseError::ParameterTypes { line });
            }
            if !self.peek_is(",")? {
                self.expect_value(")", Context::FunctionParameters)?;
                break ;
            }
            self.consume()?;
        }
        let body = self.parse_body()?;
        if func {
            Ok(StatementBox { content: Statement::FunctionDefinition { name, params, body }, line })
        } else {
            Ok(StatementBox { content: Statement::ProcessDefinition { name, params, body }, line })
        }
    }

    ///  `<name> { body }` after `event`.
    fn parse_event_def(&mut self) -> (r: Result<StatementBox, ParseError>)
        requires
            old(self).wf(),
        ensures
            final(self).wf(),
            final(self).toks() == old(self).toks(),
            final(self).source() == old(self).source(),
            final(self).file() == old(self).file(),
            agrees(r, final(self).st(), spec_event_def(old(self).toks(), old(self).st())),
            r is Ok ==> final(self).st().pos > old(self).st().pos,
        decreases old(self).toks().len() - old(self).st().pos, 0int,
    {
        self.expect_value("<", Context::EventDefinition)?;
        let event = self.expect_identifier(Context::EventDefinition)?;
        let name = event.value.clone();
        let line = event.line;
        self.expect_value(">", Context::EventDefinition)?;
        let body = self.parse_body()?;
        Ok(StatementBox { content: Statement::EventDefinition { event: name, body }, line })
    }

    ///  `{ statements }`
    fn parse_body(&mut self) -> (r: Result<Vec<StatementBox>, ParseError>)
        requires
            old(self).wf(),
        ensures
            final(self).wf(),
            final(self).toks() == old(self).toks(),
            final(self).source() == old(self).source(),
            final(self).file() == old(self).file(),
            agrees_stmts(r, final(self).st(), spec_body(old(self).toks(), old(self).st())),
            r is Ok ==> final(self).st().pos > old(self).st().pos,
        decreases old(self).toks().len() - old(self).st().pos, 0int,
    {
        let ghost toks = self.toks();
        let ghost st = self.st();
        self.expect_value("{", Context::Body)?;
        let ghost st1 = self.st();
        let mut stmts: Vec<StatementBox> = Vec::new();
        assert(sboxes_view(stmts@) =~= seq![]);
        assert(spec_body(toks, st) == close_body(toks, spec_body_stmts(toks, st1, seq![])));
        loop
            invariant_except_break
            spec_body(toks, st) == close_body(toks, spec_body_stmts(toks, st1, seq![])),
                toks == old(self).toks(),
                st == old(self).st(),
                self.wf(),
                self.toks() == toks,
                self.source() == old(self).source(),
                self.file() == old(self).file(),
                st.pos < self.st().pos,
                spec_body_stmts(toks, st1, seq![]) == spec_body_stmts(toks, self.st(), sboxes_view(stmts@)),
            ensures
            spec_body(toks, st) == close_body(toks, spec_body_stmts(toks, st1, seq![])),
                self.wf(),
                self.toks() == toks,
                self.source() == old(self).source(),
                self.file() == old(self).file(),
                st.pos < self.st().pos,
                spec_body_stmts(toks, st1, seq![]) == done(sboxes_view(stmts@), self.st()),
            decreases toks.len() - self.st().pos,
        {
            if self.peek_is("}")? {
                break ;
            }
            let stmt = self.parse_stmt()?;
            proof {
                lemma_sboxes_push(stmts@, stmt);
            }
            stmts.push(stmt);
        }
        self.expect_value("}", Context::Body)?;
        Ok(stmts)
    }
    /// Reads an expression.
    fn parse_expr(&mut self) -> (r: Result<ExpressionBox, ParseError>)
        requires
            old(self).wf(),
        ensures
            final(self).wf(),
            final(self).toks() == old(self).toks(),
            final(self).source() == old(self).source(),
            final(self).file() == old(self).file(),
            agrees(r, final(self).st(), spec_expr(old(self).toks(), old(self).st())),
            r is Ok ==> final(self).st().pos > old(self).st().pos,
        decreases old(self).toks().len() - old(self).st().pos, 1int,
    {
        let ghost toks = self.toks();
        let ghost st = self.st();
        let token = self.peek()?;
        let line = token.line;
        let kind = token.kind;
        match kind {
            TokenType::Identifier => {
                let name = self.consume()?.value.clone();
                if self.peek_is("::")? {
                    self.consume()?;
                    let method = self.expect_identifier(Context::MethodCall)?.value.clone();
                    if str_eq(name.as_str(), "value") && !self.next_is("(") && !self.next_is("!") {
                        return Ok(ExpressionBox { content: Expression::GameValue(method), line });
                    }
                    let inverted = self.next_is("!");
                    if inverted {
                        self.consume()?;
                    }
                    let args = self.parse_mixed_argument_list()?;
                    if inverted || self.next_is("{") {
                        let body = self.parse_body()?;
                        Ok(ExpressionBox {
                            content: Expression::Condition { object: name, method, inverted, args, body },
                            line,
                        })
                    } else {
                        Ok(ExpressionBox { content: Expression::MethodCall { object: name, method, args }, line })
                    }
                } else if self.peek_is("(")? {
                    let args = self.parse_pos_argument_list()?;
                    Ok(ExpressionBox { content: Expression::FunctionCall { name, args }, line })
                } else {
                    let next_kind = self.peek()?.kind;
                    if next_kind == TokenType::FString {
                        let scope = match explicit_scope_exec(name.as_str()) {
                            Some(scope) => scope,
                            None => return Err(ParseError::UnknownVariableScope { line }),
                        };
                        let var = self.consume()?.value.clone();
                        Ok(ExpressionBox { content: Expression::ExplicitVariable { scope, name: var }, line })
                    } else if next_kind == TokenType::String {
                        let parsing = match text_parsing_exec(name.as_str()) {
                            Some(parsing) => parsing,
                            None => return Err(ParseError::UnknownTextParsing { line }),
                        };
                        let text = self.consume()?.value.clone();
                        Ok(ExpressionBox { content: Expression::StringLiteral { parsing, text }, line })
                    } else {
                        Ok(ExpressionBox { content: Expression::Identifier(name), line })
                    }
                }
            },
            TokenType::Number => {
                let value = self.consume()?.value.clone();
                Ok(ExpressionBox { content: Expression::NumberLiteral(value), line })
            },
            TokenType::String => {
                let text = self.consume()?.value.clone();
                let parsing = String::from_str("legacy");
                Ok(ExpressionBox { content: Expression::StringLiteral { parsing, text }, line })
            },
            TokenType::FString => {
                let name = self.consume()?.value.clone();
                Ok(ExpressionBox { content: Expression::Identifier(name), line })
            },
            TokenType::Symbol => {
                if self.peek_is("[")? {
                    self.expect_value("[", Context::ArrayLiteral)?;
                    let ghost st1 = self.st();
                    let mut content: Vec<ExpressionBox> = Vec::new();
                    assert(eboxes_view(content@) =~= seq![]);
                    assert(spec_expr(toks, st) == close_array(toks, line, spec_array_items(toks, st1, seq![])));
                    loop
                        invariant_except_break
                        spec_expr(toks, st) == close_array(toks, line, spec_array_items(toks, st1, seq![])),
                            toks == old(self).toks(),
                            st == old(self).st(),
                            self.wf(),
                            self.toks() == toks,
                            self.source() == old(self).source(),
                            self.file() == old(self).file(),
                            st.pos < self.st().pos,
                            spec_array_items(toks, st1, seq![]) == spec_array_items(
                                toks,
                                self.st(),
                                eboxes_view(content@),
                            ),
                        ensures
                        spec_expr(toks, st) == close_array(toks, line, spec_array_items(toks, st1, seq![])),
                            self.wf(),
                            self.toks() == toks,
                            self.source() == old(self).source(),
                            self.file() == old(self).file(),
                            st.pos < self.st().pos,
                            spec_array_items(toks, st1, seq![]) == done(eboxes_view(content@), self.st()),
                        decreases toks.len() - self.st().pos,
                    {
                        if self.peek_is("]")? {
                            break ;
                        }
                        let value = self.parse_expr()?;
                        proof {
                            lemma_eboxes_push(content@, value);
                        }
                        content.push(value);
                        if self.peek_is(",")? {
                            self.consume()?;
                        } else {
                            break ;
                        }
                    }
                    self.expect_value("]", Context::ArrayLiteral)?;
                    Ok(ExpressionBox { content: Expression::ArrayLiteral(content), line })
                } else if self.peek_is("(")? {
                    self.expect_value("(", Context::Handler)?;
                    self.expect_value(")", Context::Handler)?;
                    self.expect_value("=>", Context::Handler)?;
                    let body = self.parse_body()?;
                    Ok(ExpressionBox { content: Expression::Handler(body), line })
                } else {
                    let t = self.peek()?;
                    Err(ParseError::UnexpectedToken { value: t.value.clone(), line: t.line })
                }
            },
        }
    }

    /// `(a, b, ...)` after a function name.
    fn parse_pos_argument_list(&mut self) -> (r: Result<Vec<ExpressionBox>, ParseError>)
        requires
            old(self).wf(),
        ensures
            final(self).wf(),
            final(self).toks() == old(self).toks(),
            final(self).source() == old(self).source(),
            final(self).file() == old(self).file(),
            agrees_exprs(r, final(self).st(), spec_pos_args(old(self).toks(), old(self).st())),
            r is Ok ==> final(self).st().pos > old(self).st().pos,
        decreases old(self).toks().len() - old(self).st().pos, 0int,
    {
        let ghost toks = self.toks();
        let ghost st = self.st();
        self.expect_value("(", Context::ArgumentList)?;
        let ghost st1 = self.st();
        let mut args: Vec<ExpressionBox> = Vec::new();
        assert(eboxes_view(args@) =~= seq![]);
        assert(spec_pos_args(toks, st) == spec_pos_items(toks, st1, seq![]));
        loop
            invariant_except_break
            spec_pos_args(toks, st) == spec_pos_items(toks, st1, seq![]),
                toks == old(self).toks(),
                st == old(self).st(),
                self.wf(),
                self.toks() == toks,
                self.source() == old(self).source(),
                self.file() == old(self).file(),
                st.pos < self.st().pos,
                spec_pos_items(toks, st1, seq![]) == spec_pos_items(toks, self.st(), eboxes_view(args@)),
            ensures
            spec_pos_args(toks, st) == spec_pos_items(toks, st1, seq![]),
                self.wf(),
                self.toks() == toks,
                self.source() == old(self).source(),
                self.file() == old(self).file(),
                st.pos < self.st().pos,
                spec_pos_items(toks, st1, seq![]) == done(eboxes_view(args@), self.st()),
            decreases toks.len() - self.st().pos,
        {
            if self.peek_is(")")? {
                self.expect_value(")", Context::ArgumentList)?;
                break ;
            }
            let value = self.parse_expr()?;
            proof {
                lemma_eboxes_push(args@, value);
            }
            args.push(value);
            if self.peek_is(",")? {
                self.consume()?;
            } else {
                self.expect_value(")", Context::ArgumentList)?;
                break ;
            }
        }
        Ok(args)
    }

    /// An action's argument list: positional arguments, then named ones,
    /// then an optional handler.
    fn parse_mixed_argument_list(&mut self) -> (r: Result<ArgumentList, ParseError>)
        requires
            old(self).wf(),
        ensures
            final(self).wf(),
            final(self).toks() == old(self).toks(),
            final(self).source() == old(self).source(),
            final(self).file() == old(self).file(),
            agrees(r, final(self).st(), spec_mixed_args(old(self).toks(), old(self).st())),
            r is Ok ==> final(self).st().pos > old(self).st().pos,
        decreases old(self).toks().len() - old(self).st().pos, 0int,
    {
        let ghost toks = self.toks();
        let ghost st = self.st();
        self.expect_value("(", Context::ArgumentList)?;
        let ghost st1 = self.st();
        let mut posargs: Vec<ExpressionBox> = Vec::new();
        let mut kwarg_first: Option<String> = None;
        assert(eboxes_view(posargs@) =~= seq![]);
        assert(spec_mixed_args(toks, st) == spec_mixed_named(toks, st, spec_mixed_pos(toks, st1, seq![])));
        loop
            invariant_except_break
            spec_mixed_args(toks, st) == spec_mixed_named(toks, st, spec_mixed_pos(toks, st1, seq![])),
                toks == old(self).toks(),
                st == old(self).st(),
                self.wf(),
                self.toks() == toks,
                self.source() == old(self).source(),
                self.file() == old(self).file(),
                st.pos < self.st().pos,
                kwarg_first is None,
                spec_mixed_pos(toks, st1, seq![]) == spec_mixed_pos(toks, self.st(), eboxes_view(posargs@)),
            ensures
            spec_mixed_args(toks, st) == spec_mixed_named(toks, st, spec_mixed_pos(toks, st1, seq![])),
                self.wf(),
                self.toks() == toks,
                self.source() == old(self).source(),
                self.file() == old(self).file(),
                st.pos < self.st().pos,
                spec_mixed_pos(toks, st1, seq![]) == done(
                    (
                        eboxes_view(posargs@),
                        match kwarg_first {
                            Some(n) => Some(n@),
                            None => None,
                        },
                    ),
                    self.st(),
                ),
            decreases toks.len() - self.st().pos,
        {
            if self.peek_is(")")? {
                self.expect_value(")", Context::ArgumentList)?;
                break ;
            } else if self.peek_is("(")? {
                break ;
            }
            let argument = self.parse_expr()?;
            if self.peek_is("=")? {
                let ExpressionBox { content, line } = argument;
                match content {
                    Expression::Identifier(name) => {
                        kwarg_first = Some(name);
                        break ;
                    },
                    _ => return Err(ParseError::KwargNotIdentifier { line }),
                }
            }
            proof {
                lemma_eboxes_push(posargs@, argument);
            }
            posargs.push(argument);
            if self.peek_is(",")? {
                self.consume()?;
            } else {
                self.expect_value(")", Context::ArgumentList)?;
                break ;
            }
        }
        let ghost st2 = self.st();
        let mut kwargs: Vec<(String, ExpressionBox)> = Vec::new();
        assert(kwargs_view(kwargs@) =~= seq![]);
        match kwarg_first {
            Some(name) => {
                self.expect_value("=", Context::Kwarg)?;
                let value = self.parse_expr()?;
                kw_insert_exec(&mut kwargs, name, value);
                let ghost st4 = self.st();
                let ghost kws1 = kwargs_view(kwargs@);
                assert(spec_mixed_args(toks, st) == spec_mixed_handler(toks, st, eboxes_view(posargs@), spec_kw_loop(toks, st4, kws1)));
                loop
                    invariant_except_break
                    spec_mixed_args(toks, st) == spec_mixed_handler(toks, st, eboxes_view(posargs@), spec_kw_loop(toks, st4, kws1)),
                        toks == old(self).toks(),
                        st == old(self).st(),
                        self.wf(),
                        self.toks() == toks,
                        self.source() == old(self).source(),
                        self.file() == old(self).file(),
                        st.pos < self.st().pos,
                        spec_kw_loop(toks, st4, kws1) == spec_kw_loop(toks, self.st(), kwargs_view(kwargs@)),
                    ensures
                    spec_mixed_args(toks, st) == spec_mixed_handler(toks, st, eboxes_view(posargs@), spec_kw_loop(toks, st4, kws1)),
                        self.wf(),
                        self.toks() == toks,
                        self.source() == old(self).source(),
                        self.file() == old(self).file(),
                        st.pos < self.st().pos,
                        spec_kw_loop(toks, st4, kws1) == done(kwargs_view(kwargs@), self.st()),
                    decreases toks.len() - self.st().pos,
                {
                    if self.peek_is(",")? {
                        self.consume()?;
                    } else if self.peek_is("(")? {
                        break ;
                    } else {
                        self.expect_value(")", Context::ArgumentList)?;
                        break ;
                    }
                    let name = self.expect_identifier(Context::Kwarg)?.value.clone();
                    self.expect_value("=", Context::Kwarg)?;
                    let value = self.parse_expr()?;
                    kw_insert_exec(&mut kwargs, name, value);
                }
            },
            None => {},
        }
        let handler = if self.peek_is("(")? {
            let h = self.parse_expr()?;
            self.expect_value(")", Context::ArgumentList)?;
            Some(Box::new(h))
        } else {
            None
        };
        Ok(ArgumentList { posargs, kwargs, handler })
    }

    /// Reads the whole program: statements until the tokens end.
    pub fn parse_program(&mut self) -> (r: Result<Vec<StatementBox>, ParseError>)
        requires
            old(self).wf(),
        ensures
            final(self).wf(),
            final(self).toks() == old(self).toks(),
            final(self).source() == old(self).source(),
            final(self).file() == old(self).file(),
            agrees_stmts(r, final(self).st(), spec_program_from(old(self).toks(), old(self).st(), seq![])),
            r matches Ok(v) ==> v@.len() <= old(self).toks().len(),
    {
        let ghost toks = self.toks();
        let ghost st = self.st();
        let mut stmts: Vec<StatementBox> = Vec::new();
        assert(sboxes_view(stmts@) =~= seq![]);
        while self.pos < self.tokens.len()
            invariant
                toks == old(self).toks(),
                st == old(self).st(),
                self.wf(),
                self.toks() == toks,
                self.source() == old(self).source(),
                self.file() == old(self).file(),
                spec_program_from(toks, st, seq![]) == spec_program_from(toks, self.st(), sboxes_view(stmts@)),
                stmts@.len() <= self.st().pos - st.pos,
            decreases toks.len() - self.st().pos,
        {
            let stmt = self.parse_stmt()?;
            proof {
                lemma_sboxes_push(stmts@, stmt);
            }
            stmts.push(stmt);
        }
        Ok(stmts)
    }
}

} // verus!
