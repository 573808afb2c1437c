//! The code generator: turns statements into a JustMC module document.
use vstd::prelude::*;
use vstd::string::StringExecFns;

use crate::actions::{Action, Argument, action_index, find_action};
use crate::ast::{
    ArgumentList, SpecArgumentList, args_view, Expression, ExpressionBox, SpecExpression, SpecExpressionBox, SpecStatement, SpecStatementBox,
    Statement, StatementBox, ebox_view, eboxes_view, kwargs_view, sbox_view, sboxes_view, strings_view,
};
use crate::json::{JsonValue, SpecJson, fields_view, jsons_view, push_field, push_value};
use crate::text::str_eq;

verus! {

// ---------------------------------------------------------------------------
// Keyed lists: a name may occur several times; the first occurrence counts.

/// `i` is the first index whose key is `k`.
pub open spec fn is_first_key<V>(s: Seq<(Seq<char>, V)>, k: Seq<char>, i: int) -> bool {
    &&& 0 <= i < s.len()
    &&& s[i].0 == k
    &&& forall|j: int| 0 <= j < i ==> s[j].0 != k
}

/// The first index whose key is `k`, or -1.
pub open spec fn first_key<V>(s: Seq<(Seq<char>, V)>, k: Seq<char>) -> int {
    if exists|i: int| is_first_key(s, k, i) {
        choose|i: int| is_first_key(s, k, i)
    } else {
        -1
    }
}

/// The value of the key `k`.
pub open spec fn lookup<V>(s: Seq<(Seq<char>, V)>, k: Seq<char>) -> Option<V> {
    let i = first_key(s, k);
    if i >= 0 {
        Some(s[i].1)
    } else {
        None
    }
}

/// The list after giving `k` the value `v`: it replaces the value of the key,
/// or the pair comes last.
pub open spec fn insert_key<V>(s: Seq<(Seq<char>, V)>, k: Seq<char>, v: V) -> Seq<(Seq<char>, V)> {
    let i = first_key(s, k);
    if i >= 0 {
        s.update(i, (k, v))
    } else {
        s.push((k, v))
    }
}

pub proof fn lemma_first_key<V>(s: Seq<(Seq<char>, V)>, k: Seq<char>, i: int)
    requires
        is_first_key(s, k, i),
    ensures
        first_key(s, k) == i,
{
    let c = choose|c: int| is_first_key(s, k, c);
    if c < i {
        assert(s[c].0 != k);
    } else if c > i {
        assert(s[i].0 != k);
    }
}

pub proof fn lemma_no_key<V>(s: Seq<(Seq<char>, V)>, k: Seq<char>)
    requires
        forall|j: int| 0 <= j < s.len() ==> s[j].0 != k,
    ensures
        first_key(s, k) == -1,
{
}

// ---------------------------------------------------------------------------
// Variables.

/// Where a variable was declared: its scope and its line.
#[derive(Debug)]
pub struct DefinedVariable {
    pub scope: String,
    pub line: u32,
}

pub struct SpecDefinedVariable {
    pub scope: Seq<char>,
    pub line: u32,
}

impl View for DefinedVariable {
    type V = SpecDefinedVariable;

    open spec fn view(&self) -> SpecDefinedVariable {
        SpecDefinedVariable { scope: self.scope@, line: self.line }
    }
}

impl DefinedVariable {
    pub fn copied(&self) -> (r: Self)
        ensures
            r@ == self@,
    {
        DefinedVariable { scope: self.scope.clone(), line: self.line }
    }
}

/// Declared variables by name.
pub type SpecScope = Seq<(Seq<char>, SpecDefinedVariable)>;

pub open spec fn scope_view(s: Seq<(String, DefinedVariable)>) -> SpecScope {
    s.map_values(|e: (String, DefinedVariable)| (e.0@, e.1@))
}

pub open spec fn funcs_view(s: Seq<(String, Vec<(String, DefinedVariable)>)>) -> Seq<(Seq<char>, SpecScope)> {
    s.map_values(|e: (String, Vec<(String, DefinedVariable)>)| (e.0@, scope_view(e.1@)))
}

fn scope_find(s: &Vec<(String, DefinedVariable)>, k: &str) -> (r: Option<usize>)
    ensures
        match r {
            Some(i) => i < s@.len() && first_key(scope_view(s@), k@) == i,
            None => first_key(scope_view(s@), k@) == -1,
        },
{
    let ghost v = scope_view(s@);
    let mut i: usize = 0;
    while i < s.len()
        invariant
            v == scope_view(s@),
            0 <= i <= s@.len(),
            forall|j: int| 0 <= j < i ==> v[j].0 != k@,
        decreases s@.len() - i,
    {
        if str_eq(s[i].0.as_str(), k) {
            proof {
                lemma_first_key(v, k@, i as int);
            }
            return Some(i);
        }
        i += 1;
    }
    None
}

fn scope_insert(s: &mut Vec<(String, DefinedVariable)>, k: String, d: DefinedVariable)
    ensures
        scope_view(final(s)@) == insert_key(scope_view(old(s)@), k@, d@),
{
    match scope_find(s, k.as_str()) {
        Some(i) => {
            let ghost pair = (k, d);
            s[i] = (k, d);
            assert(scope_view(s@) =~= insert_key(scope_view(old(s)@), pair.0@, pair.1@));
        },
        None => {
            let ghost pair = (k, d);
            s.push((k, d));
            assert(scope_view(s@) =~= insert_key(scope_view(old(s)@), pair.0@, pair.1@));
        },
    }
}

fn funcs_find(s: &Vec<(String, Vec<(String, DefinedVariable)>)>, k: &str) -> (r: Option<usize>)
    ensures
        match r {
            Some(i) => i < s@.len() && first_key(funcs_view(s@), k@) == i,
            None => first_key(funcs_view(s@), k@) == -1,
        },
{
    let ghost v = funcs_view(s@);
    let mut i: usize = 0;
    while i < s.len()
        invariant
            v == funcs_view(s@),
            0 <= i <= s@.len(),
            forall|j: int| 0 <= j < i ==> v[j].0 != k@,
        decreases s@.len() - i,
    {
        if str_eq(s[i].0.as_str(), k) {
            proof {
                lemma_first_key(v, k@, i as int);
            }
            return Some(i);
        }
        i += 1;
    }
    None
}

fn funcs_insert(
    s: &mut Vec<(String, Vec<(String, DefinedVariable)>)>,
    k: String,
    scope: Vec<(String, DefinedVariable)>,
)
    ensures
        funcs_view(final(s)@) == insert_key(funcs_view(old(s)@), k@, scope_view(scope@)),
{
    match funcs_find(s, k.as_str()) {
        Some(i) => {
            let ghost pair = (k, scope);
            s[i] = (k, scope);
            assert(funcs_view(s@) =~= insert_key(funcs_view(old(s)@), pair.0@, scope_view(pair.1@)));
        },
        None => {
            let ghost pair = (k, scope);
            s.push((k, scope));
            assert(funcs_view(s@) =~= insert_key(funcs_view(old(s)@), pair.0@, scope_view(pair.1@)));
        },
    }
}

fn strings_contain(s: &Vec<String>, k: &str) -> (r: bool)
    ensures
        r == strings_view(s@).contains(k@),
{
    let mut i: usize = 0;
    while i < s.len()
        invariant
            0 <= i <= s@.len(),
            forall|j: int| 0 <= j < i ==> s@[j]@ != k@,
        decreases s@.len() - i,
    {
        if str_eq(s[i].as_str(), k) {
            assert(strings_view(s@)[i as int] == k@);
            return true;
        }
        i += 1;
    }
    assert forall|j: int| 0 <= j < strings_view(s@).len() implies strings_view(s@)[j] != k@ by {
        assert(s@[j]@ != k@);
    }
    false
}

// ---------------------------------------------------------------------------
// Values.

/// A compiled value.
#[derive(Debug)]
pub enum CValue {
    Variable { scope: String, name: String },
    Text { parsing: String, text: String },
    /// A number, written as in the source.
    Number(String),
    Array(Vec<CValue>),
    /// A value made by a factory (`location`, `vector`, ...): its type and
    /// its fields, each a plain number or string.
    Factory { kind: String, fields: Vec<(String, Plain)> },
    /// A value of the game, such as `name`.
    GameValue(String),
}

/// A plain value: a number, written as in the source, or a string.
#[derive(Debug)]
pub enum Plain {
    Number(String),
    Str(String),
}

pub open spec fn plain_json(p: Plain) -> SpecJson {
    match p {
        Plain::Number(n) => SpecJson::Number(n@),
        Plain::Str(t) => SpecJson::Str(t@),
    }
}

pub open spec fn plain_fields_view(s: Seq<(String, Plain)>) -> Seq<(Seq<char>, SpecJson)> {
    s.map_values(|f: (String, Plain)| (f.0@, plain_json(f.1)))
}

pub enum SpecCValue {
    Variable { scope: Seq<char>, name: Seq<char> },
    Text { parsing: Seq<char>, text: Seq<char> },
    Number(Seq<char>),
    Array(Seq<SpecCValue>),
    Factory { kind: Seq<char>, fields: Seq<(Seq<char>, SpecJson)> },
    GameValue(Seq<char>),
}

pub open spec fn cvalue_view(v: CValue) -> SpecCValue
    decreases v,
{
    match v {
        CValue::Variable { scope, name } => SpecCValue::Variable { scope: scope@, name: name@ },
        CValue::Text { parsing, text } => SpecCValue::Text { parsing: parsing@, text: text@ },
        CValue::Number(n) => SpecCValue::Number(n@),
        CValue::Array(vs) => SpecCValue::Array(cvalues_view(vs@)),
        CValue::Factory { kind, fields } => SpecCValue::Factory { kind: kind@, fields: plain_fields_view(fields@) },
        CValue::GameValue(name) => SpecCValue::GameValue(name@),
    }
}

pub open spec fn cvalues_view(s: Seq<CValue>) -> Seq<SpecCValue>
    decreases s,
{
    Seq::new(s.len(), |i: int| if 0 <= i < s.len() { cvalue_view(s[i]) } else { arbitrary() })
}

impl View for CValue {
    type V = SpecCValue;

    open spec fn view(&self) -> SpecCValue {
        cvalue_view(*self)
    }
}

// The JSON shapes the generator writes.

pub open spec fn jstr(s: Seq<char>) -> SpecJson {
    SpecJson::Str(s)
}

/// `{"type": "variable", "scope": scope, "variable": name}`
pub open spec fn variable_json(scope: Seq<char>, name: Seq<char>) -> SpecJson {
    SpecJson::Object(
        seq![("type"@, jstr("variable"@)), ("scope"@, jstr(scope)), ("variable"@, jstr(name))],
    )
}

/// `{"type": "text", "parsing": parsing, "text": text}`
pub open spec fn text_json(parsing: Seq<char>, text: Seq<char>) -> SpecJson {
    SpecJson::Object(seq![("type"@, jstr("text"@)), ("parsing"@, jstr(parsing)), ("text"@, jstr(text))])
}

/// `{"type": "number", "number": n}`
pub open spec fn number_json(n: Seq<char>) -> SpecJson {
    SpecJson::Object(seq![("type"@, jstr("number"@)), ("number"@, SpecJson::Number(n))])
}

/// `{"type": "game_value", "game_value": name, "selection": "null"}`
pub open spec fn game_value_json(name: Seq<char>) -> SpecJson {
    SpecJson::Object(
        seq![("type"@, jstr("game_value"@)), ("game_value"@, jstr(name)), ("selection"@, jstr("null"@))],
    )
}

/// `{"type": "array", "values": [...]}`
pub open spec fn array_json(vs: Seq<SpecJson>) -> SpecJson {
    SpecJson::Object(seq![("type"@, jstr("array"@)), ("values"@, SpecJson::Array(vs))])
}

/// `{"name": name, "value": value}`
pub open spec fn named_json(name: Seq<char>, value: SpecJson) -> SpecJson {
    SpecJson::Object(seq![("name"@, jstr(name)), ("value"@, value)])
}

/// `{"action": id, "values": [...]}`
pub open spec fn action_json(id: Seq<char>, values: Seq<SpecJson>) -> SpecJson {
    SpecJson::Object(seq![("action"@, jstr(id)), ("values"@, SpecJson::Array(values))])
}

/// A condition: `{"action": id, "values": [...], "is_inverted": inverted,
/// "operations": ops}`.
pub open spec fn condition_json(id: Seq<char>, values: Seq<SpecJson>, inverted: bool, ops: SpecJson) -> SpecJson {
    SpecJson::Object(
        seq![
            ("action"@, jstr(id)),
            ("values"@, SpecJson::Array(values)),
            ("is_inverted"@, SpecJson::Bool(inverted)),
            ("operations"@, ops),
        ],
    )
}

/// The action that stores `value` in the variable `name` of scope `scope`.
pub open spec fn set_variable_json(scope: Seq<char>, name: Seq<char>, value: SpecJson) -> SpecJson {
    action_json(
        "set_variable_value"@,
        seq![named_json("variable"@, variable_json(scope, name)), named_json("value"@, value)],
    )
}

/// `{"type": "text", "text": text, "parsing": "plain"}`
pub open spec fn plain_text_json(text: Seq<char>) -> SpecJson {
    SpecJson::Object(seq![("type"@, jstr("text"@)), ("text"@, jstr(text)), ("parsing"@, jstr("plain"@))])
}

/// The action that calls the function `name`.
pub open spec fn call_function_json(name: Seq<char>) -> SpecJson {
    action_json("call_function"@, seq![named_json("function_name"@, plain_text_json(name))])
}

/// The action that starts the process `name`.
pub open spec fn start_process_json(name: Seq<char>) -> SpecJson {
    action_json("start_process"@, seq![named_json("process_name"@, plain_text_json(name))])
}

/// A handler: `{"type": kind, "position": pos, key: name, "operations": ops}`.
pub open spec fn handler_json(kind: Seq<char>, pos: int, key: Seq<char>, name: Seq<char>, ops: SpecJson) -> SpecJson {
    SpecJson::Object(
        seq![
            ("type"@, jstr(kind)),
            ("position"@, SpecJson::Integer(pos)),
            (key, jstr(name)),
            ("operations"@, ops),
        ],
    )
}

/// The JSON form of a compiled value.
pub open spec fn spec_finalize(v: SpecCValue) -> SpecJson
    decreases v,
{
    match v {
        SpecCValue::Variable { scope, name } => variable_json(scope, name),
        SpecCValue::Text { parsing, text } => text_json(parsing, text),
        SpecCValue::Number(n) => number_json(n),
        SpecCValue::Array(vs) => array_json(spec_finalize_all(vs)),
        SpecCValue::Factory { kind, fields } => SpecJson::Object(seq![("type"@, jstr(kind))] + fields),
        SpecCValue::GameValue(name) => game_value_json(name),
    }
}

/// The JSON forms of compiled values.
pub open spec fn spec_finalize_all(vs: Seq<SpecCValue>) -> Seq<SpecJson>
    decreases vs,
{
    Seq::new(vs.len(), |i: int| if 0 <= i < vs.len() { spec_finalize(vs[i]) } else { arbitrary() })
}

impl CValue {
    /// The JSON form of this value.
    pub fn finalize(&self) -> (r: JsonValue)
        ensures
            r@ == spec_finalize(self@),
        decreases self,
    {
        let mut fields: Vec<(String, JsonValue)> = Vec::new();
        match self {
            CValue::Variable { scope, name } => {
                push_field(&mut fields, String::from_str("type"), JsonValue::Str(String::from_str("variable")));
                push_field(&mut fields, String::from_str("scope"), JsonValue::Str(scope.clone()));
                push_field(&mut fields, String::from_str("variable"), JsonValue::Str(name.clone()));
                assert(fields_view(fields@) =~= seq![("type"@, jstr("variable"@)), ("scope"@, jstr(scope@)), ("variable"@, jstr(name@))]);
            },
            CValue::Text { parsing, text } => {
                push_field(&mut fields, String::from_str("type"), JsonValue::Str(String::from_str("text")));
                push_field(&mut fields, String::from_str("parsing"), JsonValue::Str(parsing.clone()));
                push_field(&mut fields, String::from_str("text"), JsonValue::Str(text.clone()));
                assert(fields_view(fields@) =~= seq![("type"@, jstr("text"@)), ("parsing"@, jstr(parsing@)), ("text"@, jstr(text@))]);
            },
            CValue::Number(n) => {
                push_field(&mut fields, String::from_str("type"), JsonValue::Str(String::from_str("number")));
                push_field(&mut fields, String::from_str("number"), JsonValue::Number(n.clone()));
                assert(fields_view(fields@) =~= seq![("type"@, jstr("number"@)), ("number"@, SpecJson::Number(n@))]);
            },
            CValue::Array(array) => {
                let mut values: Vec<JsonValue> = Vec::new();
                let mut k: usize = 0;
                while k < array.len()
                    invariant
                        *self == CValue::Array(*array),
                        0 <= k <= array@.len(),
                        jsons_view(values@) =~= Seq::new(
                            k as nat,
                            |i: int| spec_finalize(cvalue_view(array@[i])),
                        ),
                    decreases array@.len() - k,
                {
                    assert(decreases_to!(*self => (*self)->Array_0));
                    assert((*self)->Array_0 == *array);
                    assert(decreases_to!(*array => array@));
                    assert(decreases_to!(array@ => array@[k as int]));
                    assert(decreases_to!(*self => array@[k as int]));
                    let j = array[k].finalize();
                    push_value(&mut values, j);
                    k += 1;
                }
                push_field(&mut fields, String::from_str("type"), JsonValue::Str(String::from_str("array")));
                push_field(&mut fields, String::from_str("values"), JsonValue::Array(values));
                let ghost vs = cvalues_view(array@);
                assert(jsons_view(values@) =~= spec_finalize_all(vs));
                assert(fields_view(fields@) =~= seq![("type"@, jstr("array"@)), ("values"@, SpecJson::Array(jsons_view(values@)))]);
                assert(self@ == SpecCValue::Array(vs));
            },
            CValue::GameValue(name) => {
                push_field(&mut fields, String::from_str("type"), JsonValue::Str(String::from_str("game_value")));
                push_field(&mut fields, String::from_str("game_value"), JsonValue::Str(name.clone()));
                push_field(&mut fields, String::from_str("selection"), JsonValue::Str(String::from_str("null")));
                assert(fields_view(fields@) =~= seq![("type"@, jstr("game_value"@)), ("game_value"@, jstr(name@)), ("selection"@, jstr("null"@))]);
            },
            CValue::Factory { kind, fields: members } => {
                push_field(&mut fields, String::from_str("type"), JsonValue::Str(kind.clone()));
                let mut k: usize = 0;
                while k < members.len()
                    invariant
                        0 <= k <= members@.len(),
                        fields_view(fields@) =~= seq![("type"@, jstr(kind@))] + plain_fields_view(members@).take(k as int),
                    decreases members@.len() - k,
                {
                    let value = match &members[k].1 {
                        Plain::Number(n) => JsonValue::Number(n.clone()),
                        Plain::Str(t) => JsonValue::Str(t.clone()),
                    };
                    push_field(&mut fields, members[k].0.clone(), value);
                    assert(plain_fields_view(members@).take(k + 1) =~= plain_fields_view(members@).take(k as int).push(
                        plain_fields_view(members@)[k as int],
                    ));
                    k += 1;
                }
                assert(plain_fields_view(members@).take(members@.len() as int) =~= plain_fields_view(members@));
            },
        }
        JsonValue::Object(fields)
    }
}

// ---------------------------------------------------------------------------
// Diagnostics.

/// Why statements cannot be compiled.
#[derive(Debug)]
pub enum CodegenError {
    /// A variable declared with a value outside of a handler.
    HeadlessDefinition { line: u32 },
    /// A variable declared twice; `previous_line` is the line of the first declaration.
    AlreadyDeclared { name: String, previous_line: u32, line: u32 },
    /// A variable assigned outside of a handler.
    HeadlessSet { line: u32 },
    /// An expression statement outside of a handler.
    HeadlessExpression { line: u32 },
    /// A function, process or event defined inside a handler.
    DefinitionInHandler { line: u32 },
    UndefinedVariable { name: String, line: u32 },
    /// A call of a function or process that was not defined before.
    UndefinedFunction { line: u32 },
    /// A method call that names no action.
    UndefinedAction { line: u32 },
    /// More positional arguments than the action has.
    ArgumentCountMismatch { expected: usize, got: usize, line: u32 },
    FunctionCallAsValue { line: u32 },
    ActionCallAsValue { line: u32 },
    HandlerAsValue { line: u32 },
    /// A factory given another number of arguments than it has fields.
    FactoryArgumentCount { expected: usize, got: usize, line: u32 },
    /// A factory argument that is not a plain number or string.
    FactoryNeedsPlainValue { line: u32 },
}

pub enum SpecCodegenError {
    HeadlessDefinition { line: u32 },
    AlreadyDeclared { name: Seq<char>, previous_line: u32, line: u32 },
    HeadlessSet { line: u32 },
    HeadlessExpression { line: u32 },
    DefinitionInHandler { line: u32 },
    UndefinedVariable { name: Seq<char>, line: u32 },
    UndefinedFunction { line: u32 },
    UndefinedAction { line: u32 },
    ArgumentCountMismatch { expected: nat, got: nat, line: u32 },
    FunctionCallAsValue { line: u32 },
    ActionCallAsValue { line: u32 },
    HandlerAsValue { line: u32 },
    FactoryArgumentCount { expected: nat, got: nat, line: u32 },
    FactoryNeedsPlainValue { line: u32 },
}

impl View for CodegenError {
    type V = SpecCodegenError;

    open spec fn view(&self) -> SpecCodegenError {
        match *self {
            CodegenError::HeadlessDefinition { line } => SpecCodegenError::HeadlessDefinition { line },
            CodegenError::AlreadyDeclared { name, previous_line, line } => SpecCodegenError::AlreadyDeclared {
                name: name@,
                previous_line,
                line,
            },
            CodegenError::HeadlessSet { line } => SpecCodegenError::HeadlessSet { line },
            CodegenError::HeadlessExpression { line } => SpecCodegenError::HeadlessExpression { line },
            CodegenError::DefinitionInHandler { line } => SpecCodegenError::DefinitionInHandler { line },
            CodegenError::UndefinedVariable { name, line } => SpecCodegenError::UndefinedVariable {
                name: name@,
                line,
            },
            CodegenError::UndefinedFunction { line } => SpecCodegenError::UndefinedFunction { line },
            CodegenError::UndefinedAction { line } => SpecCodegenError::UndefinedAction { line },
            CodegenError::ArgumentCountMismatch { expected, got, line } => SpecCodegenError::ArgumentCountMismatch {
                expected: expected as nat,
                got: got as nat,
                line,
            },
            CodegenError::FunctionCallAsValue { line } => SpecCodegenError::FunctionCallAsValue { line },
            CodegenError::ActionCallAsValue { line } => SpecCodegenError::ActionCallAsValue { line },
            CodegenError::HandlerAsValue { line } => SpecCodegenError::HandlerAsValue { line },
            CodegenError::FactoryArgumentCount { expected, got, line } => SpecCodegenError::FactoryArgumentCount {
                expected: expected as nat,
                got: got as nat,
                line,
            },
            CodegenError::FactoryNeedsPlainValue { line } => SpecCodegenError::FactoryNeedsPlainValue { line },
        }
    }
}

/// Something suspicious that does not stop compilation.
#[derive(Debug)]
pub enum Warning {
    /// Calling `function` on line `line` may change `variable`, which the caller
    /// declared on line `defined_line` and the function on line `redefined_line`.
    PossiblyChanged { variable: String, defined_line: u32, function: String, line: u32, redefined_line: u32 },
    /// An expression statement that compiles to no action.
    NoAction { line: u32 },
}

pub enum SpecWarning {
    PossiblyChanged {
        variable: Seq<char>,
        defined_line: u32,
        function: Seq<char>,
        line: u32,
        redefined_line: u32,
    },
    NoAction { line: u32 },
}

impl View for Warning {
    type V = SpecWarning;

    open spec fn view(&self) -> SpecWarning {
        match *self {
            Warning::PossiblyChanged { variable, defined_line, function, line, redefined_line } =>
                SpecWarning::PossiblyChanged {
                variable: variable@,
                defined_line,
                function: function@,
                line,
                redefined_line,
            },
            Warning::NoAction { line } => SpecWarning::NoAction { line },
        }
    }
}

pub open spec fn warnings_view(s: Seq<Warning>) -> Seq<SpecWarning> {
    s.map_values(|w: Warning| w@)
}

// ---------------------------------------------------------------------------
// Compiling values.

/// The fields of the value a factory makes, or `None` for a name that is no
/// factory: `location(x, y, z, yaw, pitch)`, `vector(x, y, z)`,
/// `potion(effect, amplifier, duration)`, `particle(texture, count, xspread,
/// yspread)` and `sound(id, pitch, volume, source)`.
pub open spec fn factory_fields(name: Seq<char>) -> Option<Seq<Seq<char>>> {
    if name == "location"@ {
        Some(seq!["x"@, "y"@, "z"@, "yaw"@, "pitch"@])
    } else if name == "vector"@ {
        Some(seq!["x"@, "y"@, "z"@])
    } else if name == "potion"@ {
        Some(seq!["potion"@, "amplifier"@, "duration"@])
    } else if name == "particle"@ {
        Some(seq!["particle_type"@, "count"@, "first_spread"@, "second_spread"@])
    } else if name == "sound"@ {
        Some(seq!["sound"@, "pitch"@, "volume"@, "source"@])
    } else {
        None
    }
}

/// The plain value an argument is: a number or the text of a string.
pub open spec fn plain_of(e: SpecExpressionBox) -> Option<SpecJson> {
    match e.content {
        SpecExpression::NumberLiteral(n) => Some(SpecJson::Number(n)),
        SpecExpression::StringLiteral { text, .. } => Some(SpecJson::Str(text)),
        _ => None,
    }
}

/// The fields `names[i..]` of a factory value, given by `args[i..]`, after
/// the fields `acc`; the first argument that is not plain is an error.
pub open spec fn spec_factory_fields(
    names: Seq<Seq<char>>,
    args: Seq<SpecExpressionBox>,
    i: int,
    acc: Seq<(Seq<char>, SpecJson)>,
) -> Result<Seq<(Seq<char>, SpecJson)>, SpecCodegenError>
    decreases args.len() - i,
{
    if i < 0 || i >= args.len() {
        Ok(acc)
    } else {
        match plain_of(args[i]) {
            None => Err(SpecCodegenError::FactoryNeedsPlainValue { line: args[i].line }),
            Some(v) => spec_factory_fields(names, args, i + 1, acc.push((names[i], v))),
        }
    }
}

/// The value of an expression, where `global` and `vs` are the declared
/// variables (global ones first).
pub open spec fn spec_gen_value(global: SpecScope, vs: SpecScope, e: SpecExpressionBox) -> Result<
    SpecCValue,
    SpecCodegenError,
>
    decreases e, 0int,
{
    let line = e.line;
    match e.content {
        SpecExpression::NumberLiteral(n) => Ok(SpecCValue::Number(n)),
        SpecExpression::StringLiteral { parsing, text } => Ok(SpecCValue::Text { parsing, text }),
        SpecExpression::Identifier(name) => match lookup(global, name) {
            Some(d) => Ok(SpecCValue::Variable { scope: d.scope, name }),
            None => match lookup(vs, name) {
                Some(d) => Ok(SpecCValue::Variable { scope: d.scope, name }),
                None => Err(SpecCodegenError::UndefinedVariable { name, line }),
            },
        },
        SpecExpression::ExplicitVariable { scope, name } => Ok(SpecCValue::Variable { scope, name }),
        SpecExpression::GameValue(name) => Ok(SpecCValue::GameValue(name)),
        SpecExpression::FunctionCall { name, args } => match factory_fields(name) {
            None => Err(SpecCodegenError::FunctionCallAsValue { line }),
            Some(names) => if args.len() != names.len() {
                Err(SpecCodegenError::FactoryArgumentCount { expected: names.len(), got: args.len(), line })
            } else {
                match spec_factory_fields(names, args, 0, seq![]) {
                    Ok(fields) => Ok(SpecCValue::Factory { kind: name, fields }),
                    Err(x) => Err(x),
                }
            },
        },
        SpecExpression::MethodCall { .. } => Err(SpecCodegenError::ActionCallAsValue { line }),
        SpecExpression::Condition { .. } => Err(SpecCodegenError::ActionCallAsValue { line }),
        SpecExpression::ArrayLiteral(items) => match spec_gen_values(global, vs, items, 0, seq![]) {
            Ok(cvs) => Ok(SpecCValue::Array(cvs)),
            Err(x) => Err(x),
        },
        SpecExpression::Handler(_) => Err(SpecCodegenError::HandlerAsValue { line }),
    }
}

/// The values of `items[i..]`, after the values `acc`; the first error stops.
pub open spec fn spec_gen_values(
    global: SpecScope,
    vs: SpecScope,
    items: Seq<SpecExpressionBox>,
    i: int,
    acc: Seq<SpecCValue>,
) -> Result<Seq<SpecCValue>, SpecCodegenError>
    decreases items, items.len() - i,
{
    if i < 0 || i >= items.len() {
        Ok(acc)
    } else {
        match spec_gen_value(global, vs, items[i]) {
            Err(x) => Err(x),
            Ok(v) => spec_gen_values(global, vs, items, i + 1, acc.push(v)),
        }
    }
}

// ---------------------------------------------------------------------------
// Compiling statements inside a handler.

/// What compiling a handler's statements has built so far: its declared
/// variables, its actions and all warnings.
pub struct BState {
    pub varscope: SpecScope,
    pub nodes: Seq<SpecJson>,
    pub warnings: Seq<SpecWarning>,
}

pub type BRes = Result<BState, (SpecCodegenError, Seq<SpecWarning>)>;

/// What the generator keeps between handlers.
pub struct CgState {
    pub global: SpecScope,
    pub funcs: Seq<(Seq<char>, SpecScope)>,
    pub procs: Seq<Seq<char>>,
    pub pos: int,
    pub warnings: Seq<SpecWarning>,
}

/// The scope a declaration stands for: `default` is `line`.
pub open spec fn default_scope(scope: Seq<char>) -> Seq<char> {
    if scope == "default"@ {
        "line"@
    } else {
        scope
    }
}

/// Takes the variables `fscope[i..]` of the function `fname`, called on line
/// `line`, into the caller's variables `vs`: a variable the caller already
/// has gives a warning instead.
pub open spec fn spec_merge(
    vs: SpecScope,
    ws: Seq<SpecWarning>,
    fscope: SpecScope,
    i: int,
    fname: Seq<char>,
    line: u32,
) -> (SpecScope, Seq<SpecWarning>)
    decreases fscope.len() - i,
{
    if i < 0 || i >= fscope.len() {
        (vs, ws)
    } else {
        let key = fscope[i].0;
        let value = fscope[i].1;
        match lookup(vs, key) {
            Some(redefined) => spec_merge(
                vs,
                ws.push(
                    SpecWarning::PossiblyChanged {
                        variable: key,
                        defined_line: redefined.line,
                        function: fname,
                        line,
                        redefined_line: value.line,
                    },
                ),
                fscope,
                i + 1,
                fname,
                line,
            ),
            None => spec_merge(insert_key(vs, key, value), ws, fscope, i + 1, fname, line),
        }
    }
}

/// `{"name": param id, "value": value}` for the positional arguments
/// `exprs[i..]`, after the entries `acc`.
pub open spec fn spec_gen_posargs(
    global: SpecScope,
    vs: SpecScope,
    params: Seq<Argument>,
    exprs: Seq<SpecExpressionBox>,
    i: int,
    acc: Seq<SpecJson>,
) -> Result<Seq<SpecJson>, SpecCodegenError>
    decreases exprs.len() - i,
{
    if i < 0 || i >= exprs.len() {
        Ok(acc)
    } else {
        match spec_gen_value(global, vs, exprs[i]) {
            Err(x) => Err(x),
            Ok(v) => spec_gen_posargs(
                global,
                vs,
                params,
                exprs,
                i + 1,
                acc.push(named_json(params[i].id@, spec_finalize(v))),
            ),
        }
    }
}

/// `{"name": name, "value": value}` for the named arguments `kws[i..]`,
/// after the entries `acc`.
pub open spec fn spec_gen_kwargs(
    global: SpecScope,
    vs: SpecScope,
    kws: Seq<(Seq<char>, SpecExpressionBox)>,
    i: int,
    acc: Seq<SpecJson>,
) -> Result<Seq<SpecJson>, SpecCodegenError>
    decreases kws.len() - i,
{
    if i < 0 || i >= kws.len() {
        Ok(acc)
    } else {
        match spec_gen_value(global, vs, kws[i].1) {
            Err(x) => Err(x),
            Ok(v) => spec_gen_kwargs(global, vs, kws, i + 1, acc.push(named_json(kws[i].0, spec_finalize(v)))),
        }
    }
}

/// The rest of a method call that compiles to the action `id`, once its
/// positional arguments were compiled (with the result `pos`).
pub open spec fn spec_method_tail(
    b: BState,
    id: Seq<char>,
    pos: Result<Seq<SpecJson>, SpecCodegenError>,
    global: SpecScope,
    kws: Seq<(Seq<char>, SpecExpressionBox)>,
) -> BRes {
    match pos {
        Err(x) => Err((x, b.warnings)),
        Ok(values) => spec_action_tail(b, id, spec_gen_kwargs(global, b.varscope, kws, 0, values)),
    }
}

/// The action `id` of a method call, once all its arguments were compiled
/// (with the result `values`).
pub open spec fn spec_action_tail(b: BState, id: Seq<char>, values: Result<Seq<SpecJson>, SpecCodegenError>) -> BRes {
    match values {
        Err(x) => Err((x, b.warnings)),
        Ok(values) => Ok(BState { nodes: b.nodes.push(action_json(id, values)), ..b }),
    }
}

/// The `{"name": ..., "value": ...}` entries of the arguments of a call of
/// an action whose arguments are `params`: positional ones first, then named ones.
pub open spec fn spec_action_values(
    global: SpecScope,
    vs: SpecScope,
    params: Seq<Argument>,
    args: SpecArgumentList,
) -> Result<Seq<SpecJson>, SpecCodegenError> {
    match spec_gen_posargs(global, vs, params, args.posargs, 0, seq![]) {
        Err(x) => Err(x),
        Ok(values) => spec_gen_kwargs(global, vs, args.kwargs, 0, values),
    }
}

/// The rest of a condition that compiles to the action `id`, once its
/// arguments were compiled (with the result `values`): its body is compiled
/// with the handler's variables, and the condition holds the body's actions.
pub open spec fn spec_condition_tail(
    g: CgState,
    actions: Seq<Action>,
    b: BState,
    id: Seq<char>,
    values: Result<Seq<SpecJson>, SpecCodegenError>,
    inverted: bool,
    body: Seq<SpecStatementBox>,
) -> BRes
    decreases body, body.len() + 1,
{
    match values {
        Err(x) => Err((x, b.warnings)),
        Ok(vals) => match spec_body_gen(
            g,
            actions,
            BState { varscope: b.varscope, nodes: seq![], warnings: b.warnings },
            body,
            0,
        ) {
            Err(x) => Err(x),
            Ok(b2) => Ok(
                BState {
                    varscope: b2.varscope,
                    nodes: b.nodes.push(condition_json(id, vals, inverted, SpecJson::Array(b2.nodes))),
                    warnings: b2.warnings,
                },
            ),
        },
    }
}

/// An expression statement inside a handler.
///
/// A call of a function defined before adds the function's variables to the
/// handler's and calls it; a call of a process starts it; a method call
/// compiles to its action, with the positional arguments named after the
/// action's arguments and the named ones after their names; a condition
/// compiles likewise and holds the actions of its body, compiled with the
/// handler's variables; any other expression gives a warning and compiles to
/// nothing, once its value is known to compile.
pub open spec fn spec_exprstmt(g: CgState, actions: Seq<Action>, b: BState, e: SpecExpressionBox) -> BRes
    decreases e, 0int,
{
    let line = e.line;
    match e.content {
        SpecExpression::FunctionCall { name, args: _ } => match lookup(g.funcs, name) {
            Some(fscope) => {
                let (vs2, ws2) = spec_merge(b.varscope, b.warnings, fscope, 0, name, line);
                Ok(BState { varscope: vs2, nodes: b.nodes.push(call_function_json(name)), warnings: ws2 })
            },
            None => {
                if g.procs.contains(name) {
                    Ok(BState { nodes: b.nodes.push(start_process_json(name)), ..b })
                } else {
                    Err((SpecCodegenError::UndefinedFunction { line }, b.warnings))
                }
            },
        },
        SpecExpression::MethodCall { object, method, args } => match action_index(actions, object, method) {
            None => Err((SpecCodegenError::UndefinedAction { line }, b.warnings)),
            Some(i) => {
                let action = actions[i];
                if action.args@.len() < args.posargs.len() {
                    Err(
                        (
                            SpecCodegenError::ArgumentCountMismatch {
                                expected: action.args@.len(),
                                got: args.posargs.len(),
                                line,
                            },
                            b.warnings,
                        ),
                    )
                } else {
                    spec_method_tail(
                        b,
                        action.id@,
                        spec_gen_posargs(g.global, b.varscope, action.args@, args.posargs, 0, seq![]),
                        g.global,
                        args.kwargs,
                    )
                }
            },
        },
        SpecExpression::Condition { object, method, inverted, args, body } => match action_index(
            actions,
            object,
            method,
        ) {
            None => Err((SpecCodegenError::UndefinedAction { line }, b.warnings)),
            Some(i) => {
                let action = actions[i];
                if action.args@.len() < args.posargs.len() {
                    Err(
                        (
                            SpecCodegenError::ArgumentCountMismatch {
                                expected: action.args@.len(),
                                got: args.posargs.len(),
                                line,
                            },
                            b.warnings,
                        ),
                    )
                } else {
                    spec_condition_tail(
                        g,
                        actions,
                        b,
                        action.id@,
                        spec_action_values(g.global, b.varscope, action.args@, args),
                        inverted,
                        body,
                    )
                }
            },
        },
        _ => {
            let ws = b.warnings.push(SpecWarning::NoAction { line });
            match spec_gen_value(g.global, b.varscope, e) {
                Ok(_) => Ok(BState { warnings: ws, ..b }),
                Err(x) => Err((x, ws)),
            }
        },
    }
}

/// A statement inside a handler.
///
/// A declaration adds the variable to the handler's (an error if a global or
/// handler variable of that name exists) and, with a value, stores it; an
/// assignment stores a value in a declared variable; definitions are errors.
pub open spec fn spec_stmt_in_body(g: CgState, actions: Seq<Action>, b: BState, s: SpecStatementBox) -> BRes
    decreases s, 0int,
{
    let line = s.line;
    match s.content {
        SpecStatement::FunctionDefinition { .. } => Err(
            (SpecCodegenError::DefinitionInHandler { line }, b.warnings),
        ),
        SpecStatement::ProcessDefinition { .. } => Err(
            (SpecCodegenError::DefinitionInHandler { line }, b.warnings),
        ),
        SpecStatement::EventDefinition { .. } => Err((SpecCodegenError::DefinitionInHandler { line }, b.warnings)),
        SpecStatement::VariableDefinition { scope, name, value } => {
            let scope = default_scope(scope);
            match lookup(g.global, name) {
                Some(d) => Err(
                    (SpecCodegenError::AlreadyDeclared { name, previous_line: d.line, line }, b.warnings),
                ),
                None => match lookup(b.varscope, name) {
                    Some(d) => Err(
                        (SpecCodegenError::AlreadyDeclared { name, previous_line: d.line, line }, b.warnings),
                    ),
                    None => {
                        let vs2 = insert_key(b.varscope, name, SpecDefinedVariable { scope, line });
                        match value {
                            None => Ok(BState { varscope: vs2, ..b }),
                            Some(e) => match spec_gen_value(g.global, vs2, e) {
                                Err(x) => Err((x, b.warnings)),
                                Ok(v) => Ok(
                                    BState {
                                        varscope: vs2,
                                        nodes: b.nodes.push(set_variable_json(scope, name, spec_finalize(v))),
                                        warnings: b.warnings,
                                    },
                                ),
                            },
                        }
                    },
                },
            }
        },
        SpecStatement::VariableSet { name, value } => {
            let found = match lookup(g.global, name) {
                Some(d) => Some(d.scope),
                None => match lookup(b.varscope, name) {
                    Some(d) => Some(d.scope),
                    None => None,
                },
            };
            match found {
                None => Err((SpecCodegenError::UndefinedVariable { name, line }, b.warnings)),
                Some(scope) => match spec_gen_value(g.global, b.varscope, value) {
                    Err(x) => Err((x, b.warnings)),
                    Ok(v) => Ok(
                        BState { nodes: b.nodes.push(set_variable_json(scope, name, spec_finalize(v))), ..b },
                    ),
                },
            }
        },
        SpecStatement::ExpressionStatement(e) => spec_exprstmt(g, actions, b, e),
    }
}

/// The statements `stmts[i..]` of a handler, after the state `b`.
pub open spec fn spec_body_gen(g: CgState, actions: Seq<Action>, b: BState, stmts: Seq<SpecStatementBox>, i: int) -> BRes
    decreases stmts, stmts.len() - i,
{
    if i < 0 || i >= stmts.len() {
        Ok(b)
    } else {
        match spec_stmt_in_body(g, actions, b, stmts[i]) {
            Err(x) => Err(x),
            Ok(b2) => spec_body_gen(g, actions, b2, stmts, i + 1),
        }
    }
}

// ---------------------------------------------------------------------------
// Compiling top-level statements.

/// A handler, or nothing, and the state after it; or an error and all warnings.
pub type TRes = Result<(Option<SpecJson>, CgState), (SpecCodegenError, Seq<SpecWarning>)>;

/// A top-level statement.
///
/// A function, process or event definition compiles its body with no
/// variables of its own yet and becomes the next handler; a function then
/// remembers its variables, and a process its name. A declaration without a
/// value declares a global variable (an error if one of that name exists). Other
/// statements are errors.
pub open spec fn spec_top(g: CgState, actions: Seq<Action>, s: SpecStatementBox) -> TRes {
    let line = s.line;
    let fresh = BState { varscope: seq![], nodes: seq![], warnings: g.warnings };
    match s.content {
        SpecStatement::FunctionDefinition { name, params: _, body } => match spec_body_gen(g, actions, fresh, body, 0) {
            Err(x) => Err(x),
            Ok(b) => Ok(
                (
                    Some(handler_json("function"@, g.pos + 1, "name"@, name, SpecJson::Array(b.nodes))),
                    CgState {
                        pos: g.pos + 1,
                        funcs: insert_key(g.funcs, name, b.varscope),
                        warnings: b.warnings,
                        ..g
                    },
                ),
            ),
        },
        SpecStatement::ProcessDefinition { name, params: _, body } => match spec_body_gen(g, actions, fresh, body, 0) {
            Err(x) => Err(x),
            Ok(b) => Ok(
                (
                    Some(handler_json("process"@, g.pos + 1, "name"@, name, SpecJson::Array(b.nodes))),
                    CgState { pos: g.pos + 1, procs: g.procs.push(name), warnings: b.warnings, ..g },
                ),
            ),
        },
        SpecStatement::EventDefinition { event, body } => match spec_body_gen(g, actions, fresh, body, 0) {
            Err(x) => Err(x),
            Ok(b) => Ok(
                (
                    Some(handler_json("event"@, g.pos + 1, "event"@, event, SpecJson::Array(b.nodes))),
                    CgState { pos: g.pos + 1, warnings: b.warnings, ..g },
                ),
            ),
        },
        SpecStatement::VariableDefinition { scope, name, value } => {
            if value is Some {
                Err((SpecCodegenError::HeadlessDefinition { line }, g.warnings))
            } else {
                match lookup(g.global, name) {
                    Some(d) => Err(
                        (SpecCodegenError::AlreadyDeclared { name, previous_line: d.line, line }, g.warnings),
                    ),
                    None => Ok(
                        (
                            None,
                            CgState {
                                global: insert_key(
                                    g.global,
                                    name,
                                    SpecDefinedVariable { scope: default_scope(scope), line },
                                ),
                                ..g
                            },
                        ),
                    ),
                }
            }
        },
        SpecStatement::VariableSet { .. } => Err((SpecCodegenError::HeadlessSet { line }, g.warnings)),
        SpecStatement::ExpressionStatement(_) => Err(
            (SpecCodegenError::HeadlessExpression { line }, g.warnings),
        ),
    }
}

/// The handlers of the top-level statements `stmts[i..]`, after the handlers `nodes`.
pub open spec fn spec_generate_from(
    g: CgState,
    actions: Seq<Action>,
    stmts: Seq<SpecStatementBox>,
    i: int,
    nodes: Seq<SpecJson>,
) -> Result<(Seq<SpecJson>, CgState), (SpecCodegenError, Seq<SpecWarning>)>
    decreases stmts.len() - i,
{
    if i < 0 || i >= stmts.len() {
        Ok((nodes, g))
    } else {
        match spec_top(g, actions, stmts[i]) {
            Err(x) => Err(x),
            Ok((Some(j), g2)) => spec_generate_from(g2, actions, stmts, i + 1, nodes.push(j)),
            Ok((None, g2)) => spec_generate_from(g2, actions, stmts, i + 1, nodes),
        }
    }
}

/// `g1` and `g2` agree on all the generator knows but the warnings.
pub open spec fn same_context(g1: CgState, g2: CgState) -> bool {
    g1.global == g2.global && g1.funcs == g2.funcs && g1.procs == g2.procs
}

proof fn lemma_exprstmt_context(g1: CgState, g2: CgState, actions: Seq<Action>, b: BState, e: SpecExpressionBox)
    requires
        same_context(g1, g2),
    ensures
        spec_exprstmt(g1, actions, b, e) == spec_exprstmt(g2, actions, b, e),
    decreases e, 0int,
{
    if let SpecExpression::Condition { body, .. } = e.content {
        let inner = BState { varscope: b.varscope, nodes: seq![], warnings: b.warnings };
        lemma_body_context(g1, g2, actions, inner, body, 0);
    }
}

proof fn lemma_stmt_context(g1: CgState, g2: CgState, actions: Seq<Action>, b: BState, s: SpecStatementBox)
    requires
        same_context(g1, g2),
    ensures
        spec_stmt_in_body(g1, actions, b, s) == spec_stmt_in_body(g2, actions, b, s),
    decreases s, 0int,
{
    if let SpecStatement::ExpressionStatement(e) = s.content {
        lemma_exprstmt_context(g1, g2, actions, b, e);
    }
}

/// Compiling statements in a handler does not depend on the warnings the
/// generator had.
proof fn lemma_body_context(
    g1: CgState,
    g2: CgState,
    actions: Seq<Action>,
    b: BState,
    stmts: Seq<SpecStatementBox>,
    i: int,
)
    requires
        same_context(g1, g2),
    ensures
        spec_body_gen(g1, actions, b, stmts, i) == spec_body_gen(g2, actions, b, stmts, i),
    decreases stmts, stmts.len() - i,
{
    if 0 <= i < stmts.len() {
        lemma_stmt_context(g1, g2, actions, b, stmts[i]);
        if let Ok(b2) = spec_stmt_in_body(g1, actions, b, stmts[i]) {
            lemma_body_context(g1, g2, actions, b2, stmts, i + 1);
        }
    }
}

/// The module document: `{"handlers": [...]}`.
pub open spec fn spec_generate(g: CgState, actions: Seq<Action>, stmts: Seq<SpecStatementBox>) -> Result<
    (SpecJson, CgState),
    (SpecCodegenError, Seq<SpecWarning>),
> {
    match spec_generate_from(g, actions, stmts, 0, seq![]) {
        Err(x) => Err(x),
        Ok((nodes, g2)) => Ok((SpecJson::Object(seq![("handlers"@, SpecJson::Array(nodes))]), g2)),
    }
}

/// The state of a generator that has compiled nothing.
pub open spec fn initial_state() -> CgState {
    CgState { global: seq![], funcs: seq![], procs: seq![], pos: 0, warnings: seq![] }
}

// ---------------------------------------------------------------------------
// The generator.

fn push_name(v: &mut Vec<String>, s: &str)
    ensures
        strings_view(final(v)@) == strings_view(old(v)@).push(s@),
{
    let ghost before = v@;
    v.push(String::from_str(s));
    assert(strings_view(v@) =~= strings_view(before).push(s@));
}

/// The field names of the factory `name`, if it is one.
fn factory_names(name: &str) -> (r: Option<Vec<String>>)
    ensures
        match factory_fields(name@) {
            Some(fs) => r matches Some(v) && strings_view(v@) == fs,
            None => r is None,
        },
{
    let mut v: Vec<String> = Vec::new();
    assert(strings_view(v@) =~= seq![]);
    if str_eq(name, "location") {
        push_name(&mut v, "x");
        push_name(&mut v, "y");
        push_name(&mut v, "z");
        push_name(&mut v, "yaw");
        push_name(&mut v, "pitch");
    } else if str_eq(name, "vector") {
        push_name(&mut v, "x");
        push_name(&mut v, "y");
        push_name(&mut v, "z");
    } else if str_eq(name, "potion") {
        push_name(&mut v, "potion");
        push_name(&mut v, "amplifier");
        push_name(&mut v, "duration");
    } else if str_eq(name, "particle") {
        push_name(&mut v, "particle_type");
        push_name(&mut v, "count");
        push_name(&mut v, "first_spread");
        push_name(&mut v, "second_spread");
    } else if str_eq(name, "sound") {
        push_name(&mut v, "sound");
        push_name(&mut v, "pitch");
        push_name(&mut v, "volume");
        push_name(&mut v, "source");
    } else {
        return None;
    }
    Some(v)
}

pub open spec fn opt_json_view(o: Option<JsonValue>) -> Option<SpecJson> {
    match o {
        Some(j) => Some(j@),
        None => None,
    }
}

fn json_text(s: &str) -> (r: JsonValue)
    ensures
        r@ == jstr(s@),
{
    JsonValue::Str(String::from_str(s))
}

fn variable_node(scope: String, name: String) -> (r: JsonValue)
    ensures
        r@ == variable_json(scope@, name@),
{
    let ghost (sc, nm) = (scope@, name@);
    let mut f: Vec<(String, JsonValue)> = Vec::new();
    push_field(&mut f, String::from_str("type"), json_text("variable"));
    push_field(&mut f, String::from_str("scope"), JsonValue::Str(scope));
    push_field(&mut f, String::from_str("variable"), JsonValue::Str(name));
    assert(fields_view(f@) =~= seq![("type"@, jstr("variable"@)), ("scope"@, jstr(sc)), ("variable"@, jstr(nm))]);
    JsonValue::Object(f)
}

fn named_node(name: String, value: JsonValue) -> (r: JsonValue)
    ensures
        r@ == named_json(name@, value@),
{
    let ghost (nm, v) = (name@, value@);
    let mut f: Vec<(String, JsonValue)> = Vec::new();
    push_field(&mut f, String::from_str("name"), JsonValue::Str(name));
    push_field(&mut f, String::from_str("value"), value);
    assert(fields_view(f@) =~= seq![("name"@, jstr(nm)), ("value"@, v)]);
    JsonValue::Object(f)
}

fn action_node(id: String, values: Vec<JsonValue>) -> (r: JsonValue)
    ensures
        r@ == action_json(id@, jsons_view(values@)),
{
    let ghost (i, vs) = (id@, jsons_view(values@));
    let mut f: Vec<(String, JsonValue)> = Vec::new();
    push_field(&mut f, String::from_str("action"), JsonValue::Str(id));
    push_field(&mut f, String::from_str("values"), JsonValue::Array(values));
    assert(fields_view(f@) =~= seq![("action"@, jstr(i)), ("values"@, SpecJson::Array(vs))]);
    JsonValue::Object(f)
}

fn condition_node(id: String, values: Vec<JsonValue>, inverted: bool, ops: JsonValue) -> (r: JsonValue)
    ensures
        r@ == condition_json(id@, jsons_view(values@), inverted, ops@),
{
    let ghost (i, vs, o) = (id@, jsons_view(values@), ops@);
    let mut f: Vec<(String, JsonValue)> = Vec::new();
    push_field(&mut f, String::from_str("action"), JsonValue::Str(id));
    push_field(&mut f, String::from_str("values"), JsonValue::Array(values));
    push_field(&mut f, String::from_str("is_inverted"), JsonValue::Bool(inverted));
    push_field(&mut f, String::from_str("operations"), ops);
    assert(fields_view(f@) =~= seq![
        ("action"@, jstr(i)),
        ("values"@, SpecJson::Array(vs)),
        ("is_inverted"@, SpecJson::Bool(inverted)),
        ("operations"@, o),
    ]);
    JsonValue::Object(f)
}

fn set_variable_node(scope: String, name: String, value: JsonValue) -> (r: JsonValue)
    ensures
        r@ == set_variable_json(scope@, name@, value@),
{
    let ghost (sc, nm, v) = (scope@, name@, value@);
    let mut values: Vec<JsonValue> = Vec::new();
    push_value(&mut values, named_node(String::from_str("variable"), variable_node(scope, name)));
    push_value(&mut values, named_node(String::from_str("value"), value));
    assert(jsons_view(values@) =~= seq![named_json("variable"@, variable_json(sc, nm)), named_json("value"@, v)]);
    action_node(String::from_str("set_variable_value"), values)
}

fn plain_text_node(text: String) -> (r: JsonValue)
    ensures
        r@ == plain_text_json(text@),
{
    let ghost t = text@;
    let mut f: Vec<(String, JsonValue)> = Vec::new();
    push_field(&mut f, String::from_str("type"), json_text("text"));
    push_field(&mut f, String::from_str("text"), JsonValue::Str(text));
    push_field(&mut f, String::from_str("parsing"), json_text("plain"));
    assert(fields_view(f@) =~= seq![("type"@, jstr("text"@)), ("text"@, jstr(t)), ("parsing"@, jstr("plain"@))]);
    JsonValue::Object(f)
}

fn call_node(action: &str, key: &str, name: String) -> (r: JsonValue)
    ensures
        r@ == action_json(action@, seq![named_json(key@, plain_text_json(name@))]),
{
    let ghost nm = name@;
    let mut values: Vec<JsonValue> = Vec::new();
    push_value(&mut values, named_node(String::from_str(key), plain_text_node(name)));
    assert(jsons_view(values@) =~= seq![named_json(key@, plain_text_json(nm))]);
    action_node(String::from_str(action), values)
}

fn handler_node(kind: &str, pos: u32, key: &str, name: String, operations: JsonValue) -> (r: JsonValue)
    ensures
        r@ == handler_json(kind@, pos as int, key@, name@, operations@),
{
    let ghost (nm, ops) = (name@, operations@);
    let mut f: Vec<(String, JsonValue)> = Vec::new();
    push_field(&mut f, String::from_str("type"), json_text(kind));
    push_field(&mut f, String::from_str("position"), JsonValue::Integer(pos));
    push_field(&mut f, String::from_str(key), JsonValue::Str(name));
    push_field(&mut f, String::from_str("operations"), operations);
    assert(fields_view(f@) =~= seq![
        ("type"@, jstr(kind@)),
        ("position"@, SpecJson::Integer(pos as int)),
        (key@, jstr(nm)),
        ("operations"@, ops),
    ]);
    JsonValue::Object(f)
}

pub proof fn lemma_warnings_push(s: Seq<Warning>, w: Warning)
    ensures
        warnings_view(s.push(w)) == warnings_view(s).push(w@),
{
    assert(warnings_view(s.push(w)) =~= warnings_view(s).push(w@));
}

pub proof fn lemma_cvalues_push(s: Seq<CValue>, v: CValue)
    ensures
        cvalues_view(s.push(v)) == cvalues_view(s).push(v@),
{
    assert(cvalues_view(s.push(v)) =~= cvalues_view(s).push(v@));
}

/// `r` is what `s` says of a statement compiled inside a handler whose
/// variables, actions and warnings are now `vs`, `nodes` and `ws`.
pub open spec fn body_agrees(r: Result<(), CodegenError>, vs: SpecScope, nodes: Seq<SpecJson>, ws: Seq<SpecWarning>, s: BRes) -> bool {
    match s {
        Ok(b) => r is Ok && vs == b.varscope && nodes == b.nodes && ws == b.warnings,
        Err((e, w)) => r matches Err(x) && x@ == e && ws == w,
    }
}

/// A code generator for the statements of one source file.
pub struct Codegen<'a> {
    actions: Vec<Action>,
    statements: Vec<StatementBox>,
    global: Vec<(String, DefinedVariable)>,
    funcs: Vec<(String, Vec<(String, DefinedVariable)>)>,
    procs: Vec<String>,
    source: &'a String,
    file: &'a String,
    pos: u32,
    warnings: Vec<Warning>,
}

impl<'a> Codegen<'a> {
    /// The global variables, the functions with their variables, the
    /// processes, the number of handlers so far and the warnings.
    pub closed spec fn st(&self) -> CgState {
        CgState {
            global: scope_view(self.global@),
            funcs: funcs_view(self.funcs@),
            procs: strings_view(self.procs@),
            pos: self.pos as int,
            warnings: warnings_view(self.warnings@),
        }
    }

    /// The catalogue of actions.
    pub closed spec fn acts(&self) -> Seq<Action> {
        self.actions@
    }

    /// The statements still to compile.
    pub closed spec fn stmts(&self) -> Seq<StatementBox> {
        self.statements@
    }

    /// Everything but the warnings is as in `other`.
    pub closed spec fn frame(&self, other: &Self) -> bool {
        &&& self.actions@ == other.actions@
        &&& self.statements@ == other.statements@
        &&& self.global@ == other.global@
        &&& self.funcs@ == other.funcs@
        &&& self.procs@ == other.procs@
        &&& self.pos == other.pos
        &&& self.source == other.source
        &&& self.file == other.file
    }

    /// A generator for `stmts` that has compiled nothing yet.
    pub fn new(actions: Vec<Action>, stmts: Vec<StatementBox>, source: &'a String, file: &'a String) -> (c: Self)
        ensures
            c.st() == initial_state(),
            c.acts() == actions@,
            c.stmts() == stmts@,
            c.source() == source,
            c.file() == file,
    {
        let c = Codegen {
            actions,
            statements: stmts,
            global: Vec::new(),
            funcs: Vec::new(),
            procs: Vec::new(),
            source,
            file,
            pos: 0,
            warnings: Vec::new(),
        };
        assert(scope_view(c.global@) =~= seq![]);
        assert(funcs_view(c.funcs@) =~= seq![]);
        assert(strings_view(c.procs@) =~= seq![]);
        assert(warnings_view(c.warnings@) =~= seq![]);
        c
    }

    pub closed spec fn source(&self) -> &'a String {
        self.source
    }

    pub closed spec fn file(&self) -> &'a String {
        self.file
    }

    /// The source text the statements come from.
    pub fn source_text(&self) -> (r: &'a String)
        ensures
            r == self.source(),
    {
        self.source
    }

    /// The name of the file the statements come from.
    pub fn file_name(&self) -> (r: &'a String)
        ensures
            r == self.file(),
    {
        self.file
    }

    /// The warnings so far, in order.
    pub fn warnings(&self) -> (r: &Vec<Warning>)
        ensures
            warnings_view(r@) == self.st().warnings,
    {
        &self.warnings
    }

    /// The warnings so far, in order, taking the generator apart.
    pub fn into_warnings(self) -> (r: Vec<Warning>)
        ensures
            warnings_view(r@) == self.st().warnings,
    {
        self.warnings
    }

    /// The value of an expression inside a handler whose variables are `varscope`.
    fn generate_value(&self, varscope: &Vec<(String, DefinedVariable)>, exprbox: &ExpressionBox) -> (r: Result<
        CValue,
        CodegenError,
    >)
        ensures
            match spec_gen_value(self.st().global, scope_view(varscope@), exprbox@) {
                Ok(v) => r matches Ok(x) && x@ == v,
                Err(e) => r matches Err(x) && x@ == e,
            },
        decreases exprbox,
    {
        let line = exprbox.line;
        match &exprbox.content {
            Expression::NumberLiteral(value) => Ok(CValue::Number(value.clone())),
            Expression::StringLiteral { parsing, text } => Ok(
                CValue::Text { parsing: parsing.clone(), text: text.clone() },
            ),
            Expression::Identifier(name) => {
                match scope_find(&self.global, name.as_str()) {
                    Some(i) => {
                        return Ok(CValue::Variable { scope: self.global[i].1.scope.clone(), name: name.clone() });
                    },
                    None => {},
                }
                match scope_find(varscope, name.as_str()) {
                    Some(i) => Ok(CValue::Variable { scope: varscope[i].1.scope.clone(), name: name.clone() }),
                    None => Err(CodegenError::UndefinedVariable { name: name.clone(), line }),
                }
            },
            Expression::ExplicitVariable { scope, name } => Ok(
                CValue::Variable { scope: scope.clone(), name: name.clone() },
            ),
            Expression::GameValue(name) => Ok(CValue::GameValue(name.clone())),
            Expression::FunctionCall { name, args } => {
                let names = match factory_names(name.as_str()) {
                    Some(v) => v,
                    None => return Err(CodegenError::FunctionCallAsValue { line }),
                };
                if args.len() != names.len() {
                    return Err(CodegenError::FactoryArgumentCount { expected: names.len(), got: args.len(), line });
                }
                let ghost nv = strings_view(names@);
                let ghost av = eboxes_view(args@);
                let mut fields: Vec<(String, Plain)> = Vec::new();
                let mut k: usize = 0;
                assert(plain_fields_view(fields@) =~= seq![]);
                while k < args.len()
                    invariant
                        nv == strings_view(names@),
                        av == eboxes_view(args@),
                        factory_fields(name@) == Some(nv),
                        exprbox@.content == (SpecExpression::FunctionCall { name: name@, args: av }),
                        line == exprbox@.line,
                        names@.len() == args@.len(),
                        0 <= k <= args@.len(),
                        spec_factory_fields(nv, av, 0, seq![]) == spec_factory_fields(
                            nv,
                            av,
                            k as int,
                            plain_fields_view(fields@),
                        ),
                    decreases args@.len() - k,
                {
                    let value = match &args[k].content {
                        Expression::NumberLiteral(n) => Plain::Number(n.clone()),
                        Expression::StringLiteral { text, .. } => Plain::Str(text.clone()),
                        _ => {
                            assert(av[k as int] == ebox_view(args@[k as int]));
                            assert(plain_of(av[k as int]) is None);
                            return Err(CodegenError::FactoryNeedsPlainValue { line: args[k].line });
                        },
                    };
                    let ghost before = fields@;
                    let f = (names[k].clone(), value);
                    fields.push(f);
                    assert(plain_fields_view(fields@) =~= plain_fields_view(before).push((nv[k as int], plain_of(av[k as int])->0)));
                    k += 1;
                }
                Ok(CValue::Factory { kind: name.clone(), fields })
            },
            Expression::MethodCall { .. } => Err(CodegenError::ActionCallAsValue { line }),
            Expression::Condition { .. } => Err(CodegenError::ActionCallAsValue { line }),
            Expression::Handler(_) => Err(CodegenError::HandlerAsValue { line }),
            Expression::ArrayLiteral(array) => {
                let ghost items = eboxes_view(array@);
                let ghost global = self.st().global;
                let ghost vs = scope_view(varscope@);
                let mut values: Vec<CValue> = Vec::new();
                let mut k: usize = 0;
                assert(cvalues_view(values@) =~= seq![]);
                while k < array.len()
                    invariant
                        exprbox.content == Expression::ArrayLiteral(*array),
                        items == eboxes_view(array@),
                        global == self.st().global,
                        vs == scope_view(varscope@),
                        0 <= k <= array@.len(),
                        spec_gen_values(global, vs, items, 0, seq![]) == spec_gen_values(
                            global,
                            vs,
                            items,
                            k as int,
                            cvalues_view(values@),
                        ),
                    decreases array@.len() - k,
                {
                    assert(decreases_to!(*exprbox => exprbox.content));
                    assert(decreases_to!(exprbox.content => (exprbox.content)->ArrayLiteral_0));
                    assert(decreases_to!(*array => array@));
                    assert(decreases_to!(array@ => array@[k as int]));
                    let v = self.generate_value(varscope, &array[k])?;
                    proof {
                        lemma_cvalues_push(values@, v);
                    }
                    values.push(v);
                    k += 1;
                }
                Ok(CValue::Array(values))
            },
        }
    }

    /// The argument entries of a call of `action` with the arguments `args`.
    fn action_values(&self, varscope: &Vec<(String, DefinedVariable)>, action: &Action, args: &ArgumentList) -> (r: Result<
        Vec<JsonValue>,
        CodegenError,
    >)
        requires
            args.posargs@.len() <= action.args@.len(),
        ensures
            match spec_action_values(self.st().global, scope_view(varscope@), action.args@, args_view(*args)) {
                Ok(v) => r matches Ok(x) && jsons_view(x@) == v,
                Err(e) => r matches Err(x) && x@ == e,
            },
    {
        let ghost global = self.st().global;
        let ghost vs = scope_view(varscope@);
        let ghost pv = eboxes_view(args.posargs@);
        let ghost kv = kwargs_view(args.kwargs@);
        let mut values: Vec<JsonValue> = Vec::new();
        assert(jsons_view(values@) =~= seq![]);
        let mut i: usize = 0;
        while i < args.posargs.len()
            invariant
                global == self.st().global,
                vs == scope_view(varscope@),
                pv == eboxes_view(args.posargs@),
                pv == args_view(*args).posargs,
                kv == args_view(*args).kwargs,
                args.posargs@.len() <= action.args@.len(),
                0 <= i <= args.posargs@.len(),
                spec_gen_posargs(global, vs, action.args@, pv, 0, seq![]) == spec_gen_posargs(
                    global,
                    vs,
                    action.args@,
                    pv,
                    i as int,
                    jsons_view(values@),
                ),
            decreases args.posargs@.len() - i,
        {
            let key = action.args[i].id.clone();
            let value = self.generate_value(varscope, &args.posargs[i])?;
            push_value(&mut values, named_node(key, value.finalize()));
            i += 1;
        }
        let ghost v1 = jsons_view(values@);
        let mut j: usize = 0;
        while j < args.kwargs.len()
            invariant
                global == self.st().global,
                vs == scope_view(varscope@),
                kv == kwargs_view(args.kwargs@),
                spec_action_values(global, vs, action.args@, args_view(*args)) == spec_gen_kwargs(global, vs, kv, 0, v1),
                0 <= j <= args.kwargs@.len(),
                spec_gen_kwargs(global, vs, kv, 0, v1) == spec_gen_kwargs(global, vs, kv, j as int, jsons_view(values@)),
            decreases args.kwargs@.len() - j,
        {
            let key = args.kwargs[j].0.clone();
            let value = self.generate_value(varscope, &args.kwargs[j].1)?;
            push_value(&mut values, named_node(key, value.finalize()));
            j += 1;
        }
        Ok(values)
    }

    /// An expression statement inside a handler.
    fn generate_exprstmt(
        &mut self,
        varscope: &mut Vec<(String, DefinedVariable)>,
        exprbox: &ExpressionBox,
        nodes: &mut Vec<JsonValue>,
    ) -> (r: Result<(), CodegenError>)
        ensures
            final(self).frame(old(self)),
            body_agrees(
                r,
                scope_view(final(varscope)@),
                jsons_view(final(nodes)@),
                final(self).st().warnings,
                spec_exprstmt(
                    old(self).st(),
                    old(self).acts(),
                    BState {
                        varscope: scope_view(old(varscope)@),
                        nodes: jsons_view(old(nodes)@),
                        warnings: old(self).st().warnings,
                    },
                    exprbox@,
                ),
            ),
        decreases exprbox, 0int,
    {
        let line = exprbox.line;
        match &exprbox.content {
            Expression::FunctionCall { name, args: _ } => {
                match funcs_find(&self.funcs, name.as_str()) {
                    Some(fi) => {
                        let ghost fscope = scope_view(self.funcs@[fi as int].1@);
                        let ghost vs0 = scope_view(varscope@);
                        let ghost ws0 = self.st().warnings;
                        let n = self.funcs[fi].1.len();
                        let mut k: usize = 0;
                        while k < n
                            invariant
                                self.frame(old(self)),
                                fi < self.funcs@.len(),
                                fscope == scope_view(self.funcs@[fi as int].1@),
                                n == fscope.len(),
                                0 <= k <= n,
                                spec_merge(vs0, ws0, fscope, 0, name@, line) == spec_merge(
                                    scope_view(varscope@),
                                    self.st().warnings,
                                    fscope,
                                    k as int,
                                    name@,
                                    line,
                                ),
                            decreases n - k,
                        {
                            let key = self.funcs[fi].1[k].0.clone();
                            let value = self.funcs[fi].1[k].1.copied();
                            match scope_find(varscope, key.as_str()) {
                                Some(ri) => {
                                    let defined_line = varscope[ri].1.line;
                                    let w = Warning::PossiblyChanged {
                                        variable: key,
                                        defined_line,
                                        function: name.clone(),
                                        line,
                                        redefined_line: value.line,
                                    };
                                    proof {
                                        lemma_warnings_push(self.warnings@, w);
                                    }
                                    self.warnings.push(w);
                                },
                                None => {
                                    scope_insert(varscope, key, value);
                                },
                            }
                            k += 1;
                        }
                        push_value(nodes, call_node("call_function", "function_name", name.clone()));
                        Ok(())
                    },
                    None => {
                        if strings_contain(&self.procs, name.as_str()) {
                            push_value(nodes, call_node("start_process", "process_name", name.clone()));
                            Ok(())
                        } else {
                            Err(CodegenError::UndefinedFunction { line })
                        }
                    },
                }
            },
            Expression::MethodCall { object, method, args } => {
                let action = match find_action(&self.actions, object.as_str(), method.as_str()) {
                    Some(a) => a,
                    None => return Err(CodegenError::UndefinedAction { line }),
                };
                if action.args.len() < args.posargs.len() {
                    assert(action_index(old(self).acts(), object@, method@) is Some);
                    assert(exprbox@.content == SpecExpression::MethodCall { object: object@, method: method@, args: args@ });
                    assert(args@.posargs.len() == args.posargs@.len());
                    return Err(
                        CodegenError::ArgumentCountMismatch {
                            expected: action.args.len(),
                            got: args.posargs.len(),
                            line,
                        },
                    );
                }
                let ghost global = self.st().global;
                let ghost vs = scope_view(varscope@);
                let ghost pv = eboxes_view(args.posargs@);
                let ghost kv = kwargs_view(args.kwargs@);
                let ghost b0 = BState {
                    varscope: scope_view(old(varscope)@),
                    nodes: jsons_view(old(nodes)@),
                    warnings: old(self).st().warnings,
                };
                let ghost outcome = spec_exprstmt(old(self).st(), old(self).acts(), b0, exprbox@);
                assert(outcome == spec_method_tail(
                    b0,
                    action.id@,
                    spec_gen_posargs(global, vs, action.args@, pv, 0, seq![]),
                    global,
                    kv,
                ));
                let mut values: Vec<JsonValue> = Vec::new();
                assert(jsons_view(values@) =~= seq![]);
                let mut i: usize = 0;
                while i < args.posargs.len()
                    invariant
                        self.frame(old(self)),
                        *varscope == *old(varscope),
                        *nodes == *old(nodes),
                        self.st().warnings == old(self).st().warnings,
                        b0 == (BState {
                            varscope: scope_view(old(varscope)@),
                            nodes: jsons_view(old(nodes)@),
                            warnings: old(self).st().warnings,
                        }),
                        outcome == spec_exprstmt(old(self).st(), old(self).acts(), b0, exprbox@),
                        outcome == spec_method_tail(
                            b0,
                            action.id@,
                            spec_gen_posargs(global, vs, action.args@, pv, 0, seq![]),
                            global,
                            kv,
                        ),
                        global == self.st().global,
                        vs == scope_view(varscope@),
                        vs == b0.varscope,
                        pv == eboxes_view(args.posargs@),
                        args.posargs@.len() <= action.args@.len(),
                        0 <= i <= args.posargs@.len(),
                        spec_gen_posargs(global, vs, action.args@, pv, 0, seq![]) == spec_gen_posargs(
                            global,
                            vs,
                            action.args@,
                            pv,
                            i as int,
                            jsons_view(values@),
                        ),
                    decreases args.posargs@.len() - i,
                {
                    let key = action.args[i].id.clone();
                    let value = self.generate_value(varscope, &args.posargs[i])?;
                    push_value(&mut values, named_node(key, value.finalize()));
                    i += 1;
                }
                let ghost v1 = jsons_view(values@);
                assert(outcome == spec_action_tail(b0, action.id@, spec_gen_kwargs(global, vs, kv, 0, v1)));
                let mut j: usize = 0;
                while j < args.kwargs.len()
                    invariant
                        self.frame(old(self)),
                        *varscope == *old(varscope),
                        *nodes == *old(nodes),
                        self.st().warnings == old(self).st().warnings,
                        b0 == (BState {
                            varscope: scope_view(old(varscope)@),
                            nodes: jsons_view(old(nodes)@),
                            warnings: old(self).st().warnings,
                        }),
                        outcome == spec_exprstmt(old(self).st(), old(self).acts(), b0, exprbox@),
                        outcome == spec_action_tail(b0, action.id@, spec_gen_kwargs(global, vs, kv, 0, v1)),
                        global == self.st().global,
                        vs == scope_view(varscope@),
                        kv == kwargs_view(args.kwargs@),
                        0 <= j <= args.kwargs@.len(),
                        spec_gen_kwargs(global, vs, kv, 0, v1) == spec_gen_kwargs(
                            global,
                            vs,
                            kv,
                            j as int,
                            jsons_view(values@),
                        ),
                    decreases args.kwargs@.len() - j,
                {
                    let key = args.kwargs[j].0.clone();
                    let value = self.generate_value(varscope, &args.kwargs[j].1)?;
                    push_value(&mut values, named_node(key, value.finalize()));
                    j += 1;
                }
                push_value(nodes, action_node(action.id.clone(), values));
                Ok(())
            },
            Expression::Condition { object, method, inverted, args, body } => {
                let action = match find_action(&self.actions, object.as_str(), method.as_str()) {
                    Some(a) => a,
                    None => return Err(CodegenError::UndefinedAction { line }),
                };
                if action.args.len() < args.posargs.len() {
                    assert(action_index(old(self).acts(), object@, method@) is Some);
                    assert(args_view(*args).posargs.len() == args.posargs@.len());
                    return Err(
                        CodegenError::ArgumentCountMismatch {
                            expected: action.args.len(),
                            got: args.posargs.len(),
                            line,
                        },
                    );
                }
                let id = action.id.clone();
                let values = self.action_values(varscope, action, args)?;
                assert(decreases_to!(*exprbox => exprbox.content));
                assert(decreases_to!(exprbox.content => (exprbox.content)->Condition_body));
                let ops = self.generate_body(body, varscope)?;
                push_value(nodes, condition_node(id, values, *inverted, ops));
                Ok(())
            },
            _ => {
                let w = Warning::NoAction { line };
                proof {
                    lemma_warnings_push(self.warnings@, w);
                }
                self.warnings.push(w);
                self.generate_value(varscope, exprbox)?;
                Ok(())
            },
        }
    }

    /// A statement inside a handler.
    fn generate_statement(
        &mut self,
        stmtbox: &StatementBox,
        varscope: &mut Vec<(String, DefinedVariable)>,
        nodes: &mut Vec<JsonValue>,
    ) -> (r: Result<(), CodegenError>)
        ensures
            final(self).frame(old(self)),
            body_agrees(
                r,
                scope_view(final(varscope)@),
                jsons_view(final(nodes)@),
                final(self).st().warnings,
                spec_stmt_in_body(
                    old(self).st(),
                    old(self).acts(),
                    BState {
                        varscope: scope_view(old(varscope)@),
                        nodes: jsons_view(old(nodes)@),
                        warnings: old(self).st().warnings,
                    },
                    stmtbox@,
                ),
            ),
        decreases stmtbox, 0int,
    {
        let line = stmtbox.line;
        match &stmtbox.content {
            Statement::FunctionDefinition { .. } => Err(CodegenError::DefinitionInHandler { line }),
            Statement::ProcessDefinition { .. } => Err(CodegenError::DefinitionInHandler { line }),
            Statement::EventDefinition { .. } => Err(CodegenError::DefinitionInHandler { line }),
            Statement::VariableDefinition { scope, name, value } => {
                let scope = if str_eq(scope.as_str(), "default") {
                    String::from_str("line")
                } else {
                    scope.clone()
                };
                match scope_find(&self.global, name.as_str()) {
                    Some(i) => {
                        return Err(
                            CodegenError::AlreadyDeclared {
                                name: name.clone(),
                                previous_line: self.global[i].1.line,
                                line,
                            },
                        );
                    },
                    None => {},
                }
                match scope_find(varscope, name.as_str()) {
                    Some(i) => {
                        return Err(
                            CodegenError::AlreadyDeclared {
                                name: name.clone(),
                                previous_line: varscope[i].1.line,
                                line,
                            },
                        );
                    },
                    None => {},
                }
                scope_insert(varscope, name.clone(), DefinedVariable { scope: scope.clone(), line });
                match value {
                    Some(expr) => {
                        let v = self.generate_value(varscope, expr)?;
                        push_value(nodes, set_variable_node(scope, name.clone(), v.finalize()));
                        Ok(())
                    },
                    None => Ok(()),
                }
            },
            Statement::VariableSet { name, value } => {
                let scope = match scope_find(&self.global, name.as_str()) {
                    Some(i) => self.global[i].1.scope.clone(),
                    None => match scope_find(varscope, name.as_str()) {
                        Some(i) => varscope[i].1.scope.clone(),
                        None => return Err(CodegenError::UndefinedVariable { name: name.clone(), line }),
                    },
                };
                let v = self.generate_value(varscope, value)?;
                push_value(nodes, set_variable_node(scope, name.clone(), v.finalize()));
                Ok(())
            },
            Statement::ExpressionStatement(expression) => self.generate_exprstmt(varscope, expression, nodes),
        }
    }

    /// The actions of a handler's statements, with `varscope` as its variables.
    fn generate_body(&mut self, body: &Vec<StatementBox>, varscope: &mut Vec<(String, DefinedVariable)>) -> (r: Result<
        JsonValue,
        CodegenError,
    >)
        ensures
            final(self).frame(old(self)),
            match spec_body_gen(
                old(self).st(),
                old(self).acts(),
                BState {
                    varscope: scope_view(old(varscope)@),
                    nodes: seq![],
                    warnings: old(self).st().warnings,
                },
                sboxes_view(body@),
                0,
            ) {
                Ok(b) => r matches Ok(x) && x@ == SpecJson::Array(b.nodes) && scope_view(final(varscope)@)
                    == b.varscope && final(self).st().warnings == b.warnings,
                Err((e, w)) => r matches Err(x) && x@ == e && final(self).st().warnings == w,
            },
        decreases body, body@.len() + 1,
    {
        let ghost g = self.st();
        let ghost acts = self.acts();
        let ghost stmts = sboxes_view(body@);
        let mut nodes: Vec<JsonValue> = Vec::new();
        let ghost b0 = BState { varscope: scope_view(varscope@), nodes: seq![], warnings: g.warnings };
        assert(jsons_view(nodes@) =~= seq![]);
        let mut i: usize = 0;
        while i < body.len()
            invariant
                self.frame(old(self)),
                g == old(self).st(),
                acts == old(self).acts(),
                stmts == sboxes_view(body@),
                b0 == (BState {
                    varscope: scope_view(old(varscope)@),
                    nodes: seq![],
                    warnings: old(self).st().warnings,
                }),
                0 <= i <= body@.len(),
                spec_body_gen(g, acts, b0, stmts, 0) == spec_body_gen(
                    g,
                    acts,
                    BState {
                        varscope: scope_view(varscope@),
                        nodes: jsons_view(nodes@),
                        warnings: self.st().warnings,
                    },
                    stmts,
                    i as int,
                ),
            decreases body@.len() - i,
        {
            assert(decreases_to!(*body => body@));
            assert(decreases_to!(body@ => body@[i as int]));
            let ghost bcur = BState {
                varscope: scope_view(varscope@),
                nodes: jsons_view(nodes@),
                warnings: self.st().warnings,
            };
            assert(stmts[i as int] == sbox_view(body@[i as int]));
            assert(spec_body_gen(g, acts, bcur, stmts, i as int) == match spec_stmt_in_body(g, acts, bcur, stmts[i as int]) {
                Err(x) => Err(x),
                Ok(b2) => spec_body_gen(g, acts, b2, stmts, i + 1),
            });
            proof {
                lemma_stmt_context(self.st(), g, acts, bcur, stmts[i as int]);
            }
            self.generate_statement(&body[i], varscope, &mut nodes)?;
            i += 1;
        }
        Ok(JsonValue::Array(nodes))
    }

    /// A top-level statement: a handler, or nothing.
    fn generate_top_statement(&mut self, stmtbox: &StatementBox) -> (r: Result<Option<JsonValue>, CodegenError>)
        requires
            old(self).st().pos < 0xffff_ffff,
        ensures
            final(self).acts() == old(self).acts(),
            final(self).stmts() == old(self).stmts(),
            final(self).source() == old(self).source(),
            final(self).file() == old(self).file(),
            match spec_top(old(self).st(), old(self).acts(), stmtbox@) {
                Ok((o, g2)) => r matches Ok(x) && opt_json_view(x) == o && final(self).st() == g2,
                Err((e, w)) => r matches Err(x) && x@ == e && final(self).st().warnings == w,
            },
    {
        let line = stmtbox.line;
        match &stmtbox.content {
            Statement::FunctionDefinition { name, params: _, body } => {
                let mut varscope: Vec<(String, DefinedVariable)> = Vec::new();
                assert(scope_view(varscope@) =~= seq![]);
                let operations = self.generate_body(body, &mut varscope)?;
                self.pos += 1;
                funcs_insert(&mut self.funcs, name.clone(), varscope);
                Ok(Some(handler_node("function", self.pos, "name", name.clone(), operations)))
            },
            Statement::ProcessDefinition { name, params: _, body } => {
                let mut varscope: Vec<(String, DefinedVariable)> = Vec::new();
                assert(scope_view(varscope@) =~= seq![]);
                let operations = self.generate_body(body, &mut varscope)?;
                self.pos += 1;
                let ghost procs0 = self.procs@;
                self.procs.push(name.clone());
                assert(strings_view(self.procs@) =~= strings_view(procs0).push(name@));
                Ok(Some(handler_node("process", self.pos, "name", name.clone(), operations)))
            },
            Statement::EventDefinition { event, body } => {
                let mut varscope: Vec<(String, DefinedVariable)> = Vec::new();
                assert(scope_view(varscope@) =~= seq![]);
                let operations = self.generate_body(body, &mut varscope)?;
                self.pos += 1;
                Ok(Some(handler_node("event", self.pos, "event", event.clone(), operations)))
            },
            Statement::VariableDefinition { scope, name, value } => {
                let scope = if str_eq(scope.as_str(), "default") {
                    String::from_str("line")
                } else {
                    scope.clone()
                };
                if value.is_some() {
                    return Err(CodegenError::HeadlessDefinition { line });
                }
                match scope_find(&self.global, name.as_str()) {
                    Some(i) => {
                        return Err(
                            CodegenError::AlreadyDeclared {
                                name: name.clone(),
                                previous_line: self.global[i].1.line,
                                line,
                            },
                        );
                    },
                    None => {},
                }
                scope_insert(&mut self.global, name.clone(), DefinedVariable { scope, line });
                Ok(None)
            },
            Statement::VariableSet { .. } => Err(CodegenError::HeadlessSet { line }),
            Statement::ExpressionStatement(_) => Err(CodegenError::HeadlessExpression { line }),
        }
    }

    /// Compiles all the statements into the module document
    /// `{"handlers": [...]}`, in which each function, process and event
    /// definition is a handler at the next position.
    pub fn generate(&mut self) -> (r: Result<JsonValue, CodegenError>)
        requires
            old(self).st().pos + old(self).stmts().len() < 0xffff_ffff,
        ensures
            final(self).acts() == old(self).acts(),
            final(self).stmts() == Seq::<StatementBox>::empty(),
            final(self).source() == old(self).source(),
            final(self).file() == old(self).file(),
            match spec_generate(old(self).st(), old(self).acts(), sboxes_view(old(self).stmts())) {
                Ok((j, g2)) => r matches Ok(x) && x@ == j && final(self).st() == g2,
                Err((e, w)) => r matches Err(x) && x@ == e && final(self).st().warnings == w,
            },
    {
        let mut statements: Vec<StatementBox> = Vec::new();
        std::mem::swap(&mut statements, &mut self.statements);
        let ghost g0 = old(self).st();
        let ghost acts = self.acts();
        let ghost stmts = sboxes_view(statements@);
        let mut nodes: Vec<JsonValue> = Vec::new();
        assert(jsons_view(nodes@) =~= seq![]);
        let mut i: usize = 0;
        while i < statements.len()
            invariant
                acts == self.acts(),
                acts == old(self).acts(),
                self.stmts() == Seq::<StatementBox>::empty(),
                self.source() == old(self).source(),
                self.file() == old(self).file(),
                stmts == sboxes_view(statements@),
                stmts == sboxes_view(old(self).stmts()),
                g0 == old(self).st(),
                0 <= i <= statements@.len(),
                self.st().pos <= g0.pos + i,
                g0.pos + statements@.len() < 0xffff_ffff,
                spec_generate_from(g0, acts, stmts, 0, seq![]) == spec_generate_from(
                    self.st(),
                    acts,
                    stmts,
                    i as int,
                    jsons_view(nodes@),
                ),
            decreases statements@.len() - i,
        {
            let node = self.generate_top_statement(&statements[i])?;
            match node {
                Some(j) => push_value(&mut nodes, j),
                None => {},
            }
            i += 1;
        }
        let ghost handlers = jsons_view(nodes@);
        let mut fields: Vec<(String, JsonValue)> = Vec::new();
        push_field(&mut fields, String::from_str("handlers"), JsonValue::Array(nodes));
        assert(fields_view(fields@) =~= seq![("handlers"@, SpecJson::Array(handlers))]);
        Ok(JsonValue::Object(fields))
    }
}

} // verus!
