//! What the code generator writes, read back from the JSON it produces.
use vstd::prelude::*;

use crate::actions::{Action, Argument, action_index};
use crate::ast::{SpecExpression, SpecExpressionBox, SpecStatement, SpecStatementBox};
use crate::codegen::{
    BState, CgState, SpecDefinedVariable, SpecScope, first_key, insert_key, is_first_key,
    lemma_first_key, lookup, spec_body_gen, SpecCValue, spec_finalize_all, spec_merge, spec_exprstmt, spec_finalize, spec_gen_kwargs, spec_gen_posargs,
    spec_gen_value, spec_stmt_in_body, spec_top, spec_generate, spec_generate_from, SpecCodegenError, SpecWarning,
};
use crate::json::SpecJson;

verus! {

// ---------------------------------------------------------------------------
// Reading the generated JSON.

/// The string a JSON value holds, or the empty text.
pub open spec fn str_of(j: SpecJson) -> Seq<char> {
    match j {
        SpecJson::Str(s) => s,
        _ => seq![],
    }
}

/// The members of a JSON object, or none.
pub open spec fn members(j: SpecJson) -> Seq<(Seq<char>, SpecJson)> {
    match j {
        SpecJson::Object(fs) => fs,
        _ => seq![],
    }
}

/// The items of a JSON array, or none.
pub open spec fn items(j: SpecJson) -> Seq<SpecJson> {
    match j {
        SpecJson::Array(vs) => vs,
        _ => seq![],
    }
}

/// The member called `key`, when it stands at place `k`.
pub open spec fn member_at(j: SpecJson, k: int, key: Seq<char>) -> Option<SpecJson> {
    let fs = members(j);
    if 0 <= k < fs.len() && fs[k].0 == key {
        Some(fs[k].1)
    } else {
        None
    }
}

/// The action an action node runs: its `"action"` member.
pub open spec fn action_of(j: SpecJson) -> Option<Seq<char>> {
    match member_at(j, 0, "action"@) {
        Some(a) => Some(str_of(a)),
        None => None,
    }
}

/// The argument entries of an action node: its `"values"` member.
pub open spec fn entries_of(j: SpecJson) -> Seq<SpecJson> {
    match member_at(j, 1, "values"@) {
        Some(v) => items(v),
        None => seq![],
    }
}

/// The name of an argument entry `{"name": n, "value": v}`.
pub open spec fn entry_name(j: SpecJson) -> Option<Seq<char>> {
    match member_at(j, 0, "name"@) {
        Some(n) => Some(str_of(n)),
        None => None,
    }
}

/// The value of an argument entry `{"name": n, "value": v}`.
pub open spec fn entry_value(j: SpecJson) -> Option<SpecJson> {
    member_at(j, 1, "value"@)
}

/// The scope and name of the variable a `set_variable_value` node writes.
pub open spec fn written_variable(j: SpecJson) -> Option<(Seq<char>, Seq<char>)> {
    let es = entries_of(j);
    if action_of(j) == Some("set_variable_value"@) && es.len() == 2 && entry_name(es[0]) == Some("variable"@) {
        match entry_value(es[0]) {
            Some(v) => match (member_at(v, 1, "scope"@), member_at(v, 2, "variable"@)) {
                (Some(sc), Some(n)) => Some((str_of(sc), str_of(n))),
                _ => None,
            },
            None => None,
        }
    } else {
        None
    }
}

/// The value a `set_variable_value` node stores.
pub open spec fn written_value(j: SpecJson) -> Option<SpecJson> {
    let es = entries_of(j);
    if es.len() == 2 && entry_name(es[1]) == Some("value"@) {
        entry_value(es[1])
    } else {
        None
    }
}

/// The `"operations"` member of a handler.
pub open spec fn operations_of(j: SpecJson) -> Option<SpecJson> {
    member_at(j, 3, "operations"@)
}

// ---------------------------------------------------------------------------
// Keyed lists.

proof fn lemma_lookup_inserted<V>(s: Seq<(Seq<char>, V)>, k: Seq<char>, v: V)
    ensures
        lookup(insert_key(s, k, v), k) == Some(v),
{
    let i = first_key(s, k);
    let s2 = insert_key(s, k, v);
    if i >= 0 {
        let m = choose|m: int| is_first_key(s, k, m);
        lemma_first_key(s, k, m);
        assert(is_first_key(s2, k, i));
        lemma_first_key(s2, k, i);
    } else {
        assert forall|m: int| 0 <= m < s.len() implies s[m].0 != k by {
            if s[m].0 == k {
                lemma_present(s, k, m);
            }
        }
        assert(is_first_key(s2, k, s.len() as int));
        lemma_first_key(s2, k, s.len() as int);
    }
}

proof fn lemma_present<V>(s: Seq<(Seq<char>, V)>, k: Seq<char>, j: int)
    requires
        0 <= j < s.len(),
        s[j].0 == k,
    ensures
        first_key(s, k) >= 0,
    decreases j,
{
    if exists|j2: int| 0 <= j2 < j && s[j2].0 == k {
        let j2 = choose|j2: int| 0 <= j2 < j && s[j2].0 == k;
        lemma_present(s, k, j2);
    } else {
        assert(is_first_key(s, k, j));
    }
}

// ---------------------------------------------------------------------------
// Arguments of action calls.

proof fn lemma_posargs(
    global: SpecScope,
    vs: SpecScope,
    params: Seq<Argument>,
    exprs: Seq<SpecExpressionBox>,
    i: int,
    acc: Seq<SpecJson>,
)
    requires
        0 <= i <= exprs.len(),
    ensures
        spec_gen_posargs(global, vs, params, exprs, i, acc) matches Ok(vals) ==> {
            &&& vals.len() == acc.len() + exprs.len() - i
            &&& forall|m: int| 0 <= m < acc.len() ==> vals[m] == acc[m]
            &&& forall|k: int|
                i <= k < exprs.len() ==> {
                    &&& entry_name(#[trigger] vals[acc.len() + k - i]) == Some(params[k].id@)
                    &&& spec_gen_value(global, vs, exprs[k]) is Ok
                    &&& entry_value(vals[acc.len() + k - i]) == Some(
                        spec_finalize(spec_gen_value(global, vs, exprs[k])->Ok_0),
                    )
                }
        },
    decreases exprs.len() - i,
{
    if i < exprs.len() {
        if let Ok(v) = spec_gen_value(global, vs, exprs[i]) {
            let e = crate::codegen::named_json(params[i].id@, spec_finalize(v));
            let acc2 = acc.push(e);
            lemma_posargs(global, vs, params, exprs, i + 1, acc2);
            assert(entry_name(e) == Some(params[i].id@));
            assert(entry_value(e) == Some(spec_finalize(v)));
            if let Ok(vals) = spec_gen_posargs(global, vs, params, exprs, i + 1, acc2) {
                assert(vals[acc.len() as int] == acc2[acc.len() as int]);
                assert forall|m: int| 0 <= m < acc.len() implies vals[m] == acc[m] by {
                    assert(vals[m] == acc2[m]);
                }
                assert forall|k: int| i <= k < exprs.len() implies {
                    &&& entry_name(#[trigger] vals[acc.len() + k - i]) == Some(params[k].id@)
                    &&& spec_gen_value(global, vs, exprs[k]) is Ok
                    &&& entry_value(vals[acc.len() + k - i]) == Some(
                        spec_finalize(spec_gen_value(global, vs, exprs[k])->Ok_0),
                    )
                } by {
                    if k > i {
                        assert(acc2.len() + k - (i + 1) == acc.len() + k - i);
                    }
                }
            }
        }
    }
}

proof fn lemma_kwargs(
    global: SpecScope,
    vs: SpecScope,
    kws: Seq<(Seq<char>, SpecExpressionBox)>,
    i: int,
    acc: Seq<SpecJson>,
)
    requires
        0 <= i <= kws.len(),
    ensures
        spec_gen_kwargs(global, vs, kws, i, acc) matches Ok(vals) ==> {
            &&& vals.len() == acc.len() + kws.len() - i
            &&& forall|m: int| 0 <= m < acc.len() ==> vals[m] == acc[m]
            &&& forall|k: int|
                i <= k < kws.len() ==> {
                    &&& entry_name(#[trigger] vals[acc.len() + k - i]) == Some(kws[k].0)
                    &&& spec_gen_value(global, vs, kws[k].1) is Ok
                    &&& entry_value(vals[acc.len() + k - i]) == Some(
                        spec_finalize(spec_gen_value(global, vs, kws[k].1)->Ok_0),
                    )
                }
        },
    decreases kws.len() - i,
{
    if i < kws.len() {
        if let Ok(v) = spec_gen_value(global, vs, kws[i].1) {
            let e = crate::codegen::named_json(kws[i].0, spec_finalize(v));
            let acc2 = acc.push(e);
            lemma_kwargs(global, vs, kws, i + 1, acc2);
            assert(entry_name(e) == Some(kws[i].0));
            assert(entry_value(e) == Some(spec_finalize(v)));
            if let Ok(vals) = spec_gen_kwargs(global, vs, kws, i + 1, acc2) {
                assert(vals[acc.len() as int] == acc2[acc.len() as int]);
                assert forall|m: int| 0 <= m < acc.len() implies vals[m] == acc[m] by {
                    assert(vals[m] == acc2[m]);
                }
                assert forall|k: int| i <= k < kws.len() implies {
                    &&& entry_name(#[trigger] vals[acc.len() + k - i]) == Some(kws[k].0)
                    &&& spec_gen_value(global, vs, kws[k].1) is Ok
                    &&& entry_value(vals[acc.len() + k - i]) == Some(
                        spec_finalize(spec_gen_value(global, vs, kws[k].1)->Ok_0),
                    )
                } by {
                    if k > i {
                        assert(acc2.len() + k - (i + 1) == acc.len() + k - i);
                    }
                }
            }
        }
    }
}

/// The entries `vals` name and hold the arguments of a call of the action
/// with parameters `params`: the k-th positional argument under the k-th
/// parameter's identifier, then each named argument under its name, in order,
/// each holding the JSON form of the argument's compiled value.
pub open spec fn entries_follow_arguments(
    vals: Seq<SpecJson>,
    global: SpecScope,
    vs: SpecScope,
    params: Seq<Argument>,
    pos: Seq<SpecExpressionBox>,
    kws: Seq<(Seq<char>, SpecExpressionBox)>,
) -> bool {
    &&& vals.len() == pos.len() + kws.len()
    &&& forall|k: int|
        0 <= k < pos.len() ==> {
            &&& entry_name(#[trigger] vals[k]) == Some(params[k].id@)
            &&& spec_gen_value(global, vs, pos[k]) is Ok
            &&& entry_value(vals[k]) == Some(spec_finalize(spec_gen_value(global, vs, pos[k])->Ok_0))
        }
    &&& forall|k: int|
        0 <= k < kws.len() ==> {
            &&& entry_name(#[trigger] vals[pos.len() + k]) == Some(kws[k].0)
            &&& spec_gen_value(global, vs, kws[k].1) is Ok
            &&& entry_value(vals[pos.len() + k]) == Some(spec_finalize(spec_gen_value(global, vs, kws[k].1)->Ok_0))
        }
}

proof fn lemma_arguments(
    global: SpecScope,
    vs: SpecScope,
    params: Seq<Argument>,
    pos: Seq<SpecExpressionBox>,
    kws: Seq<(Seq<char>, SpecExpressionBox)>,
)
    ensures
        spec_gen_posargs(global, vs, params, pos, 0, seq![]) matches Ok(v1) ==> (spec_gen_kwargs(
            global,
            vs,
            kws,
            0,
            v1,
        ) matches Ok(vals) ==> entries_follow_arguments(vals, global, vs, params, pos, kws)),
{
    lemma_posargs(global, vs, params, pos, 0, seq![]);
    if let Ok(v1) = spec_gen_posargs(global, vs, params, pos, 0, seq![]) {
        lemma_kwargs(global, vs, kws, 0, v1);
        if let Ok(vals) = spec_gen_kwargs(global, vs, kws, 0, v1) {
            assert forall|k: int| 0 <= k < pos.len() implies {
                &&& entry_name(#[trigger] vals[k]) == Some(params[k].id@)
                &&& spec_gen_value(global, vs, pos[k]) is Ok
                &&& entry_value(vals[k]) == Some(spec_finalize(spec_gen_value(global, vs, pos[k])->Ok_0))
            } by {
                assert(vals[k] == v1[k]);
                assert(v1[k] == v1[0 + k - 0]);
            }
            assert forall|k: int| 0 <= k < kws.len() implies {
                &&& entry_name(#[trigger] vals[pos.len() + k]) == Some(kws[k].0)
                &&& spec_gen_value(global, vs, kws[k].1) is Ok
                &&& entry_value(vals[pos.len() + k]) == Some(spec_finalize(spec_gen_value(global, vs, kws[k].1)->Ok_0))
            } by {
                assert(v1.len() + k - 0 == pos.len() + k);
            }
        }
    }
}

/// An action call compiles to one action node, added after the handler's
/// nodes: the node runs the action the catalogue gives for `object::method`,
/// and its entries name the k-th positional argument after the action's k-th
/// argument and each named argument after its name, in order, each holding
/// the argument's compiled value; variables and warnings stay as they were.
pub proof fn law_action_call(g: CgState, actions: Seq<Action>, b: BState, e: SpecExpressionBox)
    ensures
        e.content matches SpecExpression::MethodCall { object, method, args } ==> (spec_exprstmt(
            g,
            actions,
            b,
            e,
        ) matches Ok(b2) ==> {
            &&& action_index(actions, object, method) is Some
            &&& args.posargs.len() <= actions[action_index(actions, object, method)->0].args@.len()
            &&& b2.varscope == b.varscope
            &&& b2.warnings == b.warnings
            &&& b2.nodes.len() == b.nodes.len() + 1
            &&& b2.nodes.take(b.nodes.len() as int) == b.nodes
            &&& action_of(b2.nodes.last()) == Some(actions[action_index(actions, object, method)->0].id@)
            &&& entries_follow_arguments(
                entries_of(b2.nodes.last()),
                g.global,
                b.varscope,
                actions[action_index(actions, object, method)->0].args@,
                args.posargs,
                args.kwargs,
            )
        }),
{
    if let SpecExpression::MethodCall { object, method, args } = e.content {
        if let Some(i) = action_index(actions, object, method) {
            let action = actions[i];
            lemma_arguments(g.global, b.varscope, action.args@, args.posargs, args.kwargs);
            reveal_strlit("action");
            reveal_strlit("values");
            if let Ok(b2) = spec_exprstmt(g, actions, b, e) {
                assert(b2.nodes.take(b.nodes.len() as int) =~= b.nodes);
            }
        }
    }
}

/// A condition compiles to one node, added after the handler's nodes: it
/// runs the action the catalogue gives for `object::method`, with entries
/// that follow the arguments as for an action call, is inverted exactly when
/// written with `!`, and its operations are the nodes its body compiles to,
/// with the handler's variables.
pub proof fn law_condition(g: CgState, actions: Seq<Action>, b: BState, e: SpecExpressionBox)
    ensures
        e.content matches SpecExpression::Condition { object, method, inverted, args, body } ==> (spec_exprstmt(
            g,
            actions,
            b,
            e,
        ) matches Ok(b2) ==> {
            &&& action_index(actions, object, method) is Some
            &&& args.posargs.len() <= actions[action_index(actions, object, method)->0].args@.len()
            &&& b2.nodes.len() == b.nodes.len() + 1
            &&& b2.nodes.take(b.nodes.len() as int) == b.nodes
            &&& action_of(b2.nodes.last()) == Some(actions[action_index(actions, object, method)->0].id@)
            &&& entries_follow_arguments(
                entries_of(b2.nodes.last()),
                g.global,
                b.varscope,
                actions[action_index(actions, object, method)->0].args@,
                args.posargs,
                args.kwargs,
            )
            &&& member_at(b2.nodes.last(), 2, "is_inverted"@) == Some(SpecJson::Bool(inverted))
            &&& spec_body_gen(g, actions, BState { varscope: b.varscope, nodes: seq![], warnings: b.warnings }, body, 0)
                matches Ok(bb) && member_at(b2.nodes.last(), 3, "operations"@) == Some(SpecJson::Array(bb.nodes))
                && b2.varscope == bb.varscope && b2.warnings == bb.warnings
        }),
{
    if let SpecExpression::Condition { object, method, inverted, args, body } = e.content {
        if let Some(i) = action_index(actions, object, method) {
            let action = actions[i];
            lemma_arguments(g.global, b.varscope, action.args@, args.posargs, args.kwargs);
            reveal_strlit("action");
            reveal_strlit("values");
            reveal_strlit("is_inverted");
            reveal_strlit("operations");
            if let Ok(b2) = spec_exprstmt(g, actions, b, e) {
                assert(b2.nodes.take(b.nodes.len() as int) =~= b.nodes);
            }
        }
    }
}

// ---------------------------------------------------------------------------
// Declarations and assignments.

/// The scope a declaration written with `scope` gives: `default` (from `var`)
/// is `line`, any other scope is itself.
pub open spec fn scope_given(scope: Seq<char>) -> Seq<char> {
    if scope == "default"@ {
        "line"@
    } else {
        scope
    }
}

/// The scope under which a name is declared: among the global variables
/// first, then among the handler's.
pub open spec fn declared_scope_of(global: SpecScope, vs: SpecScope, name: Seq<char>) -> Option<Seq<char>> {
    match lookup(global, name) {
        Some(d) => Some(d.scope),
        None => match lookup(vs, name) {
            Some(d) => Some(d.scope),
            None => None,
        },
    }
}

/// An assignment `name = value;` in a handler stores the value's compiled form
/// in the variable `name` of the scope it was declared with (a global
/// declaration first, then the handler's), as one node added after the
/// handler's nodes; it needs a declaration, and changes no variable or warning.
pub proof fn law_assignment(g: CgState, actions: Seq<Action>, b: BState, s: SpecStatementBox)
    ensures
        s.content matches SpecStatement::VariableSet { name, value } ==> {
            &&& declared_scope_of(g.global, b.varscope, name) is None ==> spec_stmt_in_body(g, actions, b, s) is Err
            &&& spec_stmt_in_body(g, actions, b, s) matches Ok(b2) ==> {
                &&& b2.varscope == b.varscope
                &&& b2.warnings == b.warnings
                &&& b2.nodes.len() == b.nodes.len() + 1
                &&& b2.nodes.take(b.nodes.len() as int) == b.nodes
                &&& declared_scope_of(g.global, b.varscope, name) is Some
                &&& written_variable(b2.nodes.last()) == Some(
                    (declared_scope_of(g.global, b.varscope, name)->0, name),
                )
                &&& spec_gen_value(g.global, b.varscope, value) matches Ok(v) && written_value(b2.nodes.last())
                    == Some(spec_finalize(v))
            }
        },
{
    reveal_strlit("set_variable_value");
    reveal_strlit("action");
    reveal_strlit("values");
    reveal_strlit("variable");
    reveal_strlit("value");
    reveal_strlit("name");
    reveal_strlit("scope");
    reveal_strlit("type");
    assert("variable"@[0] == 'v' && "value"@[4] == 'e' && "variable"@[4] == 'a');
    assert("variable"@ != "value"@);
    if let Ok(b2) = spec_stmt_in_body(g, actions, b, s) {
        assert(b2.nodes.take(b.nodes.len() as int) =~= b.nodes);
    }
}

/// A declaration `scope name [= value];` in a handler records the variable
/// with its scope (`default` meaning `line`) and line, so that the name now
/// means it; with a value, it stores the value's compiled form in that
/// variable of that scope, as one node added after the handler's nodes.
pub proof fn law_declaration_in_handler(g: CgState, actions: Seq<Action>, b: BState, s: SpecStatementBox)
    ensures
        s.content matches SpecStatement::VariableDefinition { scope, name, value } ==> (spec_stmt_in_body(
            g,
            actions,
            b,
            s,
        ) matches Ok(b2) ==> {
            &&& lookup(g.global, name) is None
            &&& lookup(b.varscope, name) is None
            &&& lookup(b2.varscope, name) == Some(SpecDefinedVariable { scope: scope_given(scope), line: s.line })
            &&& b2.warnings == b.warnings
            &&& value is None ==> b2.nodes == b.nodes
            &&& value is Some ==> {
                &&& b2.nodes.len() == b.nodes.len() + 1
                &&& b2.nodes.take(b.nodes.len() as int) == b.nodes
                &&& written_variable(b2.nodes.last()) == Some((scope_given(scope), name))
            }
        }),
{
    reveal_strlit("set_variable_value");
    reveal_strlit("action");
    reveal_strlit("values");
    reveal_strlit("variable");
    reveal_strlit("value");
    reveal_strlit("name");
    reveal_strlit("scope");
    reveal_strlit("type");
    assert("variable"@[0] == 'v' && "value"@[4] == 'e' && "variable"@[4] == 'a');
    assert("variable"@ != "value"@);
    if let SpecStatement::VariableDefinition { scope, name, value } = s.content {
        lemma_lookup_inserted(b.varscope, name, SpecDefinedVariable { scope: scope_given(scope), line: s.line });
        if let Ok(b2) = spec_stmt_in_body(g, actions, b, s) {
            assert(b2.nodes.take(b.nodes.len() as int) =~= b.nodes);
        }
    }
}

/// A variable declared in a handler and then assigned there is written both
/// times in the scope it was declared with.
pub proof fn law_declare_then_assign(
    g: CgState,
    actions: Seq<Action>,
    b: BState,
    d: SpecStatementBox,
    a: SpecStatementBox,
)
    requires
        d.content matches SpecStatement::VariableDefinition { value: Some(_), .. },
        a.content matches SpecStatement::VariableSet { name, .. } && d.content->VariableDefinition_name == name,
    ensures
        spec_body_gen(g, actions, b, seq![d, a], 0) matches Ok(b2) ==> {
            &&& b2.nodes.len() == b.nodes.len() + 2
            &&& written_variable(b2.nodes[b.nodes.len() as int]) == Some(
                (scope_given(d.content->VariableDefinition_scope), d.content->VariableDefinition_name),
            )
            &&& written_variable(b2.nodes[b.nodes.len() + 1int]) == Some(
                (scope_given(d.content->VariableDefinition_scope), d.content->VariableDefinition_name),
            )
        },
{
    let stmts = seq![d, a];
    law_declaration_in_handler(g, actions, b, d);
    if let Ok(b1) = spec_stmt_in_body(g, actions, b, d) {
        law_assignment(g, actions, b1, a);
        assert(stmts[0] == d && stmts[1] == a);
        assert(spec_body_gen(g, actions, b, stmts, 0) == spec_body_gen(g, actions, b1, stmts, 1));
        if let Ok(b2) = spec_stmt_in_body(g, actions, b1, a) {
            assert(spec_body_gen(g, actions, b1, stmts, 1) == spec_body_gen(g, actions, b2, stmts, 2));
            assert(spec_body_gen(g, actions, b2, stmts, 2) == Ok::<BState, (crate::codegen::SpecCodegenError, Seq<crate::codegen::SpecWarning>)>(b2));
            assert(b2.nodes[b.nodes.len() as int] == b2.nodes.take(b1.nodes.len() as int)[b.nodes.len() as int]);
            assert(declared_scope_of(g.global, b1.varscope, d.content->VariableDefinition_name) == Some(
                scope_given(d.content->VariableDefinition_scope),
            ));
        } else {
            assert(spec_body_gen(g, actions, b1, stmts, 1) is Err);
        }
    }
}

// ---------------------------------------------------------------------------
// Handlers.

/// A function, process or event definition compiles its body with no
/// variables of its own, and the handler it becomes holds exactly the nodes
/// the body compiles to as its operations; the warnings are the body's.
pub proof fn law_handler_operations(g: CgState, actions: Seq<Action>, s: SpecStatementBox)
    ensures
        ({
            let fresh = BState { varscope: seq![], nodes: seq![], warnings: g.warnings };
            let body = match s.content {
                SpecStatement::FunctionDefinition { body, .. } => body,
                SpecStatement::ProcessDefinition { body, .. } => body,
                SpecStatement::EventDefinition { body, .. } => body,
                _ => seq![],
            };
            spec_top(g, actions, s) matches Ok((Some(j), g2)) ==> {
                &&& spec_body_gen(g, actions, fresh, body, 0) matches Ok(bb)
                &&& operations_of(j) == Some(SpecJson::Array(bb.nodes))
                &&& g2.warnings == bb.warnings
                &&& members(j).len() == 4
                &&& member_at(j, 1, "position"@) == Some(SpecJson::Integer(g.pos + 1))
                &&& (s.content matches SpecStatement::FunctionDefinition { name, .. } ==> member_at(j, 0, "type"@)
                    == Some(SpecJson::Str("function"@)) && member_at(j, 2, "name"@) == Some(SpecJson::Str(name)))
                &&& (s.content matches SpecStatement::ProcessDefinition { name, .. } ==> member_at(j, 0, "type"@)
                    == Some(SpecJson::Str("process"@)) && member_at(j, 2, "name"@) == Some(SpecJson::Str(name)))
                &&& (s.content matches SpecStatement::EventDefinition { event, .. } ==> member_at(j, 0, "type"@)
                    == Some(SpecJson::Str("event"@)) && member_at(j, 2, "event"@) == Some(SpecJson::Str(event)))
            }
        }),
        s.content is VariableDefinition || s.content is VariableSet || s.content is ExpressionStatement ==> !(spec_top(
            g,
            actions,
            s,
        ) matches Ok((Some(_), _))),
{
    reveal_strlit("operations");
}

/// Definitions cannot stand in a handler: a function, process or event
/// definition among a handler's statements is an error.
pub proof fn law_no_definitions_in_handlers(g: CgState, actions: Seq<Action>, b: BState, s: SpecStatementBox)
    requires
        s.content is FunctionDefinition || s.content is ProcessDefinition || s.content is EventDefinition,
    ensures
        spec_stmt_in_body(g, actions, b, s) is Err,
{
}

// ---------------------------------------------------------------------------
// Values as JSON.

/// The `"type"` member of a JSON value.
pub open spec fn type_of(j: SpecJson) -> Option<Seq<char>> {
    match member_at(j, 0, "type"@) {
        Some(t) => Some(str_of(t)),
        None => None,
    }
}

/// The JSON form of each kind of value, read back: a variable gives its scope
/// and name, a text its parsing and text, a number its literal, an array the
/// forms of its elements in order, a game value its name, and a factory value
/// its kind followed by its fields.
pub proof fn law_value_json(v: SpecCValue)
    ensures
        v matches SpecCValue::Variable { scope, name } ==> {
            &&& type_of(spec_finalize(v)) == Some("variable"@)
            &&& member_at(spec_finalize(v), 1, "scope"@) == Some(SpecJson::Str(scope))
            &&& member_at(spec_finalize(v), 2, "variable"@) == Some(SpecJson::Str(name))
            &&& members(spec_finalize(v)).len() == 3
        },
        v matches SpecCValue::Text { parsing, text } ==> {
            &&& type_of(spec_finalize(v)) == Some("text"@)
            &&& member_at(spec_finalize(v), 1, "parsing"@) == Some(SpecJson::Str(parsing))
            &&& member_at(spec_finalize(v), 2, "text"@) == Some(SpecJson::Str(text))
            &&& members(spec_finalize(v)).len() == 3
        },
        v matches SpecCValue::Number(n) ==> {
            &&& type_of(spec_finalize(v)) == Some("number"@)
            &&& member_at(spec_finalize(v), 1, "number"@) == Some(SpecJson::Number(n))
            &&& members(spec_finalize(v)).len() == 2
        },
        v matches SpecCValue::Array(vs) ==> {
            &&& type_of(spec_finalize(v)) == Some("array"@)
            &&& members(spec_finalize(v)).len() == 2
            &&& member_at(spec_finalize(v), 1, "values"@) matches Some(SpecJson::Array(js)) && js.len() == vs.len()
                && forall|k: int| 0 <= k < vs.len() ==> js[k] == spec_finalize(#[trigger] vs[k])
        },
        v matches SpecCValue::GameValue(name) ==> {
            &&& type_of(spec_finalize(v)) == Some("game_value"@)
            &&& member_at(spec_finalize(v), 1, "game_value"@) == Some(SpecJson::Str(name))
        },
        v matches SpecCValue::Factory { kind, fields } ==> {
            &&& type_of(spec_finalize(v)) == Some(kind)
            &&& members(spec_finalize(v)) == seq![("type"@, SpecJson::Str(kind))] + fields
        },
{
    reveal_strlit("type");
    if let SpecCValue::Array(vs) = v {
        assert forall|k: int| 0 <= k < vs.len() implies spec_finalize_all(vs)[k] == spec_finalize(#[trigger] vs[k]) by {}
    }
}

// ---------------------------------------------------------------------------
// Calls of functions and processes.

/// A call of a function defined before becomes one `call_function` node that
/// names the function, added after the handler's nodes, and takes the
/// function's variables in; a call of a process (not a function) becomes one
/// `start_process` node that names it; any other call is an error.
pub proof fn law_function_call(g: CgState, actions: Seq<Action>, b: BState, e: SpecExpressionBox)
    ensures
        e.content matches SpecExpression::FunctionCall { name, .. } ==> {
            &&& (lookup(g.funcs, name) is None && !g.procs.contains(name)) ==> spec_exprstmt(g, actions, b, e) is Err
            &&& spec_exprstmt(g, actions, b, e) matches Ok(b2) ==> {
                &&& b2.nodes.len() == b.nodes.len() + 1
                &&& b2.nodes.take(b.nodes.len() as int) == b.nodes
                &&& entries_of(b2.nodes.last()).len() == 1
                &&& entry_value(entries_of(b2.nodes.last())[0]) matches Some(t) && member_at(t, 1, "text"@) == Some(
                    SpecJson::Str(name),
                )
                &&& lookup(g.funcs, name) matches Some(fscope) ==> {
                    &&& action_of(b2.nodes.last()) == Some("call_function"@)
                    &&& entry_name(entries_of(b2.nodes.last())[0]) == Some("function_name"@)
                    &&& (b2.varscope, b2.warnings) == spec_merge(b.varscope, b.warnings, fscope, 0, name, e.line)
                }
                &&& lookup(g.funcs, name) is None ==> {
                    &&& g.procs.contains(name)
                    &&& action_of(b2.nodes.last()) == Some("start_process"@)
                    &&& entry_name(entries_of(b2.nodes.last())[0]) == Some("process_name"@)
                    &&& b2.varscope == b.varscope
                    &&& b2.warnings == b.warnings
                }
            }
        },
{
    reveal_strlit("action");
    reveal_strlit("values");
    reveal_strlit("name");
    reveal_strlit("value");
    reveal_strlit("text");
    if let Ok(b2) = spec_exprstmt(g, actions, b, e) {
        assert(b2.nodes.take(b.nodes.len() as int) =~= b.nodes);
    }
}

/// What a top-level statement leaves for later ones: a declaration without a
/// value adds a global variable with its scope (`default` meaning `line`) and
/// line, and needs a name not declared before; a value there is an error; a
/// function definition records the variables its body declared (and took in)
/// under its name, so that calls find them; a process definition records its
/// name; the global variables stay as they were for definitions.
pub proof fn law_top_effects(g: CgState, actions: Seq<Action>, s: SpecStatementBox)
    ensures
        s.content matches SpecStatement::VariableDefinition { scope, name, value } ==> {
            &&& value is Some ==> spec_top(g, actions, s) is Err
            &&& lookup(g.global, name) is Some ==> spec_top(g, actions, s) is Err
            &&& spec_top(g, actions, s) matches Ok((o, g2)) ==> {
                &&& o is None
                &&& lookup(g2.global, name) == Some(SpecDefinedVariable { scope: scope_given(scope), line: s.line })
                &&& g2.funcs == g.funcs && g2.procs == g.procs && g2.pos == g.pos
            }
        },
        s.content matches SpecStatement::FunctionDefinition { name, body, .. } ==> (spec_top(g, actions, s) matches Ok(
            (_, g2),
        ) ==> {
            &&& spec_body_gen(g, actions, BState { varscope: seq![], nodes: seq![], warnings: g.warnings }, body, 0)
                matches Ok(bb) && lookup(g2.funcs, name) == Some(bb.varscope)
            &&& g2.global == g.global && g2.procs == g.procs
        }),
        s.content matches SpecStatement::ProcessDefinition { name, .. } ==> (spec_top(g, actions, s) matches Ok(
            (_, g2),
        ) ==> g2.procs.contains(name) && g2.global == g.global && g2.funcs == g.funcs),
        s.content matches SpecStatement::EventDefinition { .. } ==> (spec_top(g, actions, s) matches Ok((_, g2))
            ==> g2.global == g.global && g2.funcs == g.funcs && g2.procs == g.procs),
{
    match s.content {
        SpecStatement::VariableDefinition { scope, name, value } => {
            lemma_lookup_inserted(g.global, name, SpecDefinedVariable { scope: scope_given(scope), line: s.line });
        },
        SpecStatement::FunctionDefinition { name, body, .. } => {
            if let Ok(bb) = spec_body_gen(g, actions, BState { varscope: seq![], nodes: seq![], warnings: g.warnings }, body, 0) {
                lemma_lookup_inserted(g.funcs, name, bb.varscope);
            }
        },
        SpecStatement::ProcessDefinition { name, .. } => {
            if let Ok((_, g2)) = spec_top(g, actions, s) {
                assert(g2.procs[g2.procs.len() - 1] == name);
            }
        },
        _ => {},
    }
}

// ---------------------------------------------------------------------------
// Bodies.

proof fn lemma_body_suffix(
    g: CgState,
    actions: Seq<Action>,
    b: BState,
    x: Seq<SpecStatementBox>,
    y: Seq<SpecStatementBox>,
    j: int,
)
    requires
        0 <= j <= y.len(),
    ensures
        spec_body_gen(g, actions, b, x + y, x.len() + j) == spec_body_gen(g, actions, b, y, j),
    decreases y.len() - j,
{
    if j < y.len() {
        assert((x + y)[x.len() + j] == y[j]);
        if let Ok(b1) = spec_stmt_in_body(g, actions, b, y[j]) {
            lemma_body_suffix(g, actions, b1, x, y, j + 1);
        }
    }
}

proof fn lemma_body_prefix(
    g: CgState,
    actions: Seq<Action>,
    b: BState,
    x: Seq<SpecStatementBox>,
    y: Seq<SpecStatementBox>,
    i: int,
)
    requires
        0 <= i <= x.len(),
    ensures
        spec_body_gen(g, actions, b, x + y, i) == (match spec_body_gen(g, actions, b, x, i) {
            Ok(b1) => spec_body_gen(g, actions, b1, y, 0),
            Err(e) => Err(e),
        }),
    decreases x.len() - i,
{
    if i < x.len() {
        assert((x + y)[i] == x[i]);
        if let Ok(b1) = spec_stmt_in_body(g, actions, b, x[i]) {
            lemma_body_prefix(g, actions, b1, x, y, i + 1);
        }
    } else {
        lemma_body_suffix(g, actions, b, x, y, 0);
    }
}

/// A handler's statements compile one after the other, in order: no
/// statements leave the state as it was, one statement compiles as that
/// statement, and the statements `x` followed by `y` compile as `x`, then `y`
/// from where `x` left off (stopping at the first error).
pub proof fn law_body_sequence(
    g: CgState,
    actions: Seq<Action>,
    b: BState,
    s: SpecStatementBox,
    x: Seq<SpecStatementBox>,
    y: Seq<SpecStatementBox>,
)
    ensures
        spec_body_gen(g, actions, b, seq![], 0) == Ok::<BState, (crate::codegen::SpecCodegenError, Seq<crate::codegen::SpecWarning>)>(b),
        spec_body_gen(g, actions, b, seq![s], 0) == spec_stmt_in_body(g, actions, b, s),
        spec_body_gen(g, actions, b, x + y, 0) == (match spec_body_gen(g, actions, b, x, 0) {
            Ok(b1) => spec_body_gen(g, actions, b1, y, 0),
            Err(e) => Err(e),
        }),
{
    lemma_body_prefix(g, actions, b, x, y, 0);
    if let Ok(b1) = spec_stmt_in_body(g, actions, b, s) {
        assert(spec_body_gen(g, actions, b1, seq![s], 1) == Ok::<BState, (crate::codegen::SpecCodegenError, Seq<crate::codegen::SpecWarning>)>(b1));
    }
}

// ---------------------------------------------------------------------------
// Modules.

pub type GenResult = Result<(Seq<SpecJson>, CgState), (SpecCodegenError, Seq<SpecWarning>)>;

/// `r` with the handlers `nodes` in front of its handlers.
pub open spec fn after_nodes(nodes: Seq<SpecJson>, r: GenResult) -> GenResult {
    match r {
        Ok((hs, g2)) => Ok((nodes + hs, g2)),
        Err(e) => Err(e),
    }
}

proof fn lemma_gen_nodes(g: CgState, actions: Seq<Action>, s: Seq<SpecStatementBox>, i: int, nodes: Seq<SpecJson>)
    requires
        0 <= i <= s.len(),
    ensures
        spec_generate_from(g, actions, s, i, nodes) == after_nodes(nodes, spec_generate_from(g, actions, s, i, seq![])),
    decreases s.len() - i,
{
    if i < s.len() {
        match spec_top(g, actions, s[i]) {
            Err(_) => {},
            Ok((Some(j), g2)) => {
                lemma_gen_nodes(g2, actions, s, i + 1, nodes.push(j));
                lemma_gen_nodes(g2, actions, s, i + 1, seq![j]);
                if let Ok((hs, g3)) = spec_generate_from(g2, actions, s, i + 1, seq![]) {
                    assert(nodes.push(j) + hs =~= nodes + (seq![j] + hs));
                }
                assert(seq![].push(j) =~= seq![j]);
            },
            Ok((None, g2)) => {
                lemma_gen_nodes(g2, actions, s, i + 1, nodes);
            },
        }
    } else {
        assert(nodes + seq![] =~= nodes);
    }
}

proof fn lemma_gen_suffix(g: CgState, actions: Seq<Action>, x: Seq<SpecStatementBox>, y: Seq<SpecStatementBox>, j: int, nodes: Seq<SpecJson>)
    requires
        0 <= j <= y.len(),
    ensures
        spec_generate_from(g, actions, x + y, x.len() + j, nodes) == spec_generate_from(g, actions, y, j, nodes),
    decreases y.len() - j,
{
    if j < y.len() {
        assert((x + y)[x.len() + j] == y[j]);
        match spec_top(g, actions, y[j]) {
            Err(_) => {},
            Ok((Some(h), g2)) => lemma_gen_suffix(g2, actions, x, y, j + 1, nodes.push(h)),
            Ok((None, g2)) => lemma_gen_suffix(g2, actions, x, y, j + 1, nodes),
        }
    }
}

proof fn lemma_gen_prefix(g: CgState, actions: Seq<Action>, x: Seq<SpecStatementBox>, y: Seq<SpecStatementBox>, i: int, nodes: Seq<SpecJson>)
    requires
        0 <= i <= x.len(),
    ensures
        spec_generate_from(g, actions, x + y, i, nodes) == (match spec_generate_from(g, actions, x, i, nodes) {
            Ok((hs, g1)) => spec_generate_from(g1, actions, y, 0, hs),
            Err(e) => Err(e),
        }),
    decreases x.len() - i,
{
    if i < x.len() {
        assert((x + y)[i] == x[i]);
        match spec_top(g, actions, x[i]) {
            Err(_) => {},
            Ok((Some(h), g2)) => lemma_gen_prefix(g2, actions, x, y, i + 1, nodes.push(h)),
            Ok((None, g2)) => lemma_gen_prefix(g2, actions, x, y, i + 1, nodes),
        }
    } else {
        lemma_gen_suffix(g, actions, x, y, 0, nodes);
    }
}

/// The handlers of a module document.
pub open spec fn handlers_of(doc: SpecJson) -> Seq<SpecJson> {
    match member_at(doc, 0, "handlers"@) {
        Some(a) => items(a),
        None => seq![],
    }
}

/// A module is its top-level statements compiled one after the other: one
/// statement gives the handler it compiles to (or none), and the statements
/// `x` followed by `y` give the handlers of `x` followed by those of `y`,
/// compiled with what `x` left (its variables, functions, processes, count and
/// warnings), stopping at the first error.
pub proof fn law_module_sequence(
    g: CgState,
    actions: Seq<Action>,
    s: SpecStatementBox,
    x: Seq<SpecStatementBox>,
    y: Seq<SpecStatementBox>,
)
    ensures
        spec_generate(g, actions, seq![s]) matches Ok((doc, g2)) ==> {
            &&& members(doc).len() == 1
            &&& spec_top(g, actions, s) matches Ok((o, g3)) && g2 == g3 && handlers_of(doc) == (match o {
                Some(j) => seq![j],
                None => Seq::<SpecJson>::empty(),
            })
        },
        spec_top(g, actions, s) is Err ==> spec_generate(g, actions, seq![s]) is Err,
        match spec_generate(g, actions, x) {
            Err(e) => spec_generate(g, actions, x + y) == Err::<(SpecJson, CgState), (SpecCodegenError, Seq<SpecWarning>)>(e),
            Ok((d1, g1)) => match spec_generate(g1, actions, y) {
                Err(e) => spec_generate(g, actions, x + y) == Err::<(SpecJson, CgState), (SpecCodegenError, Seq<SpecWarning>)>(e),
                Ok((d2, g2)) => spec_generate(g, actions, x + y) matches Ok((d, g3)) && g3 == g2 && members(d).len()
                    == 1 && handlers_of(d) == handlers_of(d1) + handlers_of(d2),
            },
        },
{
    reveal_strlit("handlers");
    lemma_gen_prefix(g, actions, x, y, 0, seq![]);
    if let Ok((hs1, g1)) = spec_generate_from(g, actions, x, 0, seq![]) {
        lemma_gen_nodes(g1, actions, y, 0, hs1);
    }
    match spec_top(g, actions, s) {
        Ok((Some(j), g2)) => {
            assert(seq![s][0] == s);
            assert(spec_generate_from(g2, actions, seq![s], 1, seq![].push(j)) == Ok::<(Seq<SpecJson>, CgState), (SpecCodegenError, Seq<SpecWarning>)>((seq![].push(j), g2)));
            assert(seq![].push(j) =~= seq![j]);
        },
        Ok((None, g2)) => {
            assert(seq![s][0] == s);
            assert(spec_generate_from(g2, actions, seq![s], 1, seq![]) == Ok::<(Seq<SpecJson>, CgState), (SpecCodegenError, Seq<SpecWarning>)>((seq![], g2)));
        },
        Err(_) => {
            assert(seq![s][0] == s);
        },
    }
}

/// An expression statement that is no call compiles to nothing: it adds one
/// warning on its line, after the warnings before, once its value compiles,
/// and leaves the nodes and variables as they were.
pub proof fn law_expression_without_action(g: CgState, actions: Seq<Action>, b: BState, e: SpecExpressionBox)
    requires
        !(e.content is FunctionCall || e.content is MethodCall || e.content is Condition),
    ensures
        spec_gen_value(g.global, b.varscope, e) is Ok ==> spec_exprstmt(g, actions, b, e) == Ok::<
            BState,
            (SpecCodegenError, Seq<SpecWarning>),
        >(BState { varscope: b.varscope, nodes: b.nodes, warnings: b.warnings.push(SpecWarning::NoAction { line: e.line }) }),
        spec_gen_value(g.global, b.varscope, e) matches Err(x) ==> spec_exprstmt(g, actions, b, e) == Err::<
            BState,
            (SpecCodegenError, Seq<SpecWarning>),
        >((x, b.warnings.push(SpecWarning::NoAction { line: e.line }))),
{
}

/// The fields of the value each factory makes, in order.
pub open spec fn factory_table(name: Seq<char>) -> Option<Seq<Seq<char>>> {
    if name == "location"@ {
        Some(seq!["x"@, "y"@, "z"@, "yaw"@, "pitch"@])
    } else if name == "vector"@ {
        Some(seq!["x"@, "y"@, "z"@])
    } else if name == "potion"@ {
        Some(seq!["potion"@, "amplifier"@, "duration"@])
    } else if name == "particle"@ {
        Some(seq!["particle_type"@, "count"@, "first_spread"@, "second_spread"@])
    } else if name == "sound"@ {
        Some(seq!["sound"@, "pitch"@, "volume"@, "source"@])
    } else {
        None
    }
}

proof fn lemma_factory_fields(
    names: Seq<Seq<char>>,
    args: Seq<SpecExpressionBox>,
    i: int,
    acc: Seq<(Seq<char>, SpecJson)>,
)
    requires
        0 <= i <= args.len(),
        names.len() == args.len(),
    ensures
        crate::codegen::spec_factory_fields(names, args, i, acc) matches Ok(fs) ==> {
            &&& fs.len() == acc.len() + args.len() - i
            &&& forall|m: int| 0 <= m < acc.len() ==> fs[m] == acc[m]
            &&& forall|k: int|
                i <= k < args.len() ==> {
                    &&& (#[trigger] fs[acc.len() + k - i]).0 == names[k]
                    &&& (args[k].content matches SpecExpression::NumberLiteral(n) && fs[acc.len() + k - i].1
                        == SpecJson::Number(n)) || (args[k].content matches SpecExpression::StringLiteral { text, .. }
                        && fs[acc.len() + k - i].1 == SpecJson::Str(text))
                }
        },
        (exists|k: int| i <= k < args.len() && !(#[trigger] args[k].content is NumberLiteral || args[k].content is StringLiteral))
            ==> crate::codegen::spec_factory_fields(names, args, i, acc) is Err,
    decreases args.len() - i,
{
    if i < args.len() {
        if let Some(v) = crate::codegen::plain_of(args[i]) {
            let acc2 = acc.push((names[i], v));
            lemma_factory_fields(names, args, i + 1, acc2);
            if let Ok(fs) = crate::codegen::spec_factory_fields(names, args, i + 1, acc2) {
                assert(fs[acc.len() as int] == acc2[acc.len() as int]);
                assert forall|m: int| 0 <= m < acc.len() implies fs[m] == acc[m] by {
                    assert(fs[m] == acc2[m]);
                }
                assert forall|k: int| i <= k < args.len() implies {
                    &&& (#[trigger] fs[acc.len() + k - i]).0 == names[k]
                    &&& (args[k].content matches SpecExpression::NumberLiteral(n) && fs[acc.len() + k - i].1
                        == SpecJson::Number(n)) || (args[k].content matches SpecExpression::StringLiteral { text, .. }
                        && fs[acc.len() + k - i].1 == SpecJson::Str(text))
                } by {
                    if k > i {
                        assert(acc2.len() + k - (i + 1) == acc.len() + k - i);
                    }
                }
            }
        }
    }
}

/// Factory values: `location`, `vector`, `potion`, `particle` and `sound`
/// called as values make a value of that kind whose fields, in the factory's
/// order, hold the arguments, which must be plain numbers or strings and as
/// many as the fields; any other call is no value.
pub proof fn law_factory_values(global: SpecScope, vs: SpecScope, e: SpecExpressionBox)
    ensures
        e.content matches SpecExpression::FunctionCall { name, args } ==> {
            &&& factory_table(name) is None ==> spec_gen_value(global, vs, e) is Err
            &&& (factory_table(name) matches Some(fs) && fs.len() != args.len()) ==> spec_gen_value(global, vs, e) is Err
            &&& (exists|k: int| 0 <= k < args.len() && !(#[trigger] args[k].content is NumberLiteral
                || args[k].content is StringLiteral)) ==> spec_gen_value(global, vs, e) is Err
            &&& spec_gen_value(global, vs, e) matches Ok(v) ==> {
                &&& factory_table(name) is Some
                &&& v matches SpecCValue::Factory { kind, fields } && kind == name && fields.len() == args.len()
                    && forall|k: int|
                    0 <= k < args.len() ==> {
                        &&& (#[trigger] fields[k]).0 == factory_table(name)->0[k]
                        &&& (args[k].content matches SpecExpression::NumberLiteral(n) && fields[k].1 == SpecJson::Number(
                            n,
                        )) || (args[k].content matches SpecExpression::StringLiteral { text, .. } && fields[k].1
                            == SpecJson::Str(text))
                    }
            }
        },
{
    if let SpecExpression::FunctionCall { name, args } = e.content {
        if let Some(names) = crate::codegen::factory_fields(name) {
            assert(factory_table(name) == Some(names));
            if names.len() == args.len() {
                lemma_factory_fields(names, args, 0, seq![]);
                if let Ok(fields) = crate::codegen::spec_factory_fields(names, args, 0, seq![]) {
                    assert forall|k: int| 0 <= k < args.len() implies {
                        &&& (#[trigger] fields[k]).0 == factory_table(name)->0[k]
                        &&& (args[k].content matches SpecExpression::NumberLiteral(n) && fields[k].1 == SpecJson::Number(
                            n,
                        )) || (args[k].content matches SpecExpression::StringLiteral { text, .. } && fields[k].1
                            == SpecJson::Str(text))
                    } by {
                        assert(0 + k - 0 == k);
                    }
                }
            }
        } else {
            assert(factory_table(name) is None);
        }
    }
}

/// A name in a list of declarations means its first declaration: the lookup
/// gives the value of the first entry with that name, and nothing when no
/// entry has it.
pub proof fn law_lookup_first<V>(s: Seq<(Seq<char>, V)>, k: Seq<char>)
    ensures
        forall|i: int|
            0 <= i < s.len() && #[trigger] s[i].0 == k && (forall|j: int| 0 <= j < i ==> s[j].0 != k) ==> lookup(s, k)
                == Some(s[i].1),
        (forall|i: int| 0 <= i < s.len() ==> #[trigger] s[i].0 != k) ==> lookup(s, k) is None,
{
    assert forall|i: int|
        0 <= i < s.len() && #[trigger] s[i].0 == k && (forall|j: int| 0 <= j < i ==> s[j].0 != k) implies lookup(s, k)
            == Some(s[i].1) by {
        assert(is_first_key(s, k, i));
        lemma_first_key(s, k, i);
    }
}

} // verus!
