//! Properties that hold of every input: of the lexer, the parser and the code
//! generator.
use vstd::prelude::*;

use crate::actions::Action;
use crate::ast::{SpecArgumentList, SpecExpression, SpecExpressionBox, SpecStatement, SpecStatementBox};
use crate::codegen::{
    BState, CgState, SpecCodegenError, SpecDefinedVariable, SpecScope, SpecWarning, default_scope,
    first_key, initial_state, insert_key, is_first_key, lemma_first_key, lemma_no_key, lookup,
    spec_body_gen, spec_exprstmt, spec_generate, spec_generate_from, spec_merge, spec_stmt_in_body,
    spec_top, spec_gen_value, spec_gen_values, SpecCValue,
};
use crate::json::SpecJson;
use crate::lexer::{
    LexError, SpecToken, Token, TokenType, cons_token, digits_end, ident_end, is_digit, is_ident_char,
    is_single_symbol, is_whitespace, lemma_digits_end, lemma_ident_end, lemma_line_end, lemma_quoted_end,
    lex_from, line_end, quoted_end, spec_token, spec_tokenize,
};
use crate::parser::{PState, ParseError, adv, kw_index, kw_insert, spec_kw_loop, spec_mixed_args, ebox, sbox, spec_expr, spec_params, spec_program, spec_program_from, spec_stmt};

verus! {

/// Every token stands on line `line` or later, and the lines never go down.
pub open spec fn lines_ordered_from(ts: Seq<SpecToken>, line: nat) -> bool {
    &&& forall|k: int| 0 <= k < ts.len() ==> ts[k].line >= line
    &&& forall|k: int, m: int| 0 <= k <= m < ts.len() ==> ts[k].line <= ts[m].line
}

proof fn lemma_cons_ordered(t: SpecToken, rest: Result<Seq<SpecToken>, LexError>, line: nat)
    requires
        t.line == line,
        rest matches Ok(us) ==> lines_ordered_from(us, line),
    ensures
        cons_token(t, rest) matches Ok(ts) ==> lines_ordered_from(ts, line),
{
    if let Ok(us) = rest {
        let ts = seq![t] + us;
        assert forall|k: int, m: int| 0 <= k <= m < ts.len() implies ts[k].line <= ts[m].line by {
            if k > 0 {
                assert(ts[k] == us[k - 1]);
                assert(ts[m] == us[m - 1]);
            } else if m > 0 {
                assert(ts[m] == us[m - 1]);
            }
        }
        assert forall|k: int| 0 <= k < ts.len() implies ts[k].line >= line by {
            if k > 0 {
                assert(ts[k] == us[k - 1]);
            }
        }
    }
}

proof fn lemma_lex_lines(s: Seq<char>, i: int, line: nat)
    ensures
        lex_from(s, i, line) matches Ok(ts) ==> lines_ordered_from(ts, line),
    decreases s.len() + 1 - i,
{
    if i < 0 || i >= s.len() {
    } else {
        let c = s[i];
        if is_whitespace(c) {
            let l2 = if c == '\n' { line + 1 } else { line };
            lemma_lex_lines(s, i + 1, l2);
        } else if c == '"' || c == '`' {
            lemma_quoted_end(s, i + 1, c);
            let e = quoted_end(s, i + 1, c);
            lemma_lex_lines(s, e + 1, line);
            let kind = if c == '"' { TokenType::String } else { TokenType::FString };
            lemma_cons_ordered(spec_token(kind, s.subrange(i + 1, e), line), lex_from(s, e + 1, line), line);
        } else if is_digit(c) {
            lemma_digits_end(s, i);
            let e1 = digits_end(s, i);
            if e1 < s.len() {
                lemma_digits_end(s, e1 + 1);
                let e2 = if s[e1] == '.' { digits_end(s, e1 + 1) } else { e1 };
                lemma_lex_lines(s, e2, line);
                lemma_cons_ordered(
                    spec_token(TokenType::Number, s.subrange(i, e2), line),
                    lex_from(s, e2, line),
                    line,
                );
            }
        } else if is_ident_char(c) {
            lemma_ident_end(s, i);
            let e = ident_end(s, i);
            lemma_lex_lines(s, e, line);
            lemma_cons_ordered(
                spec_token(TokenType::Identifier, s.subrange(i, e), line),
                lex_from(s, e, line),
                line,
            );
        } else if is_single_symbol(c) {
            lemma_lex_lines(s, i + 1, line);
            lemma_cons_ordered(
                spec_token(TokenType::Symbol, seq![c], line),
                lex_from(s, i + 1, line),
                line,
            );
        } else if c == ':' && i + 1 < s.len() && s[i + 1] == ':' {
            lemma_lex_lines(s, i + 2, line);
            lemma_cons_ordered(
                spec_token(TokenType::Symbol, seq![':', ':'], line),
                lex_from(s, i + 2, line),
                line,
            );
        } else if c == '/' && i + 1 < s.len() && s[i + 1] == '/' {
            lemma_line_end(s, i + 2);
            lemma_lex_lines(s, line_end(s, i + 2), line);
        }
    }
}

/// Tokens come in the order of their lines: every token of a text stands on
/// line 1 or later, and no token stands on an earlier line than a token
/// before it.
pub proof fn law_token_lines_ordered(s: Seq<char>)
    ensures
        spec_tokenize(s) matches Ok(ts) ==> lines_ordered_from(ts, 1),
{
    lemma_lex_lines(s, 0, 1);
}

proof fn lemma_program_consumes(toks: Seq<Token>, st: PState, acc: Seq<SpecStatementBox>)
    requires
        0 <= st.pos <= toks.len(),
    ensures
        spec_program_from(toks, st, acc) matches Ok((_, st2)) ==> st2.pos == toks.len(),
    decreases toks.len() - st.pos,
{
    if st.pos < toks.len() {
        if let Ok((s, st2)) = spec_stmt(toks, st) {
            if st.pos < st2.pos <= toks.len() {
                lemma_program_consumes(toks, st2, acc.push(s));
            }
        }
    }
}

/// A program is read to its end: from any place among the tokens, when the
/// statements there parse, the parser stands after the last token; in
/// particular for a whole program.
pub proof fn law_program_reads_all_tokens(toks: Seq<Token>, st: PState, acc: Seq<SpecStatementBox>)
    requires
        0 <= st.pos <= toks.len(),
    ensures
        spec_program_from(toks, st, acc) matches Ok((_, st2)) ==> st2.pos == toks.len(),
        spec_program(toks) matches Ok((_, st2)) ==> st2.pos == toks.len(),
{
    lemma_program_consumes(toks, st, acc);
    lemma_program_consumes(toks, PState { pos: 0, warnings: seq![] }, seq![]);
}

/// A function, process or event definition: a statement that becomes a handler.
pub open spec fn is_handler_definition(s: SpecStatementBox) -> bool {
    match s.content {
        SpecStatement::FunctionDefinition { .. } => true,
        SpecStatement::ProcessDefinition { .. } => true,
        SpecStatement::EventDefinition { .. } => true,
        _ => false,
    }
}

/// A statement that may stand outside of a handler: a definition, or a
/// declaration without a value.
pub open spec fn allowed_at_top(s: SpecStatementBox) -> bool {
    is_handler_definition(s) || s.content matches SpecStatement::VariableDefinition { value: None, .. }
}

/// The kind (`function`, `process` or `event`) and name of the handler a
/// statement defines: one pair for a definition, none for another statement.
pub open spec fn definition_head(s: SpecStatementBox) -> Seq<(Seq<char>, Seq<char>)> {
    match s.content {
        SpecStatement::FunctionDefinition { name, .. } => seq![("function"@, name)],
        SpecStatement::ProcessDefinition { name, .. } => seq![("process"@, name)],
        SpecStatement::EventDefinition { event, .. } => seq![("event"@, event)],
        _ => seq![],
    }
}

/// The kinds and names of the handlers that `stmts` define, in order.
pub open spec fn definition_heads(stmts: Seq<SpecStatementBox>) -> Seq<(Seq<char>, Seq<char>)>
    decreases stmts.len(),
{
    if stmts.len() == 0 {
        seq![]
    } else {
        definition_head(stmts[0]) + definition_heads(stmts.drop_first())
    }
}

/// The `"type"` and the name (its third member) of a handler.
pub open spec fn handler_head(j: SpecJson) -> (Seq<char>, Seq<char>) {
    match j {
        SpecJson::Object(fs) => if fs.len() == 4 {
            match (fs[0].1, fs[2].1) {
                (SpecJson::Str(t), SpecJson::Str(n)) => (t, n),
                _ => (seq![], seq![]),
            }
        } else {
            (seq![], seq![])
        },
        _ => (seq![], seq![]),
    }
}

/// The kinds and names of handlers.
pub open spec fn handler_heads(hs: Seq<SpecJson>) -> Seq<(Seq<char>, Seq<char>)> {
    hs.map_values(|j: SpecJson| handler_head(j))
}

/// The `"position"` member of a handler.
pub open spec fn position_of(j: SpecJson) -> Option<int> {
    match j {
        SpecJson::Object(fs) => if fs.len() > 1 && fs[1].0 == "position"@ {
            match fs[1].1 {
                SpecJson::Integer(n) => Some(n),
                _ => None,
            }
        } else {
            None
        },
        _ => None,
    }
}

/// Handlers `hs` numbered from `base + 1` on.
pub open spec fn numbered_from(hs: Seq<SpecJson>, base: int) -> bool {
    forall|k: int| 0 <= k < hs.len() ==> position_of(#[trigger] hs[k]) == Some(base + k + 1)
}

proof fn lemma_top(g: CgState, actions: Seq<Action>, s: SpecStatementBox)
    ensures
        spec_top(g, actions, s) matches Ok((o, g2)) ==> {
            &&& allowed_at_top(s)
            &&& (o is Some <==> is_handler_definition(s))
            &&& (o matches Some(j) ==> position_of(j) == Some(g.pos + 1) && g2.pos == g.pos + 1
                && definition_head(s) == seq![handler_head(j)])
            &&& (o is None ==> g2.pos == g.pos && definition_head(s) == Seq::<(Seq<char>, Seq<char>)>::empty())
        },
{
}

proof fn lemma_generate_from(
    g: CgState,
    actions: Seq<Action>,
    stmts: Seq<SpecStatementBox>,
    i: int,
    nodes: Seq<SpecJson>,
    base: int,
)
    requires
        0 <= i <= stmts.len(),
        numbered_from(nodes, base),
        g.pos == base + nodes.len(),
    ensures
        spec_generate_from(g, actions, stmts, i, nodes) matches Ok((hs, g2)) ==> {
            &&& numbered_from(hs, base)
            &&& g2.pos == base + hs.len()
            &&& handler_heads(hs) == handler_heads(nodes) + definition_heads(stmts.subrange(i, stmts.len() as int))
            &&& forall|k: int| i <= k < stmts.len() ==> allowed_at_top(#[trigger] stmts[k])
        },
    decreases stmts.len() - i,
{
    let rest = stmts.subrange(i, stmts.len() as int);
    if i < stmts.len() {
        assert(rest.drop_first() =~= stmts.subrange(i + 1, stmts.len() as int));
        assert(rest[0] == stmts[i]);
        lemma_top(g, actions, stmts[i]);
        match spec_top(g, actions, stmts[i]) {
            Err(_) => {},
            Ok((Some(j), g2)) => {
                let nodes2 = nodes.push(j);
                assert forall|k: int| 0 <= k < nodes2.len() implies position_of(#[trigger] nodes2[k]) == Some(
                    base + k + 1,
                ) by {
                    if k < nodes.len() {
                        assert(nodes2[k] == nodes[k]);
                    }
                }
                lemma_generate_from(g2, actions, stmts, i + 1, nodes2, base);
                let rest2 = stmts.subrange(i + 1, stmts.len() as int);
                assert(definition_heads(rest) == definition_head(stmts[i]) + definition_heads(rest2));
                assert(handler_heads(nodes2) =~= handler_heads(nodes) + seq![handler_head(j)]);
                assert(handler_heads(nodes) + definition_heads(rest) =~= handler_heads(nodes2) + definition_heads(rest2));
            },
            Ok((None, g2)) => {
                lemma_generate_from(g2, actions, stmts, i + 1, nodes, base);
                let rest2 = stmts.subrange(i + 1, stmts.len() as int);
                assert(definition_heads(rest) == definition_head(stmts[i]) + definition_heads(rest2));
                assert(definition_heads(rest) =~= definition_heads(rest2));
            },
        }
    } else {
        assert(rest.len() == 0);
        assert(handler_heads(nodes) + definition_heads(rest) =~= handler_heads(nodes));
    }
}

/// Every definition becomes one handler, and only definitions do: when
/// statements compile, each of them is a function, process or event definition
/// or a declaration without a value (a value, an assignment or an expression
/// outside of a handler is an error); the k-th handler has the kind
/// (`function`, `process`, `event`) and the name of the k-th definition; and
/// the handlers are numbered in order after the handlers the generator had,
/// which it then counts.
pub proof fn law_handlers(g: CgState, actions: Seq<Action>, stmts: Seq<SpecStatementBox>)
    ensures
        spec_generate(g, actions, stmts) matches Ok((doc, g2)) ==> exists|hs: Seq<SpecJson>|
            {
                &&& doc == SpecJson::Object(seq![("handlers"@, SpecJson::Array(hs))])
                &&& handler_heads(hs) == definition_heads(stmts)
                &&& numbered_from(hs, g.pos)
                &&& g2.pos == g.pos + hs.len()
                &&& forall|k: int| 0 <= k < stmts.len() ==> allowed_at_top(#[trigger] stmts[k])
            },
{
    lemma_generate_from(g, actions, stmts, 0, seq![], g.pos);
    assert(stmts.subrange(0, stmts.len() as int) =~= stmts);
    assert(handler_heads(seq![]) =~= Seq::<(Seq<char>, Seq<char>)>::empty());
    if let Ok((nodes, g2)) = spec_generate_from(g, actions, stmts, 0, seq![]) {
        let doc = SpecJson::Object(seq![("handlers"@, SpecJson::Array(nodes))]);
        assert(spec_generate(g, actions, stmts) == Ok::<(SpecJson, CgState), (SpecCodegenError, Seq<SpecWarning>)>((doc, g2)));
    }
}

proof fn lemma_key_present<V>(s: Seq<(Seq<char>, V)>, k: Seq<char>, j: int)
    requires
        0 <= j < s.len(),
        s[j].0 == k,
    ensures
        0 <= first_key(s, k) <= j,
        is_first_key(s, k, first_key(s, k)),
    decreases j,
{
    if exists|j2: int| 0 <= j2 < j && s[j2].0 == k {
        let j2 = choose|j2: int| 0 <= j2 < j && s[j2].0 == k;
        lemma_key_present(s, k, j2);
    } else {
        assert(is_first_key(s, k, j));
        lemma_first_key(s, k, j);
    }
}

proof fn lemma_lookup_concat<V>(a: Seq<(Seq<char>, V)>, b: Seq<(Seq<char>, V)>, k: Seq<char>)
    ensures
        lookup(a + b, k) == (match lookup(a, k) {
            Some(v) => Some(v),
            None => lookup(b, k),
        }),
{
    let ab = a + b;
    if exists|j: int| 0 <= j < a.len() && a[j].0 == k {
        let j = choose|j: int| 0 <= j < a.len() && a[j].0 == k;
        lemma_key_present(a, k, j);
        let i = first_key(a, k);
        assert(ab[i] == a[i]);
        assert forall|m: int| 0 <= m < i implies ab[m].0 != k by {
            assert(ab[m] == a[m]);
        }
        assert(is_first_key(ab, k, i));
        lemma_first_key(ab, k, i);
    } else {
        lemma_no_key(a, k);
        if exists|j: int| 0 <= j < b.len() && b[j].0 == k {
            let j = choose|j: int| 0 <= j < b.len() && b[j].0 == k;
            lemma_key_present(b, k, j);
            let i = first_key(b, k);
            assert(ab[a.len() + i] == b[i]);
            assert forall|m: int| 0 <= m < a.len() + i implies ab[m].0 != k by {
                if m < a.len() {
                    assert(ab[m] == a[m]);
                } else {
                    assert(ab[m] == b[m - a.len()]);
                }
            }
            assert(is_first_key(ab, k, a.len() + i));
            lemma_first_key(ab, k, a.len() + i);
        } else {
            lemma_no_key(b, k);
            assert forall|m: int| 0 <= m < ab.len() implies ab[m].0 != k by {
                if m < a.len() {
                    assert(ab[m] == a[m]);
                } else {
                    assert(ab[m] == b[m - a.len()]);
                }
            }
            lemma_no_key(ab, k);
        }
    }
}

proof fn lemma_merge_from(
    vs: SpecScope,
    ws: Seq<SpecWarning>,
    fscope: SpecScope,
    i: int,
    fname: Seq<char>,
    line: u32,
    vs0: SpecScope,
)
    requires
        0 <= i <= fscope.len(),
        forall|k: Seq<char>| #[trigger] lookup(vs0, k) is Some ==> lookup(vs, k) == lookup(vs0, k),
    ensures
        ({
            let (vs2, ws2) = spec_merge(vs, ws, fscope, i, fname, line);
            &&& forall|k: Seq<char>| #[trigger] lookup(vs2, k) == lookup(vs + fscope.subrange(i, fscope.len() as int), k)
            &&& ws.len() <= ws2.len()
            &&& forall|m: int| 0 <= m < ws.len() ==> ws2[m] == ws[m]
            &&& forall|m: int|
                i <= m < fscope.len() && lookup(vs0, #[trigger] fscope[m].0) is Some ==> ws2.contains(
                    SpecWarning::PossiblyChanged {
                        variable: fscope[m].0,
                        defined_line: lookup(vs0, fscope[m].0)->0.line,
                        function: fname,
                        line,
                        redefined_line: fscope[m].1.line,
                    },
                )
        }),
    decreases fscope.len() - i,
{
    let rest = fscope.subrange(i, fscope.len() as int);
    if i >= fscope.len() {
        assert(vs + rest =~= vs);
    } else {
        let key = fscope[i].0;
        let value = fscope[i].1;
        let rest2 = fscope.subrange(i + 1, fscope.len() as int);
        assert(rest =~= seq![(key, value)] + rest2);
        match lookup(vs, key) {
            Some(redefined) => {
                let w = SpecWarning::PossiblyChanged {
                    variable: key,
                    defined_line: redefined.line,
                    function: fname,
                    line,
                    redefined_line: value.line,
                };
                lemma_merge_from(vs, ws.push(w), fscope, i + 1, fname, line, vs0);
                let (vs2, ws2) = spec_merge(vs, ws.push(w), fscope, i + 1, fname, line);
                assert forall|k: Seq<char>| #[trigger] lookup(vs2, k) == lookup(vs + rest, k) by {
                    lemma_lookup_concat(vs, rest, k);
                    lemma_lookup_concat(vs, rest2, k);
                    lemma_lookup_concat(seq![(key, value)], rest2, k);
                    if k != key {
                        lemma_no_key(seq![(key, value)], k);
                    }
                }
                assert(ws2[ws.len() as int] == w);
                assert forall|m: int|
                    i <= m < fscope.len() && lookup(vs0, #[trigger] fscope[m].0) is Some implies ws2.contains(
                        SpecWarning::PossiblyChanged {
                            variable: fscope[m].0,
                            defined_line: lookup(vs0, fscope[m].0)->0.line,
                            function: fname,
                            line,
                            redefined_line: fscope[m].1.line,
                        },
                    ) by {
                    if m == i {
                        assert(ws2[ws.len() as int] == w);
                    }
                }
            },
            None => {
                let vs1 = insert_key(vs, key, value);
                assert(vs1 == vs.push((key, value)));
                assert forall|k: Seq<char>| #[trigger] lookup(vs0, k) is Some implies lookup(vs1, k) == lookup(
                    vs0,
                    k,
                ) by {
                    lemma_lookup_concat(vs, seq![(key, value)], k);
                    assert(vs + seq![(key, value)] =~= vs1);
                }
                lemma_merge_from(vs1, ws, fscope, i + 1, fname, line, vs0);
                assert(vs + rest =~= vs1 + rest2);
            },
        }
    }
}

/// Calling a function takes its variables into the caller's: after the call a
/// name means what it meant to the caller if the caller had it, and else what
/// it means to the function; each variable of the function that the caller
/// already had gives a warning that names the two declarations; the warnings
/// before the call stay as they were.
pub proof fn law_call_merges_variables(
    vs: SpecScope,
    ws: Seq<SpecWarning>,
    fscope: SpecScope,
    fname: Seq<char>,
    line: u32,
)
    ensures
        ({
            let (vs2, ws2) = spec_merge(vs, ws, fscope, 0, fname, line);
            &&& forall|k: Seq<char>| #[trigger] lookup(vs2, k) == lookup(vs + fscope, k)
            &&& ws.len() <= ws2.len()
            &&& forall|m: int| 0 <= m < ws.len() ==> ws2[m] == ws[m]
            &&& forall|m: int|
                0 <= m < fscope.len() && lookup(vs, #[trigger] fscope[m].0) is Some ==> ws2.contains(
                    SpecWarning::PossiblyChanged {
                        variable: fscope[m].0,
                        defined_line: lookup(vs, fscope[m].0)->0.line,
                        function: fname,
                        line,
                        redefined_line: fscope[m].1.line,
                    },
                )
        }),
{
    lemma_merge_from(vs, ws, fscope, 0, fname, line, vs);
    assert(fscope.subrange(0, fscope.len() as int) =~= fscope);
}

/// `b` starts with the warnings `a`.
pub open spec fn extends(a: Seq<SpecWarning>, b: Seq<SpecWarning>) -> bool {
    a.len() <= b.len() && forall|m: int| 0 <= m < a.len() ==> #[trigger] b[m] == a[m]
}

/// The warnings after `r` start with `ws`.
pub open spec fn keeps_warnings<T>(ws: Seq<SpecWarning>, r: Result<T, (SpecCodegenError, Seq<SpecWarning>)>, after: spec_fn(T) -> Seq<SpecWarning>) -> bool {
    match r {
        Ok(v) => extends(ws, after(v)),
        Err((_, w)) => extends(ws, w),
    }
}

proof fn lemma_exprstmt_keeps(g: CgState, actions: Seq<Action>, b: BState, e: SpecExpressionBox)
    ensures
        keeps_warnings(b.warnings, spec_exprstmt(g, actions, b, e), |b2: BState| b2.warnings),
    decreases e, 0int,
{
    match e.content {
        SpecExpression::FunctionCall { name, args: _ } => match lookup(g.funcs, name) {
            Some(fscope) => {
                law_call_merges_variables(b.varscope, b.warnings, fscope, name, e.line);
            },
            None => {},
        },
        SpecExpression::MethodCall { .. } => {},
        SpecExpression::Condition { body, .. } => {
            let inner = BState { varscope: b.varscope, nodes: seq![], warnings: b.warnings };
            lemma_body_keeps(g, actions, inner, body, 0);
        },
        _ => {
            let ws = b.warnings.push(SpecWarning::NoAction { line: e.line });
            assert(extends(b.warnings, ws));
        },
    }
}

proof fn lemma_body_keeps(g: CgState, actions: Seq<Action>, b: BState, stmts: Seq<SpecStatementBox>, i: int)
    ensures
        keeps_warnings(b.warnings, spec_body_gen(g, actions, b, stmts, i), |b2: BState| b2.warnings),
    decreases stmts, stmts.len() - i,
{
    if 0 <= i < stmts.len() {
        let s = stmts[i];
        if let SpecStatement::ExpressionStatement(e) = s.content {
            lemma_exprstmt_keeps(g, actions, b, e);
        }
        match spec_stmt_in_body(g, actions, b, s) {
            Err(_) => {},
            Ok(b2) => {
                lemma_body_keeps(g, actions, b2, stmts, i + 1);
            },
        }
    }
}

proof fn lemma_generate_keeps(
    g: CgState,
    actions: Seq<Action>,
    stmts: Seq<SpecStatementBox>,
    i: int,
    nodes: Seq<SpecJson>,
)
    ensures
        keeps_warnings(
            g.warnings,
            spec_generate_from(g, actions, stmts, i, nodes),
            |r: (Seq<SpecJson>, CgState)| r.1.warnings,
        ),
    decreases stmts.len() - i,
{
    if 0 <= i < stmts.len() {
        let s = stmts[i];
        let fresh = BState { varscope: seq![], nodes: seq![], warnings: g.warnings };
        match s.content {
            SpecStatement::FunctionDefinition { body, .. } => lemma_body_keeps(g, actions, fresh, body, 0),
            SpecStatement::ProcessDefinition { body, .. } => lemma_body_keeps(g, actions, fresh, body, 0),
            SpecStatement::EventDefinition { body, .. } => lemma_body_keeps(g, actions, fresh, body, 0),
            _ => {},
        }
        match spec_top(g, actions, s) {
            Err(_) => {},
            Ok((Some(j), g2)) => lemma_generate_keeps(g2, actions, stmts, i + 1, nodes.push(j)),
            Ok((None, g2)) => lemma_generate_keeps(g2, actions, stmts, i + 1, nodes),
        }
    }
}

/// Warnings are only ever added: compiling statements, whether it succeeds
/// or stops at an error, keeps the warnings the generator had, in order, in
/// front of the new ones.
pub proof fn law_warnings_accumulate(g: CgState, actions: Seq<Action>, stmts: Seq<SpecStatementBox>)
    ensures
        match spec_generate(g, actions, stmts) {
            Ok((_, g2)) => extends(g.warnings, g2.warnings),
            Err((_, w)) => extends(g.warnings, w),
        },
{
    lemma_generate_keeps(g, actions, stmts, 0, seq![]);
}

/// No name occurs twice among the keys of `s`.
pub open spec fn distinct_keys<V>(s: Seq<(Seq<char>, V)>) -> bool {
    forall|i: int, j: int| 0 <= i < j < s.len() ==> #[trigger] s[i].0 != #[trigger] s[j].0
}

/// No scope of the generator holds a name twice: not the global variables,
/// not the variables of a function, and no two functions share a name.
pub open spec fn scopes_distinct(g: CgState) -> bool {
    &&& distinct_keys(g.global)
    &&& distinct_keys(g.funcs)
    &&& forall|i: int| 0 <= i < g.funcs.len() ==> distinct_keys(#[trigger] g.funcs[i].1)
}

proof fn lemma_insert_distinct<V>(s: Seq<(Seq<char>, V)>, k: Seq<char>, v: V)
    requires
        distinct_keys(s),
    ensures
        distinct_keys(insert_key(s, k, v)),
        first_key(s, k) >= 0 ==> insert_key(s, k, v) == s.update(first_key(s, k), (k, v)),
        first_key(s, k) < 0 ==> insert_key(s, k, v) == s.push((k, v)),
{
    let i = first_key(s, k);
    let s2 = insert_key(s, k, v);
    if i >= 0 {
        if exists|m: int| is_first_key(s, k, m) {
            let m = choose|m: int| is_first_key(s, k, m);
            lemma_first_key(s, k, m);
        }
        assert(s[i].0 == k);
        assert forall|a: int, b: int| 0 <= a < b < s2.len() implies #[trigger] s2[a].0 != #[trigger] s2[b].0 by {
            assert(s2[a].0 == s[a].0);
            assert(s2[b].0 == s[b].0);
        }
    } else {
        assert forall|m: int| 0 <= m < s.len() implies s[m].0 != k by {
            if s[m].0 == k {
                lemma_key_present(s, k, m);
            }
        }
        assert forall|a: int, b: int| 0 <= a < b < s2.len() implies #[trigger] s2[a].0 != #[trigger] s2[b].0 by {
            if b == s.len() {
                assert(s2[a] == s[a]);
            } else {
                assert(s2[a] == s[a]);
                assert(s2[b] == s[b]);
            }
        }
    }
}

proof fn lemma_merge_distinct(
    vs: SpecScope,
    ws: Seq<SpecWarning>,
    fscope: SpecScope,
    i: int,
    fname: Seq<char>,
    line: u32,
)
    requires
        distinct_keys(vs),
    ensures
        distinct_keys(spec_merge(vs, ws, fscope, i, fname, line).0),
    decreases fscope.len() - i,
{
    if 0 <= i < fscope.len() {
        let key = fscope[i].0;
        let value = fscope[i].1;
        match lookup(vs, key) {
            Some(redefined) => {
                let w = SpecWarning::PossiblyChanged {
                    variable: key,
                    defined_line: redefined.line,
                    function: fname,
                    line,
                    redefined_line: value.line,
                };
                lemma_merge_distinct(vs, ws.push(w), fscope, i + 1, fname, line);
            },
            None => {
                lemma_insert_distinct(vs, key, value);
                lemma_merge_distinct(insert_key(vs, key, value), ws, fscope, i + 1, fname, line);
            },
        }
    }
}

proof fn lemma_exprstmt_distinct(g: CgState, actions: Seq<Action>, b: BState, e: SpecExpressionBox)
    requires
        distinct_keys(b.varscope),
    ensures
        spec_exprstmt(g, actions, b, e) matches Ok(b2) ==> distinct_keys(b2.varscope),
    decreases e, 0int,
{
    match e.content {
        SpecExpression::FunctionCall { name, args: _ } => {
            if let Some(fscope) = lookup(g.funcs, name) {
                lemma_merge_distinct(b.varscope, b.warnings, fscope, 0, name, e.line);
            }
        },
        SpecExpression::Condition { body, .. } => {
            let inner = BState { varscope: b.varscope, nodes: seq![], warnings: b.warnings };
            lemma_body_distinct(g, actions, inner, body, 0);
        },
        _ => {},
    }
}

proof fn lemma_body_distinct(g: CgState, actions: Seq<Action>, b: BState, stmts: Seq<SpecStatementBox>, i: int)
    requires
        distinct_keys(b.varscope),
    ensures
        spec_body_gen(g, actions, b, stmts, i) matches Ok(b2) ==> distinct_keys(b2.varscope),
    decreases stmts, stmts.len() - i,
{
    if 0 <= i < stmts.len() {
        let s = stmts[i];
        match s.content {
            SpecStatement::VariableDefinition { scope, name, value } => {
                lemma_insert_distinct(
                    b.varscope,
                    name,
                    SpecDefinedVariable { scope: default_scope(scope), line: s.line },
                );
            },
            SpecStatement::ExpressionStatement(e) => {
                lemma_exprstmt_distinct(g, actions, b, e);
            },
            _ => {},
        }
        match spec_stmt_in_body(g, actions, b, s) {
            Err(_) => {},
            Ok(b2) => {
                lemma_body_distinct(g, actions, b2, stmts, i + 1);
            },
        }
    }
}

proof fn lemma_funcs_insert_distinct(funcs: Seq<(Seq<char>, SpecScope)>, name: Seq<char>, sc: SpecScope)
    requires
        distinct_keys(funcs),
        forall|i: int| 0 <= i < funcs.len() ==> distinct_keys(#[trigger] funcs[i].1),
        distinct_keys(sc),
    ensures
        distinct_keys(insert_key(funcs, name, sc)),
        forall|i: int|
            0 <= i < insert_key(funcs, name, sc).len() ==> distinct_keys(#[trigger] insert_key(funcs, name, sc)[i].1),
{
    lemma_insert_distinct(funcs, name, sc);
    let f2 = insert_key(funcs, name, sc);
    assert forall|i: int| 0 <= i < f2.len() implies distinct_keys(#[trigger] f2[i].1) by {
        if i < funcs.len() && f2[i] != (name, sc) {
            assert(f2[i] == funcs[i]);
        }
    }
}

proof fn lemma_generate_distinct(
    g: CgState,
    actions: Seq<Action>,
    stmts: Seq<SpecStatementBox>,
    i: int,
    nodes: Seq<SpecJson>,
)
    requires
        scopes_distinct(g),
    ensures
        spec_generate_from(g, actions, stmts, i, nodes) matches Ok((_, g2)) ==> scopes_distinct(g2),
    decreases stmts.len() - i,
{
    if 0 <= i < stmts.len() {
        let s = stmts[i];
        let fresh = BState { varscope: seq![], nodes: seq![], warnings: g.warnings };
        match s.content {
            SpecStatement::FunctionDefinition { name, body, .. } => {
                lemma_body_distinct(g, actions, fresh, body, 0);
                if let Ok(b) = spec_body_gen(g, actions, fresh, body, 0) {
                    lemma_funcs_insert_distinct(g.funcs, name, b.varscope);
                }
            },
            SpecStatement::VariableDefinition { scope, name, value: _ } => {
                lemma_insert_distinct(
                    g.global,
                    name,
                    SpecDefinedVariable { scope: default_scope(scope), line: s.line },
                );
            },
            _ => {},
        }
        match spec_top(g, actions, s) {
            Err(_) => {},
            Ok((Some(j), g2)) => lemma_generate_distinct(g2, actions, stmts, i + 1, nodes.push(j)),
            Ok((None, g2)) => lemma_generate_distinct(g2, actions, stmts, i + 1, nodes),
        }
    }
}

/// Compiling keeps every scope free of repeated names: when the generator's
/// global variables, its functions and each function's variables hold no name
/// twice, they still do not after statements compile. A generator that has
/// compiled nothing is such a generator.
pub proof fn law_scopes_stay_distinct(g: CgState, actions: Seq<Action>, stmts: Seq<SpecStatementBox>)
    requires
        scopes_distinct(g),
    ensures
        spec_generate(g, actions, stmts) matches Ok((_, g2)) ==> scopes_distinct(g2),
        scopes_distinct(initial_state()),
{
    lemma_generate_distinct(g, actions, stmts, 0, seq![]);
}

proof fn lemma_gen_values(global: SpecScope, vs: SpecScope, items: Seq<SpecExpressionBox>, i: int, acc: Seq<SpecCValue>)
    requires
        0 <= i <= items.len(),
    ensures
        (forall|k: int| i <= k < items.len() ==> spec_gen_value(global, vs, #[trigger] items[k]) is Ok)
            ==> spec_gen_values(global, vs, items, i, acc) == Ok::<Seq<SpecCValue>, SpecCodegenError>(
            acc + Seq::new((items.len() - i) as nat, |k: int| spec_gen_value(global, vs, items[i + k])->Ok_0),
        ),
        (exists|k: int| i <= k < items.len() && spec_gen_value(global, vs, #[trigger] items[k]) is Err)
            ==> spec_gen_values(global, vs, items, i, acc) is Err,
    decreases items.len() - i,
{
    if i < items.len() {
        match spec_gen_value(global, vs, items[i]) {
            Err(_) => {},
            Ok(v) => {
                lemma_gen_values(global, vs, items, i + 1, acc.push(v));
                assert(acc.push(v) + Seq::new((items.len() - (i + 1)) as nat, |k: int| spec_gen_value(global, vs, items[i + 1 + k])->Ok_0)
                    =~= acc + Seq::new((items.len() - i) as nat, |k: int| spec_gen_value(global, vs, items[i + k])->Ok_0));
            },
        }
    } else {
        assert(acc + Seq::new(0, |k: int| spec_gen_value(global, vs, items[i + k])->Ok_0) =~= acc);
    }
}

/// How values compile: a number, a string, an explicit variable and a game
/// value stand for themselves; a name stands for the variable it names,
/// looked up among the global variables first; an array compiles element by
/// element, in order, and fails if an element fails. Compiling a value reads
/// the handler's variables and changes nothing.
pub proof fn law_values(global: SpecScope, vs: SpecScope, e: SpecExpressionBox)
    ensures
        e.content matches SpecExpression::NumberLiteral(n) ==> spec_gen_value(global, vs, e) == Ok::<SpecCValue, SpecCodegenError>(SpecCValue::Number(n)),
        e.content matches SpecExpression::StringLiteral { parsing, text } ==> spec_gen_value(global, vs, e)
            == Ok::<SpecCValue, SpecCodegenError>(SpecCValue::Text { parsing, text }),
        e.content matches SpecExpression::ExplicitVariable { scope, name } ==> spec_gen_value(global, vs, e)
            == Ok::<SpecCValue, SpecCodegenError>(SpecCValue::Variable { scope, name }),
        e.content matches SpecExpression::GameValue(n) ==> spec_gen_value(global, vs, e) == Ok::<SpecCValue, SpecCodegenError>(SpecCValue::GameValue(n)),
        e.content matches SpecExpression::Identifier(name) ==> spec_gen_value(global, vs, e) == (match lookup(global, name) {
            Some(d) => Ok(SpecCValue::Variable { scope: d.scope, name }),
            None => match lookup(vs, name) {
                Some(d) => Ok(SpecCValue::Variable { scope: d.scope, name }),
                None => Err(SpecCodegenError::UndefinedVariable { name, line: e.line }),
            },
        }),
        e.content matches SpecExpression::ArrayLiteral(items) ==> {
            &&& (forall|k: int| 0 <= k < items.len() ==> spec_gen_value(global, vs, #[trigger] items[k]) is Ok)
                ==> spec_gen_value(global, vs, e) == Ok::<SpecCValue, SpecCodegenError>(
                SpecCValue::Array(Seq::new(items.len(), |k: int| spec_gen_value(global, vs, items[k])->Ok_0)),
            )
            &&& (exists|k: int| 0 <= k < items.len() && spec_gen_value(global, vs, #[trigger] items[k]) is Err)
                ==> spec_gen_value(global, vs, e) is Err
        },
{
    if let SpecExpression::ArrayLiteral(items) = e.content {
        lemma_gen_values(global, vs, items, 0, seq![]);
        assert(seq![] + Seq::new((items.len() - 0) as nat, |k: int| spec_gen_value(global, vs, items[0 + k])->Ok_0)
            =~= Seq::new(items.len(), |k: int| spec_gen_value(global, vs, items[k])->Ok_0));
    }
}

proof fn lemma_shift_quoted(c: char, s: Seq<char>, j: int, q: char)
    requires
        1 <= j,
    ensures
        quoted_end(seq![c] + s, j + 1, q) == quoted_end(s, j, q) + 1,
    decreases s.len() - j,
{
    let t = seq![c] + s;
    if j < s.len() {
        assert(t[j + 1] == s[j]);
        assert(t[j] == s[j - 1]);
        lemma_shift_quoted(c, s, j + 1, q);
    }
}

proof fn lemma_shift_digits(c: char, s: Seq<char>, j: int)
    requires
        0 <= j,
    ensures
        digits_end(seq![c] + s, j + 1) == digits_end(s, j) + 1,
    decreases s.len() - j,
{
    let t = seq![c] + s;
    if j < s.len() {
        assert(t[j + 1] == s[j]);
        lemma_shift_digits(c, s, j + 1);
    }
}

proof fn lemma_shift_ident(c: char, s: Seq<char>, j: int)
    requires
        0 <= j,
    ensures
        ident_end(seq![c] + s, j + 1) == ident_end(s, j) + 1,
    decreases s.len() - j,
{
    let t = seq![c] + s;
    if j < s.len() {
        assert(t[j + 1] == s[j]);
        lemma_shift_ident(c, s, j + 1);
    }
}

proof fn lemma_shift_line(c: char, s: Seq<char>, j: int)
    requires
        0 <= j,
    ensures
        line_end(seq![c] + s, j + 1) == line_end(s, j) + 1,
    decreases s.len() - j,
{
    let t = seq![c] + s;
    if j < s.len() {
        assert(t[j + 1] == s[j]);
        lemma_shift_line(c, s, j + 1);
    }
}

/// Scanning a text with one more character in front, from one place further
/// on, gives the same tokens.
proof fn lemma_lex_shift(c: char, s: Seq<char>, i: int, line: nat)
    requires
        0 <= i,
    ensures
        lex_from(seq![c] + s, i + 1, line) == lex_from(s, i, line),
    decreases s.len() + 1 - i,
{
    let t = seq![c] + s;
    if i < s.len() {
        let d = s[i];
        assert(t[i + 1] == d);
        if is_whitespace(d) {
            lemma_lex_shift(c, s, i + 1, if d == '\n' { line + 1 } else { line });
        } else if d == '"' || d == '`' {
            lemma_shift_quoted(c, s, i + 1, d);
            lemma_quoted_end(s, i + 1, d);
            let e = quoted_end(s, i + 1, d);
            lemma_lex_shift(c, s, e + 1, line);
            assert(t.subrange(i + 2, e + 1) =~= s.subrange(i + 1, e));
        } else if is_digit(d) {
            lemma_shift_digits(c, s, i);
            lemma_digits_end(s, i);
            let e1 = digits_end(s, i);
            if e1 < s.len() {
                assert(t[e1 + 1] == s[e1]);
                lemma_shift_digits(c, s, e1 + 1);
                lemma_digits_end(s, e1 + 1);
                let e2 = if s[e1] == '.' { digits_end(s, e1 + 1) } else { e1 };
                lemma_lex_shift(c, s, e2, line);
                assert(t.subrange(i + 1, e2 + 1) =~= s.subrange(i, e2));
            }
        } else if is_ident_char(d) {
            lemma_shift_ident(c, s, i);
            lemma_ident_end(s, i);
            let e = ident_end(s, i);
            lemma_lex_shift(c, s, e, line);
            assert(t.subrange(i + 1, e + 1) =~= s.subrange(i, e));
        } else if is_single_symbol(d) {
            lemma_lex_shift(c, s, i + 1, line);
        } else if d == ':' && i + 1 < s.len() && s[i + 1] == ':' {
            assert(t[i + 2] == s[i + 1]);
            lemma_lex_shift(c, s, i + 2, line);
        } else if d == '/' && i + 1 < s.len() && s[i + 1] == '/' {
            assert(t[i + 2] == s[i + 1]);
            lemma_shift_line(c, s, i + 2);
            lemma_line_end(s, i + 2);
            lemma_lex_shift(c, s, line_end(s, i + 2), line);
        } else {
            if d == ':' {
                assert(!(i + 2 < t.len() && t[i + 2] == ':'));
            }
            if d == '/' {
                assert(!(i + 2 < t.len() && t[i + 2] == '/'));
            }
        }
    }
}

/// A blank in front of a text changes nothing: a space, a tab, a carriage
/// return or a form feed before a text leaves its tokens, or its error, as
/// they were.
pub proof fn law_leading_blank(c: char, s: Seq<char>)
    requires
        blank_char(c),
        c != '\n',
    ensures
        spec_tokenize(seq![c] + s) == spec_tokenize(s),
{
    lemma_lex_shift(c, s, 0, 1);
}

/// A token one line further down.
pub open spec fn next_line_token(t: SpecToken) -> SpecToken {
    SpecToken { kind: t.kind, value: t.value, line: t.line + 1 }
}

/// An error one line further down.
pub open spec fn next_line_error(e: LexError) -> LexError {
    match e {
        LexError::UnknownCharacter { character, line } => LexError::UnknownCharacter {
            character,
            line: (line + 1) as u32,
        },
        LexError::NumberAtEndOfInput { line } => LexError::NumberAtEndOfInput { line: (line + 1) as u32 },
    }
}

/// Tokens, or an error, one line further down.
pub open spec fn next_line(r: Result<Seq<SpecToken>, LexError>) -> Result<Seq<SpecToken>, LexError> {
    match r {
        Ok(ts) => Ok(ts.map_values(|t: SpecToken| next_line_token(t))),
        Err(e) => Err(next_line_error(e)),
    }
}

proof fn lemma_cons_next_line(t: SpecToken, r: Result<Seq<SpecToken>, LexError>)
    ensures
        next_line(cons_token(t, r)) == cons_token(next_line_token(t), next_line(r)),
{
    if let Ok(ts) = r {
        assert((seq![t] + ts).map_values(|u: SpecToken| next_line_token(u)) =~= seq![next_line_token(t)]
            + ts.map_values(|u: SpecToken| next_line_token(u)));
    }
}

/// Scanning from one line further down moves every token and error one line down.
proof fn lemma_lex_next_line(s: Seq<char>, i: int, line: nat)
    requires
        0 <= i,
        line + s.len() - i < 0xffff_ffff,
    ensures
        lex_from(s, i, line + 1) == next_line(lex_from(s, i, line)),
    decreases s.len() + 1 - i,
{
    if i >= s.len() {
        assert(Seq::<SpecToken>::empty().map_values(|t: SpecToken| next_line_token(t)) =~= Seq::<SpecToken>::empty());
    } else {
        let d = s[i];
        if is_whitespace(d) {
            lemma_lex_next_line(s, i + 1, if d == '\n' { line + 1 } else { line });
        } else if d == '"' || d == '`' {
            lemma_quoted_end(s, i + 1, d);
            let e = quoted_end(s, i + 1, d);
            lemma_lex_next_line(s, e + 1, line);
            let kind = if d == '"' { TokenType::String } else { TokenType::FString };
            lemma_cons_next_line(spec_token(kind, s.subrange(i + 1, e), line), lex_from(s, e + 1, line));
        } else if is_digit(d) {
            lemma_digits_end(s, i);
            let e1 = digits_end(s, i);
            if e1 < s.len() {
                lemma_digits_end(s, e1 + 1);
                let e2 = if s[e1] == '.' { digits_end(s, e1 + 1) } else { e1 };
                lemma_lex_next_line(s, e2, line);
                lemma_cons_next_line(spec_token(TokenType::Number, s.subrange(i, e2), line), lex_from(s, e2, line));
            }
        } else if is_ident_char(d) {
            lemma_ident_end(s, i);
            let e = ident_end(s, i);
            lemma_lex_next_line(s, e, line);
            lemma_cons_next_line(spec_token(TokenType::Identifier, s.subrange(i, e), line), lex_from(s, e, line));
        } else if is_single_symbol(d) {
            lemma_lex_next_line(s, i + 1, line);
            lemma_cons_next_line(spec_token(TokenType::Symbol, seq![d], line), lex_from(s, i + 1, line));
        } else if d == ':' && i + 1 < s.len() && s[i + 1] == ':' {
            lemma_lex_next_line(s, i + 2, line);
            lemma_cons_next_line(spec_token(TokenType::Symbol, seq![':', ':'], line), lex_from(s, i + 2, line));
        } else if d == '/' && i + 1 < s.len() && s[i + 1] == '/' {
            lemma_line_end(s, i + 2);
            lemma_lex_next_line(s, line_end(s, i + 2), line);
        }
    }
}

/// A line feed in front of a text moves everything one line down: the text's
/// tokens come out the same, each on the next line, or its error comes out
/// on the next line.
pub proof fn law_leading_newline(s: Seq<char>)
    requires
        s.len() < 0xffff_fff0,
    ensures
        spec_tokenize(seq!['\n'] + s) == next_line(spec_tokenize(s)),
{
    let t = seq!['\n'] + s;
    assert(t[0] == '\n');
    lemma_lex_shift('\n', s, 0, 2);
    lemma_lex_next_line(s, 0, 1);
}

/// `j` is where a text quoted with `q` that opens at `i` closes: the first
/// `q` after `i` that no backslash precedes.
pub open spec fn closes_at(s: Seq<char>, i: int, j: int, q: char) -> bool {
    &&& 0 <= i < j < s.len()
    &&& s[j] == q && s[j - 1] != '\\'
    &&& forall|k: int| i < k < j ==> !(#[trigger] s[k] == q && s[k - 1] != '\\')
}

/// The kind of token a quote opens.
pub open spec fn quoted_kind(q: char) -> TokenType {
    if q == '"' {
        TokenType::String
    } else {
        TokenType::FString
    }
}

proof fn lemma_quoted_first(s: Seq<char>, j0: int, q: char, j: int)
    requires
        1 <= j0 <= j < s.len(),
        s[j] == q && s[j - 1] != '\\',
        forall|k: int| j0 <= k < j ==> !(#[trigger] s[k] == q && s[k - 1] != '\\'),
    ensures
        quoted_end(s, j0, q) == j,
    decreases j - j0,
{
    if j0 < j {
        assert(!(s[j0] == q && s[j0 - 1] != '\\'));
        lemma_quoted_first(s, j0 + 1, q, j);
    }
}

proof fn lemma_quoted_none(s: Seq<char>, j0: int, q: char)
    requires
        1 <= j0,
        forall|k: int| j0 <= k < s.len() ==> !(#[trigger] s[k] == q && s[k - 1] != '\\'),
    ensures
        quoted_end(s, j0, q) == s.len(),
    decreases s.len() - j0,
{
    if j0 < s.len() {
        assert(!(s[j0] == q && s[j0 - 1] != '\\'));
        lemma_quoted_none(s, j0 + 1, q);
    }
}

/// A quoted text closes at the first quote of its kind that no backslash
/// precedes: a `"` or a backquote at `i` gives one token holding exactly the
/// characters up to that quote, on the current line, and the scan goes on after
/// it; with no such quote, the token holds the rest of the text.
pub proof fn law_quoted_token(s: Seq<char>, i: int, line: nat)
    requires
        0 <= i < s.len(),
        s[i] == '"' || s[i] == '`',
    ensures
        forall|j: int| closes_at(s, i, j, s[i]) ==> lex_from(s, i, line) == cons_token(
            spec_token(quoted_kind(s[i]), s.subrange(i + 1, j), line),
            lex_from(s, j + 1, line),
        ),
        (forall|k: int| i < k < s.len() ==> !(#[trigger] s[k] == s[i] && s[k - 1] != '\\')) ==> lex_from(s, i, line)
            == cons_token(
            spec_token(quoted_kind(s[i]), s.subrange(i + 1, s.len() as int), line),
            Ok(Seq::<SpecToken>::empty()),
        ),
{
    let q = s[i];
    assert forall|j: int| closes_at(s, i, j, q) implies lex_from(s, i, line) == cons_token(
        spec_token(quoted_kind(q), s.subrange(i + 1, j), line),
        lex_from(s, j + 1, line),
    ) by {
        lemma_quoted_first(s, i + 1, q, j);
    }
    if forall|k: int| i < k < s.len() ==> !(#[trigger] s[k] == q && s[k - 1] != '\\') {
        lemma_quoted_none(s, i + 1, q);
        assert(lex_from(s, (s.len() + 1) as int, line) == Ok::<Seq<SpecToken>, LexError>(Seq::empty()));
    }
}

/// An empty string in front of a text is one empty string token on line 1,
/// followed by the text's own tokens (or its error).
pub proof fn law_empty_string(rest: Seq<char>)
    ensures
        spec_tokenize(seq!['"', '"'] + rest) == cons_token(
            spec_token(TokenType::String, Seq::empty(), 1),
            spec_tokenize(rest),
        ),
{
    let s = seq!['"', '"'] + rest;
    assert(s[0] == '"' && s[1] == '"');
    assert(closes_at(s, 0, 1, '"'));
    law_quoted_token(s, 0, 1);
    assert(s.subrange(1, 1) =~= Seq::<char>::empty());
    assert(s =~= seq!['"'] + (seq!['"'] + rest));
    lemma_lex_shift('"', seq!['"'] + rest, 1, 1);
    lemma_lex_shift('"', rest, 0, 1);
}

/// A token of kind `kind` whose text is `v` stands at `p`.
pub open spec fn token_at(toks: Seq<Token>, p: int, kind: TokenType, v: Seq<char>) -> bool {
    0 <= p < toks.len() && toks[p].kind == kind && toks[p].value@ == v
}

/// The scope a declaration keyword gives: `line`, `local`, `game` and `save`
/// name themselves, `var` the default scope.
pub open spec fn declared_scope(w: Seq<char>) -> Option<Seq<char>> {
    if w == "line"@ || w == "local"@ || w == "game"@ || w == "save"@ {
        Some(w)
    } else if w == "var"@ {
        Some("default"@)
    } else {
        None
    }
}

/// Declarations: `w name;` and `w name = number;`, where `w` is `line`,
/// `local`, `game`, `save` or `var`, read as a declaration of `name` in the
/// scope `w` names (the default one for `var`), without a value or with the
/// number, on the line of the name, and the parser stands after the `;`.
pub proof fn law_declaration(toks: Seq<Token>, st: PState, w: Seq<char>)
    requires
        declared_scope(w) is Some,
        st.pos >= 0,
        token_at(toks, st.pos, TokenType::Identifier, w),
        0 <= st.pos + 1 < toks.len() && toks[st.pos + 1].kind == TokenType::Identifier,
    ensures
        token_at(toks, st.pos + 2, TokenType::Symbol, ";"@) ==> spec_stmt(toks, st) == Ok::<
            (SpecStatementBox, PState),
            (crate::parser::ParseError, Seq<u32>),
        >(
            (
                sbox(
                    SpecStatement::VariableDefinition {
                        scope: declared_scope(w)->0,
                        name: toks[st.pos + 1].value@,
                        value: None,
                    },
                    toks[st.pos + 1].line,
                ),
                PState { pos: st.pos + 3, warnings: st.warnings },
            ),
        ),
        token_at(toks, st.pos + 2, TokenType::Symbol, "="@) && 0 <= st.pos + 3 < toks.len() && toks[st.pos
            + 3].kind == TokenType::Number && token_at(toks, st.pos + 4, TokenType::Symbol, ";"@) ==> spec_stmt(
            toks,
            st,
        ) == Ok::<(SpecStatementBox, PState), (crate::parser::ParseError, Seq<u32>)>(
            (
                sbox(
                    SpecStatement::VariableDefinition {
                        scope: declared_scope(w)->0,
                        name: toks[st.pos + 1].value@,
                        value: Some(ebox(SpecExpression::NumberLiteral(toks[st.pos + 3].value@), toks[st.pos + 3].line)),
                    },
                    toks[st.pos + 1].line,
                ),
                PState { pos: st.pos + 5, warnings: st.warnings },
            ),
        ),
{
    reveal_strlit("_WARNTEST");
    reveal_strlit("function");
    reveal_strlit("process");
    reveal_strlit("event");
    reveal_strlit("line");
    reveal_strlit("local");
    reveal_strlit("game");
    reveal_strlit("save");
    reveal_strlit("var");
    reveal_strlit("=");
    reveal_strlit(";");
    assert(w.len() > 0 && (w[0] == 'l' || w[0] == 'g' || w[0] == 's' || w[0] == 'v'));
    assert("_WARNTEST"@[0] == '_' && "function"@[0] == 'f' && "process"@[0] == 'p' && "event"@[0] == 'e');
    assert(w != "_WARNTEST"@);
    assert(w != "function"@ && w != "process"@ && w != "event"@);
    assert(crate::parser::is_scope_keyword(w) || w == "var"@);
    assert(";"@[0] == ';' && "="@[0] == '=');
    assert(";"@ != "="@);
}

/// A letter, a digit or `_`.
pub open spec fn word_char(c: char) -> bool {
    ('a' <= c <= 'z') || ('A' <= c <= 'Z') || ('0' <= c <= '9') || c == '_'
}

/// A decimal digit.
pub open spec fn digit_char(c: char) -> bool {
    '0' <= c <= '9'
}

/// A space, tab, line feed, form feed or carriage return.
pub open spec fn blank_char(c: char) -> bool {
    c == ' ' || c == '\t' || c == '\n' || c == '\x0C' || c == '\r'
}

/// A character that is a symbol by itself: `;{}()[]<>,.=!`.
pub open spec fn symbol_char(c: char) -> bool {
    c == ';' || c == '{' || c == '}' || c == '(' || c == ')' || c == '[' || c == ']' || c == '<' || c == '>'
        || c == ',' || c == '.' || c == '=' || c == '!'
}

/// `s[i..e]` is a run of letters, digits and `_` that cannot go on.
pub open spec fn word_run(s: Seq<char>, i: int, e: int) -> bool {
    &&& 0 <= i <= e <= s.len()
    &&& forall|k: int| i <= k < e ==> word_char(#[trigger] s[k])
    &&& (e == s.len() || !word_char(s[e]))
}

/// `s[i..e]` is a run of digits that cannot go on.
pub open spec fn digit_run(s: Seq<char>, i: int, e: int) -> bool {
    &&& 0 <= i <= e <= s.len()
    &&& forall|k: int| i <= k < e ==> digit_char(#[trigger] s[k])
    &&& (e == s.len() || !digit_char(s[e]))
}

/// `s[i..e]` is the rest of a line: no line feed, up to one or the end.
pub open spec fn line_run(s: Seq<char>, i: int, e: int) -> bool {
    &&& 0 <= i <= e <= s.len()
    &&& forall|k: int| i <= k < e ==> #[trigger] s[k] != '\n'
    &&& (e == s.len() || s[e] == '\n')
}

proof fn lemma_word_run(s: Seq<char>, i: int, e: int)
    requires
        word_run(s, i, e),
    ensures
        e == ident_end(s, i),
{
    lemma_ident_end(s, i);
    let f = ident_end(s, i);
    if e < f {
        assert(word_char(s[e]));
    } else if f < e {
        assert(word_char(s[f]));
    }
}

proof fn lemma_digit_run(s: Seq<char>, i: int, e: int)
    requires
        digit_run(s, i, e),
    ensures
        e == digits_end(s, i),
{
    lemma_digits_end(s, i);
    let f = digits_end(s, i);
    if e < f {
        assert(digit_char(s[e]));
    } else if f < e {
        assert(digit_char(s[f]));
    }
}

proof fn lemma_line_run(s: Seq<char>, i: int, e: int)
    requires
        line_run(s, i, e),
    ensures
        e == line_end(s, i),
{
    lemma_line_end(s, i);
    lemma_line_end_stops(s, i);
    let f = line_end(s, i);
    if e < f {
        assert(s[e] != '\n');
    } else if f < e {
        assert(s[f] != '\n');
    }
}

proof fn lemma_line_end_stops(s: Seq<char>, j: int)
    requires
        0 <= j <= s.len(),
    ensures
        line_end(s, j) == s.len() || s[line_end(s, j)] == '\n',
    decreases s.len() - j,
{
    if j < s.len() && s[j] != '\n' {
        lemma_line_end_stops(s, j + 1);
    }
}

/// Words, numbers, symbols and comments: at a letter or `_`, the token is the
/// longest run of letters, digits and `_`; at a digit, the longest run of
/// digits, and when a `.` follows, that `.` and the longest run of digits after
/// it (a text that ends right after the digits is an error); `;{}()[]<>,.=!`
/// are one-character symbols and `::` a two-character one; `//` skips to the
/// end of the line; each token stands on the current line and the scan goes on
/// after it.
pub proof fn law_plain_tokens(s: Seq<char>, i: int, line: nat)
    requires
        0 <= i < s.len(),
    ensures
        (word_char(s[i]) && !digit_char(s[i])) ==> forall|e: int|
            #[trigger] word_run(s, i, e) ==> lex_from(s, i, line) == cons_token(
                spec_token(TokenType::Identifier, s.subrange(i, e), line),
                lex_from(s, e, line),
            ),
        digit_char(s[i]) ==> forall|e: int|
            #[trigger] digit_run(s, i, e) ==> {
                &&& e == s.len() ==> lex_from(s, i, line) == Err::<Seq<SpecToken>, LexError>(
                    LexError::NumberAtEndOfInput { line: line as u32 },
                )
                &&& (e < s.len() && s[e] != '.') ==> lex_from(s, i, line) == cons_token(
                    spec_token(TokenType::Number, s.subrange(i, e), line),
                    lex_from(s, e, line),
                )
                &&& (e < s.len() && s[e] == '.') ==> forall|f: int|
                    #[trigger] digit_run(s, e + 1, f) ==> lex_from(s, i, line) == cons_token(
                        spec_token(TokenType::Number, s.subrange(i, f), line),
                        lex_from(s, f, line),
                    )
            },
        symbol_char(s[i]) ==> lex_from(s, i, line) == cons_token(
            spec_token(TokenType::Symbol, seq![s[i]], line),
            lex_from(s, i + 1, line),
        ),
        (s[i] == ':' && i + 1 < s.len() && s[i + 1] == ':') ==> lex_from(s, i, line) == cons_token(
            spec_token(TokenType::Symbol, seq![':', ':'], line),
            lex_from(s, i + 2, line),
        ),
        (s[i] == '/' && i + 1 < s.len() && s[i + 1] == '/') ==> forall|e: int|
            #[trigger] line_run(s, i + 2, e) ==> lex_from(s, i, line) == lex_from(s, e, line),
{
    let c = s[i];
    assert forall|e: int| #[trigger] word_run(s, i, e) implies e == ident_end(s, i) by {
        lemma_word_run(s, i, e);
    }
    assert forall|e: int| #[trigger] digit_run(s, i, e) implies e == digits_end(s, i) by {
        lemma_digit_run(s, i, e);
    }
    if digit_char(c) {
        lemma_digits_end(s, i);
        let e1 = digits_end(s, i);
        if e1 < s.len() && s[e1] == '.' {
            assert forall|f: int| #[trigger] digit_run(s, e1 + 1, f) implies f == digits_end(s, e1 + 1) by {
                lemma_digit_run(s, e1 + 1, f);
            }
        }
    }
    if c == '/' && i + 1 < s.len() && s[i + 1] == '/' {
        assert forall|e: int| #[trigger] line_run(s, i + 2, e) implies e == line_end(s, i + 2) by {
            lemma_line_run(s, i + 2, e);
        }
    }
}

/// Blanks separate tokens and give none: at a space, tab, carriage return or
/// form feed the scan goes on at the next character on the same line, and at
/// a line feed on the next line.
pub proof fn law_blanks(s: Seq<char>, i: int, line: nat)
    requires
        0 <= i < s.len(),
        blank_char(s[i]),
    ensures
        s[i] == '\n' ==> lex_from(s, i, line) == lex_from(s, i + 1, line + 1),
        s[i] != '\n' ==> lex_from(s, i, line) == lex_from(s, i + 1, line),
{
}

/// From `p` on, the tokens are the names `names` separated by `,`, then `)`
/// (just `)` for no names); no name is itself `)`.
pub open spec fn names_then_close(toks: Seq<Token>, p: int, names: Seq<Seq<char>>) -> bool {
    let n = names.len() as int;
    if n == 0 {
        token_at(toks, p, TokenType::Symbol, ")"@)
    } else {
        &&& forall|k: int| 0 <= k < n ==> #[trigger] token_at(toks, p + 2 * k, TokenType::Identifier, names[k])
            && names[k] != ")"@
        &&& forall|k: int| 0 <= k < n - 1 ==> #[trigger] token_at(toks, p + 2 * k + 1, TokenType::Symbol, ","@)
        &&& token_at(toks, p + 2 * n - 1, TokenType::Symbol, ")"@)
    }
}

/// Where a parameter list that starts at `p` with `n` names ends.
pub open spec fn after_names(p: int, n: int) -> int {
    if n == 0 {
        p + 1
    } else {
        p + 2 * n
    }
}

proof fn lemma_symbols_differ()
    ensures
        ")"@ != ":"@,
        ")"@ != ","@,
        ","@ != ":"@,
        "}"@ != "{"@,
{
    reveal_strlit(")");
    reveal_strlit(":");
    reveal_strlit(",");
    reveal_strlit("}");
    reveal_strlit("{");
    assert(")"@[0] != ":"@[0]);
    assert(")"@[0] != ","@[0]);
    assert(","@[0] != ":"@[0]);
    assert("}"@[0] != "{"@[0]);
}

/// Parameters: names separated by `,` and closed by `)` read as those names,
/// in order, and the parser stands after the `)`.
pub proof fn law_parameters(toks: Seq<Token>, st: PState, names: Seq<Seq<char>>, acc: Seq<Seq<char>>)
    requires
        st.pos >= 0,
        names_then_close(toks, st.pos, names),
    ensures
        spec_params(toks, st, acc) == Ok::<(Seq<Seq<char>>, PState), (ParseError, Seq<u32>)>(
            (acc + names, PState { pos: after_names(st.pos, names.len() as int), warnings: st.warnings }),
        ),
    decreases names.len(),
{
    lemma_symbols_differ();
    let p = st.pos;
    let n = names.len() as int;
    if n == 0 {
        assert(acc + names =~= acc);
    } else {
        assert(token_at(toks, p + 2 * 0, TokenType::Identifier, names[0]));
        assert(names[0] != ")"@);
        let acc2 = acc.push(names[0]);
        if n == 1 {
            assert(toks[p + 1].value@ == ")"@);
            assert(acc2 =~= acc + names);
        } else {
            assert(token_at(toks, p + 2 * 0 + 1, TokenType::Symbol, ","@));
            let rest = names.drop_first();
            assert forall|k: int| 0 <= k < rest.len() implies #[trigger] token_at(
                toks,
                p + 2 + 2 * k,
                TokenType::Identifier,
                rest[k],
            ) && rest[k] != ")"@ by {
                assert(token_at(toks, p + 2 * (k + 1), TokenType::Identifier, names[k + 1]));
                assert(p + 2 * (k + 1) == p + 2 + 2 * k);
            }
            assert forall|k: int| 0 <= k < rest.len() - 1 implies #[trigger] token_at(
                toks,
                p + 2 + 2 * k + 1,
                TokenType::Symbol,
                ","@,
            ) by {
                assert(token_at(toks, p + 2 * (k + 1) + 1, TokenType::Symbol, ","@));
                assert(p + 2 * (k + 1) + 1 == p + 2 + 2 * k + 1);
            }
            assert(p + 2 + 2 * rest.len() - 1 == p + 2 * n - 1);
            assert(names_then_close(toks, p + 2, rest));
            law_parameters(toks, PState { pos: p + 2, warnings: st.warnings }, rest, acc2);
            assert(acc2 + rest =~= acc + names);
        }
    }
}

/// Definitions: `function name(params) { }`, `process name(params) { }` and
/// `event<name> { }` read as a function, process or event definition with
/// that name, those parameters in order and an empty body, on the line of the
/// name, and the parser stands after the `}`.
pub proof fn law_definitions(toks: Seq<Token>, st: PState, names: Seq<Seq<char>>)
    requires
        st.pos >= 0,
        0 <= st.pos + 2 < toks.len(),
        toks[st.pos + 1].kind == TokenType::Identifier,
    ensures
        ({
            let p = st.pos;
            let q = after_names(p + 3, names.len() as int);
            let kw = toks[p].value@;
            (kw == "function"@ || kw == "process"@) && toks[p].kind == TokenType::Identifier && token_at(
                toks,
                p + 2,
                TokenType::Symbol,
                "("@,
            ) && names_then_close(toks, p + 3, names) && token_at(toks, q, TokenType::Symbol, "{"@) && token_at(
                toks,
                q + 1,
                TokenType::Symbol,
                "}"@,
            ) ==> spec_stmt(toks, st) == Ok::<(SpecStatementBox, PState), (ParseError, Seq<u32>)>(
                (
                    sbox(
                        if kw == "function"@ {
                            SpecStatement::FunctionDefinition {
                                name: toks[p + 1].value@,
                                params: names,
                                body: seq![],
                            }
                        } else {
                            SpecStatement::ProcessDefinition { name: toks[p + 1].value@, params: names, body: seq![] }
                        },
                        toks[p + 1].line,
                    ),
                    PState { pos: q + 2, warnings: st.warnings },
                ),
            )
        }),
        ({
            let p = st.pos;
            token_at(toks, p, TokenType::Identifier, "event"@) && token_at(toks, p + 1, TokenType::Symbol, "<"@)
                && 0 <= p + 2 < toks.len() && toks[p + 2].kind == TokenType::Identifier && token_at(
                toks,
                p + 3,
                TokenType::Symbol,
                ">"@,
            ) && token_at(toks, p + 4, TokenType::Symbol, "{"@) && token_at(toks, p + 5, TokenType::Symbol, "}"@)
                ==> spec_stmt(toks, st) == Ok::<(SpecStatementBox, PState), (ParseError, Seq<u32>)>(
                (
                    sbox(SpecStatement::EventDefinition { event: toks[p + 2].value@, body: seq![] }, toks[p + 2].line),
                    PState { pos: p + 6, warnings: st.warnings },
                ),
            )
        }),
{
    reveal_strlit("_WARNTEST");
    reveal_strlit("function");
    reveal_strlit("process");
    reveal_strlit("event");
    reveal_strlit("(");
    reveal_strlit("<");
    reveal_strlit(">");
    lemma_symbols_differ();
    assert("_WARNTEST"@[0] == '_' && "function"@[0] == 'f' && "process"@[0] == 'p' && "event"@[0] == 'e');
    assert("function"@ != "_WARNTEST"@ && "process"@ != "_WARNTEST"@ && "event"@ != "_WARNTEST"@);
    assert("process"@ != "function"@ && "event"@ != "function"@ && "event"@ != "process"@);
    let p = st.pos;
    let q = after_names(p + 3, names.len() as int);
    let kw = toks[p].value@;
    if (kw == "function"@ || kw == "process"@) && toks[p].kind == TokenType::Identifier && token_at(
        toks,
        p + 2,
        TokenType::Symbol,
        "("@,
    ) && names_then_close(toks, p + 3, names) && token_at(toks, q, TokenType::Symbol, "{"@) && token_at(
        toks,
        q + 1,
        TokenType::Symbol,
        "}"@,
    ) {
        let w = st.warnings;
        law_parameters(toks, PState { pos: p + 3, warnings: w }, names, seq![]);
        assert(seq![] + names =~= names);
        assert(q > p + 3);
        assert(q + 1 < toks.len());
        assert(crate::parser::spec_body_stmts(toks, PState { pos: q + 1, warnings: w }, seq![]) == Ok::<
            (Seq<SpecStatementBox>, PState),
            (ParseError, Seq<u32>),
        >((seq![], PState { pos: q + 1, warnings: w })));
        assert(crate::parser::spec_body(toks, PState { pos: q, warnings: w }) == Ok::<
            (Seq<SpecStatementBox>, PState),
            (ParseError, Seq<u32>),
        >((seq![], PState { pos: q + 2, warnings: w })));
        let func = kw == "function"@;
        assert(crate::parser::spec_function_def(toks, PState { pos: p + 1, warnings: w }, func)
            == crate::parser::spec_function_rest(
            toks,
            PState { pos: p + 1, warnings: w },
            func,
            spec_params(toks, PState { pos: p + 3, warnings: w }, seq![]),
        ));
    }
}

/// The text parsing a string prefix names: `p` plain, `l` legacy, `m`
/// minimessage, `j` json.
pub open spec fn parsing_named(w: Seq<char>) -> Option<Seq<char>> {
    if w == "p"@ {
        Some("plain"@)
    } else if w == "l"@ {
        Some("legacy"@)
    } else if w == "m"@ {
        Some("minimessage"@)
    } else if w == "j"@ {
        Some("json"@)
    } else {
        None
    }
}

/// The scope a variable prefix names: `ln` line, `l` local, `g` game, `s` save.
pub open spec fn scope_named(w: Seq<char>) -> Option<Seq<char>> {
    if w == "ln"@ {
        Some("line"@)
    } else if w == "l"@ {
        Some("local"@)
    } else if w == "g"@ {
        Some("game"@)
    } else if w == "s"@ {
        Some("save"@)
    } else {
        None
    }
}

pub open spec fn expr_result(e: SpecExpression, line: u32, pos: int, st: PState) -> crate::parser::PRes<
    crate::ast::SpecExpressionBox,
> {
    Ok((ebox(e, line), PState { pos, warnings: st.warnings }))
}

/// Simple expressions: a number, a string (legacy text), a backquoted name (a
/// variable name), a name followed by `;`, a prefixed string (`p`, `l`, `m`,
/// `j`: its text parsing) and a prefixed backquoted name (`ln`, `l`, `g`, `s`:
/// its scope) read as themselves, on the line of their first token, and
/// `f()` and `o::m()` as a call of `f` and of the action `m` of `o` with no
/// arguments; an unknown prefix is an error.
pub proof fn law_expression_atoms(toks: Seq<Token>, st: PState)
    requires
        0 <= st.pos < toks.len(),
    ensures
        ({
            let p = st.pos;
            let t = toks[p];
            &&& t.kind == TokenType::Number ==> spec_expr(toks, st) == expr_result(
                SpecExpression::NumberLiteral(t.value@),
                t.line,
                p + 1,
                st,
            )
            &&& t.kind == TokenType::String ==> spec_expr(toks, st) == expr_result(
                SpecExpression::StringLiteral { parsing: "legacy"@, text: t.value@ },
                t.line,
                p + 1,
                st,
            )
            &&& t.kind == TokenType::FString ==> spec_expr(toks, st) == expr_result(
                SpecExpression::Identifier(t.value@),
                t.line,
                p + 1,
                st,
            )
            &&& (t.kind == TokenType::Identifier && token_at(toks, p + 1, TokenType::Symbol, ";"@))
                ==> spec_expr(toks, st) == expr_result(SpecExpression::Identifier(t.value@), t.line, p + 1, st)
            &&& (t.kind == TokenType::Identifier && p + 1 < toks.len() && toks[p + 1].kind == TokenType::String
                && toks[p + 1].value@ != "::"@ && toks[p + 1].value@ != "("@) ==> spec_expr(toks, st) == (
            match parsing_named(t.value@) {
                Some(parsing) => expr_result(
                    SpecExpression::StringLiteral { parsing, text: toks[p + 1].value@ },
                    t.line,
                    p + 2,
                    st,
                ),
                None => Err((ParseError::UnknownTextParsing { line: t.line }, st.warnings)),
            })
            &&& (t.kind == TokenType::Identifier && p + 1 < toks.len() && toks[p + 1].kind == TokenType::FString
                && toks[p + 1].value@ != "::"@ && toks[p + 1].value@ != "("@) ==> spec_expr(toks, st) == (
            match scope_named(t.value@) {
                Some(scope) => expr_result(
                    SpecExpression::ExplicitVariable { scope, name: toks[p + 1].value@ },
                    t.line,
                    p + 2,
                    st,
                ),
                None => Err((ParseError::UnknownVariableScope { line: t.line }, st.warnings)),
            })
            &&& (t.kind == TokenType::Identifier && token_at(toks, p + 1, TokenType::Symbol, "("@) && token_at(
                toks,
                p + 2,
                TokenType::Symbol,
                ")"@,
            )) ==> spec_expr(toks, st) == expr_result(
                SpecExpression::FunctionCall { name: t.value@, args: seq![] },
                t.line,
                p + 3,
                st,
            )
            &&& (t.kind == TokenType::Identifier && t.value@ != "value"@ && token_at(
                toks,
                p + 1,
                TokenType::Symbol,
                "::"@,
            ) && 0 <= p + 2 < toks.len() && toks[p + 2].kind == TokenType::Identifier && token_at(
                toks,
                p + 3,
                TokenType::Symbol,
                "("@,
            ) && token_at(toks, p + 4, TokenType::Symbol, ")"@) && token_at(toks, p + 5, TokenType::Symbol, ";"@))
                ==> spec_expr(toks, st) == expr_result(
                SpecExpression::MethodCall {
                    object: t.value@,
                    method: toks[p + 2].value@,
                    args: SpecArgumentList { posargs: seq![], kwargs: seq![], handler: None },
                },
                t.line,
                p + 5,
                st,
            )
        }),
{
    reveal_strlit("::");
    reveal_strlit("(");
    reveal_strlit(")");
    reveal_strlit(";");
    reveal_strlit("!");
    reveal_strlit("{");
    lemma_symbols_differ();
    assert(";"@[0] != "::"@[0] && ";"@[0] != "("@[0] && "("@[0] != "::"@[0] && ")"@[0] != "::"@[0]);
    assert(";"@ != "::"@ && ";"@ != "("@ && "("@ != "::"@ && ")"@ != "::"@);
    assert("("@[0] != "!"@[0] && ";"@[0] != "{"@[0] && ";"@[0] != "!"@[0] && ")"@[0] != "("@[0] && ";"@[0] != "("@[0]);
    assert("("@ != "!"@ && ";"@ != "{"@ && ";"@ != "!"@ && ")"@ != "("@);
    let p = st.pos;
    let w = st.warnings;
    if toks[p].kind == TokenType::Identifier && token_at(toks, p + 1, TokenType::Symbol, "("@) && token_at(
        toks,
        p + 2,
        TokenType::Symbol,
        ")"@,
    ) {
        assert(crate::parser::spec_pos_items(toks, PState { pos: p + 2, warnings: w }, seq![]) == Ok::<
            (Seq<crate::ast::SpecExpressionBox>, PState),
            (ParseError, Seq<u32>),
        >((seq![], PState { pos: p + 3, warnings: w })));
    }
    if toks[p].kind == TokenType::Identifier && toks[p].value@ != "value"@ && token_at(
        toks,
        p + 1,
        TokenType::Symbol,
        "::"@,
    ) && 0 <= p + 2 < toks.len() && toks[p + 2].kind == TokenType::Identifier && token_at(
        toks,
        p + 3,
        TokenType::Symbol,
        "("@,
    ) && token_at(toks, p + 4, TokenType::Symbol, ")"@) && token_at(toks, p + 5, TokenType::Symbol, ";"@) {
        let st3 = PState { pos: p + 3, warnings: w };
        assert(crate::parser::spec_mixed_pos(toks, PState { pos: p + 4, warnings: w }, seq![]) == Ok::<
            ((Seq<crate::ast::SpecExpressionBox>, Option<Seq<char>>), PState),
            (ParseError, Seq<u32>),
        >(((seq![], None), PState { pos: p + 5, warnings: w })));
        assert(crate::parser::spec_mixed_args(toks, st3) == Ok::<(SpecArgumentList, PState), (ParseError, Seq<u32>)>(
            (SpecArgumentList { posargs: seq![], kwargs: seq![], handler: None }, PState { pos: p + 5, warnings: w }),
        ));
    }
}

proof fn lemma_program_keeps(toks: Seq<Token>, st: PState, acc: Seq<SpecStatementBox>)
    ensures
        spec_program_from(toks, st, acc) matches Ok((stmts, _)) ==> {
            &&& stmts.len() >= acc.len()
            &&& stmts.take(acc.len() as int) == acc
            &&& (0 <= st.pos < toks.len()) ==> (spec_stmt(toks, st) matches Ok((s, _)) && stmts.len() > acc.len()
                && stmts[acc.len() as int] == s)
        },
    decreases toks.len() - st.pos,
{
    if st.pos < toks.len() {
        if let Ok((s, st2)) = spec_stmt(toks, st) {
            if st.pos < st2.pos <= toks.len() {
                lemma_program_keeps(toks, st2, acc.push(s));
                if let Ok((stmts, _)) = spec_program_from(toks, st2, acc.push(s)) {
                    assert(stmts.take(acc.len() as int) =~= acc.push(s).take(acc.len() as int));
                    assert(acc.push(s).take(acc.len() as int) =~= acc);
                    assert(stmts.take(acc.len() + 1int) =~= acc.push(s).take(acc.len() + 1int));
                    assert(stmts[acc.len() as int] == stmts.take(acc.len() + 1int)[acc.len() as int]);
                }
            }
        }
    } else {
        if let Ok((stmts, _)) = spec_program_from(toks, st, acc) {
            assert(stmts.take(acc.len() as int) =~= acc);
        }
    }
}

/// A program keeps every statement it reads, in order: the statements read
/// before stay in front, and where tokens are left, the statement that starts
/// there comes next.
pub proof fn law_program_statements(toks: Seq<Token>, st: PState, acc: Seq<SpecStatementBox>)
    ensures
        spec_program_from(toks, st, acc) matches Ok((stmts, _)) ==> {
            &&& stmts.take(acc.len() as int) == acc
            &&& (0 <= st.pos < toks.len()) ==> (spec_stmt(toks, st) matches Ok((s, _)) && stmts.len() > acc.len()
                && stmts[acc.len() as int] == s)
        },
{
    lemma_program_keeps(toks, st, acc);
}

proof fn lemma_kw_index(kws: Seq<(Seq<char>, SpecExpressionBox)>, name: Seq<char>, i: int)
    requires
        0 <= i,
    ensures
        kw_index(kws, name, i) == -1 ==> forall|k: int| i <= k < kws.len() ==> #[trigger] kws[k].0 != name,
        kw_index(kws, name, i) != -1 ==> i <= kw_index(kws, name, i) < kws.len() && kws[kw_index(kws, name, i)].0 == name,
    decreases kws.len() - i,
{
    if i < kws.len() && kws[i].0 != name {
        lemma_kw_index(kws, name, i + 1);
    }
}

/// Giving a named argument a value: among named arguments whose names are all
/// different, the argument of that name, if there is one, takes the new value
/// in its place, and otherwise the argument comes last; the names stay all
/// different.
pub proof fn law_named_argument(kws: Seq<(Seq<char>, SpecExpressionBox)>, name: Seq<char>, val: SpecExpressionBox)
    requires
        distinct_keys(kws),
    ensures
        distinct_keys(kw_insert(kws, name, val)),
        forall|k: int| 0 <= k < kws.len() && #[trigger] kws[k].0 == name ==> kw_insert(kws, name, val) == kws.update(
            k,
            (name, val),
        ),
        (forall|k: int| 0 <= k < kws.len() ==> #[trigger] kws[k].0 != name) ==> kw_insert(kws, name, val) == kws.push(
            (name, val),
        ),
{
    lemma_kw_index(kws, name, 0);
    let r = kw_insert(kws, name, val);
    let i = kw_index(kws, name, 0);
    if i != -1 {
        assert forall|a: int, b: int| 0 <= a < b < r.len() implies #[trigger] r[a].0 != #[trigger] r[b].0 by {
            assert(r[a].0 == kws[a].0 && r[b].0 == kws[b].0);
        }
        assert forall|k: int| 0 <= k < kws.len() && #[trigger] kws[k].0 == name implies kw_insert(kws, name, val)
            == kws.update(k, (name, val)) by {
            if k != i {
                if k < i {
                    assert(kws[k].0 != kws[i].0);
                } else {
                    assert(kws[i].0 != kws[k].0);
                }
            }
        }
    } else {
        assert forall|a: int, b: int| 0 <= a < b < r.len() implies #[trigger] r[a].0 != #[trigger] r[b].0 by {
            if b == kws.len() {
                assert(r[a] == kws[a]);
            } else {
                assert(r[a] == kws[a] && r[b] == kws[b]);
            }
        }
    }
}

proof fn lemma_kw_loop_distinct(toks: Seq<Token>, st: PState, kws: Seq<(Seq<char>, SpecExpressionBox)>)
    requires
        distinct_keys(kws),
    ensures
        spec_kw_loop(toks, st, kws) matches Ok((r, _)) ==> distinct_keys(r),
    decreases toks.len() - st.pos,
{
    if st.pos < toks.len() && toks[st.pos].value@ == ","@ {
        let st1 = adv(st);
        if st1.pos < toks.len() {
            let name = toks[st1.pos].value@;
            let st3 = PState { pos: st1.pos + 2, warnings: st.warnings };
            if let Ok((val, st4)) = spec_expr(toks, st3) {
                if st.pos < st4.pos <= toks.len() {
                    law_named_argument(kws, name, val);
                    lemma_kw_loop_distinct(toks, st4, kw_insert(kws, name, val));
                }
            }
        }
    }
}

/// An argument list never names two named arguments alike: when a name is
/// given again, its later value replaces the earlier one.
pub proof fn law_named_arguments_distinct(toks: Seq<Token>, st: PState)
    ensures
        spec_mixed_args(toks, st) matches Ok((args, _)) ==> distinct_keys(args.kwargs),
{
    let empty = Seq::<(Seq<char>, SpecExpressionBox)>::empty();
    assert(distinct_keys(empty));
    if let Ok((args, st_end)) = spec_mixed_args(toks, st) {
        let st1 = adv(st);
        if let Ok(((posargs, first), st2)) = crate::parser::spec_mixed_pos(toks, st1, seq![]) {
            if let Some(name) = first {
                let st3 = adv(st2);
                if let Ok((val, st4)) = spec_expr(toks, st3) {
                    law_named_argument(empty, name, val);
                    lemma_kw_loop_distinct(toks, st4, kw_insert(empty, name, val));
                }
            }
        }
    }
}

/// Conditions and game values: `o::m!() { }` reads as an inverted condition
/// on the action `m` of `o` with no arguments and an empty body, `o::m() { }`
/// as the same condition not inverted, and `value::name` (with no argument
/// list after it) as the game value `name`.
pub proof fn law_conditions_and_game_values(toks: Seq<Token>, st: PState)
    requires
        0 <= st.pos,
        st.pos + 2 < toks.len(),
        toks[st.pos].kind == TokenType::Identifier,
        token_at(toks, st.pos + 1, TokenType::Symbol, "::"@),
        toks[st.pos + 2].kind == TokenType::Identifier,
    ensures
        ({
            let p = st.pos;
            let empty = SpecArgumentList { posargs: seq![], kwargs: seq![], handler: None };
            &&& (toks[p].value@ != "value"@ && token_at(toks, p + 3, TokenType::Symbol, "!"@) && token_at(
                toks,
                p + 4,
                TokenType::Symbol,
                "("@,
            ) && token_at(toks, p + 5, TokenType::Symbol, ")"@) && token_at(toks, p + 6, TokenType::Symbol, "{"@)
                && token_at(toks, p + 7, TokenType::Symbol, "}"@)) ==> spec_expr(toks, st) == expr_result(
                SpecExpression::Condition {
                    object: toks[p].value@,
                    method: toks[p + 2].value@,
                    inverted: true,
                    args: empty,
                    body: seq![],
                },
                toks[p].line,
                p + 8,
                st,
            )
            &&& (toks[p].value@ != "value"@ && token_at(toks, p + 3, TokenType::Symbol, "("@) && token_at(
                toks,
                p + 4,
                TokenType::Symbol,
                ")"@,
            ) && token_at(toks, p + 5, TokenType::Symbol, "{"@) && token_at(toks, p + 6, TokenType::Symbol, "}"@))
                ==> spec_expr(toks, st) == expr_result(
                SpecExpression::Condition {
                    object: toks[p].value@,
                    method: toks[p + 2].value@,
                    inverted: false,
                    args: empty,
                    body: seq![],
                },
                toks[p].line,
                p + 7,
                st,
            )
            &&& (toks[p].value@ == "value"@ && token_at(toks, p + 3, TokenType::Symbol, ";"@)) ==> spec_expr(
                toks,
                st,
            ) == expr_result(SpecExpression::GameValue(toks[p + 2].value@), toks[p].line, p + 3, st)
        }),
{
    reveal_strlit("::");
    reveal_strlit("(");
    reveal_strlit(")");
    reveal_strlit(";");
    reveal_strlit("!");
    reveal_strlit("{");
    reveal_strlit("}");
    lemma_symbols_differ();
    assert("!"@[0] != "("@[0] && ")"@[0] != "("@[0] && "{"@[0] != "("@[0] && ";"@[0] != "("@[0] && ";"@[0] != "!"@[0]);
    assert("!"@ != "("@ && ")"@ != "("@ && "{"@ != "("@ && ";"@ != "("@ && ";"@ != "!"@ && "("@ != "!"@);
    let p = st.pos;
    let w = st.warnings;
    let empty = SpecArgumentList { posargs: seq![], kwargs: seq![], handler: None };
    if toks[p].value@ != "value"@ && token_at(toks, p + 3, TokenType::Symbol, "!"@) && token_at(
        toks,
        p + 4,
        TokenType::Symbol,
        "("@,
    ) && token_at(toks, p + 5, TokenType::Symbol, ")"@) && token_at(toks, p + 6, TokenType::Symbol, "{"@)
        && token_at(toks, p + 7, TokenType::Symbol, "}"@) {
        assert(crate::parser::spec_mixed_pos(toks, PState { pos: p + 5, warnings: w }, seq![]) == Ok::<
            ((Seq<crate::ast::SpecExpressionBox>, Option<Seq<char>>), PState),
            (ParseError, Seq<u32>),
        >(((seq![], None), PState { pos: p + 6, warnings: w })));
        assert(spec_mixed_args(toks, PState { pos: p + 4, warnings: w }) == Ok::<(SpecArgumentList, PState), (ParseError, Seq<u32>)>(
            (empty, PState { pos: p + 6, warnings: w }),
        ));
        assert(crate::parser::spec_body_stmts(toks, PState { pos: p + 7, warnings: w }, seq![]) == Ok::<
            (Seq<SpecStatementBox>, PState),
            (ParseError, Seq<u32>),
        >((seq![], PState { pos: p + 7, warnings: w })));
        assert(crate::parser::spec_body(toks, PState { pos: p + 6, warnings: w }) == Ok::<
            (Seq<SpecStatementBox>, PState),
            (ParseError, Seq<u32>),
        >((seq![], PState { pos: p + 8, warnings: w })));
    }
    if toks[p].value@ != "value"@ && token_at(toks, p + 3, TokenType::Symbol, "("@) && token_at(
        toks,
        p + 4,
        TokenType::Symbol,
        ")"@,
    ) && token_at(toks, p + 5, TokenType::Symbol, "{"@) && token_at(toks, p + 6, TokenType::Symbol, "}"@) {
        assert(crate::parser::spec_mixed_pos(toks, PState { pos: p + 4, warnings: w }, seq![]) == Ok::<
            ((Seq<crate::ast::SpecExpressionBox>, Option<Seq<char>>), PState),
            (ParseError, Seq<u32>),
        >(((seq![], None), PState { pos: p + 5, warnings: w })));
        assert(spec_mixed_args(toks, PState { pos: p + 3, warnings: w }) == Ok::<(SpecArgumentList, PState), (ParseError, Seq<u32>)>(
            (empty, PState { pos: p + 5, warnings: w }),
        ));
        assert(crate::parser::spec_body_stmts(toks, PState { pos: p + 6, warnings: w }, seq![]) == Ok::<
            (Seq<SpecStatementBox>, PState),
            (ParseError, Seq<u32>),
        >((seq![], PState { pos: p + 6, warnings: w })));
        assert(crate::parser::spec_body(toks, PState { pos: p + 5, warnings: w }) == Ok::<
            (Seq<SpecStatementBox>, PState),
            (ParseError, Seq<u32>),
        >((seq![], PState { pos: p + 7, warnings: w })));
    }
}

/// From `p` on, the tokens are `n` numbers separated by `,`, then `close`
/// (just `close` when `n` is 0); no number's text is `close`, `(` or `]`.
pub open spec fn numbers_then(toks: Seq<Token>, p: int, n: int, close: Seq<char>) -> bool {
    &&& n >= 0
    &&& forall|k: int| 0 <= k < n ==> {
        &&& 0 <= #[trigger] (p + 2 * k) < toks.len()
        &&& toks[p + 2 * k].kind == TokenType::Number
        &&& toks[p + 2 * k].value@ != close
        &&& toks[p + 2 * k].value@ != "("@
        &&& toks[p + 2 * k].value@ != "]"@
    }
    &&& forall|k: int| 0 <= k < n - 1 ==> #[trigger] token_at(toks, p + 2 * k + 1, TokenType::Symbol, ","@)
    &&& token_at(toks, if n == 0 { p } else { p + 2 * n - 1 }, TokenType::Symbol, close)
}

/// The numbers of such a list, as expressions.
pub open spec fn number_items(toks: Seq<Token>, p: int, n: int) -> Seq<crate::ast::SpecExpressionBox> {
    Seq::new(n as nat, |k: int| ebox(SpecExpression::NumberLiteral(toks[p + 2 * k].value@), toks[p + 2 * k].line))
}

proof fn lemma_numbers_shift(toks: Seq<Token>, p: int, n: int, close: Seq<char>)
    requires
        n >= 2,
        numbers_then(toks, p, n, close),
    ensures
        numbers_then(toks, p + 2, n - 1, close),
{
    assert forall|k: int| 0 <= k < n - 1 implies {
        &&& 0 <= #[trigger] (p + 2 + 2 * k) < toks.len()
        &&& toks[p + 2 + 2 * k].kind == TokenType::Number
        &&& toks[p + 2 + 2 * k].value@ != close
        &&& toks[p + 2 + 2 * k].value@ != "("@
        &&& toks[p + 2 + 2 * k].value@ != "]"@
    } by {
        assert(p + 2 * (k + 1) == p + 2 + 2 * k);
        assert(0 <= p + 2 * (k + 1) < toks.len());
    }
    assert forall|k: int| 0 <= k < n - 2 implies #[trigger] token_at(toks, p + 2 + 2 * k + 1, TokenType::Symbol, ","@) by {
        assert(token_at(toks, p + 2 * (k + 1) + 1, TokenType::Symbol, ","@));
        assert(p + 2 * (k + 1) + 1 == p + 2 + 2 * k + 1);
    }
    assert(p + 2 + 2 * (n - 1) - 1 == p + 2 * n - 1);
}

proof fn lemma_numbers_split(toks: Seq<Token>, p: int, n: int)
    requires
        n >= 1,
    ensures
        number_items(toks, p, n) == seq![number_items(toks, p, n)[0]] + number_items(toks, p + 2, n - 1),
{
    assert forall|k: int| 0 <= k < n - 1 implies number_items(toks, p, n)[k + 1] == #[trigger] number_items(toks, p + 2, n - 1)[k] by {
        assert(p + 2 * (k + 1) == p + 2 + 2 * k);
    }
    assert(number_items(toks, p, n) =~= seq![number_items(toks, p, n)[0]] + number_items(toks, p + 2, n - 1));
}

proof fn lemma_close_differs()
    ensures
        ")"@ != ","@,
        "]"@ != ","@,
        ")"@ != "="@,
        ","@ != "="@,
        ")"@ != "("@,
        "]"@ != "("@,
{
    reveal_strlit(")");
    reveal_strlit("]");
    reveal_strlit(",");
    reveal_strlit("=");
    reveal_strlit("(");
    assert(")"@[0] != ","@[0] && "]"@[0] != ","@[0] && ")"@[0] != "="@[0] && ","@[0] != "="@[0]);
    assert(")"@[0] != "("@[0] && "]"@[0] != "("@[0]);
}

proof fn lemma_pos_items(toks: Seq<Token>, st: PState, n: int, acc: Seq<crate::ast::SpecExpressionBox>)
    requires
        st.pos >= 0,
        numbers_then(toks, st.pos, n, ")"@),
    ensures
        crate::parser::spec_pos_items(toks, st, acc) == Ok::<(Seq<crate::ast::SpecExpressionBox>, PState), (ParseError, Seq<u32>)>(
            (acc + number_items(toks, st.pos, n), PState { pos: after_names(st.pos, n), warnings: st.warnings }),
        ),
    decreases n,
{
    lemma_close_differs();
    let p = st.pos;
    if n == 0 {
        assert(acc + number_items(toks, p, n) =~= acc);
    } else {
        assert(0 <= p + 2 * 0 < toks.len());
        let e = number_items(toks, p, n)[0];
        assert(spec_expr(toks, st) == Ok::<(crate::ast::SpecExpressionBox, PState), (ParseError, Seq<u32>)>(
            (e, PState { pos: p + 1, warnings: st.warnings }),
        ));
        lemma_numbers_split(toks, p, n);
        if n == 1 {
            assert(acc.push(e) =~= acc + number_items(toks, p, n));
        } else {
            assert(token_at(toks, p + 2 * 0 + 1, TokenType::Symbol, ","@));
            lemma_numbers_shift(toks, p, n, ")"@);
            lemma_pos_items(toks, PState { pos: p + 2, warnings: st.warnings }, n - 1, acc.push(e));
            assert(acc.push(e) + number_items(toks, p + 2, n - 1) =~= acc + number_items(toks, p, n));
            assert(after_names(p + 2, n - 1) == after_names(p, n));
        }
    }
}

proof fn lemma_array_items(toks: Seq<Token>, st: PState, n: int, acc: Seq<crate::ast::SpecExpressionBox>)
    requires
        st.pos >= 0,
        numbers_then(toks, st.pos, n, "]"@),
    ensures
        crate::parser::spec_array_items(toks, st, acc) == Ok::<(Seq<crate::ast::SpecExpressionBox>, PState), (ParseError, Seq<u32>)>(
            (acc + number_items(toks, st.pos, n), PState { pos: after_names(st.pos, n) - 1, warnings: st.warnings }),
        ),
    decreases n,
{
    lemma_close_differs();
    let p = st.pos;
    if n == 0 {
        assert(acc + number_items(toks, p, n) =~= acc);
    } else {
        assert(0 <= p + 2 * 0 < toks.len());
        let e = number_items(toks, p, n)[0];
        assert(spec_expr(toks, st) == Ok::<(crate::ast::SpecExpressionBox, PState), (ParseError, Seq<u32>)>(
            (e, PState { pos: p + 1, warnings: st.warnings }),
        ));
        lemma_numbers_split(toks, p, n);
        if n == 1 {
            assert(acc.push(e) =~= acc + number_items(toks, p, n));
        } else {
            assert(token_at(toks, p + 2 * 0 + 1, TokenType::Symbol, ","@));
            lemma_numbers_shift(toks, p, n, "]"@);
            lemma_array_items(toks, PState { pos: p + 2, warnings: st.warnings }, n - 1, acc.push(e));
            assert(acc.push(e) + number_items(toks, p + 2, n - 1) =~= acc + number_items(toks, p, n));
        }
    }
}

proof fn lemma_mixed_pos(toks: Seq<Token>, st: PState, n: int, acc: Seq<crate::ast::SpecExpressionBox>)
    requires
        st.pos >= 0,
        numbers_then(toks, st.pos, n, ")"@),
    ensures
        crate::parser::spec_mixed_pos(toks, st, acc) == Ok::<
            ((Seq<crate::ast::SpecExpressionBox>, Option<Seq<char>>), PState),
            (ParseError, Seq<u32>),
        >(((acc + number_items(toks, st.pos, n), None), PState { pos: after_names(st.pos, n), warnings: st.warnings })),
    decreases n,
{
    lemma_close_differs();
    let p = st.pos;
    if n == 0 {
        assert(acc + number_items(toks, p, n) =~= acc);
    } else {
        assert(0 <= p + 2 * 0 < toks.len());
        let e = number_items(toks, p, n)[0];
        assert(spec_expr(toks, st) == Ok::<(crate::ast::SpecExpressionBox, PState), (ParseError, Seq<u32>)>(
            (e, PState { pos: p + 1, warnings: st.warnings }),
        ));
        lemma_numbers_split(toks, p, n);
        if n == 1 {
            assert(acc.push(e) =~= acc + number_items(toks, p, n));
        } else {
            assert(token_at(toks, p + 2 * 0 + 1, TokenType::Symbol, ","@));
            lemma_numbers_shift(toks, p, n, ")"@);
            lemma_mixed_pos(toks, PState { pos: p + 2, warnings: st.warnings }, n - 1, acc.push(e));
            assert(acc.push(e) + number_items(toks, p + 2, n - 1) =~= acc + number_items(toks, p, n));
            assert(after_names(p + 2, n - 1) == after_names(p, n));
        }
    }
}

/// Argument lists keep their arguments in order: `f(n1, ..., nk)` reads as a
/// call of `f` with those numbers, `[n1, ..., nk]` as an array of them, and
/// `o::m(n1, ..., nk);` as a call of the action `m` of `o` with them as
/// positional arguments and no named ones.
pub proof fn law_argument_lists(toks: Seq<Token>, st: PState, n: int)
    requires
        0 <= st.pos < toks.len(),
    ensures
        ({
            let p = st.pos;
            &&& (toks[p].kind == TokenType::Identifier && token_at(toks, p + 1, TokenType::Symbol, "("@) && numbers_then(
                toks,
                p + 2,
                n,
                ")"@,
            )) ==> spec_expr(toks, st) == expr_result(
                SpecExpression::FunctionCall { name: toks[p].value@, args: number_items(toks, p + 2, n) },
                toks[p].line,
                after_names(p + 2, n),
                st,
            )
            &&& (token_at(toks, p, TokenType::Symbol, "["@) && numbers_then(toks, p + 1, n, "]"@)) ==> spec_expr(
                toks,
                st,
            ) == expr_result(
                SpecExpression::ArrayLiteral(number_items(toks, p + 1, n)),
                toks[p].line,
                after_names(p + 1, n),
                st,
            )
            &&& (toks[p].kind == TokenType::Identifier && toks[p].value@ != "value"@ && token_at(
                toks,
                p + 1,
                TokenType::Symbol,
                "::"@,
            ) && 0 <= p + 2 < toks.len() && toks[p + 2].kind == TokenType::Identifier && token_at(
                toks,
                p + 3,
                TokenType::Symbol,
                "("@,
            ) && numbers_then(toks, p + 4, n, ")"@) && token_at(toks, after_names(p + 4, n), TokenType::Symbol, ";"@))
                ==> spec_expr(toks, st) == expr_result(
                SpecExpression::MethodCall {
                    object: toks[p].value@,
                    method: toks[p + 2].value@,
                    args: SpecArgumentList { posargs: number_items(toks, p + 4, n), kwargs: seq![], handler: None },
                },
                toks[p].line,
                after_names(p + 4, n),
                st,
            )
        }),
{
    reveal_strlit("::");
    reveal_strlit("(");
    reveal_strlit(")");
    reveal_strlit(";");
    reveal_strlit("!");
    reveal_strlit("{");
    reveal_strlit("[");
    reveal_strlit("]");
    lemma_symbols_differ();
    lemma_close_differs();
    assert("("@[0] != "::"@[0] && "["@[0] != "("@[0] && ";"@[0] != "("@[0] && "("@[0] != "!"@[0] && ";"@[0] != "{"@[0]);
    assert("("@ != "::"@ && "["@ != "("@ && ";"@ != "("@ && "("@ != "!"@ && ";"@ != "{"@);
    let p = st.pos;
    let w = st.warnings;
    if toks[p].kind == TokenType::Identifier && token_at(toks, p + 1, TokenType::Symbol, "("@) && numbers_then(toks, p + 2, n, ")"@) {
        lemma_pos_items(toks, PState { pos: p + 2, warnings: w }, n, seq![]);
        assert(seq![] + number_items(toks, p + 2, n) =~= number_items(toks, p + 2, n));
    }
    if token_at(toks, p, TokenType::Symbol, "["@) && numbers_then(toks, p + 1, n, "]"@) {
        lemma_array_items(toks, PState { pos: p + 1, warnings: w }, n, seq![]);
        assert(seq![] + number_items(toks, p + 1, n) =~= number_items(toks, p + 1, n));
    }
    if toks[p].kind == TokenType::Identifier && toks[p].value@ != "value"@ && token_at(toks, p + 1, TokenType::Symbol, "::"@)
        && 0 <= p + 2 < toks.len() && toks[p + 2].kind == TokenType::Identifier && token_at(toks, p + 3, TokenType::Symbol, "("@)
        && numbers_then(toks, p + 4, n, ")"@) && token_at(toks, after_names(p + 4, n), TokenType::Symbol, ";"@) {
        lemma_mixed_pos(toks, PState { pos: p + 4, warnings: w }, n, seq![]);
        assert(seq![] + number_items(toks, p + 4, n) =~= number_items(toks, p + 4, n));
        let q = after_names(p + 4, n);
        let args = SpecArgumentList { posargs: number_items(toks, p + 4, n), kwargs: seq![], handler: None };
        assert(q < toks.len() && toks[q].value@ == ";"@);
        assert(crate::parser::spec_mixed_handler(toks, PState { pos: p + 3, warnings: w }, number_items(toks, p + 4, n), Ok((seq![], PState { pos: q, warnings: w })))
            == Ok::<(SpecArgumentList, PState), (ParseError, Seq<u32>)>((args, PState { pos: q, warnings: w })));
        assert(spec_mixed_args(toks, PState { pos: p + 3, warnings: w }) == Ok::<(SpecArgumentList, PState), (ParseError, Seq<u32>)>(
            (args, PState { pos: q, warnings: w }),
        ));
    }
}

/// A `_WARNTEST` marker before a statement records its line as a warning and
/// the statement after it reads as it would without the marker.
pub proof fn law_warning_marker(toks: Seq<Token>, st: PState)
    requires
        0 <= st.pos,
        st.pos + 1 < toks.len(),
        toks[st.pos].value@ == "_WARNTEST"@,
        toks[st.pos + 1].value@ != "_WARNTEST"@,
    ensures
        spec_stmt(toks, st) == spec_stmt(
            toks,
            PState { pos: st.pos + 1, warnings: st.warnings.push(toks[st.pos].line) },
        ),
{
}

proof fn lemma_body_stmts_keeps(toks: Seq<Token>, st: PState, acc: Seq<SpecStatementBox>)
    ensures
        crate::parser::spec_body_stmts(toks, st, acc) matches Ok((stmts, _)) ==> {
            &&& stmts.len() >= acc.len()
            &&& stmts.take(acc.len() as int) == acc
            &&& (0 <= st.pos < toks.len() && toks[st.pos].value@ != "}"@) ==> (spec_stmt(toks, st) matches Ok((s, _))
                && stmts.len() > acc.len() && stmts[acc.len() as int] == s)
        },
    decreases toks.len() - st.pos,
{
    if st.pos < toks.len() && toks[st.pos].value@ != "}"@ {
        if let Ok((s, st2)) = spec_stmt(toks, st) {
            if st.pos < st2.pos <= toks.len() {
                lemma_body_stmts_keeps(toks, st2, acc.push(s));
                if let Ok((stmts, _)) = crate::parser::spec_body_stmts(toks, st2, acc.push(s)) {
                    assert(stmts.take(acc.len() + 1int) =~= acc.push(s).take(acc.len() + 1int));
                    assert(stmts.take(acc.len() as int) =~= acc.push(s).take(acc.len() as int));
                    assert(acc.push(s).take(acc.len() as int) =~= acc);
                    assert(stmts[acc.len() as int] == stmts.take(acc.len() + 1int)[acc.len() as int]);
                }
            }
        }
    } else {
        if let Ok((stmts, _)) = crate::parser::spec_body_stmts(toks, st, acc) {
            assert(stmts.take(acc.len() as int) =~= acc);
        }
    }
}

/// A body `{ ... }` keeps every statement it reads, in order: the statements
/// read before stay in front, and unless the next token is `}`, the statement
/// that starts there comes next.
pub proof fn law_body_statements(toks: Seq<Token>, st: PState, acc: Seq<SpecStatementBox>)
    ensures
        crate::parser::spec_body_stmts(toks, st, acc) matches Ok((stmts, _)) ==> {
            &&& stmts.take(acc.len() as int) == acc
            &&& (0 <= st.pos < toks.len() && toks[st.pos].value@ != "}"@) ==> (spec_stmt(toks, st) matches Ok((s, _))
                && stmts.len() > acc.len() && stmts[acc.len() as int] == s)
        },
{
    lemma_body_stmts_keeps(toks, st, acc);
}

/// A character that starts nothing stops the scan: one that is no blank, no
/// quote, no letter, digit or `_`, no symbol, and not the start of `::` or
/// `//`, is an error that names it and its line.
pub proof fn law_unknown_character(s: Seq<char>, i: int, line: nat)
    requires
        0 <= i < s.len(),
        !blank_char(s[i]),
        s[i] != '"' && s[i] != '`',
        !word_char(s[i]),
        !symbol_char(s[i]),
        !(s[i] == ':' && i + 1 < s.len() && s[i + 1] == ':'),
        !(s[i] == '/' && i + 1 < s.len() && s[i + 1] == '/'),
    ensures
        lex_from(s, i, line) == Err::<Seq<SpecToken>, LexError>(
            LexError::UnknownCharacter { character: s[i], line: line as u32 },
        ),
{
}

} // verus!
