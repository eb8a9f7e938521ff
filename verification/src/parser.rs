//! The line-oriented parser: functions, preambles, statements, loops and
//! guard conditions, built over the lines that the lexer's tokens occupy.
use crate::ast::{
    binding_m, bindings_m, expr_m, func_m, funcs_m, guard_m, lemma_bindings_push, lemma_funcs_push,
    lemma_loop_m, lemma_stmts_push, program_m, stmt_m, stmts_m, ActionM, BindingM, ConditionBlock,
    Expr, ExprM, FuncM, FunctionDecl, GuardAction, GuardM, GuardStmt, LetStmt, LitM, Literal,
    LoopBlock, Node, NodeM, Program, ReturnStmt, SetStmt, Span, Statement, StickyBinding, StmtM,
    Type,
};
use crate::diag::{
    any_error, diag_m, diags_m, err_m, errors_added, fix, lemma_errors_added_none, lemma_errors_added_push,
    lemma_errors_added_trans, opt_m, DiagM, Diagnostic, Phase,
};
use crate::expr::{
    bump_counter, lemma_parse_expr_errors, make_node_id, next_counter, node_id, parse_expr_node, parse_expr_spec,
};
use crate::lexer::{lemma_diags_push, tokens_m, Token};
use crate::lines::{line_m, lines_m, lines_spec, source_hash, split_token_lines, stable_hash, tokens_fit, LineM, Line};
use crate::text::{
    chars_eq, chars_eq_str, chars_starts_with, chars_to_string, is_ident, is_ident_text,
    push_chars, push_str, split_once_char, split_once_char_exec, split_once_pat,
    split_once_pat_exec, starts_with, str_chars, strip_prefix, strip_prefix_exec, trim,
    trim_chars, trim_start_matches, trim_start_matches_exec,
};
use crate::types::{sticky_chars, sticky_spec};
pub use crate::types::{parse_sticky_binding, parse_type};
use vstd::prelude::*;

verus! {

// ---------------------------------------------------------------------------
// Specification
// ---------------------------------------------------------------------------
/// The fixed context: the lines and the source hash.
pub struct PCtx {
    pub lines: Seq<LineM>,
    pub hash: u32,
}

/// The state: the next line, the diagnostics and the node counter.
pub struct PSt {
    pub index: int,
    pub diags: Seq<DiagM>,
    pub counter: int,
}

/// A line counts when it is not empty and not a comment.
pub open spec fn is_sig(t: Seq<char>) -> bool {
    t.len() > 0 && t[0] != '#'
}

/// The first significant line at or after `i`.
pub open spec fn peek_sig(c: PCtx, i: int) -> Option<int>
    decreases c.lines.len() - i,
{
    if i < 0 || i >= c.lines.len() {
        None
    } else if is_sig(c.lines[i].trimmed) {
        Some(i)
    } else {
        peek_sig(c, i + 1)
    }
}

pub proof fn lemma_peek_sig(c: PCtx, i: int)
    requires
        0 <= i,
    ensures
        peek_sig(c, i) matches Some(j) ==> i <= j < c.lines.len() && is_sig(c.lines[j].trimmed),
    decreases c.lines.len() - i,
{
    if 0 <= i < c.lines.len() && !is_sig(c.lines[i].trimmed) {
        lemma_peek_sig(c, i + 1);
    }
}

/// Takes the next significant line, moving past it (or to the end).
pub open spec fn next_sig(c: PCtx, st: PSt) -> (Option<LineM>, PSt) {
    match peek_sig(c, st.index) {
        Some(j) => (Some(c.lines[j]), PSt { index: j + 1, ..st }),
        None => (None, PSt { index: if st.index < c.lines.len() { c.lines.len() as int } else { st.index }, ..st }),
    }
}

pub open spec fn span_for_line(l: LineM) -> Span {
    Span {
        start_byte: l.start as usize,
        end_byte: l.end as usize,
        start_line: l.number as usize,
        start_col: 1,
        end_line: l.number as usize,
        end_col: (l.text.len() + 1) as usize,
    }
}

pub open spec fn join_span(a: Span, b: Span) -> Span {
    Span {
        start_byte: a.start_byte,
        end_byte: b.end_byte,
        start_line: a.start_line,
        start_col: a.start_col,
        end_line: b.end_line,
        end_col: b.end_col,
    }
}

/// Adds a parse error.
pub open spec fn p_diag(
    st: PSt,
    code: Seq<char>,
    span: Span,
    msg: Seq<char>,
    expected: Option<Seq<char>>,
    actual: Option<Seq<char>>,
    strategy: Seq<char>,
    patch: Seq<char>,
) -> PSt {
    PSt {
        diags: st.diags.push(
            err_m(code, Phase::Parse, None, span, msg, expected, actual, strategy, patch),
        ),
        ..st
    }
}

/// A fresh node identifier.
pub open spec fn p_id(c: PCtx, st: PSt, kind: Seq<char>) -> (Seq<char>, PSt) {
    let n = next_counter(st.counter);
    (node_id(kind, n, c.hash), PSt { counter: n, ..st })
}

pub open spec fn p_expr(c: PCtx, st: PSt, src: Seq<char>, span: Span) -> (NodeM<ExprM>, PSt) {
    let r = parse_expr_spec(src, span, st.diags, st.counter, c.hash);
    (r.0, PSt { diags: r.1, counter: r.2, ..st })
}

pub open spec fn s_node(c: PCtx, st: PSt, kind: Seq<char>, span: Span, s: StmtM) -> (NodeM<StmtM>, PSt) {
    let r = p_id(c, st, kind);
    (NodeM { id: r.0, span, kind: s }, r.1)
}

/// The guard used when a condition has no valid guard line: `if (true) -> @continue`.
pub open spec fn default_guard(c: PCtx, st: PSt, span: Span) -> (NodeM<GuardM>, PSt) {
    let b = p_id(c, st, "bool"@);
    let cond = NodeM { id: b.0, span, kind: ExprM::Lit(LitM::Bool(true)) };
    let g = p_id(c, b.1, "guard"@);
    (NodeM { id: g.0, span, kind: GuardM { cond, action: ActionM::Continue } }, g.1)
}

pub open spec fn guard_action(c: PCtx, st: PSt, src: Seq<char>, span: Span) -> (ActionM, PSt) {
    if src == "@continue"@ {
        (ActionM::Continue, st)
    } else if src == "@break"@ {
        (ActionM::Break, st)
    } else if strip_prefix(src, "return "@) is Some {
        let e = p_expr(c, st, trim(strip_prefix(src, "return "@).unwrap()), span);
        (ActionM::Return(e.0), e.1)
    } else if strip_prefix(src, "set "@) is Some && split_once_char(
        strip_prefix(src, "set "@).unwrap(),
        '=',
    ) is Some {
        let parts = split_once_char(strip_prefix(src, "set "@).unwrap(), '=').unwrap();
        let e = p_expr(c, st, trim(parts.1), span);
        (ActionM::SetAssign { target: trim(parts.0), value: e.0 }, e.1)
    } else {
        (
            ActionM::Continue,
            p_diag(
                st,
                "E_PARSE006"@,
                span,
                "unsupported guard action"@,
                Some("@continue | @break | return <expr> | set <id> = <expr>"@),
                Some(src),
                "replace"@,
                "@continue"@,
            ),
        )
    }
}

pub open spec fn guard_stmt(c: PCtx, st: PSt, line: LineM) -> (NodeM<GuardM>, PSt) {
    let span = span_for_line(line);
    let text = line.trimmed;
    match strip_prefix(text, "if ("@) {
        None => default_guard(
            c,
            p_diag(
                st,
                "E_PARSE005"@,
                span,
                "guard statement must start with if ("@,
                Some("if (<expr>) -> <action>"@),
                Some(text),
                "replace"@,
                "if (true) -> @continue"@,
            ),
            span,
        ),
        Some(rest) => match split_once_pat(rest, ") ->"@) {
            None => default_guard(
                c,
                p_diag(
                    st,
                    "E_PARSE005"@,
                    span,
                    "guard statement requires ) -> separator"@,
                    Some("if (<expr>) -> <action>"@),
                    Some(text),
                    "insert"@,
                    ") -> @continue"@,
                ),
                span,
            ),
            Some((cs, acts)) => {
                let cond = p_expr(c, st, trim(cs), span);
                let act = guard_action(c, cond.1, trim(acts), span);
                let g = p_id(c, act.1, "guard"@);
                (NodeM { id: g.0, span, kind: GuardM { cond: cond.0, action: act.0 } }, g.1)
            },
        },
    }
}

pub open spec fn condition_stmt(c: PCtx, st: PSt, line: LineM) -> (NodeM<StmtM>, PSt) {
    let span = span_for_line(line);
    let name = trim(trim_start_matches(line.trimmed, "@condition "@));
    let n = next_sig(c, st);
    let g = match n.0 {
        Some(gl) => guard_stmt(c, n.1, gl),
        None => default_guard(
            c,
            p_diag(
                n.1,
                "E_PARSE005"@,
                span,
                "@condition must be followed by one guard statement"@,
                Some("if (<expr>) -> <action>"@),
                None,
                "insert"@,
                "if (true) -> @continue"@,
            ),
            span,
        ),
    };
    s_node(c, g.1, "condition"@, join_span(span, g.0.span), StmtM::Condition { name, guard: g.0 })
}

pub open spec fn let_stmt(c: PCtx, st: PSt, line: LineM) -> (NodeM<StmtM>, PSt) {
    let span = span_for_line(line);
    let rest = trim(trim_start_matches(line.trimmed, "let "@));
    let parts = match split_once_char(rest, '=') {
        Some((a, b)) => (trim(a), trim(b), st),
        None => (
            rest,
            Seq::empty(),
            p_diag(
                st,
                "E_PARSE003"@,
                span,
                "let statement requires ="@,
                Some("let name::Type = expr"@),
                Some(line.trimmed),
                "insert"@,
                " = "@,
            ),
        ),
    };
    let b = match sticky_spec(parts.0) {
        Ok((n, t)) => (BindingM { name: n, ty: t }, parts.2),
        Err(actual) => (
            BindingM { name: parts.0, ty: Type::Unknown },
            p_diag(
                parts.2,
                "E_TYPE001"@,
                span,
                "let binding requires sticky-type annotation"@,
                Some("identifier::Type"@),
                Some(actual),
                "annotate_type"@,
                "let "@ + parts.0 + "::i32 = "@ + parts.1,
            ),
        ),
    };
    let v = p_expr(c, b.1, parts.1, span);
    s_node(c, v.1, "let"@, span, StmtM::Let { binding: b.0, value: v.0 })
}

pub open spec fn set_stmt(c: PCtx, st: PSt, line: LineM) -> (NodeM<StmtM>, PSt) {
    let span = span_for_line(line);
    let rest = trim(trim_start_matches(line.trimmed, "set "@));
    let parts = match split_once_char(rest, '=') {
        Some((a, b)) => (trim(a), trim(b), st),
        None => (
            rest,
            Seq::empty(),
            p_diag(
                st,
                "E_PARSE003"@,
                span,
                "set statement requires ="@,
                Some("set name = expr"@),
                Some(line.trimmed),
                "insert"@,
                " = "@,
            ),
        ),
    };
    let v = p_expr(c, parts.2, parts.1, span);
    s_node(c, v.1, "set"@, span, StmtM::SetVar { target: parts.0, value: v.0 })
}

pub open spec fn measure(c: PCtx, st: PSt) -> int {
    c.lines.len() - st.index
}

pub open spec fn p_ok(c: PCtx, before: PSt, after: PSt) -> bool {
    before.index <= after.index <= c.lines.len()
}

/// One statement, from the next significant line.
pub open spec fn statement(c: PCtx, st: PSt) -> (NodeM<StmtM>, PSt)
    decreases measure(c, st), 0int,
{
    let n = next_sig(c, st);
    if !(0 <= st.index <= c.lines.len() && n.0 is Some && st.index < n.1.index <= c.lines.len()) {
        s_node(c, n.1, "expr_stmt"@, span_for_line(n.0.unwrap()), StmtM::Return { value: None })
    } else {
        let line = n.0.unwrap();
        let st1 = n.1;
        let span = span_for_line(line);
        let text = line.trimmed;
        if starts_with(text, "let "@) {
            let_stmt(c, st1, line)
        } else if starts_with(text, "set "@) {
            set_stmt(c, st1, line)
        } else if text == "return"@ || starts_with(text, "return "@) {
            let es = trim(strip_prefix(text, "return"@).unwrap());
            if es.len() == 0 {
                s_node(c, st1, "return"@, span, StmtM::Return { value: None })
            } else {
                let e = p_expr(c, st1, es, span);
                s_node(c, e.1, "return"@, span, StmtM::Return { value: Some(e.0) })
            }
        } else if starts_with(text, "@loop "@) {
            loop_stmt(c, st1, line)
        } else if starts_with(text, "@condition "@) {
            condition_stmt(c, st1, line)
        } else {
            let e = p_expr(c, st1, text, span);
            s_node(c, e.1, "expr_stmt"@, span, StmtM::Expr(e.0))
        }
    }
}

/// Statements of a loop body, up to `@end loop` or `@end func`.
pub open spec fn loop_body(c: PCtx, st: PSt, body: Seq<NodeM<StmtM>>) -> (Seq<NodeM<StmtM>>, PSt)
    decreases measure(c, st), 1int,
{
    match peek_sig(c, st.index) {
        None => (body, st),
        Some(j) => {
            let t = c.lines[j].trimmed;
            if starts_with(t, "@end loop"@) || starts_with(t, "@end func"@) || !(0 <= st.index
                <= c.lines.len()) {
                (body, st)
            } else {
                let r = statement(c, st);
                if st.index < r.1.index <= c.lines.len() {
                    loop_body(c, r.1, body.push(r.0))
                } else {
                    (body.push(r.0), r.1)
                }
            }
        },
    }
}

pub open spec fn loop_stmt(c: PCtx, st: PSt, line: LineM) -> (NodeM<StmtM>, PSt)
    decreases measure(c, st), 2int,
{
    let open_span = span_for_line(line);
    let rest = trim(trim_start_matches(line.trimmed, "@loop "@));
    let parts = match split_once_pat(rest, " in "@) {
        Some((a, b)) => (trim(a), trim(b), st),
        None => (
            rest,
            "items"@,
            p_diag(
                st,
                "E_PARSE004"@,
                open_span,
                "@loop requires sticky item and collection"@,
                Some("@loop item::Type in collection"@),
                Some(line.trimmed),
                "replace"@,
                "@loop item::i32 in items"@,
            ),
        ),
    };
    let coll = parts.1;
    let it = match sticky_spec(parts.0) {
        Ok((n, t)) => (BindingM { name: n, ty: t }, parts.2),
        Err(actual) => (
            BindingM { name: "item"@, ty: Type::Unknown },
            p_diag(
                parts.2,
                "E_TYPE001"@,
                open_span,
                "loop item requires sticky-type annotation"@,
                Some("identifier::Type"@),
                Some(actual),
                "annotate_type"@,
                "@loop item::i32 in items"@,
            ),
        ),
    };
    let st2 = it.1;
    if !(st.index <= st2.index <= c.lines.len() && 0 <= st.index) {
        s_node(c, st2, "loop"@, open_span, StmtM::Return { value: None })
    } else {
        let b = loop_body(c, st2, Seq::empty());
        let st3 = if peek_sig(c, b.1.index) is None {
            p_diag(
                b.1,
                "E_CLOSE002"@,
                open_span,
                "loop block reached EOF without matching @end loop"@,
                Some("@end loop"@),
                None,
                "close_block"@,
                "@end loop "@ + coll,
            )
        } else {
            b.1
        };
        let close = match peek_sig(c, st3.index) {
            Some(j) => if starts_with(c.lines[j].trimmed, "@end loop"@) {
                let st4 = PSt { index: st3.index + 1, ..st3 };
                let es = span_for_line(c.lines[j]);
                let suffix = trim(trim_start_matches(c.lines[j].trimmed, "@end loop"@));
                if suffix.len() == 0 {
                    (None, es, st4)
                } else if suffix != coll {
                    (
                        Some(suffix),
                        es,
                        p_diag(
                            st4,
                            "E_CLOSE001"@,
                            es,
                            "loop close name does not match collection"@,
                            Some(coll),
                            Some(suffix),
                            "rename"@,
                            "@end loop "@ + coll,
                        ),
                    )
                } else {
                    (Some(suffix), es, st4)
                }
            } else {
                (None, open_span, st3)
            },
            None => (None, open_span, st3),
        };
        s_node(
            c,
            close.2,
            "loop"@,
            join_span(open_span, close.1),
            StmtM::Loop { item: it.0, collection: coll, body: b.0, close_name: close.0 },
        )
    }
}

/// Statements of a function body, up to `@end func`.
pub open spec fn func_body(c: PCtx, st: PSt, name: Seq<char>, body: Seq<NodeM<StmtM>>) -> (
    Seq<NodeM<StmtM>>,
    PSt,
)
    decreases measure(c, st),
{
    match peek_sig(c, st.index) {
        None => (body, st),
        Some(j) => {
            let t = c.lines[j].trimmed;
            if starts_with(t, "@end func"@) || !(0 <= st.index < c.lines.len()) {
                (body, st)
            } else if starts_with(t, "@end loop"@) {
                let st1 = p_diag(
                    st,
                    "E_CLOSE002"@,
                    span_for_line(c.lines[j]),
                    "encountered @end loop outside a loop block"@,
                    Some("@end func "@ + name),
                    Some(t),
                    "delete"@,
                    Seq::empty(),
                );
                func_body(c, PSt { index: st.index + 1, ..st1 }, name, body)
            } else {
                let r = statement(c, st);
                if st.index < r.1.index <= c.lines.len() {
                    func_body(c, r.1, name, body.push(r.0))
                } else {
                    (body.push(r.0), r.1)
                }
            }
        },
    }
}

pub open spec fn intent_line(c: PCtx, st: PSt) -> (Seq<char>, PSt) {
    let n = next_sig(c, st);
    match n.0 {
        None => (Seq::empty(), n.1),
        Some(line) => match strip_prefix(line.trimmed, "@intent:"@) {
            Some(x) => {
                let intent = trim(x);
                if intent.len() == 0 || intent.len() > 280 {
                    (
                        intent,
                        p_diag(
                            n.1,
                            "E_INTENT001"@,
                            span_for_line(line),
                            "@intent must contain 1..=280 characters"@,
                            Some("@intent: <short purpose>"@),
                            Some(line.trimmed),
                            "add_intent"@,
                            "@intent: Describe this function"@,
                        ),
                    )
                } else {
                    (intent, n.1)
                }
            },
            None => (
                Seq::empty(),
                p_diag(
                    n.1,
                    "E_INTENT001"@,
                    span_for_line(line),
                    "function preamble must start with @intent:"@,
                    Some("@intent: <purpose>"@),
                    Some(line.trimmed),
                    "add_intent"@,
                    "@intent: Describe this function"@,
                ),
            ),
        },
    }
}

/// The `@in` lines of a preamble.
pub open spec fn inputs_loop(c: PCtx, st: PSt, inputs: Seq<BindingM>) -> (Seq<BindingM>, PSt)
    decreases measure(c, st),
{
    match peek_sig(c, st.index) {
        Some(j) => if starts_with(c.lines[j].trimmed, "@in "@) && 0 <= st.index < c.lines.len() {
            let line = c.lines[j];
            let st1 = PSt { index: st.index + 1, ..st };
            match sticky_spec(trim(trim_start_matches(line.trimmed, "@in "@))) {
                Ok((n, t)) => inputs_loop(c, st1, inputs.push(BindingM { name: n, ty: t })),
                Err(actual) => inputs_loop(
                    c,
                    p_diag(
                        st1,
                        "E_TYPE001"@,
                        span_for_line(line),
                        "@in declaration requires sticky-type annotation"@,
                        Some("identifier::Type"@),
                        Some(actual),
                        "annotate_type"@,
                        "@in value::i32"@,
                    ),
                    inputs,
                ),
            }
        } else {
            (inputs, st)
        },
        None => (inputs, st),
    }
}

pub open spec fn result_unknown() -> BindingM {
    BindingM { name: "result"@, ty: Type::Unknown }
}

pub open spec fn output_line(c: PCtx, st: PSt) -> (BindingM, PSt) {
    let n = next_sig(c, st);
    match n.0 {
        None => (result_unknown(), n.1),
        Some(line) => if starts_with(line.trimmed, "@out "@) {
            match sticky_spec(trim(trim_start_matches(line.trimmed, "@out "@))) {
                Ok((nm, t)) => (BindingM { name: nm, ty: t }, n.1),
                Err(actual) => (
                    result_unknown(),
                    p_diag(
                        n.1,
                        "E_TYPE001"@,
                        span_for_line(line),
                        "@out declaration requires sticky-type annotation"@,
                        Some("identifier::Type"@),
                        Some(actual),
                        "annotate_type"@,
                        "@out result::i32"@,
                    ),
                ),
            }
        } else {
            (
                result_unknown(),
                p_diag(
                    n.1,
                    "E_INTENT001"@,
                    span_for_line(line),
                    "function preamble requires exactly one @out declaration after @in lines"@,
                    Some("@out <identifier>::<Type>"@),
                    Some(line.trimmed),
                    "add_intent"@,
                    "@out result::i32"@,
                ),
            )
        },
    }
}

pub open spec fn dash_separator(c: PCtx, st: PSt, fallback: Span) -> PSt {
    let n = next_sig(c, st);
    match n.0 {
        Some(line) => if line.trimmed == "---"@ {
            n.1
        } else {
            p_diag(
                n.1,
                "E_INTENT001"@,
                span_for_line(line),
                "intent preamble must be followed by --- separator"@,
                Some("---"@),
                Some(line.trimmed),
                "insert"@,
                "---"@,
            )
        },
        None => p_diag(
            n.1,
            "E_INTENT001"@,
            fallback,
            "intent preamble must be followed by --- separator"@,
            Some("---"@),
            None,
            "insert"@,
            "---"@,
        ),
    }
}

/// A function block, from its `@func` line.
pub open spec fn function(c: PCtx, st: PSt) -> (NodeM<FuncM>, PSt) {
    let n = next_sig(c, st);
    let open = n.0.unwrap();
    let open_span = span_for_line(open);
    let name = trim(
        match strip_prefix(open.trimmed, "@func "@) {
            Some(x) => x,
            None => Seq::empty(),
        },
    );
    let st2 = if !is_ident_text(name) {
        p_diag(
            n.1,
            "E_PARSE002"@,
            open_span,
            "function name must be an identifier"@,
            Some("identifier"@),
            Some(name),
            "replace"@,
            "@func main"@,
        )
    } else {
        n.1
    };
    let it = intent_line(c, st2);
    let ins = inputs_loop(c, it.1, Seq::empty());
    let st5 = if ins.0.len() == 0 {
        p_diag(
            ins.1,
            "E_INTENT001"@,
            open_span,
            "function preamble requires at least one @in declaration"@,
            Some("@in <identifier>::<Type>"@),
            None,
            "add_intent"@,
            "@in input::i32"@,
        )
    } else {
        ins.1
    };
    let out = output_line(c, st5);
    let st7 = dash_separator(c, out.1, open_span);
    let body = func_body(c, st7, name, Seq::empty());
    let st8 = body.1;
    let close = match peek_sig(c, st8.index) {
        Some(j) => if starts_with(c.lines[j].trimmed, "@end func"@) {
            let st9 = PSt { index: st8.index + 1, ..st8 };
            let cn = trim(strip_prefix(c.lines[j].trimmed, "@end func"@).unwrap());
            let es = span_for_line(c.lines[j]);
            if cn != name {
                (
                    cn,
                    es,
                    p_diag(
                        st9,
                        "E_CLOSE001"@,
                        es,
                        "function close name does not match opener"@,
                        Some(name),
                        Some(cn),
                        "rename"@,
                        "@end func "@ + name,
                    ),
                )
            } else {
                (cn, es, st9)
            }
        } else {
            (Seq::empty(), open_span, st8)
        },
        None => (Seq::empty(), open_span, st8),
    };
    let fin = if close.0.len() == 0 {
        (
            name,
            p_diag(
                close.2,
                "E_CLOSE002"@,
                open_span,
                "function block reached EOF without matching @end func"@,
                Some("@end func "@ + name),
                None,
                "close_block"@,
                "@end func "@ + name,
            ),
        )
    } else {
        (close.0, close.2)
    };
    let id = p_id(c, fin.1, "func"@);
    (
        NodeM {
            id: id.0,
            span: join_span(open_span, close.1),
            kind: FuncM {
                name,
                intent: it.0,
                inputs: ins.0,
                output: out.0,
                body: body.0,
                close_name: fin.0,
            },
        },
        id.1,
    )
}

/// The functions of the program, with a diagnostic for every line (and
/// every line that is skipped over) that does not open a function.
pub open spec fn program_loop(c: PCtx, st: PSt, funcs: Seq<NodeM<FuncM>>) -> (
    Seq<NodeM<FuncM>>,
    PSt,
)
    decreases measure(c, st),
{
    match peek_sig(c, st.index) {
        None => (funcs, st),
        Some(j) => {
            let line = c.lines[j];
            if !(0 <= st.index < c.lines.len()) {
                (funcs, st)
            } else if starts_with(line.trimmed, "@func "@) {
                let r = function(c, st);
                if st.index < r.1.index <= c.lines.len() {
                    program_loop(c, r.1, funcs.push(r.0))
                } else {
                    (funcs.push(r.0), r.1)
                }
            } else {
                let st1 = p_diag(
                    st,
                    "E_PARSE001"@,
                    span_for_line(line),
                    "top-level item must start with @func"@,
                    Some("@func <identifier>"@),
                    Some(line.trimmed),
                    "insert"@,
                    "@func main"@,
                );
                program_loop(c, PSt { index: st.index + 1, ..st1 }, funcs)
            }
        },
    }
}

/// The program and the parse diagnostics of a source and its tokens.
pub open spec fn parse_spec(src: Seq<char>, toks: Seq<crate::lexer::TokenM>) -> (
    Seq<NodeM<FuncM>>,
    Seq<DiagM>,
) {
    let c = PCtx { lines: lines_spec(src, toks), hash: source_hash(src) };
    let r = program_loop(c, PSt { index: 0, diags: Seq::empty(), counter: 0 }, Seq::empty());
    (r.0, r.1.diags)
}

// ---------------------------------------------------------------------------
// A function without parse errors has its whole preamble and closure
// ---------------------------------------------------------------------------
proof fn lemma_p_expr_errors(c: PCtx, st: PSt, src: Seq<char>, span: Span)
    ensures
        errors_added(st.diags, p_expr(c, st, src, span).1.diags),
{
    lemma_parse_expr_errors(src, span, st.diags, st.counter, c.hash);
}

proof fn lemma_guard_action_errors(c: PCtx, st: PSt, src: Seq<char>, span: Span)
    ensures
        errors_added(st.diags, guard_action(c, st, src, span).1.diags),
{
    if src == "@continue"@ || src == "@break"@ {
    } else if strip_prefix(src, "return "@) is Some {
        lemma_p_expr_errors(c, st, trim(strip_prefix(src, "return "@).unwrap()), span);
    } else if strip_prefix(src, "set "@) is Some && split_once_char(strip_prefix(src, "set "@).unwrap(), '=') is Some {
        let parts = split_once_char(strip_prefix(src, "set "@).unwrap(), '=').unwrap();
        lemma_p_expr_errors(c, st, trim(parts.1), span);
    } else {
        lemma_errors_added_push(st.diags, guard_action(c, st, src, span).1.diags.last());
    }
}

proof fn lemma_guard_stmt_errors(c: PCtx, st: PSt, line: LineM)
    ensures
        errors_added(st.diags, guard_stmt(c, st, line).1.diags),
{
    let span = span_for_line(line);
    let text = line.trimmed;
    match strip_prefix(text, "if ("@) {
        None => {
            lemma_errors_added_push(st.diags, guard_stmt(c, st, line).1.diags.last());
        },
        Some(rest) => match split_once_pat(rest, ") ->"@) {
            None => {
                lemma_errors_added_push(st.diags, guard_stmt(c, st, line).1.diags.last());
            },
            Some((cs, acts)) => {
                let cond = p_expr(c, st, trim(cs), span);
                lemma_p_expr_errors(c, st, trim(cs), span);
                lemma_guard_action_errors(c, cond.1, trim(acts), span);
                lemma_errors_added_trans(
                    st.diags,
                    cond.1.diags,
                    guard_action(c, cond.1, trim(acts), span).1.diags,
                );
            },
        },
    }
}

proof fn lemma_condition_stmt_errors(c: PCtx, st: PSt, line: LineM)
    ensures
        errors_added(st.diags, condition_stmt(c, st, line).1.diags),
{
    let n = next_sig(c, st);
    match n.0 {
        Some(gl) => lemma_guard_stmt_errors(c, n.1, gl),
        None => lemma_errors_added_push(st.diags, condition_stmt(c, st, line).1.diags.last()),
    }
}

proof fn lemma_let_stmt_errors(c: PCtx, st: PSt, line: LineM)
    ensures
        errors_added(st.diags, let_stmt(c, st, line).1.diags),
{
    let span = span_for_line(line);
    let rest = trim(trim_start_matches(line.trimmed, "let "@));
    let parts = match split_once_char(rest, '=') {
        Some((a, b)) => (trim(a), trim(b), st),
        None => (
            rest,
            Seq::empty(),
            p_diag(
                st,
                "E_PARSE003"@,
                span,
                "let statement requires ="@,
                Some("let name::Type = expr"@),
                Some(line.trimmed),
                "insert"@,
                " = "@,
            ),
        ),
    };
    if split_once_char(rest, '=') is None {
        lemma_errors_added_push(st.diags, parts.2.diags.last());
    }
    let b = match sticky_spec(parts.0) {
        Ok((n, t)) => (BindingM { name: n, ty: t }, parts.2),
        Err(actual) => (
            BindingM { name: parts.0, ty: Type::Unknown },
            p_diag(
                parts.2,
                "E_TYPE001"@,
                span,
                "let binding requires sticky-type annotation"@,
                Some("identifier::Type"@),
                Some(actual),
                "annotate_type"@,
                "let "@ + parts.0 + "::i32 = "@ + parts.1,
            ),
        ),
    };
    if sticky_spec(parts.0) is Err {
        lemma_errors_added_push(parts.2.diags, b.1.diags.last());
    }
    lemma_errors_added_trans(st.diags, parts.2.diags, b.1.diags);
    lemma_p_expr_errors(c, b.1, parts.1, span);
    lemma_errors_added_trans(st.diags, b.1.diags, p_expr(c, b.1, parts.1, span).1.diags);
}

proof fn lemma_set_stmt_errors(c: PCtx, st: PSt, line: LineM)
    ensures
        errors_added(st.diags, set_stmt(c, st, line).1.diags),
{
    let span = span_for_line(line);
    let rest = trim(trim_start_matches(line.trimmed, "set "@));
    let parts = match split_once_char(rest, '=') {
        Some((a, b)) => (trim(a), trim(b), st),
        None => (
            rest,
            Seq::empty(),
            p_diag(
                st,
                "E_PARSE003"@,
                span,
                "set statement requires ="@,
                Some("set name = expr"@),
                Some(line.trimmed),
                "insert"@,
                " = "@,
            ),
        ),
    };
    if split_once_char(rest, '=') is None {
        lemma_errors_added_push(st.diags, parts.2.diags.last());
    }
    lemma_p_expr_errors(c, parts.2, parts.1, span);
    lemma_errors_added_trans(st.diags, parts.2.diags, p_expr(c, parts.2, parts.1, span).1.diags);
}

proof fn lemma_statement_errors(c: PCtx, st: PSt)
    ensures
        errors_added(st.diags, statement(c, st).1.diags),
    decreases measure(c, st), 0int,
{
    let n = next_sig(c, st);
    if 0 <= st.index <= c.lines.len() && n.0 is Some && st.index < n.1.index <= c.lines.len() {
        let line = n.0.unwrap();
        let st1 = n.1;
        let span = span_for_line(line);
        let text = line.trimmed;
        if starts_with(text, "let "@) {
            lemma_let_stmt_errors(c, st1, line);
        } else if starts_with(text, "set "@) {
            lemma_set_stmt_errors(c, st1, line);
        } else if text == "return"@ || starts_with(text, "return "@) {
            let es = trim(strip_prefix(text, "return"@).unwrap());
            if es.len() != 0 {
                lemma_p_expr_errors(c, st1, es, span);
            }
        } else if starts_with(text, "@loop "@) {
            lemma_loop_stmt_errors(c, st1, line);
        } else if starts_with(text, "@condition "@) {
            lemma_condition_stmt_errors(c, st1, line);
        } else {
            lemma_p_expr_errors(c, st1, text, span);
        }
    }
}

proof fn lemma_loop_body_errors(c: PCtx, st: PSt, body: Seq<NodeM<StmtM>>)
    ensures
        errors_added(st.diags, loop_body(c, st, body).1.diags),
    decreases measure(c, st), 1int,
{
    match peek_sig(c, st.index) {
        None => {},
        Some(j) => {
            let t = c.lines[j].trimmed;
            if !(starts_with(t, "@end loop"@) || starts_with(t, "@end func"@) || !(0 <= st.index
                <= c.lines.len())) {
                let r = statement(c, st);
                lemma_statement_errors(c, st);
                if st.index < r.1.index <= c.lines.len() {
                    lemma_loop_body_errors(c, r.1, body.push(r.0));
                    lemma_errors_added_trans(st.diags, r.1.diags, loop_body(c, st, body).1.diags);
                }
            }
        },
    }
}

proof fn lemma_loop_stmt_errors(c: PCtx, st: PSt, line: LineM)
    ensures
        errors_added(st.diags, loop_stmt(c, st, line).1.diags),
    decreases measure(c, st), 2int,
{
    let open_span = span_for_line(line);
    let rest = trim(trim_start_matches(line.trimmed, "@loop "@));
    let parts = match split_once_pat(rest, " in "@) {
        Some((a, b)) => (trim(a), trim(b), st),
        None => (
            rest,
            "items"@,
            p_diag(
                st,
                "E_PARSE004"@,
                open_span,
                "@loop requires sticky item and collection"@,
                Some("@loop item::Type in collection"@),
                Some(line.trimmed),
                "replace"@,
                "@loop item::i32 in items"@,
            ),
        ),
    };
    if split_once_pat(rest, " in "@) is None {
        lemma_errors_added_push(st.diags, parts.2.diags.last());
    }
    let coll = parts.1;
    let it = match sticky_spec(parts.0) {
        Ok((n, t)) => (BindingM { name: n, ty: t }, parts.2),
        Err(actual) => (
            BindingM { name: "item"@, ty: Type::Unknown },
            p_diag(
                parts.2,
                "E_TYPE001"@,
                open_span,
                "loop item requires sticky-type annotation"@,
                Some("identifier::Type"@),
                Some(actual),
                "annotate_type"@,
                "@loop item::i32 in items"@,
            ),
        ),
    };
    if sticky_spec(parts.0) is Err {
        lemma_errors_added_push(parts.2.diags, it.1.diags.last());
    }
    lemma_errors_added_trans(st.diags, parts.2.diags, it.1.diags);
    let st2 = it.1;
    if st.index <= st2.index <= c.lines.len() && 0 <= st.index {
        let b = loop_body(c, st2, Seq::empty());
        lemma_loop_body_errors(c, st2, Seq::empty());
        lemma_errors_added_trans(st.diags, st2.diags, b.1.diags);
        let st3 = if peek_sig(c, b.1.index) is None {
            p_diag(
                b.1,
                "E_CLOSE002"@,
                open_span,
                "loop block reached EOF without matching @end loop"@,
                Some("@end loop"@),
                None,
                "close_block"@,
                "@end loop "@ + coll,
            )
        } else {
            b.1
        };
        if peek_sig(c, b.1.index) is None {
            lemma_errors_added_push(b.1.diags, st3.diags.last());
        }
        lemma_errors_added_trans(st.diags, b.1.diags, st3.diags);
        match peek_sig(c, st3.index) {
            Some(j) => if starts_with(c.lines[j].trimmed, "@end loop"@) {
                let suffix = trim(trim_start_matches(c.lines[j].trimmed, "@end loop"@));
                if suffix.len() != 0 && suffix != coll {
                    lemma_errors_added_push(st3.diags, loop_stmt(c, st, line).1.diags.last());
                    lemma_errors_added_trans(st.diags, st3.diags, loop_stmt(c, st, line).1.diags);
                }
            },
            None => {},
        }
    }
}

proof fn lemma_func_body_errors(c: PCtx, st: PSt, name: Seq<char>, body: Seq<NodeM<StmtM>>)
    ensures
        errors_added(st.diags, func_body(c, st, name, body).1.diags),
    decreases measure(c, st),
{
    match peek_sig(c, st.index) {
        None => {},
        Some(j) => {
            let t = c.lines[j].trimmed;
            if starts_with(t, "@end func"@) || !(0 <= st.index < c.lines.len()) {
            } else if starts_with(t, "@end loop"@) {
                let st1 = p_diag(
                    st,
                    "E_CLOSE002"@,
                    span_for_line(c.lines[j]),
                    "encountered @end loop outside a loop block"@,
                    Some("@end func "@ + name),
                    Some(t),
                    "delete"@,
                    Seq::empty(),
                );
                lemma_errors_added_push(st.diags, st1.diags.last());
                lemma_func_body_errors(c, PSt { index: st.index + 1, ..st1 }, name, body);
                lemma_errors_added_trans(st.diags, st1.diags, func_body(c, st, name, body).1.diags);
            } else {
                let r = statement(c, st);
                lemma_statement_errors(c, st);
                if st.index < r.1.index <= c.lines.len() {
                    lemma_func_body_errors(c, r.1, name, body.push(r.0));
                    lemma_errors_added_trans(st.diags, r.1.diags, func_body(c, st, name, body).1.diags);
                }
            }
        },
    }
}

proof fn lemma_peek_sig_end(c: PCtx, i: int)
    requires
        i >= c.lines.len(),
    ensures
        peek_sig(c, i) is None,
{
}

/// A statement's bindings are declared as `identifier::Type` (the binding
/// of a `let`, the item of a loop), and a loop's closing name, when it has
/// one, is its collection's name; and so for every statement nested in a
/// loop's body.
pub open spec fn stmt_well_declared(s: NodeM<StmtM>) -> bool
    decreases s, 0int,
{
    match s.kind {
        StmtM::Let { binding, value } => is_ident_text(binding.name),
        StmtM::Loop { item, collection, body, close_name } => is_ident_text(item.name) && (close_name is None
            || close_name == Some(collection)) && stmts_well_declared(body, 0),
        _ => true,
    }
}

/// Every statement from statement `i` on declares its bindings and closes
/// its loops correctly.
pub open spec fn stmts_well_declared(v: Seq<NodeM<StmtM>>, i: int) -> bool
    decreases v, v.len() - i,
{
    if 0 <= i < v.len() {
        stmt_well_declared(v[i]) && stmts_well_declared(v, i + 1)
    } else {
        true
    }
}

proof fn lemma_stmts_declared_push(v: Seq<NodeM<StmtM>>, s: NodeM<StmtM>, i: int)
    requires
        0 <= i <= v.len(),
    ensures
        stmts_well_declared(v.push(s), i) == (stmts_well_declared(v, i) && stmt_well_declared(s)),
    decreases v.len() - i,
{
    if i < v.len() {
        assert(v.push(s)[i] == v[i]);
        lemma_stmts_declared_push(v, s, i + 1);
    } else {
        assert(v.push(s)[i] == s);
        assert(stmts_well_declared(v.push(s), i + 1));
    }
}

proof fn lemma_let_stmt_declared(c: PCtx, st: PSt, line: LineM)
    ensures
        let_stmt(c, st, line).1.diags.len() == st.diags.len() ==> stmt_well_declared(let_stmt(c, st, line).0),
{
    lemma_let_stmt_errors(c, st, line);
    let span = span_for_line(line);
    let rest = trim(trim_start_matches(line.trimmed, "let "@));
    let parts = match split_once_char(rest, '=') {
        Some((a, b)) => (trim(a), trim(b), st),
        None => (
            rest,
            Seq::empty(),
            p_diag(
                st,
                "E_PARSE003"@,
                span,
                "let statement requires ="@,
                Some("let name::Type = expr"@),
                Some(line.trimmed),
                "insert"@,
                " = "@,
            ),
        ),
    };
    if split_once_char(rest, '=') is None {
        lemma_errors_added_push(st.diags, parts.2.diags.last());
    }
    let b = match sticky_spec(parts.0) {
        Ok((n, t)) => (BindingM { name: n, ty: t }, parts.2),
        Err(actual) => (
            BindingM { name: parts.0, ty: Type::Unknown },
            p_diag(
                parts.2,
                "E_TYPE001"@,
                span,
                "let binding requires sticky-type annotation"@,
                Some("identifier::Type"@),
                Some(actual),
                "annotate_type"@,
                "let "@ + parts.0 + "::i32 = "@ + parts.1,
            ),
        ),
    };
    if sticky_spec(parts.0) is Err {
        lemma_errors_added_push(parts.2.diags, b.1.diags.last());
    }
    lemma_errors_added_trans(st.diags, parts.2.diags, b.1.diags);
    lemma_p_expr_errors(c, b.1, parts.1, span);
}

proof fn lemma_statement_declared(c: PCtx, st: PSt)
    ensures
        statement(c, st).1.diags.len() == st.diags.len() ==> stmt_well_declared(statement(c, st).0),
    decreases measure(c, st), 0int,
{
    let n = next_sig(c, st);
    if 0 <= st.index <= c.lines.len() && n.0 is Some && st.index < n.1.index <= c.lines.len() {
        let line = n.0.unwrap();
        let text = line.trimmed;
        if starts_with(text, "let "@) {
            lemma_let_stmt_declared(c, n.1, line);
        } else if !starts_with(text, "set "@) && !(text == "return"@ || starts_with(text, "return "@))
            && starts_with(text, "@loop "@) {
            lemma_loop_stmt_declared(c, n.1, line);
        }
    }
}

proof fn lemma_loop_body_declared(c: PCtx, st: PSt, body: Seq<NodeM<StmtM>>)
    requires
        stmts_well_declared(body, 0),
    ensures
        loop_body(c, st, body).1.diags.len() == st.diags.len() ==> stmts_well_declared(loop_body(c, st, body).0, 0),
    decreases measure(c, st), 1int,
{
    match peek_sig(c, st.index) {
        None => {},
        Some(j) => {
            let t = c.lines[j].trimmed;
            if !(starts_with(t, "@end loop"@) || starts_with(t, "@end func"@) || !(0 <= st.index
                <= c.lines.len())) {
                let r = statement(c, st);
                lemma_statement_errors(c, st);
                lemma_statement_declared(c, st);
                lemma_stmts_declared_push(body, r.0, 0);
                if st.index < r.1.index <= c.lines.len() {
                    lemma_loop_body_errors(c, r.1, body.push(r.0));
                    if loop_body(c, st, body).1.diags.len() == st.diags.len() {
                        lemma_loop_body_declared(c, r.1, body.push(r.0));
                    }
                }
            }
        },
    }
}

proof fn lemma_loop_stmt_declared(c: PCtx, st: PSt, line: LineM)
    ensures
        loop_stmt(c, st, line).1.diags.len() == st.diags.len() ==> stmt_well_declared(loop_stmt(c, st, line).0),
    decreases measure(c, st), 2int,
{
    lemma_loop_stmt_errors(c, st, line);
    let open_span = span_for_line(line);
    let rest = trim(trim_start_matches(line.trimmed, "@loop "@));
    let parts = match split_once_pat(rest, " in "@) {
        Some((a, b)) => (trim(a), trim(b), st),
        None => (
            rest,
            "items"@,
            p_diag(
                st,
                "E_PARSE004"@,
                open_span,
                "@loop requires sticky item and collection"@,
                Some("@loop item::Type in collection"@),
                Some(line.trimmed),
                "replace"@,
                "@loop item::i32 in items"@,
            ),
        ),
    };
    if split_once_pat(rest, " in "@) is None {
        lemma_errors_added_push(st.diags, parts.2.diags.last());
    }
    let coll = parts.1;
    let it = match sticky_spec(parts.0) {
        Ok((n, t)) => (BindingM { name: n, ty: t }, parts.2),
        Err(actual) => (
            BindingM { name: "item"@, ty: Type::Unknown },
            p_diag(
                parts.2,
                "E_TYPE001"@,
                open_span,
                "loop item requires sticky-type annotation"@,
                Some("identifier::Type"@),
                Some(actual),
                "annotate_type"@,
                "@loop item::i32 in items"@,
            ),
        ),
    };
    if sticky_spec(parts.0) is Err {
        lemma_errors_added_push(parts.2.diags, it.1.diags.last());
    }
    lemma_errors_added_trans(st.diags, parts.2.diags, it.1.diags);
    let st2 = it.1;
    if st.index <= st2.index <= c.lines.len() && 0 <= st.index {
        let b = loop_body(c, st2, Seq::empty());
        lemma_loop_body_errors(c, st2, Seq::empty());
        lemma_errors_added_trans(st.diags, st2.diags, b.1.diags);
        let st3 = if peek_sig(c, b.1.index) is None {
            p_diag(
                b.1,
                "E_CLOSE002"@,
                open_span,
                "loop block reached EOF without matching @end loop"@,
                Some("@end loop"@),
                None,
                "close_block"@,
                "@end loop "@ + coll,
            )
        } else {
            b.1
        };
        if peek_sig(c, b.1.index) is None {
            lemma_errors_added_push(b.1.diags, st3.diags.last());
        }
        lemma_errors_added_trans(st.diags, b.1.diags, st3.diags);
        let r = loop_stmt(c, st, line);
        if r.1.diags.len() == st.diags.len() {
            assert(it.1.diags.len() == st.diags.len());
            assert(sticky_spec(parts.0) is Ok);
            assert(b.1.diags.len() == st2.diags.len());
            lemma_loop_body_declared(c, st2, Seq::empty());
            match peek_sig(c, st3.index) {
                Some(j) => if starts_with(c.lines[j].trimmed, "@end loop"@) {
                    let suffix = trim(trim_start_matches(c.lines[j].trimmed, "@end loop"@));
                    if suffix.len() != 0 && suffix != coll {
                        lemma_errors_added_push(st3.diags, r.1.diags.last());
                    }
                },
                None => {},
            }
        }
    }
}

proof fn lemma_func_body_declared(c: PCtx, st: PSt, name: Seq<char>, body: Seq<NodeM<StmtM>>)
    requires
        stmts_well_declared(body, 0),
    ensures
        func_body(c, st, name, body).1.diags.len() == st.diags.len() ==> stmts_well_declared(
            func_body(c, st, name, body).0,
            0,
        ),
    decreases measure(c, st),
{
    match peek_sig(c, st.index) {
        None => {},
        Some(j) => {
            let t = c.lines[j].trimmed;
            if starts_with(t, "@end func"@) || !(0 <= st.index < c.lines.len()) {
            } else if starts_with(t, "@end loop"@) {
                let st1 = p_diag(
                    st,
                    "E_CLOSE002"@,
                    span_for_line(c.lines[j]),
                    "encountered @end loop outside a loop block"@,
                    Some("@end func "@ + name),
                    Some(t),
                    "delete"@,
                    Seq::empty(),
                );
                lemma_func_body_errors(c, PSt { index: st.index + 1, ..st1 }, name, body);
            } else {
                let r = statement(c, st);
                lemma_statement_errors(c, st);
                lemma_statement_declared(c, st);
                lemma_stmts_declared_push(body, r.0, 0);
                if st.index < r.1.index <= c.lines.len() {
                    lemma_func_body_errors(c, r.1, name, body.push(r.0));
                    if func_body(c, st, name, body).1.diags.len() == st.diags.len() {
                        lemma_func_body_declared(c, r.1, name, body.push(r.0));
                    }
                }
            }
        },
    }
}

/// What a clean parse of a function guarantees: an identifier for a name,
/// an intent of 1 to 280 characters, at least one input, every input, the
/// output, every `let` binding and every loop item declared as
/// `identifier::Type`, the block closed by `@end func` with the same name,
/// and every loop closed by a bare `@end loop` or one that names its
/// collection.
pub open spec fn well_declared(f: FuncM) -> bool {
    &&& is_ident_text(f.name)
    &&& 1 <= f.intent.len() <= 280
    &&& f.inputs.len() >= 1
    &&& forall|k: int| 0 <= k < f.inputs.len() ==> is_ident_text(#[trigger] f.inputs[k].name)
    &&& is_ident_text(f.output.name)
    &&& f.close_name == f.name
    &&& stmts_well_declared(f.body, 0)
}

proof fn lemma_inputs_loop_errors(c: PCtx, st: PSt, inputs: Seq<BindingM>)
    requires
        forall|k: int| 0 <= k < inputs.len() ==> is_ident_text(#[trigger] inputs[k].name),
    ensures
        errors_added(st.diags, inputs_loop(c, st, inputs).1.diags),
        inputs.len() <= inputs_loop(c, st, inputs).0.len(),
        forall|k: int|
            0 <= k < inputs_loop(c, st, inputs).0.len() ==> is_ident_text(
                #[trigger] inputs_loop(c, st, inputs).0[k].name,
            ),
        inputs_loop(c, st, inputs).1.diags.len() == st.diags.len() && inputs_loop(c, st, inputs).0.len()
            == inputs.len() ==> peek_sig(c, inputs_loop(c, st, inputs).1.index) == peek_sig(c, st.index),
    decreases measure(c, st),
{
    match peek_sig(c, st.index) {
        Some(j) => if starts_with(c.lines[j].trimmed, "@in "@) && 0 <= st.index < c.lines.len() {
            let line = c.lines[j];
            let st1 = PSt { index: st.index + 1, ..st };
            match sticky_spec(trim(trim_start_matches(line.trimmed, "@in "@))) {
                Ok((n, t)) => {
                    let ins2 = inputs.push(BindingM { name: n, ty: t });
                    assert forall|k: int| 0 <= k < ins2.len() implies is_ident_text(#[trigger] ins2[k].name) by {
                        if k < inputs.len() {
                            assert(ins2[k] == inputs[k]);
                        }
                    }
                    lemma_inputs_loop_errors(c, st1, ins2);
                },
                Err(actual) => {
                    let st2 = p_diag(
                        st1,
                        "E_TYPE001"@,
                        span_for_line(line),
                        "@in declaration requires sticky-type annotation"@,
                        Some("identifier::Type"@),
                        Some(actual),
                        "annotate_type"@,
                        "@in value::i32"@,
                    );
                    lemma_errors_added_push(st1.diags, st2.diags.last());
                    lemma_inputs_loop_errors(c, st2, inputs);
                    lemma_errors_added_trans(st.diags, st2.diags, inputs_loop(c, st, inputs).1.diags);
                },
            }
        },
        None => {},
    }
}

proof fn lemma_intent_line_clean(c: PCtx, st: PSt)
    requires
        0 <= st.index,
    ensures
        errors_added(st.diags, intent_line(c, st).1.diags),
        intent_line(c, st).1.diags.len() == st.diags.len() ==> 1 <= intent_line(c, st).0.len() <= 280
            || peek_sig(c, intent_line(c, st).1.index) is None,
{
    let n = next_sig(c, st);
    match n.0 {
        None => {
            lemma_peek_sig_end(c, n.1.index);
        },
        Some(line) => match strip_prefix(line.trimmed, "@intent:"@) {
            Some(x) => {
                let intent = trim(x);
                if intent.len() == 0 || intent.len() > 280 {
                    lemma_errors_added_push(n.1.diags, intent_line(c, st).1.diags.last());
                }
            },
            None => {
                lemma_errors_added_push(n.1.diags, intent_line(c, st).1.diags.last());
            },
        },
    }
}

proof fn lemma_output_line_clean(c: PCtx, st: PSt)
    ensures
        errors_added(st.diags, output_line(c, st).1.diags),
        is_ident_text(output_line(c, st).0.name),
{
    reveal_strlit("result");
    let n = next_sig(c, st);
    match n.0 {
        None => {},
        Some(line) => if starts_with(line.trimmed, "@out "@) {
            match sticky_spec(trim(trim_start_matches(line.trimmed, "@out "@))) {
                Ok((nm, t)) => {},
                Err(actual) => {
                    lemma_errors_added_push(n.1.diags, output_line(c, st).1.diags.last());
                },
            }
        } else {
            lemma_errors_added_push(n.1.diags, output_line(c, st).1.diags.last());
        },
    }
}

proof fn lemma_dash_separator_errors(c: PCtx, st: PSt, fallback: Span)
    ensures
        errors_added(st.diags, dash_separator(c, st, fallback).diags),
        dash_separator(c, st, fallback).diags.len() == st.diags.len() ==> peek_sig(c, st.index) is Some,
{
    let n = next_sig(c, st);
    match n.0 {
        Some(line) => if line.trimmed != "---"@ {
            lemma_errors_added_push(n.1.diags, dash_separator(c, st, fallback).diags.last());
        },
        None => {
            lemma_errors_added_push(n.1.diags, dash_separator(c, st, fallback).diags.last());
        },
    }
}

proof fn lemma_close_clean(c: PCtx, st8: PSt, name: Seq<char>, open_span: Span)
    ensures
        ({
            let close = match peek_sig(c, st8.index) {
                Some(j) => if starts_with(c.lines[j].trimmed, "@end func"@) {
                    let st9 = PSt { index: st8.index + 1, ..st8 };
                    let cn = trim(strip_prefix(c.lines[j].trimmed, "@end func"@).unwrap());
                    let es = span_for_line(c.lines[j]);
                    if cn != name {
                        (
                            cn,
                            es,
                            p_diag(
                                st9,
                                "E_CLOSE001"@,
                                es,
                                "function close name does not match opener"@,
                                Some(name),
                                Some(cn),
                                "rename"@,
                                "@end func "@ + name,
                            ),
                        )
                    } else {
                        (cn, es, st9)
                    }
                } else {
                    (Seq::empty(), open_span, st8)
                },
                None => (Seq::empty(), open_span, st8),
            };
            &&& errors_added(st8.diags, close.2.diags)
            &&& close.2.diags.len() == st8.diags.len() && close.0.len() != 0 ==> close.0 == name
        }),
{
    match peek_sig(c, st8.index) {
        Some(j) => if starts_with(c.lines[j].trimmed, "@end func"@) {
            let st9 = PSt { index: st8.index + 1, ..st8 };
            let cn = trim(strip_prefix(c.lines[j].trimmed, "@end func"@).unwrap());
            let es = span_for_line(c.lines[j]);
            if cn != name {
                let d = p_diag(
                    st9,
                    "E_CLOSE001"@,
                    es,
                    "function close name does not match opener"@,
                    Some(name),
                    Some(cn),
                    "rename"@,
                    "@end func "@ + name,
                );
                lemma_errors_added_push(st8.diags, d.diags.last());
            }
        },
        None => {},
    }
}

#[verifier::rlimit(40)]
proof fn lemma_function_clean(c: PCtx, st: PSt)
    requires
        0 <= st.index,
        peek_sig(c, st.index) is Some,
    ensures
        errors_added(st.diags, function(c, st).1.diags),
        function(c, st).1.diags.len() == st.diags.len() ==> well_declared(function(c, st).0.kind),
{
    let n = next_sig(c, st);
    lemma_peek_sig(c, st.index);
    let open = n.0.unwrap();
    let open_span = span_for_line(open);
    let name = trim(
        match strip_prefix(open.trimmed, "@func "@) {
            Some(x) => x,
            None => Seq::empty(),
        },
    );
    let st2 = if !is_ident_text(name) {
        p_diag(
            n.1,
            "E_PARSE002"@,
            open_span,
            "function name must be an identifier"@,
            Some("identifier"@),
            Some(name),
            "replace"@,
            "@func main"@,
        )
    } else {
        n.1
    };
    if !is_ident_text(name) {
        lemma_errors_added_push(n.1.diags, st2.diags.last());
    }
    let it = intent_line(c, st2);
    lemma_intent_line_clean(c, st2);
    lemma_errors_added_trans(st.diags, st2.diags, it.1.diags);
    let ins = inputs_loop(c, it.1, Seq::empty());
    lemma_inputs_loop_errors(c, it.1, Seq::empty());
    lemma_errors_added_trans(st.diags, it.1.diags, ins.1.diags);
    let st5 = if ins.0.len() == 0 {
        p_diag(
            ins.1,
            "E_INTENT001"@,
            open_span,
            "function preamble requires at least one @in declaration"@,
            Some("@in <identifier>::<Type>"@),
            None,
            "add_intent"@,
            "@in input::i32"@,
        )
    } else {
        ins.1
    };
    if ins.0.len() == 0 {
        lemma_errors_added_push(ins.1.diags, st5.diags.last());
    }
    lemma_errors_added_trans(st.diags, ins.1.diags, st5.diags);
    let out = output_line(c, st5);
    lemma_output_line_clean(c, st5);
    lemma_errors_added_trans(st.diags, st5.diags, out.1.diags);
    let st7 = dash_separator(c, out.1, open_span);
    lemma_dash_separator_errors(c, out.1, open_span);
    lemma_errors_added_trans(st.diags, out.1.diags, st7.diags);
    let body = func_body(c, st7, name, Seq::empty());
    lemma_func_body_errors(c, st7, name, Seq::empty());
    lemma_func_body_declared(c, st7, name, Seq::empty());
    lemma_errors_added_trans(st.diags, st7.diags, body.1.diags);
    let st8 = body.1;
    lemma_close_clean(c, st8, name, open_span);
    let r = function(c, st);
    let close_st = r.1;
    assert(errors_added(st.diags, r.1.diags)) by {
        let close = match peek_sig(c, st8.index) {
            Some(j) => if starts_with(c.lines[j].trimmed, "@end func"@) {
                let st9 = PSt { index: st8.index + 1, ..st8 };
                let cn = trim(strip_prefix(c.lines[j].trimmed, "@end func"@).unwrap());
                let es = span_for_line(c.lines[j]);
                if cn != name {
                    (
                        cn,
                        es,
                        p_diag(
                            st9,
                            "E_CLOSE001"@,
                            es,
                            "function close name does not match opener"@,
                            Some(name),
                            Some(cn),
                            "rename"@,
                            "@end func "@ + name,
                        ),
                    )
                } else {
                    (cn, es, st9)
                }
            } else {
                (Seq::empty(), open_span, st8)
            },
            None => (Seq::empty(), open_span, st8),
        };
        lemma_errors_added_trans(st.diags, st8.diags, close.2.diags);
        if close.0.len() == 0 {
            let fin = p_diag(
                close.2,
                "E_CLOSE002"@,
                open_span,
                "function block reached EOF without matching @end func"@,
                Some("@end func "@ + name),
                None,
                "close_block"@,
                "@end func "@ + name,
            );
            lemma_errors_added_push(close.2.diags, fin.diags.last());
            lemma_errors_added_trans(st.diags, close.2.diags, fin.diags);
        }
    }
    if r.1.diags.len() == st.diags.len() {
        assert(st2.diags.len() == st.diags.len());
        assert(it.1.diags.len() == st.diags.len());
        assert(ins.1.diags.len() == st.diags.len());
        assert(ins.0.len() != 0);
        assert(r.0.kind.inputs == ins.0);
        if peek_sig(c, it.1.index) is None {
            assert(ins.0.len() == 0);
        }
        assert(r.0.kind.name == name);
        assert(st7.diags.len() == st.diags.len());
        assert(body.1.diags.len() == st.diags.len());
        assert(r.0.kind.body == body.0);
    }
}

proof fn lemma_program_loop_clean(c: PCtx, st: PSt, funcs: Seq<NodeM<FuncM>>)
    requires
        0 <= st.index,
    ensures
        errors_added(st.diags, program_loop(c, st, funcs).1.diags),
        program_loop(c, st, funcs).1.diags.len() == st.diags.len() && (forall|k: int|
            0 <= k < funcs.len() ==> well_declared(#[trigger] funcs[k].kind)) ==> forall|k: int|
            0 <= k < program_loop(c, st, funcs).0.len() ==> well_declared(
                #[trigger] program_loop(c, st, funcs).0[k].kind,
            ),
    decreases measure(c, st),
{
    match peek_sig(c, st.index) {
        None => {},
        Some(j) => {
            let line = c.lines[j];
            if !(0 <= st.index < c.lines.len()) {
            } else if starts_with(line.trimmed, "@func "@) {
                let r = function(c, st);
                lemma_function_clean(c, st);
                let f2 = funcs.push(r.0);
                if st.index < r.1.index <= c.lines.len() {
                    lemma_program_loop_clean(c, r.1, f2);
                    lemma_errors_added_trans(st.diags, r.1.diags, program_loop(c, st, funcs).1.diags);
                    if program_loop(c, st, funcs).1.diags.len() == st.diags.len() && (forall|k: int|
                        0 <= k < funcs.len() ==> well_declared(#[trigger] funcs[k].kind)) {
                        assert forall|k: int| 0 <= k < f2.len() implies well_declared(#[trigger] f2[k].kind) by {
                            if k < funcs.len() {
                                assert(f2[k] == funcs[k]);
                            }
                        }
                    }
                } else {
                    if r.1.diags.len() == st.diags.len() && (forall|k: int|
                        0 <= k < funcs.len() ==> well_declared(#[trigger] funcs[k].kind)) {
                        assert forall|k: int| 0 <= k < f2.len() implies well_declared(#[trigger] f2[k].kind) by {
                            if k < funcs.len() {
                                assert(f2[k] == funcs[k]);
                            }
                        }
                    }
                }
            } else {
                let st1 = p_diag(
                    st,
                    "E_PARSE001"@,
                    span_for_line(line),
                    "top-level item must start with @func"@,
                    Some("@func <identifier>"@),
                    Some(line.trimmed),
                    "insert"@,
                    "@func main"@,
                );
                lemma_errors_added_push(st.diags, st1.diags.last());
                lemma_program_loop_clean(c, PSt { index: st.index + 1, ..st1 }, funcs);
                lemma_errors_added_trans(st.diags, st1.diags, program_loop(c, st, funcs).1.diags);
            }
        },
    }
}

/// A source that parses without errors declares every function completely:
/// its name is an identifier, it has an intent of 1 to 280 characters, at
/// least one `@in` and one `@out`, and its `let` bindings and loop items,
/// declared as `identifier::Type`, it is closed by `@end func` with its own
/// name, and each of its loops that names its closure names its collection.
pub proof fn lemma_clean_parse_well_declared(src: Seq<char>, toks: Seq<crate::lexer::TokenM>)
    requires
        !any_error(parse_spec(src, toks).1),
    ensures
        forall|k: int|
            0 <= k < parse_spec(src, toks).0.len() ==> well_declared(#[trigger] parse_spec(src, toks).0[k].kind),
{
    let c = PCtx { lines: lines_spec(src, toks), hash: source_hash(src) };
    let st0 = PSt { index: 0, diags: Seq::empty(), counter: 0 };
    lemma_program_loop_clean(c, st0, Seq::empty());
    lemma_errors_added_none(st0.diags, program_loop(c, st0, Seq::empty()).1.diags);
}

// ---------------------------------------------------------------------------
// Implementation
// ---------------------------------------------------------------------------
struct Parser {
    lines: Vec<Line>,
    index: usize,
    diags: Vec<Diagnostic>,
    counter: u64,
    hash: u32,
}

/// Text built from a literal prefix and characters.
fn cat(a: &str, b: &[char]) -> (r: String)
    ensures
        r@ == a@ + b@,
{
    let mut v: Vec<char> = Vec::new();
    push_str(&mut v, a);
    push_chars(&mut v, b);
    chars_to_string(v.as_slice())
}

impl Parser {
    spec fn ctx(&self) -> PCtx {
        PCtx { lines: lines_m(self.lines@), hash: self.hash }
    }

    spec fn st(&self) -> PSt {
        PSt { index: self.index as int, diags: diags_m(self.diags@), counter: self.counter as int }
    }

    spec fn wf(&self) -> bool {
        &&& self.index <= self.lines@.len()
        &&& forall|j: int| 0 <= j < self.lines@.len() ==> #[trigger] self.lines@[j].text@.len() + 1 < usize::MAX
    }

    fn peek_sig(&self) -> (r: Option<usize>)
        requires
            self.wf(),
        ensures
            match r {
                Some(j) => peek_sig(self.ctx(), self.index as int) == Some(j as int) && self.index <= j
                    < self.lines@.len(),
                None => peek_sig(self.ctx(), self.index as int) is None,
            },
    {
        proof {
            lemma_peek_sig(self.ctx(), self.index as int);
        }
        let mut i = self.index;
        while i < self.lines.len()
            invariant
                self.wf(),
                self.index <= i <= self.lines@.len(),
                peek_sig(self.ctx(), i as int) == peek_sig(self.ctx(), self.index as int),
            decreases self.lines@.len() - i,
        {
            let t = str_chars(self.lines[i].trimmed.as_str());
            if t.len() > 0 && t[0] != '#' {
                return Some(i);
            }
            i = i + 1;
        }
        None
    }

    fn next_sig(&mut self) -> (r: Option<usize>)
        requires
            old(self).wf(),
        ensures
            final(self).wf(),
            final(self).lines@ == old(self).lines@,
            final(self).hash == old(self).hash,
            (
                match r {
                    Some(j) => Some(old(self).ctx().lines[j as int]),
                    None => None,
                },
                final(self).st(),
            ) == next_sig(old(self).ctx(), old(self).st()),
            r matches Some(j) ==> old(self).index <= j < old(self).lines@.len() && final(self).index
                == j + 1,
            p_ok(old(self).ctx(), old(self).st(), final(self).st()),
    {
        match self.peek_sig() {
            Some(j) => {
                let n = self.lines.len();
                assert(j < n);
                self.index = j + 1;
                Some(j)
            },
            None => {
                if self.index < self.lines.len() {
                    self.index = self.lines.len();
                }
                None
            },
        }
    }

    /// Moves past the current line.
    fn skip_line(&mut self)
        requires
            old(self).wf(),
            old(self).index < old(self).lines@.len(),
        ensures
            final(self).wf(),
            final(self).lines@ == old(self).lines@,
            final(self).hash == old(self).hash,
            final(self).st() == (PSt { index: old(self).index + 1, ..old(self).st() }),
    {
        let n = self.lines.len();
        assert(self.index < n);
        self.index = self.index + 1;
    }

    fn trimmed(&self, j: usize) -> (v: Vec<char>)
        requires
            j < self.lines@.len(),
        ensures
            v@ == self.ctx().lines[j as int].trimmed,
    {
        str_chars(self.lines[j].trimmed.as_str())
    }

    fn line_span(&self, j: usize) -> (s: Span)
        requires
            self.wf(),
            j < self.lines@.len(),
        ensures
            s == span_for_line(self.ctx().lines[j as int]),
    {
        let l = &self.lines[j];
        let n = str_chars(l.text.as_str()).len();
        assert(self.lines@[j as int].text@.len() + 1 < usize::MAX);
        Span {
            start_byte: l.start,
            end_byte: l.end,
            start_line: l.number,
            start_col: 1,
            end_line: l.number,
            end_col: n + 1,
        }
    }

    fn diag(
        &mut self,
        code: &str,
        span: Span,
        msg: &str,
        expected: Option<String>,
        actual: Option<String>,
        strategy: &str,
        patch: String,
    )
        requires
            old(self).wf(),
        ensures
            final(self).wf(),
            final(self).lines@ == old(self).lines@,
            final(self).hash == old(self).hash,
            final(self).st() == p_diag(
                old(self).st(),
                code@,
                span,
                msg@,
                opt_m(expected),
                opt_m(actual),
                strategy@,
                patch@,
            ),
    {
        let d = Diagnostic::error(
            code,
            Phase::Parse,
            None,
            span,
            msg,
            expected,
            actual,
            fix(strategy, patch),
        );
        proof {
            lemma_diags_push(self.diags@, d);
        }
        self.diags.push(d);
    }

    fn new_id(&mut self, kind: &str) -> (id: String)
        requires
            old(self).wf(),
        ensures
            final(self).wf(),
            final(self).lines@ == old(self).lines@,
            final(self).hash == old(self).hash,
            (id@, final(self).st()) == p_id(old(self).ctx(), old(self).st(), kind@),
    {
        self.counter = bump_counter(self.counter);
        make_node_id(kind, self.counter, self.hash)
    }

    fn expr(&mut self, src: &[char], span: Span) -> (n: Node<Expr>)
        requires
            old(self).wf(),
        ensures
            final(self).wf(),
            final(self).lines@ == old(self).lines@,
            final(self).hash == old(self).hash,
            (expr_m(n), final(self).st()) == p_expr(old(self).ctx(), old(self).st(), src@, span),
    {
        parse_expr_node(src, span, &mut self.diags, &mut self.counter, self.hash)
    }

    fn default_guard(&mut self, span: Span) -> (g: Node<GuardStmt>)
        requires
            old(self).wf(),
        ensures
            final(self).wf(),
            final(self).lines@ == old(self).lines@,
            final(self).hash == old(self).hash,
            (guard_m(g), final(self).st()) == default_guard(old(self).ctx(), old(self).st(), span),
    {
        let bid = self.new_id("bool");
        let cond = Node { id: bid, span, kind: Expr::Lit(Literal::Bool(true)) };
        let gid = self.new_id("guard");
        Node { id: gid, span, kind: GuardStmt { cond, action: GuardAction::Continue } }
    }

    fn guard_action(&mut self, src: &[char], span: Span) -> (a: GuardAction)
        requires
            old(self).wf(),
        ensures
            final(self).wf(),
            final(self).lines@ == old(self).lines@,
            final(self).hash == old(self).hash,
            (crate::ast::action_m(a), final(self).st()) == guard_action(
                old(self).ctx(),
                old(self).st(),
                src@,
                span,
            ),
    {
        if chars_eq_str(src, "@continue") {
            return GuardAction::Continue;
        }
        if chars_eq_str(src, "@break") {
            return GuardAction::Break;
        }
        match strip_prefix_exec(src, "return ") {
            Some(e) => {
                let t = trim_chars(e.as_slice());
                let n = self.expr(t.as_slice(), span);
                return GuardAction::Return(n);
            },
            None => {},
        }
        match strip_prefix_exec(src, "set ") {
            Some(rest) => {
                match split_once_char_exec(rest.as_slice(), '=') {
                    Some((t, v)) => {
                        let target = trim_chars(t.as_slice());
                        let vt = trim_chars(v.as_slice());
                        let value = self.expr(vt.as_slice(), span);
                        return GuardAction::SetAssign { target: chars_to_string(target.as_slice()), value };
                    },
                    None => {},
                }
            },
            None => {},
        }
        self.diag(
            "E_PARSE006",
            span,
            "unsupported guard action",
            Some("@continue | @break | return <expr> | set <id> = <expr>".to_owned()),
            Some(chars_to_string(src)),
            "replace",
            "@continue".to_owned(),
        );
        GuardAction::Continue
    }

    fn guard_stmt(&mut self, j: usize) -> (g: Node<GuardStmt>)
        requires
            old(self).wf(),
            j < old(self).lines@.len(),
        ensures
            final(self).wf(),
            final(self).lines@ == old(self).lines@,
            final(self).hash == old(self).hash,
            (guard_m(g), final(self).st()) == guard_stmt(
                old(self).ctx(),
                old(self).st(),
                old(self).ctx().lines[j as int],
            ),
            final(self).index == old(self).index,
    {
        let span = self.line_span(j);
        let text = self.trimmed(j);
        match strip_prefix_exec(text.as_slice(), "if (") {
            None => {
                self.diag(
                    "E_PARSE005",
                    span,
                    "guard statement must start with if (",
                    Some("if (<expr>) -> <action>".to_owned()),
                    Some(chars_to_string(text.as_slice())),
                    "replace",
                    "if (true) -> @continue".to_owned(),
                );
                self.default_guard(span)
            },
            Some(rest) => match split_once_pat_exec(rest.as_slice(), ") ->") {
                None => {
                    self.diag(
                        "E_PARSE005",
                        span,
                        "guard statement requires ) -> separator",
                        Some("if (<expr>) -> <action>".to_owned()),
                        Some(chars_to_string(text.as_slice())),
                        "insert",
                        ") -> @continue".to_owned(),
                    );
                    self.default_guard(span)
                },
                Some((cs, acts)) => {
                    let ct = trim_chars(cs.as_slice());
                    let cond = self.expr(ct.as_slice(), span);
                    let at = trim_chars(acts.as_slice());
                    let action = self.guard_action(at.as_slice(), span);
                    let gid = self.new_id("guard");
                    Node { id: gid, span, kind: GuardStmt { cond, action } }
                },
            },
        }
    }

    fn condition_stmt(&mut self, j: usize) -> (n: Node<Statement>)
        requires
            old(self).wf(),
            j < old(self).lines@.len(),
        ensures
            final(self).wf(),
            final(self).lines@ == old(self).lines@,
            final(self).hash == old(self).hash,
            (stmt_m(n), final(self).st()) == condition_stmt(
                old(self).ctx(),
                old(self).st(),
                old(self).ctx().lines[j as int],
            ),
            p_ok(old(self).ctx(), old(self).st(), final(self).st()),
    {
        let span = self.line_span(j);
        let text = self.trimmed(j);
        let nm = trim_start_matches_exec(text.as_slice(), "@condition ");
        let name = trim_chars(nm.as_slice());
        let guard = match self.next_sig() {
            Some(g) => self.guard_stmt(g),
            None => {
                self.diag(
                    "E_PARSE005",
                    span,
                    "@condition must be followed by one guard statement",
                    Some("if (<expr>) -> <action>".to_owned()),
                    None,
                    "insert",
                    "if (true) -> @continue".to_owned(),
                );
                self.default_guard(span)
            },
        };
        let cspan = Span {
            start_byte: span.start_byte,
            end_byte: guard.span.end_byte,
            start_line: span.start_line,
            start_col: span.start_col,
            end_line: guard.span.end_line,
            end_col: guard.span.end_col,
        };
        let id = self.new_id("condition");
        Node {
            id,
            span: cspan,
            kind: Statement::Condition(ConditionBlock { name: chars_to_string(name.as_slice()), guard }),
        }
    }

    fn let_stmt(&mut self, j: usize) -> (n: Node<Statement>)
        requires
            old(self).wf(),
            j < old(self).lines@.len(),
        ensures
            final(self).wf(),
            final(self).lines@ == old(self).lines@,
            final(self).hash == old(self).hash,
            (stmt_m(n), final(self).st()) == let_stmt(
                old(self).ctx(),
                old(self).st(),
                old(self).ctx().lines[j as int],
            ),
            final(self).index == old(self).index,
    {
        let span = self.line_span(j);
        let text = self.trimmed(j);
        let r0 = trim_start_matches_exec(text.as_slice(), "let ");
        let rest = trim_chars(r0.as_slice());
        let (bsrc, vsrc) = match split_once_char_exec(rest.as_slice(), '=') {
            Some((a, b)) => (trim_chars(a.as_slice()), trim_chars(b.as_slice())),
            None => {
                self.diag(
                    "E_PARSE003",
                    span,
                    "let statement requires =",
                    Some("let name::Type = expr".to_owned()),
                    Some(chars_to_string(text.as_slice())),
                    "insert",
                    " = ".to_owned(),
                );
                let e: Vec<char> = Vec::new();
                assert(e@ =~= Seq::<char>::empty());
                (rest, e)
            },
        };
        let binding = match sticky_chars(bsrc.as_slice()) {
            Ok(b) => b,
            Err(actual) => {
                let mut patch: Vec<char> = Vec::new();
                push_str(&mut patch, "let ");
                push_chars(&mut patch, bsrc.as_slice());
                push_str(&mut patch, "::i32 = ");
                push_chars(&mut patch, vsrc.as_slice());
                assert(patch@ =~= "let "@ + bsrc@ + "::i32 = "@ + vsrc@);
                self.diag(
                    "E_TYPE001",
                    span,
                    "let binding requires sticky-type annotation",
                    Some("identifier::Type".to_owned()),
                    Some(actual),
                    "annotate_type",
                    chars_to_string(patch.as_slice()),
                );
                StickyBinding { name: chars_to_string(bsrc.as_slice()), ty: Type::Unknown }
            },
        };
        let value = self.expr(vsrc.as_slice(), span);
        let id = self.new_id("let");
        Node { id, span, kind: Statement::Let(LetStmt { binding, value }) }
    }

    fn set_stmt(&mut self, j: usize) -> (n: Node<Statement>)
        requires
            old(self).wf(),
            j < old(self).lines@.len(),
        ensures
            final(self).wf(),
            final(self).lines@ == old(self).lines@,
            final(self).hash == old(self).hash,
            (stmt_m(n), final(self).st()) == set_stmt(
                old(self).ctx(),
                old(self).st(),
                old(self).ctx().lines[j as int],
            ),
            final(self).index == old(self).index,
    {
        let span = self.line_span(j);
        let text = self.trimmed(j);
        let r0 = trim_start_matches_exec(text.as_slice(), "set ");
        let rest = trim_chars(r0.as_slice());
        let (target, vsrc) = match split_once_char_exec(rest.as_slice(), '=') {
            Some((a, b)) => (trim_chars(a.as_slice()), trim_chars(b.as_slice())),
            None => {
                self.diag(
                    "E_PARSE003",
                    span,
                    "set statement requires =",
                    Some("set name = expr".to_owned()),
                    Some(chars_to_string(text.as_slice())),
                    "insert",
                    " = ".to_owned(),
                );
                let e: Vec<char> = Vec::new();
                assert(e@ =~= Seq::<char>::empty());
                (rest, e)
            },
        };
        let value = self.expr(vsrc.as_slice(), span);
        let id = self.new_id("set");
        Node {
            id,
            span,
            kind: Statement::SetVar(SetStmt { target: chars_to_string(target.as_slice()), value }),
        }
    }

    fn statement(&mut self) -> (n: Node<Statement>)
        requires
            old(self).wf(),
            peek_sig(old(self).ctx(), old(self).index as int) is Some,
        ensures
            final(self).wf(),
            final(self).lines@ == old(self).lines@,
            final(self).hash == old(self).hash,
            (stmt_m(n), final(self).st()) == statement(old(self).ctx(), old(self).st()),
            old(self).index < final(self).index <= final(self).lines@.len(),
        decreases old(self).lines@.len() - old(self).index, 0int,
    {
        let j = match self.next_sig() {
            Some(j) => j,
            None => {
                assert(false);
                0
            },
        };
        let span = self.line_span(j);
        let text = self.trimmed(j);
        let ts = text.as_slice();
        if chars_starts_with(ts, "let ") {
            return self.let_stmt(j);
        }
        if chars_starts_with(ts, "set ") {
            return self.set_stmt(j);
        }
        if chars_eq_str(ts, "return") || chars_starts_with(ts, "return ") {
            let es0 = match strip_prefix_exec(ts, "return") {
                Some(x) => x,
                None => {
                    proof {
                        reveal_strlit("return");
                        reveal_strlit("return ");
                        assert(starts_with(text@, "return"@)) by {
                            if text@ == "return"@ {
                                assert(text@.subrange(0, 6) =~= text@);
                            } else {
                                assert(text@.subrange(0, 6) =~= text@.subrange(0, 7).subrange(0, 6));
                                assert("return "@.subrange(0, 6) =~= "return"@);
                            }
                        }
                    }
                    Vec::new()
                },
            };
            let es = trim_chars(es0.as_slice());
            if es.len() == 0 {
                let id = self.new_id("return");
                return Node { id, span, kind: Statement::Return(ReturnStmt { value: None }) };
            }
            let e = self.expr(es.as_slice(), span);
            let id = self.new_id("return");
            return Node { id, span, kind: Statement::Return(ReturnStmt { value: Some(e) }) };
        }
        if chars_starts_with(ts, "@loop ") {
            return self.loop_stmt(j);
        }
        if chars_starts_with(ts, "@condition ") {
            return self.condition_stmt(j);
        }
        let e = self.expr(ts, span);
        let id = self.new_id("expr_stmt");
        Node { id, span, kind: Statement::Expr(e) }
    }

    #[verifier::loop_isolation(false)]
    fn loop_body(&mut self) -> (body: Vec<Node<Statement>>)
        requires
            old(self).wf(),
        ensures
            final(self).wf(),
            final(self).lines@ == old(self).lines@,
            final(self).hash == old(self).hash,
            (stmts_m(body@), final(self).st()) == loop_body(old(self).ctx(), old(self).st(), Seq::empty()),
            p_ok(old(self).ctx(), old(self).st(), final(self).st()),
        decreases old(self).lines@.len() - old(self).index, 1int,
    {
        let ghost c = self.ctx();
        let ghost target = loop_body(c, self.st(), Seq::empty());
        let mut body: Vec<Node<Statement>> = Vec::new();
        assert(stmts_m(body@) =~= Seq::empty());
        loop
            invariant
                self.wf(),
                self.lines@ == old(self).lines@,
                self.hash == old(self).hash,
                p_ok(c, old(self).st(), self.st()),
                loop_body(c, self.st(), stmts_m(body@)) == target,
            decreases self.lines@.len() - self.index,
        {
            match self.peek_sig() {
                None => {
                    return body;
                },
                Some(j) => {
                    let t = self.trimmed(j);
                    if chars_starts_with(t.as_slice(), "@end loop") || chars_starts_with(
                        t.as_slice(),
                        "@end func",
                    ) {
                        return body;
                    }
                    let s = self.statement();
                    proof {
                        lemma_stmts_push(body@, s);
                    }
                    body.push(s);
                },
            }
        }
    }

    fn loop_stmt(&mut self, j: usize) -> (n: Node<Statement>)
        requires
            old(self).wf(),
            j < old(self).lines@.len(),
        ensures
            final(self).wf(),
            final(self).lines@ == old(self).lines@,
            final(self).hash == old(self).hash,
            (stmt_m(n), final(self).st()) == loop_stmt(
                old(self).ctx(),
                old(self).st(),
                old(self).ctx().lines[j as int],
            ),
            p_ok(old(self).ctx(), old(self).st(), final(self).st()),
        decreases old(self).lines@.len() - old(self).index, 2int,
    {
        let open_span = self.line_span(j);
        let text = self.trimmed(j);
        let r0 = trim_start_matches_exec(text.as_slice(), "@loop ");
        let rest = trim_chars(r0.as_slice());
        let (bsrc, coll) = match split_once_pat_exec(rest.as_slice(), " in ") {
            Some((a, b)) => (trim_chars(a.as_slice()), trim_chars(b.as_slice())),
            None => {
                self.diag(
                    "E_PARSE004",
                    open_span,
                    "@loop requires sticky item and collection",
                    Some("@loop item::Type in collection".to_owned()),
                    Some(chars_to_string(text.as_slice())),
                    "replace",
                    "@loop item::i32 in items".to_owned(),
                );
                (rest, str_chars("items"))
            },
        };
        let item = match sticky_chars(bsrc.as_slice()) {
            Ok(b) => b,
            Err(actual) => {
                self.diag(
                    "E_TYPE001",
                    open_span,
                    "loop item requires sticky-type annotation",
                    Some("identifier::Type".to_owned()),
                    Some(actual),
                    "annotate_type",
                    "@loop item::i32 in items".to_owned(),
                );
                StickyBinding { name: "item".to_owned(), ty: Type::Unknown }
            },
        };
        let body = self.loop_body();
        if self.peek_sig().is_none() {
            self.diag(
                "E_CLOSE002",
                open_span,
                "loop block reached EOF without matching @end loop",
                Some("@end loop".to_owned()),
                None,
                "close_block",
                cat("@end loop ", coll.as_slice()),
            );
        }
        let mut close_name: Option<String> = None;
        let mut end_span = open_span;
        match self.peek_sig() {
            Some(k) => {
                let ct = self.trimmed(k);
                if chars_starts_with(ct.as_slice(), "@end loop") {
                    self.skip_line();
                    end_span = self.line_span(k);
                    let s0 = trim_start_matches_exec(ct.as_slice(), "@end loop");
                    let suffix = trim_chars(s0.as_slice());
                    if suffix.len() != 0 {
                        close_name = Some(chars_to_string(suffix.as_slice()));
                        if !chars_eq(suffix.as_slice(), coll.as_slice()) {
                            self.diag(
                                "E_CLOSE001",
                                end_span,
                                "loop close name does not match collection",
                                Some(chars_to_string(coll.as_slice())),
                                Some(chars_to_string(suffix.as_slice())),
                                "rename",
                                cat("@end loop ", coll.as_slice()),
                            );
                        }
                    }
                }
            },
            None => {},
        }
        let lspan = Span {
            start_byte: open_span.start_byte,
            end_byte: end_span.end_byte,
            start_line: open_span.start_line,
            start_col: open_span.start_col,
            end_line: end_span.end_line,
            end_col: end_span.end_col,
        };
        let id = self.new_id("loop");
        let lb = LoopBlock { item, collection: chars_to_string(coll.as_slice()), body, close_name };
        proof {
            lemma_loop_m(lb);
        }
        Node { id, span: lspan, kind: Statement::Loop(lb) }
    }

    #[verifier::loop_isolation(false)]
    fn func_body(&mut self, name: &[char]) -> (body: Vec<Node<Statement>>)
        requires
            old(self).wf(),
        ensures
            final(self).wf(),
            final(self).lines@ == old(self).lines@,
            final(self).hash == old(self).hash,
            (stmts_m(body@), final(self).st()) == func_body(
                old(self).ctx(),
                old(self).st(),
                name@,
                Seq::empty(),
            ),
            p_ok(old(self).ctx(), old(self).st(), final(self).st()),
    {
        let ghost c = self.ctx();
        let ghost target = func_body(c, self.st(), name@, Seq::empty());
        let mut body: Vec<Node<Statement>> = Vec::new();
        assert(stmts_m(body@) =~= Seq::empty());
        loop
            invariant
                self.wf(),
                self.lines@ == old(self).lines@,
                self.hash == old(self).hash,
                p_ok(c, old(self).st(), self.st()),
                func_body(c, self.st(), name@, stmts_m(body@)) == target,
            decreases self.lines@.len() - self.index,
        {
            match self.peek_sig() {
                None => {
                    return body;
                },
                Some(j) => {
                    let t = self.trimmed(j);
                    if chars_starts_with(t.as_slice(), "@end func") {
                        return body;
                    }
                    if chars_starts_with(t.as_slice(), "@end loop") {
                        let span = self.line_span(j);
                        proof {
                            reveal_strlit("");
                            assert(""@ =~= Seq::<char>::empty());
                        }
                        self.diag(
                            "E_CLOSE002",
                            span,
                            "encountered @end loop outside a loop block",
                            Some(cat("@end func ", name)),
                            Some(chars_to_string(t.as_slice())),
                            "delete",
                            "".to_owned(),
                        );
                        self.skip_line();
                    } else {
                        let s = self.statement();
                        proof {
                            lemma_stmts_push(body@, s);
                        }
                        body.push(s);
                    }
                },
            }
        }
    }

    fn intent_line(&mut self) -> (r: String)
        requires
            old(self).wf(),
        ensures
            final(self).wf(),
            final(self).lines@ == old(self).lines@,
            final(self).hash == old(self).hash,
            (r@, final(self).st()) == intent_line(old(self).ctx(), old(self).st()),
            p_ok(old(self).ctx(), old(self).st(), final(self).st()),
    {
        match self.next_sig() {
            None => {
                return String::new();
            },
            Some(j) => {
                let t = self.trimmed(j);
                let span = self.line_span(j);
                match strip_prefix_exec(t.as_slice(), "@intent:") {
                    Some(x) => {
                        let intent = trim_chars(x.as_slice());
                        if intent.len() == 0 || intent.len() > 280 {
                            self.diag(
                                "E_INTENT001",
                                span,
                                "@intent must contain 1..=280 characters",
                                Some("@intent: <short purpose>".to_owned()),
                                Some(chars_to_string(t.as_slice())),
                                "add_intent",
                                "@intent: Describe this function".to_owned(),
                            );
                        }
                        chars_to_string(intent.as_slice())
                    },
                    None => {
                        self.diag(
                            "E_INTENT001",
                            span,
                            "function preamble must start with @intent:",
                            Some("@intent: <purpose>".to_owned()),
                            Some(chars_to_string(t.as_slice())),
                            "add_intent",
                            "@intent: Describe this function".to_owned(),
                        );
                        String::new()
                    },
                }
            },
        }
    }

    #[verifier::loop_isolation(false)]
    fn inputs(&mut self) -> (ins: Vec<StickyBinding>)
        requires
            old(self).wf(),
        ensures
            final(self).wf(),
            final(self).lines@ == old(self).lines@,
            final(self).hash == old(self).hash,
            (bindings_m(ins@), final(self).st()) == inputs_loop(old(self).ctx(), old(self).st(), Seq::empty()),
            p_ok(old(self).ctx(), old(self).st(), final(self).st()),
    {
        let ghost c = self.ctx();
        let ghost target = inputs_loop(c, self.st(), Seq::empty());
        let mut ins: Vec<StickyBinding> = Vec::new();
        assert(bindings_m(ins@) =~= Seq::empty());
        loop
            invariant
                self.wf(),
                self.lines@ == old(self).lines@,
                self.hash == old(self).hash,
                p_ok(c, old(self).st(), self.st()),
                inputs_loop(c, self.st(), bindings_m(ins@)) == target,
            decreases self.lines@.len() - self.index,
        {
            match self.peek_sig() {
                Some(j) => {
                    let t = self.trimmed(j);
                    if !chars_starts_with(t.as_slice(), "@in ") {
                        return ins;
                    }
                    self.skip_line();
                    let span = self.line_span(j);
                    let s0 = trim_start_matches_exec(t.as_slice(), "@in ");
                    let s1 = trim_chars(s0.as_slice());
                    match sticky_chars(s1.as_slice()) {
                        Ok(b) => {
                            proof {
                                lemma_bindings_push(ins@, b);
                            }
                            ins.push(b);
                        },
                        Err(actual) => {
                            self.diag(
                                "E_TYPE001",
                                span,
                                "@in declaration requires sticky-type annotation",
                                Some("identifier::Type".to_owned()),
                                Some(actual),
                                "annotate_type",
                                "@in value::i32".to_owned(),
                            );
                        },
                    }
                },
                None => {
                    return ins;
                },
            }
        }
    }

    fn output_line(&mut self) -> (b: StickyBinding)
        requires
            old(self).wf(),
        ensures
            final(self).wf(),
            final(self).lines@ == old(self).lines@,
            final(self).hash == old(self).hash,
            (binding_m(b), final(self).st()) == output_line(old(self).ctx(), old(self).st()),
            p_ok(old(self).ctx(), old(self).st(), final(self).st()),
    {
        match self.next_sig() {
            None => StickyBinding { name: "result".to_owned(), ty: Type::Unknown },
            Some(j) => {
                let t = self.trimmed(j);
                let span = self.line_span(j);
                if chars_starts_with(t.as_slice(), "@out ") {
                    let s0 = trim_start_matches_exec(t.as_slice(), "@out ");
                    let s1 = trim_chars(s0.as_slice());
                    match sticky_chars(s1.as_slice()) {
                        Ok(b) => b,
                        Err(actual) => {
                            self.diag(
                                "E_TYPE001",
                                span,
                                "@out declaration requires sticky-type annotation",
                                Some("identifier::Type".to_owned()),
                                Some(actual),
                                "annotate_type",
                                "@out result::i32".to_owned(),
                            );
                            StickyBinding { name: "result".to_owned(), ty: Type::Unknown }
                        },
                    }
                } else {
                    self.diag(
                        "E_INTENT001",
                        span,
                        "function preamble requires exactly one @out declaration after @in lines",
                        Some("@out <identifier>::<Type>".to_owned()),
                        Some(chars_to_string(t.as_slice())),
                        "add_intent",
                        "@out result::i32".to_owned(),
                    );
                    StickyBinding { name: "result".to_owned(), ty: Type::Unknown }
                }
            },
        }
    }

    fn dash_separator(&mut self, fallback: Span)
        requires
            old(self).wf(),
        ensures
            final(self).wf(),
            final(self).lines@ == old(self).lines@,
            final(self).hash == old(self).hash,
            final(self).st() == dash_separator(old(self).ctx(), old(self).st(), fallback),
            p_ok(old(self).ctx(), old(self).st(), final(self).st()),
    {
        match self.next_sig() {
            Some(j) => {
                let t = self.trimmed(j);
                if chars_eq_str(t.as_slice(), "---") {
                    return ;
                }
                let span = self.line_span(j);
                self.diag(
                    "E_INTENT001",
                    span,
                    "intent preamble must be followed by --- separator",
                    Some("---".to_owned()),
                    Some(chars_to_string(t.as_slice())),
                    "insert",
                    "---".to_owned(),
                );
            },
            None => {
                self.diag(
                    "E_INTENT001",
                    fallback,
                    "intent preamble must be followed by --- separator",
                    Some("---".to_owned()),
                    None,
                    "insert",
                    "---".to_owned(),
                );
            },
        }
    }

    fn function(&mut self) -> (f: Node<FunctionDecl>)
        requires
            old(self).wf(),
            peek_sig(old(self).ctx(), old(self).index as int) is Some,
        ensures
            final(self).wf(),
            final(self).lines@ == old(self).lines@,
            final(self).hash == old(self).hash,
            (func_m(f), final(self).st()) == function(old(self).ctx(), old(self).st()),
            old(self).index < final(self).index <= final(self).lines@.len(),
    {
        let j = match self.next_sig() {
            Some(j) => j,
            None => {
                assert(false);
                0
            },
        };
        let open_span = self.line_span(j);
        let t = self.trimmed(j);
        let nm = match strip_prefix_exec(t.as_slice(), "@func ") {
            Some(x) => x,
            None => Vec::new(),
        };
        let name = trim_chars(nm.as_slice());
        if !is_ident(name.as_slice()) {
            self.diag(
                "E_PARSE002",
                open_span,
                "function name must be an identifier",
                Some("identifier".to_owned()),
                Some(chars_to_string(name.as_slice())),
                "replace",
                "@func main".to_owned(),
            );
        }
        let intent = self.intent_line();
        let inputs = self.inputs();
        if inputs.len() == 0 {
            self.diag(
                "E_INTENT001",
                open_span,
                "function preamble requires at least one @in declaration",
                Some("@in <identifier>::<Type>".to_owned()),
                None,
                "add_intent",
                "@in input::i32".to_owned(),
            );
        }
        let output = self.output_line();
        self.dash_separator(open_span);
        let body = self.func_body(name.as_slice());
        let mut close_name: Vec<char> = Vec::new();
        let mut end_span = open_span;
        match self.peek_sig() {
            Some(k) => {
                let ct = self.trimmed(k);
                if chars_starts_with(ct.as_slice(), "@end func") {
                    self.skip_line();
                    let cn0 = match strip_prefix_exec(ct.as_slice(), "@end func") {
                        Some(x) => x,
                        None => Vec::new(),
                    };
                    close_name = trim_chars(cn0.as_slice());
                    end_span = self.line_span(k);
                    if !chars_eq(close_name.as_slice(), name.as_slice()) {
                        self.diag(
                            "E_CLOSE001",
                            end_span,
                            "function close name does not match opener",
                            Some(chars_to_string(name.as_slice())),
                            Some(chars_to_string(close_name.as_slice())),
                            "rename",
                            cat("@end func ", name.as_slice()),
                        );
                    }
                }
            },
            None => {},
        }
        assert(close_name@.len() == 0 ==> close_name@ =~= Seq::<char>::empty());
        if close_name.len() == 0 {
            self.diag(
                "E_CLOSE002",
                open_span,
                "function block reached EOF without matching @end func",
                Some(cat("@end func ", name.as_slice())),
                None,
                "close_block",
                cat("@end func ", name.as_slice()),
            );
            close_name = crate::text::copy_chars(name.as_slice());
        }
        let fspan = Span {
            start_byte: open_span.start_byte,
            end_byte: end_span.end_byte,
            start_line: open_span.start_line,
            start_col: open_span.start_col,
            end_line: end_span.end_line,
            end_col: end_span.end_col,
        };
        let id = self.new_id("func");
        Node {
            id,
            span: fspan,
            kind: FunctionDecl {
                name: chars_to_string(name.as_slice()),
                intent,
                inputs,
                output,
                body,
                close_name: chars_to_string(close_name.as_slice()),
            },
        }
    }

    #[verifier::loop_isolation(false)]
    fn program(&mut self) -> (p: Program)
        requires
            old(self).wf(),
        ensures
            final(self).wf(),
            (program_m(p), final(self).st()) == program_loop(old(self).ctx(), old(self).st(), Seq::empty()),
    {
        let ghost c = self.ctx();
        let ghost target = program_loop(c, self.st(), Seq::empty());
        let mut functions: Vec<Node<FunctionDecl>> = Vec::new();
        assert(funcs_m(functions@) =~= Seq::empty());
        loop
            invariant
                self.wf(),
                self.lines@ == old(self).lines@,
                self.hash == old(self).hash,
                program_loop(c, self.st(), funcs_m(functions@)) == target,
            decreases self.lines@.len() - self.index,
        {
            match self.peek_sig() {
                None => {
                    return Program { functions };
                },
                Some(j) => {
                    let t = self.trimmed(j);
                    if chars_starts_with(t.as_slice(), "@func ") {
                        let f = self.function();
                        proof {
                            lemma_funcs_push(functions@, f);
                        }
                        functions.push(f);
                    } else {
                        let span = self.line_span(j);
                        self.diag(
                            "E_PARSE001",
                            span,
                            "top-level item must start with @func",
                            Some("@func <identifier>".to_owned()),
                            Some(chars_to_string(t.as_slice())),
                            "insert",
                            "@func main".to_owned(),
                        );
                        self.skip_line();
                    }
                },
            }
        }
    }
}

/// Parses a program from its source and the lexer's tokens, returning the
/// syntax tree and the parse diagnostics.
pub fn parse_program_from_tokens(source: &str, tokens: &[Token]) -> (r: (Program, Vec<Diagnostic>))
    requires
        4 * source@.len() + 4 < usize::MAX,
        tokens_fit(source@, tokens_m(tokens@)),
    ensures
        (program_m(r.0), diags_m(r.1@)) == parse_spec(source@, tokens_m(tokens@)),
{
    let src = str_chars(source);
    let lines = split_token_lines(src.as_slice(), tokens);
    proof {
        crate::lines::lemma_lines_short(src@, tokens_m(tokens@));
        assert forall|j: int| 0 <= j < lines@.len() implies #[trigger] lines@[j].text@.len() + 1
            < usize::MAX by {
            assert(lines_m(lines@)[j] == line_m(lines@[j]));
            assert(lines_spec(src@, tokens_m(tokens@))[j].text.len() <= src@.len());
        }
    }
    let hash = stable_hash(source);
    let mut parser = Parser { lines, index: 0, diags: Vec::new(), counter: 0, hash };
    assert(diags_m(parser.diags@) =~= Seq::empty());
    let program = parser.program();
    (program, parser.diags)
}

} // verus!
