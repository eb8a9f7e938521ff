//! The formatter: the canonical source text of a program.
use crate::ast::{
    binop_text, expr_m, exprs_m, func_m, lemma_call_m, lemma_loop_m, program_m, stmt_m, stmts_m,
    type_text, unop_text, write_binop, write_type, write_unop, ActionM, ConstructorExpr, CtorM, Expr,
    ExprM, FuncM, FunctionDecl, GuardAction, LitM, Literal, Node, NodeM, Program, Statement, StmtM,
};
use crate::text::{chars_to_string, copy_chars, int_text, push_chars, push_int, push_str, str_chars};
use crate::typeck::inc;
use crate::expr::{lex_expr_run, lex_expr_spec, lex_expr_step, str_body, ETokM};
use crate::text::{is_ws, lemma_find_char};
use crate::parser::{guard_action, PCtx, PSt};
use crate::ast::Span;
use vstd::prelude::*;

verus! {

// ---------------------------------------------------------------------------
// Specification
// ---------------------------------------------------------------------------
/// The escape of one character of a string literal.
pub open spec fn escape_char(c: char) -> Seq<char> {
    if c == '"' {
        seq!['\\', '"']
    } else if c == '\\' {
        seq!['\\', '\\']
    } else if c == '\n' {
        seq!['\\', 'n']
    } else if c == '\t' {
        seq!['\\', 't']
    } else {
        seq![c]
    }
}

/// A string with quotes, backslashes, newlines and tabs escaped.
pub open spec fn escape_text(s: Seq<char>) -> Seq<char>
    decreases s.len(),
{
    if s.len() == 0 {
        Seq::empty()
    } else {
        escape_text(s.drop_last()) + escape_char(s.last())
    }
}

// ---------------------------------------------------------------------------
// Lexing an escaped string literal gives the string back
// ---------------------------------------------------------------------------
proof fn lemma_escape_text_add(a: Seq<char>, b: Seq<char>)
    ensures
        escape_text(a + b) == escape_text(a) + escape_text(b),
    decreases b.len(),
{
    if b.len() == 0 {
        assert(a + b =~= a);
        assert(escape_text(a) + escape_text(b) =~= escape_text(a));
    } else {
        lemma_escape_text_add(a, b.drop_last());
        assert((a + b).drop_last() =~= a + b.drop_last());
        assert((a + b).last() == b.last());
    }
}

proof fn lemma_escape_text_first(s: Seq<char>)
    requires
        s.len() > 0,
    ensures
        escape_text(s) == escape_char(s[0]) + escape_text(s.drop_first()),
{
    assert(s =~= seq![s[0]] + s.drop_first());
    lemma_escape_text_add(seq![s[0]], s.drop_first());
    assert(seq![s[0]].drop_last() =~= Seq::<char>::empty());
    assert(seq![s[0]].last() == s[0]);
    assert(escape_text(Seq::<char>::empty()) =~= Seq::<char>::empty());
    assert(escape_text(seq![s[0]]) =~= escape_char(s[0]));
}

/// Reading the body of a string literal undoes the escaping of a text that
/// is followed by the closing quote.
proof fn lemma_str_body_escaped(x: Seq<char>, j: int, acc: Seq<char>, s: Seq<char>)
    requires
        0 <= j,
        j + escape_text(s).len() + 1 <= x.len(),
        x.subrange(j, j + escape_text(s).len() + 1) == escape_text(s) + seq!['"'],
    ensures
        str_body(x, j, acc) == (j + escape_text(s).len() + 1, acc + s),
    decreases s.len(),
{
    let e = escape_text(s);
    assert forall|k: int| 0 <= k <= e.len() implies x[j + k] == #[trigger] (e + seq!['"'])[k] by {
        assert(x[j + k] == x.subrange(j, j + e.len() + 1)[k]);
    }
    if s.len() == 0 {
        assert(x[j] == (e + seq!['"'])[0]);
        assert(acc + s =~= acc);
    } else {
        let c = s[0];
        let t = s.drop_first();
        lemma_escape_text_first(s);
        let ec = escape_char(c);
        let et = escape_text(t);
        assert(e + seq!['"'] =~= ec + (et + seq!['"']));
        assert(x[j] == (e + seq!['"'])[0]);
        assert(x.subrange(j + ec.len(), j + ec.len() + et.len() + 1) =~= et + seq!['"']) by {
            assert forall|k: int| 0 <= k < et.len() + 1 implies x.subrange(
                j + ec.len(),
                j + ec.len() + et.len() + 1,
            )[k] == (et + seq!['"'])[k] by {
                assert(x[j + ec.len() + k] == (e + seq!['"'])[ec.len() + k]);
            }
        }
        lemma_str_body_escaped(x, j + ec.len(), acc.push(c), t);
        assert(acc.push(c) + t =~= acc + s);
        if ec.len() == 2 {
            assert(x[j + 1] == (e + seq!['"'])[1]);
        }
    }
}

/// The expression lexer undoes the formatter's escaping: lexing the quoted
/// escape of any text gives one string token holding that text.
pub proof fn lemma_lex_escaped_string(s: Seq<char>)
    ensures
        lex_expr_spec(seq!['"'] + escape_text(s) + seq!['"']) == seq![ETokM::Str(s)],
{
    let q = seq!['"'] + escape_text(s) + seq!['"'];
    let e = escape_text(s);
    assert(q[0] == '"');
    assert(!is_ws('"'));
    assert(q.subrange(1, e.len() + 2int) =~= e + seq!['"']);
    lemma_str_body_escaped(q, 1, Seq::empty(), s);
    assert(Seq::<char>::empty() + s =~= s);
    assert(lex_expr_step(q, 0, Seq::empty()) == (q.len() as int, seq![ETokM::Str(s)]));
    assert(lex_expr_run(q, q.len() as int, seq![ETokM::Str(s)]) == seq![ETokM::Str(s)]);
    assert(lex_expr_run(q, 0, Seq::empty()) == lex_expr_run(q, q.len() as int, seq![ETokM::Str(s)]));
}

pub open spec fn lit_text(l: LitM) -> Seq<char> {
    match l {
        LitM::Int(v) => int_text(v as int),
        LitM::Float(t) => t,
        LitM::Str(s) => seq!['"'] + escape_text(s) + seq!['"'],
        LitM::Bool(b) => if b {
            "true"@
        } else {
            "false"@
        },
    }
}

/// The source text of an expression.
pub open spec fn expr_text(e: NodeM<ExprM>) -> Seq<char>
    decreases e, 0int,
{
    match e.kind {
        ExprM::Lit(l) => lit_text(l),
        ExprM::Ident(name) => name,
        ExprM::Binary { op, lhs, rhs } => expr_text(*lhs) + " "@ + binop_text(op) + " "@ + expr_text(*rhs),
        ExprM::Unary { op, operand } => unop_text(op) + expr_text(*operand),
        ExprM::Call { callee, args } => callee + "("@ + args_text(args, 0, Seq::empty()) + ")"@,
        ExprM::Cast { expr, target } => expr_text(*expr) + " as::<"@ + type_text(target) + ">"@,
        ExprM::Ctor(ct) => match ct {
            CtorM::SomeOf(v) => "Some("@ + expr_text(*v) + ")"@,
            CtorM::NoneOf => "None"@,
            CtorM::OkOf(v) => "Ok("@ + expr_text(*v) + ")"@,
            CtorM::ErrOf(v) => "Err("@ + expr_text(*v) + ")"@,
        },
        ExprM::Paren(inner) => "("@ + expr_text(*inner) + ")"@,
    }
}

/// The arguments from argument `i` on, joined with `, ` onto `acc`.
pub open spec fn args_text(args: Seq<NodeM<ExprM>>, i: int, acc: Seq<char>) -> Seq<char>
    decreases args, args.len() - i,
{
    if 0 <= i < args.len() {
        args_text(
            args,
            i + 1,
            if i == 0 {
                expr_text(args[i])
            } else {
                acc + ", "@ + expr_text(args[i])
            },
        )
    } else {
        acc
    }
}

pub open spec fn action_text(a: ActionM) -> Seq<char> {
    match a {
        ActionM::Continue => "@continue"@,
        ActionM::Break => "@break"@,
        ActionM::Return(e) => "return "@ + expr_text(e),
        ActionM::SetAssign { target, value } => "set "@ + target + " = "@ + expr_text(value),
    }
}

/// Two spaces per level of indentation.
pub open spec fn pad(indent: nat) -> Seq<char> {
    Seq::new(2 * indent, |_i: int| ' ')
}

/// The lines of a statement at the given indentation.
pub open spec fn stmt_text(s: NodeM<StmtM>, indent: nat) -> Seq<char>
    decreases s, 0int,
{
    let p = pad(indent);
    match s.kind {
        StmtM::Let { binding, value } => p + "let "@ + binding.name + "::"@ + type_text(binding.ty) + " = "@
            + expr_text(value) + "\n"@,
        StmtM::SetVar { target, value } => p + "set "@ + target + " = "@ + expr_text(value) + "\n"@,
        StmtM::Return { value } => match value {
            Some(v) => p + "return "@ + expr_text(v) + "\n"@,
            None => p + "return\n"@,
        },
        StmtM::Loop { item, collection, body, close_name } => p + "@loop "@ + item.name + "::"@ + type_text(
            item.ty,
        ) + " in "@ + collection + "\n"@ + stmts_text(body, 0, inc(indent as int) as nat) + match close_name {
            Some(n) => p + "@end loop "@ + n + "\n"@,
            None => p + "@end loop\n"@,
        },
        StmtM::Condition { name, guard } => p + "@condition "@ + name + "\n"@ + p + "if ("@ + expr_text(
            guard.kind.cond,
        ) + ") -> "@ + action_text(guard.kind.action) + "\n"@,
        StmtM::Expr(e) => p + expr_text(e) + "\n"@,
    }
}

/// The statements from statement `i` on.
pub open spec fn stmts_text(stmts: Seq<NodeM<StmtM>>, i: int, indent: nat) -> Seq<char>
    decreases stmts, stmts.len() - i,
{
    if 0 <= i < stmts.len() {
        stmt_text(stmts[i], indent) + stmts_text(stmts, i + 1, indent)
    } else {
        Seq::empty()
    }
}

/// The `@in` lines from input `i` on.
pub open spec fn inputs_text(f: FuncM, i: int) -> Seq<char>
    decreases f.inputs.len() - i,
{
    if 0 <= i < f.inputs.len() {
        "@in "@ + f.inputs[i].name + "::"@ + type_text(f.inputs[i].ty) + "\n"@ + inputs_text(f, i + 1)
    } else {
        Seq::empty()
    }
}

/// The canonical text of a function.
pub open spec fn func_text(f: FuncM) -> Seq<char> {
    "@func "@ + f.name + "\n"@ + "@intent: "@ + f.intent + "\n"@ + inputs_text(f, 0) + "@out "@ + f.output.name
        + "::"@ + type_text(f.output.ty) + "\n"@ + "---\n"@ + stmts_text(f.body, 0, 0) + "@end func "@
        + f.close_name + "\n"@
}

/// The functions from function `i` on, separated by empty lines.
pub open spec fn funcs_text(funcs: Seq<NodeM<FuncM>>, i: int) -> Seq<char>
    decreases funcs.len() - i,
{
    if 0 <= i < funcs.len() {
        (if i > 0 {
            "\n"@
        } else {
            Seq::empty()
        }) + func_text(funcs[i].kind) + funcs_text(funcs, i + 1)
    } else {
        Seq::empty()
    }
}

/// The canonical text of a program.
pub open spec fn program_text(funcs: Seq<NodeM<FuncM>>) -> Seq<char> {
    funcs_text(funcs, 0)
}

// ---------------------------------------------------------------------------
// Implementation
// ---------------------------------------------------------------------------
/// Appends the escape of a string literal's contents.
fn write_escaped(out: &mut Vec<char>, s: &[char])
    ensures
        final(out)@ == old(out)@ + escape_text(s@),
{
    let mut i: usize = 0;
    assert(s@.subrange(0, 0) =~= Seq::<char>::empty());
    while i < s.len()
        invariant
            i <= s@.len(),
            out@ == old(out)@ + escape_text(s@.subrange(0, i as int)),
        decreases s@.len() - i,
    {
        let c = s[i];
        let ghost before = out@;
        if c == '"' {
            out.push('\\');
            out.push('"');
        } else if c == '\\' {
            out.push('\\');
            out.push('\\');
        } else if c == '\n' {
            out.push('\\');
            out.push('n');
        } else if c == '\t' {
            out.push('\\');
            out.push('t');
        } else {
            out.push(c);
        }
        assert(s@.subrange(0, i + 1).drop_last() =~= s@.subrange(0, i as int));
        assert(out@ =~= before + escape_char(c));
        i = i + 1;
    }
    assert(s@.subrange(0, s@.len() as int) =~= s@);
}

/// Escapes quotes, backslashes, newlines and tabs of a string literal.
pub fn escape_string_literal(input: &str) -> (s: String)
    ensures
        s@ == escape_text(input@),
{
    let mut out: Vec<char> = Vec::new();
    write_escaped(&mut out, str_chars(input).as_slice());
    chars_to_string(out.as_slice())
}

/// Appends the source text of an expression.
#[verifier::loop_isolation(false)]
#[verifier::rlimit(40)]
#[verifier::spinoff_prover]
fn write_expr(out: &mut Vec<char>, e: &Node<Expr>)
    ensures
        final(out)@ == old(out)@ + expr_text(expr_m(*e)),
    decreases e,
{
    let ghost o = out@;
    match &e.kind {
        Expr::Lit(l) => match l {
            Literal::Int(v) => push_int(out, *v),
            Literal::Float(t) => push_str(out, t.as_str()),
            Literal::Str(s) => {
                out.push('"');
                write_escaped(out, str_chars(s.as_str()).as_slice());
                out.push('"');
                assert(out@ =~= o + (seq!['"'] + escape_text(s@) + seq!['"']));
            },
            Literal::Bool(b) => {
                if *b {
                    push_str(out, "true");
                } else {
                    push_str(out, "false");
                }
            },
        },
        Expr::Ident(name) => push_str(out, name.as_str()),
        Expr::Binary { op, lhs, rhs } => {
            write_expr(out, lhs);
            push_str(out, " ");
            write_binop(out, *op);
            push_str(out, " ");
            write_expr(out, rhs);
            assert(out@ =~= o + expr_text(expr_m(*e)));
        },
        Expr::Unary { op, operand } => {
            write_unop(out, *op);
            write_expr(out, operand);
            assert(out@ =~= o + expr_text(expr_m(*e)));
        },
        Expr::Call { callee, args } => {
            proof {
                lemma_call_m(*callee, *args);
            }
            let ghost am = exprs_m(args@);
            push_str(out, callee.as_str());
            push_str(out, "(");
            let ghost target = args_text(am, 0, Seq::empty());
            let mut joined: Vec<char> = Vec::new();
            let mut i: usize = 0;
            while i < args.len()
                invariant
                    i <= args@.len(),
                    i == 0 ==> joined@ == Seq::<char>::empty(),
                    args_text(am, i as int, joined@) == target,
                decreases args@.len() - i,
            {
                let ghost acc = joined@;
                assert(am[i as int] == expr_m(args@[i as int]));
                if i > 0 {
                    push_str(&mut joined, ", ");
                }
                write_expr(&mut joined, &args[i]);
                assert(joined@ =~= (if i == 0 {
                    expr_text(am[i as int])
                } else {
                    acc + ", "@ + expr_text(am[i as int])
                }));
                i = i + 1;
            }
            push_chars(out, joined.as_slice());
            push_str(out, ")");
            assert(out@ =~= o + expr_text(expr_m(*e)));
        },
        Expr::Cast { expr: inner, target } => {
            write_expr(out, inner);
            push_str(out, " as::<");
            write_type(out, target);
            push_str(out, ">");
            assert(out@ =~= o + expr_text(expr_m(*e)));
        },
        Expr::Ctor(ct) => match ct {
            ConstructorExpr::SomeOf(v) => {
                push_str(out, "Some(");
                write_expr(out, v);
                push_str(out, ")");
                assert(out@ =~= o + expr_text(expr_m(*e)));
            },
            ConstructorExpr::NoneOf => push_str(out, "None"),
            ConstructorExpr::OkOf(v) => {
                push_str(out, "Ok(");
                write_expr(out, v);
                push_str(out, ")");
                assert(out@ =~= o + expr_text(expr_m(*e)));
            },
            ConstructorExpr::ErrOf(v) => {
                push_str(out, "Err(");
                write_expr(out, v);
                push_str(out, ")");
                assert(out@ =~= o + expr_text(expr_m(*e)));
            },
        },
        Expr::Paren(inner) => {
            push_str(out, "(");
            write_expr(out, inner);
            push_str(out, ")");
            assert(out@ =~= o + expr_text(expr_m(*e)));
        },
    }
}

/// The source text of an expression.
pub fn expr_to_string(expr: &Node<Expr>) -> (s: String)
    ensures
        s@ == expr_text(expr_m(*expr)),
{
    let mut out: Vec<char> = Vec::new();
    write_expr(&mut out, expr);
    assert(out@ =~= expr_text(expr_m(*expr)));
    chars_to_string(out.as_slice())
}

fn write_pad(out: &mut Vec<char>, indent: usize)
    ensures
        final(out)@ == old(out)@ + pad(indent as nat),
{
    let mut i: usize = 0;
    while i < indent
        invariant
            i <= indent,
            out@ == old(out)@ + pad(i as nat),
        decreases indent - i,
    {
        out.push(' ');
        out.push(' ');
        assert(out@ =~= old(out)@ + pad((i + 1) as nat));
        i = i + 1;
    }
}

fn write_action(out: &mut Vec<char>, a: &GuardAction)
    ensures
        final(out)@ == old(out)@ + action_text(crate::ast::action_m(*a)),
{
    match a {
        GuardAction::Continue => push_str(out, "@continue"),
        GuardAction::Break => push_str(out, "@break"),
        GuardAction::Return(e) => {
            push_str(out, "return ");
            write_expr(out, e);
            assert(out@ =~= old(out)@ + action_text(crate::ast::action_m(*a)));
        },
        GuardAction::SetAssign { target, value } => {
            push_str(out, "set ");
            push_str(out, target.as_str());
            push_str(out, " = ");
            write_expr(out, value);
            assert(out@ =~= old(out)@ + action_text(crate::ast::action_m(*a)));
        },
    }
}

/// Appends the lines of a statement at the given indentation.
#[verifier::loop_isolation(false)]
#[verifier::rlimit(40)]
#[verifier::spinoff_prover]
fn pretty_stmt(out: &mut Vec<char>, stmt: &Node<Statement>, indent: usize)
    ensures
        final(out)@ == old(out)@ + stmt_text(stmt_m(*stmt), indent as nat),
    decreases stmt,
{
    let ghost o = out@;
    let ghost p = pad(indent as nat);
    write_pad(out, indent);
    match &stmt.kind {
        Statement::Let(l) => {
            push_str(out, "let ");
            push_str(out, l.binding.name.as_str());
            push_str(out, "::");
            write_type(out, &l.binding.ty);
            push_str(out, " = ");
            write_expr(out, &l.value);
            push_str(out, "\n");
            assert(out@ =~= o + stmt_text(stmt_m(*stmt), indent as nat));
        },
        Statement::SetVar(st) => {
            push_str(out, "set ");
            push_str(out, st.target.as_str());
            push_str(out, " = ");
            write_expr(out, &st.value);
            push_str(out, "\n");
            assert(out@ =~= o + stmt_text(stmt_m(*stmt), indent as nat));
        },
        Statement::Return(r) => {
            match &r.value {
                Some(v) => {
                    push_str(out, "return ");
                    write_expr(out, v);
                    push_str(out, "\n");
                },
                None => push_str(out, "return\n"),
            }
            assert(out@ =~= o + stmt_text(stmt_m(*stmt), indent as nat));
        },
        Statement::Loop(lb) => {
            proof {
                lemma_loop_m(*lb);
            }
            push_str(out, "@loop ");
            push_str(out, lb.item.name.as_str());
            push_str(out, "::");
            write_type(out, &lb.item.ty);
            push_str(out, " in ");
            push_str(out, lb.collection.as_str());
            push_str(out, "\n");
            let ghost head = out@;
            let d2 = if indent < usize::MAX {
                indent + 1
            } else {
                indent
            };
            let ghost bm = stmts_m(lb.body@);
            let mut i: usize = 0;
            while i < lb.body.len()
                invariant
                    i <= lb.body@.len(),
                    bm == stmts_m(lb.body@),
                    out@ + stmts_text(bm, i as int, d2 as nat) == head + stmts_text(bm, 0, d2 as nat),
                decreases lb.body@.len() - i,
            {
                let ghost before = out@;
                assert(bm[i as int] == stmt_m(lb.body@[i as int]));
                pretty_stmt(out, &lb.body[i], d2);
                assert(out@ + stmts_text(bm, i + 1, d2 as nat) =~= before + stmts_text(bm, i as int, d2 as nat));
                i = i + 1;
            }
            let ghost mid = out@;
            assert(mid =~= head + stmts_text(bm, 0, d2 as nat));
            write_pad(out, indent);
            match &lb.close_name {
                Some(n) => {
                    push_str(out, "@end loop ");
                    push_str(out, n.as_str());
                    push_str(out, "\n");
                },
                None => push_str(out, "@end loop\n"),
            }
            assert(inc(indent as int) as nat == d2 as nat);
            assert(out@ =~= o + stmt_text(stmt_m(*stmt), indent as nat));
        },
        Statement::Condition(cb) => {
            push_str(out, "@condition ");
            push_str(out, cb.name.as_str());
            push_str(out, "\n");
            write_pad(out, indent);
            push_str(out, "if (");
            write_expr(out, &cb.guard.kind.cond);
            push_str(out, ") -> ");
            write_action(out, &cb.guard.kind.action);
            push_str(out, "\n");
            assert(out@ =~= o + stmt_text(stmt_m(*stmt), indent as nat));
        },
        Statement::Expr(e) => {
            write_expr(out, e);
            push_str(out, "\n");
            assert(out@ =~= o + stmt_text(stmt_m(*stmt), indent as nat));
        },
    }
}

/// Appends the canonical text of a function.
#[verifier::loop_isolation(false)]
fn pretty_function(out: &mut Vec<char>, f: &Node<FunctionDecl>)
    ensures
        final(out)@ == old(out)@ + func_text(func_m(*f).kind),
{
    let ghost fm = func_m(*f).kind;
    let func = &f.kind;
    push_str(out, "@func ");
    push_str(out, func.name.as_str());
    push_str(out, "\n");
    push_str(out, "@intent: ");
    push_str(out, func.intent.as_str());
    push_str(out, "\n");
    let ghost h1 = out@;
    let mut i: usize = 0;
    while i < func.inputs.len()
        invariant
            i <= func.inputs@.len(),
            fm == func_m(*f).kind,
            out@ + inputs_text(fm, i as int) == h1 + inputs_text(fm, 0),
        decreases func.inputs@.len() - i,
    {
        let ghost before = out@;
        let input = &func.inputs[i];
        push_str(out, "@in ");
        push_str(out, input.name.as_str());
        push_str(out, "::");
        write_type(out, &input.ty);
        push_str(out, "\n");
        assert(fm.inputs[i as int] == crate::ast::binding_m(func.inputs@[i as int]));
        assert(out@ + inputs_text(fm, i + 1) =~= before + inputs_text(fm, i as int));
        i = i + 1;
    }
    push_str(out, "@out ");
    push_str(out, func.output.name.as_str());
    push_str(out, "::");
    write_type(out, &func.output.ty);
    push_str(out, "\n");
    push_str(out, "---\n");
    let ghost h2 = out@;
    let ghost bm = stmts_m(func.body@);
    let mut i: usize = 0;
    while i < func.body.len()
        invariant
            i <= func.body@.len(),
            bm == stmts_m(func.body@),
            out@ + stmts_text(bm, i as int, 0) == h2 + stmts_text(bm, 0, 0),
        decreases func.body@.len() - i,
    {
        let ghost before = out@;
        assert(bm[i as int] == stmt_m(func.body@[i as int]));
        pretty_stmt(out, &func.body[i], 0);
        assert(out@ + stmts_text(bm, i + 1, 0) =~= before + stmts_text(bm, i as int, 0));
        i = i + 1;
    }
    push_str(out, "@end func ");
    push_str(out, func.close_name.as_str());
    push_str(out, "\n");
    assert(out@ =~= old(out)@ + func_text(fm));
}

/// The canonical source text of a program: each function in order,
/// separated by an empty line.
pub fn pretty_program(program: &Program) -> (s: String)
    ensures
        s@ == program_text(program_m(*program)),
{
    let ghost fm = program_m(*program);
    let mut out: Vec<char> = Vec::new();
    let mut i: usize = 0;
    while i < program.functions.len()
        invariant
            i <= program.functions@.len(),
            fm == program_m(*program),
            out@ + funcs_text(fm, i as int) == funcs_text(fm, 0),
        decreases program.functions@.len() - i,
    {
        let ghost before = out@;
        if i > 0 {
            out.push('\n');
        }
        assert(fm[i as int] == func_m(program.functions@[i as int]));
        pretty_function(&mut out, &program.functions[i]);
        assert(out@ + funcs_text(fm, i + 1) =~= before + funcs_text(fm, i as int)) by {
            reveal_strlit("\n");
        }
        i = i + 1;
    }
    assert(out@ =~= program_text(fm));
    chars_to_string(out.as_slice())
}

// ---------------------------------------------------------------------------
// A printed guard action reads back as the same action
// ---------------------------------------------------------------------------
/// Formatting keeps what a guard does: the parser reads the printed text of
/// an action back as an action of the same kind, and a `@continue` or
/// `@break` as exactly that action.
pub proof fn lemma_action_text_reads_back(c: PCtx, st: PSt, a: ActionM, span: Span)
    ensures
        ({
            let r = guard_action(c, st, action_text(a), span).0;
            &&& (a is Continue <==> r is Continue)
            &&& (a is Break <==> r is Break)
            &&& (a is Return <==> r is Return)
            &&& (a is SetAssign <==> r is SetAssign)
        }),
{
    reveal_strlit("@continue");
    reveal_strlit("@break");
    reveal_strlit("return ");
    reveal_strlit("set ");
    let t = action_text(a);
    match a {
        ActionM::Continue => {},
        ActionM::Break => {},
        ActionM::Return(e) => {
            assert(t[0] == 'r');
            assert(t.subrange(0, 7) =~= "return "@);
        },
        ActionM::SetAssign { target, value } => {
            assert(t[0] == 's');
            assert(t.subrange(0, 4) =~= "set "@);
            let rest = t.subrange(4, t.len() as int);
            assert(rest =~= target + " = "@ + expr_text(value));
            reveal_strlit(" = ");
            assert(rest[target.len() as int + 1] == '=');
            lemma_find_char(rest, '=');
        },
    }
}

} // verus!
