//! The checker: name resolution and type checking of a parsed program.
//!
//! The checker walks every function with a stack of scopes (innermost last)
//! and a table of function signatures (the built-ins, then the program's own
//! functions, a later entry shadowing an earlier one of the same name).
//! Its behaviour is specified by the spec functions of this module over the
//! model of the syntax tree; `check_program` is proved to produce exactly the
//! diagnostics of `check_program_spec`.
use crate::ast::{
    binding_m, bindings_m, copy_type, expr_m, exprs_m, func_m, funcs_m, guard_m, lemma_call_m,
    lemma_loop_m, program_m, stmt_m, stmts_m, type_eq, type_is_numeric, type_text, write_type,
    ActionM, BinOp, BindingM, ConstructorExpr, CtorM, Expr, ExprM, FuncM, FunctionDecl, GuardAction,
    LitM, Literal, Node, NodeM, Program, Span, Statement, StickyBinding, StmtM, Type, UnOp,
};
use crate::diag::{diag_m, diags_m, err_m, fix, warn_m, DiagM, Diagnostic, Phase, Severity};
use crate::lexer::{diags_grow, has_code, lemma_diags_push, lemma_has_code_grow};
use crate::text::{
    chars_eq, chars_to_string, copy_chars, dec_text, push_chars, push_str, str_chars, usize_to_string,
};
use vstd::prelude::*;

verus! {

// ---------------------------------------------------------------------------
// Specification
// ---------------------------------------------------------------------------
/// A function signature: its inputs and its output binding.
pub struct SigM {
    pub inputs: Seq<BindingM>,
    pub output: BindingM,
}

/// The fixed context: the signature table, searched from the end.
pub struct TCtx {
    pub funcs: Seq<(Seq<char>, SigM)>,
}

/// The checker state: the diagnostics so far, the scopes (innermost last)
/// and the names that lookups have found.
pub struct TSt {
    pub diags: Seq<DiagM>,
    pub scopes: Seq<Seq<(Seq<char>, Type)>>,
    pub used: Seq<Seq<char>>,
}

/// Two types agree when they are equal or one of them is unknown.
pub open spec fn same_type(a: Type, b: Type) -> bool {
    a == b || a == Type::Unknown || b == Type::Unknown
}

/// An explicit cast is valid between agreeing types and between numeric types.
pub open spec fn valid_cast(source: Type, target: Type) -> bool {
    same_type(source, target) || (type_is_numeric(source) && type_is_numeric(target))
}

pub open spec fn is_wrapped(t: Type) -> bool {
    t is Option || t is Result
}

/// The last signature named `name` among the first `n` entries.
pub open spec fn find_sig(funcs: Seq<(Seq<char>, SigM)>, name: Seq<char>, n: int) -> Option<SigM>
    decreases n,
{
    if n <= 0 || n > funcs.len() {
        None
    } else if funcs[n - 1].0 == name {
        Some(funcs[n - 1].1)
    } else {
        find_sig(funcs, name, n - 1)
    }
}

/// The type bound to `name` in a scope, searching from entry `i`.
pub open spec fn scope_get(scope: Seq<(Seq<char>, Type)>, name: Seq<char>, i: int) -> Option<Type>
    decreases scope.len() - i,
{
    if i < 0 || i >= scope.len() {
        None
    } else if scope[i].0 == name {
        Some(scope[i].1)
    } else {
        scope_get(scope, name, i + 1)
    }
}

/// The type bound to `name` in the first `n` scopes, innermost first.
pub open spec fn lookup_in(scopes: Seq<Seq<(Seq<char>, Type)>>, name: Seq<char>, n: int) -> Option<Type>
    decreases n,
{
    if n <= 0 || n > scopes.len() {
        None
    } else {
        match scope_get(scopes[n - 1], name, 0) {
            Some(t) => Some(t),
            None => lookup_in(scopes, name, n - 1),
        }
    }
}

pub open spec fn t_diag(st: TSt, d: DiagM) -> TSt {
    TSt { diags: st.diags.push(d), ..st }
}

pub open spec fn pop_scope(st: TSt) -> TSt {
    if st.scopes.len() > 0 {
        TSt { scopes: st.scopes.drop_last(), ..st }
    } else {
        st
    }
}

/// Resolves a name: its type and the name marked as used, or an error.
pub open spec fn lookup_by_name(st: TSt, name: Seq<char>, node_id: Seq<char>, span: Span) -> (
    Option<Type>,
    TSt,
) {
    match lookup_in(st.scopes, name, st.scopes.len() as int) {
        Some(t) => (Some(t), TSt { used: st.used.push(name), ..st }),
        None => (
            None,
            t_diag(
                st,
                err_m(
                    "E_NAME001"@,
                    Phase::Resolve,
                    Some(node_id),
                    span,
                    "unknown identifier"@,
                    Some("declared binding"@),
                    Some(name),
                    "insert"@,
                    "let "@ + name + "::i32 = 0"@,
                ),
            ),
        ),
    }
}

/// Binds a name in the innermost scope, or reports a redeclaration there.
pub open spec fn declare(st: TSt, b: BindingM, node_id: Seq<char>, span: Span) -> TSt {
    if st.scopes.len() == 0 {
        st
    } else if scope_get(st.scopes.last(), b.name, 0) is Some {
        t_diag(
            st,
            err_m(
                "E_NAME002"@,
                Phase::Resolve,
                Some(node_id),
                span,
                "identifier redeclared in the same scope"@,
                Some("unique binding name"@),
                Some(b.name),
                "rename"@,
                b.name + "2::"@ + type_text(b.ty),
            ),
        )
    } else {
        TSt {
            scopes: st.scopes.update(st.scopes.len() - 1, st.scopes.last().push((b.name, b.ty))),
            ..st
        }
    }
}

pub open spec fn ty_patch(t: Type) -> Seq<char> {
    "<"@ + type_text(t) + " expression>"@
}

pub open spec fn pair_text(a: Type, b: Type) -> Seq<char> {
    type_text(a) + ", "@ + type_text(b)
}

/// Checks that `actual` agrees with `expected`. A mismatch of two numeric
/// types is reported as an implicit widening.
pub open spec fn expect_type(
    st: TSt,
    expected: Type,
    actual: Type,
    node_id: Seq<char>,
    span: Span,
    message: Seq<char>,
) -> TSt {
    if expected == Type::Unknown || actual == Type::Unknown || same_type(expected, actual) {
        st
    } else if type_is_numeric(expected) && type_is_numeric(actual) {
        t_diag(
            st,
            err_m(
                "E_TYPE003"@,
                Phase::Type,
                Some(node_id),
                span,
                "implicit numeric widening is not allowed; use as::<T>"@,
                Some(type_text(expected)),
                Some(type_text(actual)),
                "replace"@,
                ty_patch(expected),
            ),
        )
    } else {
        t_diag(
            st,
            err_m(
                "E_TYPE002"@,
                Phase::Type,
                Some(node_id),
                span,
                message,
                Some(type_text(expected)),
                Some(type_text(actual)),
                "replace"@,
                ty_patch(expected),
            ),
        )
    }
}

pub open spec fn is_arith(op: BinOp) -> bool {
    op == BinOp::Add || op == BinOp::Sub || op == BinOp::Mul || op == BinOp::Div || op == BinOp::Mod
}

pub open spec fn is_logic(op: BinOp) -> bool {
    op == BinOp::And || op == BinOp::Or
}

pub open spec fn is_equality(op: BinOp) -> bool {
    op == BinOp::Eq || op == BinOp::Neq
}

/// The type of a binary operation on operands of the given types.
pub open spec fn binary_result(
    st: TSt,
    op: BinOp,
    left: Type,
    right: Type,
    node_id: Seq<char>,
    span: Span,
) -> (Type, TSt) {
    let bad = |code: Seq<char>, msg: Seq<char>, exp: Seq<char>, act: Seq<char>, patch: Seq<char>|
        (
            Type::Unknown,
            t_diag(
                st,
                err_m(code, Phase::Type, Some(node_id), span, msg, Some(exp), Some(act), "replace"@, patch),
            ),
        );
    if is_logic(op) {
        if left == Type::Bool && right == Type::Bool {
            (Type::Bool, st)
        } else {
            bad(
                "E_TYPE002"@,
                "logical operands must be bool"@,
                "bool"@,
                pair_text(left, right),
                "true"@,
            )
        }
    } else if is_wrapped(left) || is_wrapped(right) {
        if is_arith(op) {
            bad(
                "E_TYPE004"@,
                "wrapped Option/Result values cannot be used as arithmetic operands"@,
                "unwrapped numeric value"@,
                pair_text(left, right),
                "0"@,
            )
        } else if is_equality(op) {
            bad(
                "E_TYPE004"@,
                "wrapped Option/Result values cannot be compared without unwrapping"@,
                "unwrapped value"@,
                pair_text(left, right),
                "true"@,
            )
        } else {
            bad(
                "E_TYPE004"@,
                "wrapped Option/Result values cannot be compared without unwrapping"@,
                "unwrapped numeric value"@,
                pair_text(left, right),
                "true"@,
            )
        }
    } else if is_equality(op) {
        if same_type(left, right) {
            (Type::Bool, st)
        } else {
            bad(
                "E_TYPE002"@,
                "equality operands must have the same type"@,
                type_text(left),
                type_text(right),
                "true"@,
            )
        }
    } else if type_is_numeric(left) && type_is_numeric(right) && same_type(left, right) {
        (
            if is_arith(op) {
                left
            } else {
                Type::Bool
            },
            st,
        )
    } else if type_is_numeric(left) && type_is_numeric(right) {
        bad(
            "E_TYPE003"@,
            "implicit numeric widening is not allowed"@,
            type_text(right) + " as::<"@ + type_text(left) + ">"@,
            pair_text(left, right),
            "<expr> as::<"@ + type_text(left) + ">"@,
        )
    } else if is_arith(op) {
        bad(
            "E_TYPE002"@,
            "arithmetic operands must have the same numeric type"@,
            type_text(left),
            type_text(right),
            "0"@,
        )
    } else {
        bad(
            "E_TYPE002"@,
            "comparison operands must have the same numeric type"@,
            type_text(left),
            type_text(right),
            "true"@,
        )
    }
}

/// The type of a unary operation on an operand of type `t`.
pub open spec fn unary_result(st: TSt, op: UnOp, t: Type, node_id: Seq<char>, span: Span) -> (
    Type,
    TSt,
) {
    match op {
        UnOp::Neg => if type_is_numeric(t) {
            (t, st)
        } else {
            (
                Type::Unknown,
                t_diag(
                    st,
                    err_m(
                        "E_TYPE002"@,
                        Phase::Type,
                        Some(node_id),
                        span,
                        "unary - requires numeric operand"@,
                        Some("numeric"@),
                        Some(type_text(t)),
                        "replace"@,
                        "0"@,
                    ),
                ),
            )
        },
        UnOp::Not => if t == Type::Bool {
            (Type::Bool, st)
        } else {
            (
                Type::Unknown,
                t_diag(
                    st,
                    err_m(
                        "E_TYPE002"@,
                        Phase::Type,
                        Some(node_id),
                        span,
                        "unary ! requires bool operand"@,
                        Some("bool"@),
                        Some(type_text(t)),
                        "replace"@,
                        "true"@,
                    ),
                ),
            )
        },
    }
}

pub open spec fn lit_type(l: LitM, expected: Option<Type>) -> Type {
    match l {
        LitM::Int(_) => match expected {
            Some(t) => if type_is_numeric(t) {
                t
            } else {
                Type::I64
            },
            None => Type::I64,
        },
        LitM::Float(_) => if expected == Some(Type::F32) {
            Type::F32
        } else {
            Type::F64
        },
        LitM::Str(_) => Type::String,
        LitM::Bool(_) => Type::Bool,
    }
}

pub open spec fn operand_hint(op: BinOp, left: Option<Type>) -> Option<Type> {
    if is_logic(op) {
        Some(Type::Bool)
    } else {
        left
    }
}

/// The type of an expression, given the type its context expects.
pub open spec fn infer_expr(c: TCtx, st: TSt, e: NodeM<ExprM>, expected: Option<Type>) -> (Type, TSt)
    decreases e, 0int,
{
    match e.kind {
        ExprM::Lit(l) => (lit_type(l, expected), st),
        ExprM::Ident(name) => {
            let r = lookup_by_name(st, name, e.id, e.span);
            (
                match r.0 {
                    Some(t) => t,
                    None => Type::Unknown,
                },
                r.1,
            )
        },
        ExprM::Paren(inner) => infer_expr(c, st, *inner, expected),
        ExprM::Unary { op, operand } => {
            let r = infer_expr(c, st, *operand, expected);
            unary_result(r.1, op, r.0, e.id, e.span)
        },
        ExprM::Binary { op, lhs, rhs } => {
            let l = infer_expr(c, st, *lhs, operand_hint(op, None));
            let r = infer_expr(c, l.1, *rhs, operand_hint(op, Some(l.0)));
            binary_result(r.1, op, l.0, r.0, e.id, e.span)
        },
        ExprM::Call { callee, args } => match find_sig(c.funcs, callee, c.funcs.len() as int) {
            None => (
                Type::Unknown,
                t_diag(
                    st,
                    err_m(
                        "E_NAME001"@,
                        Phase::Resolve,
                        Some(e.id),
                        e.span,
                        "unknown function"@,
                        Some("declared @func"@),
                        Some(callee),
                        "insert"@,
                        "@func "@ + callee,
                    ),
                ),
            ),
            Some(sig) => if args.len() != sig.inputs.len() {
                (
                    sig.output.ty,
                    t_diag(
                        st,
                        err_m(
                            "E_CALL001"@,
                            Phase::Type,
                            Some(e.id),
                            e.span,
                            "function argument count mismatch"@,
                            Some(dec_text(sig.inputs.len())),
                            Some(dec_text(args.len())),
                            "replace"@,
                            callee + "(...)"@,
                        ),
                    ),
                )
            } else {
                (sig.output.ty, infer_args(c, st, args, sig.inputs, 0))
            },
        },
        ExprM::Cast { expr, target } => {
            let r = infer_expr(c, st, *expr, None);
            if valid_cast(r.0, target) {
                (target, r.1)
            } else {
                (
                    Type::Unknown,
                    t_diag(
                        r.1,
                        err_m(
                            "E_TYPE003"@,
                            Phase::Type,
                            Some(e.id),
                            e.span,
                            "explicit cast is not valid for these types"@,
                            Some("numeric as::<"@ + type_text(target) + ">"@),
                            Some(type_text(r.0)),
                            "replace"@,
                            ty_patch(target),
                        ),
                    ),
                )
            }
        },
        ExprM::Ctor(ct) => match ct {
            CtorM::SomeOf(v) => match expected {
                Some(Type::Option(inner)) => {
                    let r = infer_expr(c, st, *v, Some(*inner));
                    (
                        Type::Option(inner),
                        expect_type(r.1, *inner, r.0, v.id, v.span, "Some payload type mismatch"@),
                    )
                },
                _ => {
                    let r = infer_expr(c, st, *v, None);
                    (Type::Option(Box::new(r.0)), r.1)
                },
            },
            CtorM::NoneOf => match expected {
                Some(Type::Option(inner)) => (Type::Option(inner), st),
                _ => (
                    Type::Unknown,
                    t_diag(
                        st,
                        err_m(
                            "E_TYPE005"@,
                            Phase::Type,
                            Some(e.id),
                            e.span,
                            "None requires Option<T> context"@,
                            Some("Option<T>"@),
                            Some("None without expected type"@),
                            "annotate_type"@,
                            "let value::Option<i32> = None"@,
                        ),
                    ),
                ),
            },
            CtorM::OkOf(v) => match expected {
                Some(Type::Result(ok, err)) => {
                    let r = infer_expr(c, st, *v, Some(*ok));
                    (
                        Type::Result(ok, err),
                        expect_type(r.1, *ok, r.0, v.id, v.span, "Ok payload type mismatch"@),
                    )
                },
                _ => {
                    let r = infer_expr(c, st, *v, None);
                    (Type::Result(Box::new(r.0), Box::new(Type::Unknown)), r.1)
                },
            },
            CtorM::ErrOf(v) => match expected {
                Some(Type::Result(ok, err)) => {
                    let r = infer_expr(c, st, *v, Some(*err));
                    (
                        Type::Result(ok, err),
                        expect_type(r.1, *err, r.0, v.id, v.span, "Err payload type mismatch"@),
                    )
                },
                _ => {
                    let r = infer_expr(c, st, *v, None);
                    (Type::Result(Box::new(Type::Unknown), Box::new(r.0)), r.1)
                },
            },
        },
    }
}

/// Checks the arguments of a call from argument `i` on against the
/// parameters' types.
pub open spec fn infer_args(
    c: TCtx,
    st: TSt,
    args: Seq<NodeM<ExprM>>,
    params: Seq<BindingM>,
    i: int,
) -> TSt
    decreases args, args.len() - i,
{
    if 0 <= i < args.len() && i < params.len() {
        let r = infer_expr(c, st, args[i], Some(params[i].ty));
        infer_args(
            c,
            expect_type(r.1, params[i].ty, r.0, args[i].id, args[i].span, "function argument type mismatch"@),
            args,
            params,
            i + 1,
        )
    } else {
        st
    }
}

/// The nesting depth of a nested block (it stops growing at the largest
/// machine word).
pub open spec fn inc(d: int) -> int {
    if d < usize::MAX {
        d + 1
    } else {
        d
    }
}

/// A guard's action: flow actions must be inside a loop, a return or an
/// assignment is checked like the statement of the same kind.
pub open spec fn check_action(
    c: TCtx,
    st: TSt,
    a: ActionM,
    output: BindingM,
    in_loop: bool,
    assigned: bool,
    node_id: Seq<char>,
    span: Span,
) -> (TSt, bool) {
    match a {
        ActionM::Return(e) => {
            let r = infer_expr(c, st, e, Some(output.ty));
            (
                expect_type(r.1, output.ty, r.0, e.id, e.span, "guard return type does not match @out binding"@),
                true,
            )
        },
        ActionM::SetAssign { target, value } => {
            let lk = lookup_by_name(st, target, node_id, span);
            let r = infer_expr(c, lk.1, value, lk.0);
            (
                match lk.0 {
                    Some(t) => expect_type(
                        r.1,
                        t,
                        r.0,
                        value.id,
                        value.span,
                        "guard assignment type does not match target binding"@,
                    ),
                    None => r.1,
                },
                assigned || target == output.name,
            )
        },
        _ => if !in_loop {
            (
                t_diag(
                    st,
                    err_m(
                        "E_FLOW001"@,
                        Phase::Resolve,
                        Some(node_id),
                        span,
                        "@continue and @break must be inside @loop"@,
                        Some("@loop ... @end loop"@),
                        Some("guard action outside loop"@),
                        "replace"@,
                        "return <expr>"@,
                    ),
                ),
                assigned,
            )
        } else {
            (st, assigned)
        },
    }
}

/// A block of statements at the given nesting depth; a block nested more
/// than three deep is reported at its first statement.
pub open spec fn check_block(
    c: TCtx,
    st: TSt,
    stmts: Seq<NodeM<StmtM>>,
    output: BindingM,
    depth: int,
    in_loop: bool,
    assigned: bool,
) -> (TSt, bool)
    decreases stmts, stmts.len() + 1,
{
    let st1 = if depth > 3 && stmts.len() > 0 {
        t_diag(
            st,
            err_m(
                "E_FLAT002"@,
                Phase::Resolve,
                Some(stmts[0].id),
                stmts[0].span,
                "static block nesting exceeds JapalityBean v1 maximum depth"@,
                Some("nesting depth <= 3"@),
                Some(dec_text(depth as nat)),
                "insert"@,
                "@func extracted_helper"@,
            ),
        )
    } else {
        st
    };
    check_stmts(c, st1, stmts, 0, output, depth, in_loop, assigned)
}

/// The statements of a block from statement `i` on.
pub open spec fn check_stmts(
    c: TCtx,
    st: TSt,
    stmts: Seq<NodeM<StmtM>>,
    i: int,
    output: BindingM,
    depth: int,
    in_loop: bool,
    assigned: bool,
) -> (TSt, bool)
    decreases stmts, stmts.len() - i,
{
    if 0 <= i < stmts.len() {
        let r = check_stmt(c, st, stmts[i], output, depth, in_loop, assigned);
        check_stmts(c, r.0, stmts, i + 1, output, depth, in_loop, r.1)
    } else {
        (st, assigned)
    }
}

/// One statement; the flag says whether the output has been assigned.
pub open spec fn check_stmt(
    c: TCtx,
    st: TSt,
    s: NodeM<StmtM>,
    output: BindingM,
    depth: int,
    in_loop: bool,
    assigned: bool,
) -> (TSt, bool)
    decreases s, 0int,
{
    match s.kind {
        StmtM::Let { binding, value } => {
            let r = infer_expr(c, st, value, Some(binding.ty));
            let st1 = expect_type(
                r.1,
                binding.ty,
                r.0,
                value.id,
                value.span,
                "sticky-type mismatch on let binding"@,
            );
            (declare(st1, binding, s.id, s.span), assigned)
        },
        StmtM::SetVar { target, value } => {
            let lk = lookup_by_name(st, target, s.id, s.span);
            let r = infer_expr(c, lk.1, value, lk.0);
            (
                match lk.0 {
                    Some(t) => expect_type(
                        r.1,
                        t,
                        r.0,
                        value.id,
                        value.span,
                        "assignment type does not match target binding"@,
                    ),
                    None => r.1,
                },
                assigned || target == output.name,
            )
        },
        StmtM::Return { value } => {
            let r = match value {
                Some(v) => infer_expr(c, st, v, Some(output.ty)),
                None => (Type::Unit, st),
            };
            (expect_type(r.1, output.ty, r.0, s.id, s.span, "return type does not match @out binding"@), true)
        },
        StmtM::Loop { item, collection, body, close_name } => {
            let lk = lookup_by_name(st, collection, s.id, s.span);
            let st1 = match lk.0 {
                Some(Type::Vector(inner)) => expect_type(
                    lk.1,
                    item.ty,
                    *inner,
                    s.id,
                    s.span,
                    "loop item type does not match collection element type"@,
                ),
                Some(other) => t_diag(
                    lk.1,
                    err_m(
                        "E_TYPE002"@,
                        Phase::Type,
                        Some(s.id),
                        s.span,
                        "loop collection must be Vector<T>"@,
                        Some("Vector<T>"@),
                        Some(type_text(other)),
                        "replace"@,
                        "Vector<"@ + type_text(item.ty) + ">"@,
                    ),
                ),
                None => lk.1,
            };
            let st2 = declare(TSt { scopes: st1.scopes.push(Seq::empty()), ..st1 }, item, s.id, s.span);
            let r = check_block(c, st2, body, output, inc(depth), true, assigned);
            (pop_scope(r.0), r.1)
        },
        StmtM::Condition { name, guard } => {
            let cond = guard.kind.cond;
            let r = infer_expr(c, st, cond, Some(Type::Bool));
            let st1 = expect_type(
                r.1,
                Type::Bool,
                r.0,
                cond.id,
                cond.span,
                "condition guard must evaluate to bool"@,
            );
            check_action(c, st1, guard.kind.action, output, in_loop, assigned, guard.id, guard.span)
        },
        StmtM::Expr(e) => (infer_expr(c, st, e, None).1, assigned),
    }
}

/// Declares the inputs from input `i` on.
pub open spec fn declare_inputs(st: TSt, ins: Seq<BindingM>, i: int, node_id: Seq<char>, span: Span) -> TSt
    decreases ins.len() - i,
{
    if 0 <= i < ins.len() {
        declare_inputs(declare(st, ins[i], node_id, span), ins, i + 1, node_id, span)
    } else {
        st
    }
}

/// Warns of every input from input `i` on that no lookup found.
pub open spec fn unused_inputs(st: TSt, ins: Seq<BindingM>, i: int, node_id: Seq<char>, span: Span) -> TSt
    decreases ins.len() - i,
{
    if 0 <= i < ins.len() {
        let st1 = if st.used.contains(ins[i].name) {
            st
        } else {
            t_diag(
                st,
                warn_m(
                    "W_INTENT002"@,
                    Phase::Resolve,
                    Some(node_id),
                    span,
                    "input declared in @in is never referenced"@,
                    Some("referenced input"@),
                    Some(ins[i].name),
                    "delete"@,
                    "@in "@ + ins[i].name + "::"@ + type_text(ins[i].ty),
                ),
            )
        };
        unused_inputs(st1, ins, i + 1, node_id, span)
    } else {
        st
    }
}

/// One function: a fresh scope with its inputs and output, its body, the
/// unused inputs, and whether the output is assigned.
pub open spec fn check_function(c: TCtx, st: TSt, f: NodeM<FuncM>) -> TSt {
    let st0 = TSt { diags: st.diags, scopes: seq![Seq::empty()], used: Seq::empty() };
    let st1 = declare_inputs(st0, f.kind.inputs, 0, f.id, f.span);
    let st2 = declare(st1, f.kind.output, f.id, f.span);
    let r = check_block(c, st2, f.kind.body, f.kind.output, 1, false, false);
    let st3 = unused_inputs(r.0, f.kind.inputs, 0, f.id, f.span);
    let st4 = if !r.1 && f.kind.output.ty != Type::Unit {
        t_diag(
            st3,
            err_m(
                "E_INTENT003"@,
                Phase::Resolve,
                Some(f.id),
                f.span,
                "@out binding is not assigned by set or return on the checked path"@,
                Some("set "@ + f.kind.output.name + " = <expr> or return <expr>"@),
                None,
                "insert"@,
                "set "@ + f.kind.output.name + " = <value>"@,
            ),
        )
    } else {
        st3
    };
    pop_scope(st4)
}

pub open spec fn bind(name: Seq<char>, ty: Type) -> BindingM {
    BindingM { name, ty }
}

pub open spec fn result_sig(inputs: Seq<BindingM>, out: Type) -> SigM {
    SigM { inputs, output: bind("result"@, out) }
}

/// The built-in functions.
pub open spec fn builtin_sigs() -> Seq<(Seq<char>, SigM)> {
    seq![
        ("debug_i32"@, result_sig(seq![bind("value"@, Type::I32)], Type::Unit)),
        ("debug_string"@, result_sig(seq![bind("value"@, Type::String)], Type::Unit)),
        ("abs_i32"@, result_sig(seq![bind("value"@, Type::I32)], Type::I32)),
        ("is_even_i32"@, result_sig(seq![bind("value"@, Type::I32)], Type::Bool)),
        ("max_i32"@, result_sig(seq![bind("left"@, Type::I32), bind("right"@, Type::I32)], Type::I32)),
        (
            "vector_len_i32"@,
            result_sig(seq![bind("items"@, Type::Vector(Box::new(Type::I32)))], Type::I64),
        ),
        (
            "vector_i32_3"@,
            result_sig(
                seq![bind("first"@, Type::I32), bind("second"@, Type::I32), bind("third"@, Type::I32)],
                Type::Vector(Box::new(Type::I32)),
            ),
        ),
    ]
}

/// The signatures of a program's functions, in order.
pub open spec fn sigs_of(funcs: Seq<NodeM<FuncM>>) -> Seq<(Seq<char>, SigM)> {
    Seq::new(
        funcs.len(),
        |i: int| (funcs[i].kind.name, SigM { inputs: funcs[i].kind.inputs, output: funcs[i].kind.output }),
    )
}

/// The index of the last of the first `n` functions named `name`.
pub open spec fn last_named(funcs: Seq<NodeM<FuncM>>, n: int, name: Seq<char>) -> Option<int>
    decreases n,
{
    if n <= 0 || n > funcs.len() {
        None
    } else if funcs[n - 1].kind.name == name {
        Some(n - 1)
    } else {
        last_named(funcs, n - 1, name)
    }
}

/// Reports every function, from function `i` on, that repeats the name of an
/// earlier one, with a warning at the most recent earlier one.
pub open spec fn dup_diags(funcs: Seq<NodeM<FuncM>>, i: int, diags: Seq<DiagM>) -> Seq<DiagM>
    decreases funcs.len() - i,
{
    if 0 <= i < funcs.len() {
        let f = funcs[i];
        let d = match last_named(funcs, i, f.kind.name) {
            Some(j) => diags.push(
                err_m(
                    "E_MOD001"@,
                    Phase::Resolve,
                    Some(f.id),
                    f.span,
                    "duplicate function name"@,
                    Some("unique function name"@),
                    Some(f.kind.name),
                    "rename"@,
                    "@func "@ + f.kind.name + "_2"@,
                ),
            ).push(
                warn_m(
                    "W_MOD001"@,
                    Phase::Resolve,
                    Some(funcs[j].id),
                    funcs[j].span,
                    "previous function definition with the same name"@,
                    None,
                    Some(funcs[j].kind.name),
                    "rename"@,
                    "@func "@ + funcs[j].kind.name + "_1"@,
                ),
            ),
            None => diags,
        };
        dup_diags(funcs, i + 1, d)
    } else {
        diags
    }
}

/// Checks the functions from function `i` on.
pub open spec fn funcs_loop(c: TCtx, st: TSt, funcs: Seq<NodeM<FuncM>>, i: int) -> TSt
    decreases funcs.len() - i,
{
    if 0 <= i < funcs.len() {
        funcs_loop(c, check_function(c, st, funcs[i]), funcs, i + 1)
    } else {
        st
    }
}

pub open spec fn check_ctx(funcs: Seq<NodeM<FuncM>>) -> TCtx {
    TCtx { funcs: builtin_sigs() + sigs_of(funcs) }
}

/// The diagnostics of checking a program: duplicate names first, then each
/// function in order.
pub open spec fn check_program_spec(funcs: Seq<NodeM<FuncM>>) -> Seq<DiagM> {
    let st = TSt { diags: dup_diags(funcs, 0, Seq::empty()), scopes: Seq::empty(), used: Seq::empty() };
    funcs_loop(check_ctx(funcs), st, funcs, 0).diags
}

// ---------------------------------------------------------------------------
// Checking only appends diagnostics; duplicate names are reported
// ---------------------------------------------------------------------------
proof fn lemma_grow_trans(a: Seq<DiagM>, b: Seq<DiagM>, c: Seq<DiagM>)
    requires
        diags_grow(a, b),
        diags_grow(b, c),
    ensures
        diags_grow(a, c),
{
    assert forall|k: int| 0 <= k < a.len() implies #[trigger] c[k] == a[k] by {
        assert(c[k] == b[k]);
    }
}

proof fn lemma_infer_expr_grow(c: TCtx, st: TSt, e: NodeM<ExprM>, expected: Option<Type>)
    ensures
        diags_grow(st.diags, infer_expr(c, st, e, expected).1.diags),
    decreases e, 0int,
{
    match e.kind {
        ExprM::Lit(l) => {},
        ExprM::Ident(name) => {},
        ExprM::Paren(inner) => lemma_infer_expr_grow(c, st, *inner, expected),
        ExprM::Unary { op, operand } => {
            let r = infer_expr(c, st, *operand, expected);
            lemma_infer_expr_grow(c, st, *operand, expected);
            lemma_grow_trans(st.diags, r.1.diags, infer_expr(c, st, e, expected).1.diags);
        },
        ExprM::Binary { op, lhs, rhs } => {
            let l = infer_expr(c, st, *lhs, operand_hint(op, None));
            lemma_infer_expr_grow(c, st, *lhs, operand_hint(op, None));
            let r = infer_expr(c, l.1, *rhs, operand_hint(op, Some(l.0)));
            lemma_infer_expr_grow(c, l.1, *rhs, operand_hint(op, Some(l.0)));
            lemma_grow_trans(st.diags, l.1.diags, r.1.diags);
            lemma_grow_trans(st.diags, r.1.diags, infer_expr(c, st, e, expected).1.diags);
        },
        ExprM::Call { callee, args } => match find_sig(c.funcs, callee, c.funcs.len() as int) {
            None => {},
            Some(sig) => if args.len() == sig.inputs.len() {
                lemma_infer_args_grow(c, st, args, sig.inputs, 0);
            },
        },
        ExprM::Cast { expr, target } => {
            let r = infer_expr(c, st, *expr, None);
            lemma_infer_expr_grow(c, st, *expr, None);
            lemma_grow_trans(st.diags, r.1.diags, infer_expr(c, st, e, expected).1.diags);
        },
        ExprM::Ctor(ct) => match ct {
            CtorM::SomeOf(v) => match expected {
                Some(Type::Option(inner)) => {
                    let r = infer_expr(c, st, *v, Some(*inner));
                    lemma_infer_expr_grow(c, st, *v, Some(*inner));
                    lemma_grow_trans(st.diags, r.1.diags, infer_expr(c, st, e, expected).1.diags);
                },
                _ => lemma_infer_expr_grow(c, st, *v, None),
            },
            CtorM::NoneOf => {},
            CtorM::OkOf(v) => match expected {
                Some(Type::Result(ok, err)) => {
                    let r = infer_expr(c, st, *v, Some(*ok));
                    lemma_infer_expr_grow(c, st, *v, Some(*ok));
                    lemma_grow_trans(st.diags, r.1.diags, infer_expr(c, st, e, expected).1.diags);
                },
                _ => lemma_infer_expr_grow(c, st, *v, None),
            },
            CtorM::ErrOf(v) => match expected {
                Some(Type::Result(ok, err)) => {
                    let r = infer_expr(c, st, *v, Some(*err));
                    lemma_infer_expr_grow(c, st, *v, Some(*err));
                    lemma_grow_trans(st.diags, r.1.diags, infer_expr(c, st, e, expected).1.diags);
                },
                _ => lemma_infer_expr_grow(c, st, *v, None),
            },
        },
    }
}

proof fn lemma_infer_args_grow(c: TCtx, st: TSt, args: Seq<NodeM<ExprM>>, params: Seq<BindingM>, i: int)
    ensures
        diags_grow(st.diags, infer_args(c, st, args, params, i).diags),
    decreases args, args.len() - i,
{
    if 0 <= i < args.len() && i < params.len() {
        let r = infer_expr(c, st, args[i], Some(params[i].ty));
        lemma_infer_expr_grow(c, st, args[i], Some(params[i].ty));
        let st1 = expect_type(r.1, params[i].ty, r.0, args[i].id, args[i].span, "function argument type mismatch"@);
        lemma_grow_trans(st.diags, r.1.diags, st1.diags);
        lemma_infer_args_grow(c, st1, args, params, i + 1);
        lemma_grow_trans(st.diags, st1.diags, infer_args(c, st, args, params, i).diags);
    }
}

proof fn lemma_check_action_grow(
    c: TCtx,
    st: TSt,
    a: ActionM,
    output: BindingM,
    in_loop: bool,
    assigned: bool,
    node_id: Seq<char>,
    span: Span,
)
    ensures
        diags_grow(st.diags, check_action(c, st, a, output, in_loop, assigned, node_id, span).0.diags),
{
    let res = check_action(c, st, a, output, in_loop, assigned, node_id, span).0.diags;
    match a {
        ActionM::Return(e) => {
            let r = infer_expr(c, st, e, Some(output.ty));
            lemma_infer_expr_grow(c, st, e, Some(output.ty));
            lemma_grow_trans(st.diags, r.1.diags, res);
        },
        ActionM::SetAssign { target, value } => {
            let lk = lookup_by_name(st, target, node_id, span);
            let r = infer_expr(c, lk.1, value, lk.0);
            lemma_infer_expr_grow(c, lk.1, value, lk.0);
            lemma_grow_trans(st.diags, lk.1.diags, r.1.diags);
            lemma_grow_trans(st.diags, r.1.diags, res);
        },
        _ => {},
    }
}

proof fn lemma_check_block_grow(
    c: TCtx,
    st: TSt,
    stmts: Seq<NodeM<StmtM>>,
    output: BindingM,
    depth: int,
    in_loop: bool,
    assigned: bool,
)
    ensures
        diags_grow(st.diags, check_block(c, st, stmts, output, depth, in_loop, assigned).0.diags),
    decreases stmts, stmts.len() + 1,
{
    let st1 = if depth > 3 && stmts.len() > 0 {
        t_diag(
            st,
            err_m(
                "E_FLAT002"@,
                Phase::Resolve,
                Some(stmts[0].id),
                stmts[0].span,
                "static block nesting exceeds JapalityBean v1 maximum depth"@,
                Some("nesting depth <= 3"@),
                Some(dec_text(depth as nat)),
                "insert"@,
                "@func extracted_helper"@,
            ),
        )
    } else {
        st
    };
    lemma_check_stmts_grow(c, st1, stmts, 0, output, depth, in_loop, assigned);
    lemma_grow_trans(st.diags, st1.diags, check_block(c, st, stmts, output, depth, in_loop, assigned).0.diags);
}

proof fn lemma_check_stmts_grow(
    c: TCtx,
    st: TSt,
    stmts: Seq<NodeM<StmtM>>,
    i: int,
    output: BindingM,
    depth: int,
    in_loop: bool,
    assigned: bool,
)
    ensures
        diags_grow(st.diags, check_stmts(c, st, stmts, i, output, depth, in_loop, assigned).0.diags),
    decreases stmts, stmts.len() - i,
{
    if 0 <= i < stmts.len() {
        let r = check_stmt(c, st, stmts[i], output, depth, in_loop, assigned);
        lemma_check_stmt_grow(c, st, stmts[i], output, depth, in_loop, assigned);
        lemma_check_stmts_grow(c, r.0, stmts, i + 1, output, depth, in_loop, r.1);
        lemma_grow_trans(
            st.diags,
            r.0.diags,
            check_stmts(c, st, stmts, i, output, depth, in_loop, assigned).0.diags,
        );
    }
}

proof fn lemma_check_stmt_grow(
    c: TCtx,
    st: TSt,
    s: NodeM<StmtM>,
    output: BindingM,
    depth: int,
    in_loop: bool,
    assigned: bool,
)
    ensures
        diags_grow(st.diags, check_stmt(c, st, s, output, depth, in_loop, assigned).0.diags),
    decreases s, 0int,
{
    let res = check_stmt(c, st, s, output, depth, in_loop, assigned).0.diags;
    match s.kind {
        StmtM::Let { binding, value } => {
            let r = infer_expr(c, st, value, Some(binding.ty));
            lemma_infer_expr_grow(c, st, value, Some(binding.ty));
            let st1 = expect_type(r.1, binding.ty, r.0, value.id, value.span, "sticky-type mismatch on let binding"@);
            lemma_grow_trans(st.diags, r.1.diags, st1.diags);
            lemma_grow_trans(st.diags, st1.diags, res);
        },
        StmtM::SetVar { target, value } => {
            let lk = lookup_by_name(st, target, s.id, s.span);
            let r = infer_expr(c, lk.1, value, lk.0);
            lemma_infer_expr_grow(c, lk.1, value, lk.0);
            lemma_grow_trans(st.diags, lk.1.diags, r.1.diags);
            lemma_grow_trans(st.diags, r.1.diags, res);
        },
        StmtM::Return { value } => {
            match value {
                Some(v) => {
                    let r = infer_expr(c, st, v, Some(output.ty));
                    lemma_infer_expr_grow(c, st, v, Some(output.ty));
                    lemma_grow_trans(st.diags, r.1.diags, res);
                },
                None => {},
            }
        },
        StmtM::Loop { item, collection, body, close_name } => {
            let lk = lookup_by_name(st, collection, s.id, s.span);
            let st1 = match lk.0 {
                Some(Type::Vector(inner)) => expect_type(
                    lk.1,
                    item.ty,
                    *inner,
                    s.id,
                    s.span,
                    "loop item type does not match collection element type"@,
                ),
                Some(other) => t_diag(
                    lk.1,
                    err_m(
                        "E_TYPE002"@,
                        Phase::Type,
                        Some(s.id),
                        s.span,
                        "loop collection must be Vector<T>"@,
                        Some("Vector<T>"@),
                        Some(type_text(other)),
                        "replace"@,
                        "Vector<"@ + type_text(item.ty) + ">"@,
                    ),
                ),
                None => lk.1,
            };
            lemma_grow_trans(st.diags, lk.1.diags, st1.diags);
            let st2 = declare(TSt { scopes: st1.scopes.push(Seq::empty()), ..st1 }, item, s.id, s.span);
            lemma_grow_trans(st.diags, st1.diags, st2.diags);
            lemma_check_block_grow(c, st2, body, output, inc(depth), true, assigned);
            lemma_grow_trans(
                st.diags,
                st2.diags,
                check_block(c, st2, body, output, inc(depth), true, assigned).0.diags,
            );
        },
        StmtM::Condition { name, guard } => {
            let cond = guard.kind.cond;
            let r = infer_expr(c, st, cond, Some(Type::Bool));
            lemma_infer_expr_grow(c, st, cond, Some(Type::Bool));
            let st1 = expect_type(r.1, Type::Bool, r.0, cond.id, cond.span, "condition guard must evaluate to bool"@);
            lemma_grow_trans(st.diags, r.1.diags, st1.diags);
            lemma_check_action_grow(c, st1, guard.kind.action, output, in_loop, assigned, guard.id, guard.span);
            lemma_grow_trans(st.diags, st1.diags, res);
        },
        StmtM::Expr(e) => lemma_infer_expr_grow(c, st, e, None),
    }
}

proof fn lemma_declare_inputs_grow(st: TSt, ins: Seq<BindingM>, i: int, node_id: Seq<char>, span: Span)
    ensures
        diags_grow(st.diags, declare_inputs(st, ins, i, node_id, span).diags),
    decreases ins.len() - i,
{
    if 0 <= i < ins.len() {
        let st1 = declare(st, ins[i], node_id, span);
        lemma_declare_inputs_grow(st1, ins, i + 1, node_id, span);
        lemma_grow_trans(st.diags, st1.diags, declare_inputs(st, ins, i, node_id, span).diags);
    }
}

proof fn lemma_unused_inputs_grow(st: TSt, ins: Seq<BindingM>, i: int, node_id: Seq<char>, span: Span)
    ensures
        diags_grow(st.diags, unused_inputs(st, ins, i, node_id, span).diags),
    decreases ins.len() - i,
{
    if 0 <= i < ins.len() {
        let st1 = if st.used.contains(ins[i].name) {
            st
        } else {
            t_diag(
                st,
                warn_m(
                    "W_INTENT002"@,
                    Phase::Resolve,
                    Some(node_id),
                    span,
                    "input declared in @in is never referenced"@,
                    Some("referenced input"@),
                    Some(ins[i].name),
                    "delete"@,
                    "@in "@ + ins[i].name + "::"@ + type_text(ins[i].ty),
                ),
            )
        };
        lemma_unused_inputs_grow(st1, ins, i + 1, node_id, span);
        lemma_grow_trans(st.diags, st1.diags, unused_inputs(st, ins, i, node_id, span).diags);
    }
}

proof fn lemma_check_function_grow(c: TCtx, st: TSt, f: NodeM<FuncM>)
    ensures
        diags_grow(st.diags, check_function(c, st, f).diags),
{
    let st0 = TSt { diags: st.diags, scopes: seq![Seq::empty()], used: Seq::empty() };
    let st1 = declare_inputs(st0, f.kind.inputs, 0, f.id, f.span);
    lemma_declare_inputs_grow(st0, f.kind.inputs, 0, f.id, f.span);
    let st2 = declare(st1, f.kind.output, f.id, f.span);
    lemma_grow_trans(st.diags, st1.diags, st2.diags);
    let r = check_block(c, st2, f.kind.body, f.kind.output, 1, false, false);
    lemma_check_block_grow(c, st2, f.kind.body, f.kind.output, 1, false, false);
    lemma_grow_trans(st.diags, st2.diags, r.0.diags);
    let st3 = unused_inputs(r.0, f.kind.inputs, 0, f.id, f.span);
    lemma_unused_inputs_grow(r.0, f.kind.inputs, 0, f.id, f.span);
    lemma_grow_trans(st.diags, r.0.diags, st3.diags);
    lemma_grow_trans(st.diags, st3.diags, check_function(c, st, f).diags);
}

proof fn lemma_funcs_loop_grow(c: TCtx, st: TSt, funcs: Seq<NodeM<FuncM>>, i: int)
    ensures
        diags_grow(st.diags, funcs_loop(c, st, funcs, i).diags),
    decreases funcs.len() - i,
{
    if 0 <= i < funcs.len() {
        let st1 = check_function(c, st, funcs[i]);
        lemma_check_function_grow(c, st, funcs[i]);
        lemma_funcs_loop_grow(c, st1, funcs, i + 1);
        lemma_grow_trans(st.diags, st1.diags, funcs_loop(c, st, funcs, i).diags);
    }
}

proof fn lemma_last_named_found_name(funcs: Seq<NodeM<FuncM>>, n: int, i: int, name: Seq<char>)
    requires
        0 <= i < n <= funcs.len(),
        funcs[i].kind.name == name,
    ensures
        last_named(funcs, n, name) is Some,
    decreases n,
{
    if funcs[n - 1].kind.name != name {
        lemma_last_named_found_name(funcs, n - 1, i, name);
    }
}

proof fn lemma_dup_diags_reports(funcs: Seq<NodeM<FuncM>>, i: int, diags: Seq<DiagM>, j: int, k: int)
    requires
        0 <= i,
        j < k < funcs.len(),
        0 <= j,
        funcs[j].kind.name == funcs[k].kind.name,
        i <= k || has_code(diags, "E_MOD001"@),
    ensures
        has_code(dup_diags(funcs, i, diags), "E_MOD001"@),
        diags_grow(diags, dup_diags(funcs, i, diags)),
    decreases funcs.len() - i,
{
    if 0 <= i < funcs.len() {
        let f = funcs[i];
        let d = match last_named(funcs, i, f.kind.name) {
            Some(jj) => diags.push(
                err_m(
                    "E_MOD001"@,
                    Phase::Resolve,
                    Some(f.id),
                    f.span,
                    "duplicate function name"@,
                    Some("unique function name"@),
                    Some(f.kind.name),
                    "rename"@,
                    "@func "@ + f.kind.name + "_2"@,
                ),
            ).push(
                warn_m(
                    "W_MOD001"@,
                    Phase::Resolve,
                    Some(funcs[jj].id),
                    funcs[jj].span,
                    "previous function definition with the same name"@,
                    None,
                    Some(funcs[jj].kind.name),
                    "rename"@,
                    "@func "@ + funcs[jj].kind.name + "_1"@,
                ),
            ),
            None => diags,
        };
        assert(diags_grow(diags, d));
        if i == k {
            lemma_last_named_found_name(funcs, k, j, f.kind.name);
            reveal_strlit("E_MOD001");
            assert(d[diags.len() as int].code == "E_MOD001"@);
        } else if has_code(diags, "E_MOD001"@) {
            lemma_has_code_grow(diags, d, "E_MOD001"@);
        }
        lemma_dup_diags_reports(funcs, i + 1, d, j, k);
        lemma_grow_trans(diags, d, dup_diags(funcs, i, diags));
    }
}

/// Duplicate function names are reported: when two functions of a program
/// have the same name, checking the program gives an `E_MOD001` error.
pub proof fn lemma_duplicate_names_reported(funcs: Seq<NodeM<FuncM>>, j: int, k: int)
    requires
        0 <= j < k < funcs.len(),
        funcs[j].kind.name == funcs[k].kind.name,
    ensures
        has_code(check_program_spec(funcs), "E_MOD001"@),
{
    let d0 = dup_diags(funcs, 0, Seq::empty());
    lemma_dup_diags_reports(funcs, 0, Seq::empty(), j, k);
    let st = TSt { diags: d0, scopes: Seq::empty(), used: Seq::empty() };
    lemma_funcs_loop_grow(check_ctx(funcs), st, funcs, 0);
    lemma_has_code_grow(d0, check_program_spec(funcs), "E_MOD001"@);
}

/// `!` takes a `bool` and gives a `bool`; on an operand of any other type
/// (an `i32` included) the checker adds one error `E_TYPE002` that expects
/// `bool` and names the operand's type, and the result is unknown.
pub proof fn lemma_not_requires_bool(c: TCtx, st: TSt, e: NodeM<ExprM>, operand: NodeM<ExprM>, expected: Option<Type>)
    requires
        e.kind == (ExprM::Unary { op: UnOp::Not, operand: Box::new(operand) }),
    ensures
        ({
            let r = infer_expr(c, st, operand, expected);
            let q = infer_expr(c, st, e, expected);
            &&& r.0 == Type::Bool ==> q.0 == Type::Bool && q.1.diags == r.1.diags
            &&& r.0 != Type::Bool ==> q.0 == Type::Unknown && q.1.diags.len() == r.1.diags.len() + 1
                && q.1.diags.subrange(0, r.1.diags.len() as int) == r.1.diags && q.1.diags.last().code
                == "E_TYPE002"@ && q.1.diags.last().severity == Severity::Error && q.1.diags.last().expected
                == Some("bool"@) && q.1.diags.last().actual == Some(type_text(r.0))
        }),
{
    let r = infer_expr(c, st, operand, expected);
    let q = infer_expr(c, st, e, expected);
    if r.0 != Type::Bool {
        assert(q.1.diags.subrange(0, r.1.diags.len() as int) =~= r.1.diags);
    }
}

/// Unary `-` takes a numeric operand and keeps its type; on any other
/// operand the checker adds one error `E_TYPE002` that expects a numeric
/// type, and the result is unknown.
pub proof fn lemma_neg_requires_numeric(c: TCtx, st: TSt, e: NodeM<ExprM>, operand: NodeM<ExprM>, expected: Option<Type>)
    requires
        e.kind == (ExprM::Unary { op: UnOp::Neg, operand: Box::new(operand) }),
    ensures
        ({
            let r = infer_expr(c, st, operand, expected);
            let q = infer_expr(c, st, e, expected);
            &&& type_is_numeric(r.0) ==> q.0 == r.0 && q.1.diags == r.1.diags
            &&& !type_is_numeric(r.0) ==> q.0 == Type::Unknown && q.1.diags.len() == r.1.diags.len() + 1
                && q.1.diags.subrange(0, r.1.diags.len() as int) == r.1.diags && q.1.diags.last().code
                == "E_TYPE002"@ && q.1.diags.last().severity == Severity::Error && q.1.diags.last().expected
                == Some("numeric"@) && q.1.diags.last().actual == Some(type_text(r.0))
        }),
{
    let r = infer_expr(c, st, operand, expected);
    let q = infer_expr(c, st, e, expected);
    if !type_is_numeric(r.0) {
        assert(q.1.diags.subrange(0, r.1.diags.len() as int) =~= r.1.diags);
    }
}

// ---------------------------------------------------------------------------
// Laws
// ---------------------------------------------------------------------------
/// No implicit numeric widening: where a value of one numeric type meets a
/// context that expects another, exactly one error `E_TYPE003` is added,
/// with the two types as expected and actual.
pub proof fn lemma_expect_rejects_widening(
    st: TSt,
    expected: Type,
    actual: Type,
    node_id: Seq<char>,
    span: Span,
    message: Seq<char>,
)
    requires
        type_is_numeric(expected),
        type_is_numeric(actual),
        expected != actual,
    ensures
        expect_type(st, expected, actual, node_id, span, message).diags == st.diags.push(
            err_m(
                "E_TYPE003"@,
                Phase::Type,
                Some(node_id),
                span,
                "implicit numeric widening is not allowed; use as::<T>"@,
                Some(type_text(expected)),
                Some(type_text(actual)),
                "replace"@,
                ty_patch(expected),
            ),
        ),
{
}

/// No implicit numeric widening in operators: arithmetic or comparison of
/// two different numeric types has the unknown type and adds exactly one
/// error `E_TYPE003`.
pub proof fn lemma_binary_rejects_widening(st: TSt, op: BinOp, left: Type, right: Type, node_id: Seq<char>, span: Span)
    requires
        type_is_numeric(left),
        type_is_numeric(right),
        left != right,
        !is_logic(op),
        !is_equality(op),
    ensures
        binary_result(st, op, left, right, node_id, span).0 == Type::Unknown,
        binary_result(st, op, left, right, node_id, span).1.diags.len() == st.diags.len() + 1,
        binary_result(st, op, left, right, node_id, span).1.diags.last().code == "E_TYPE003"@,
        binary_result(st, op, left, right, node_id, span).1.diags.last().severity == Severity::Error,
{
}

/// Agreeing types are accepted silently: a check of a type against itself,
/// or against the unknown type, adds nothing.
pub proof fn lemma_expect_accepts_same(st: TSt, t: Type, u: Type, node_id: Seq<char>, span: Span, message: Seq<char>)
    requires
        same_type(t, u),
    ensures
        expect_type(st, t, u, node_id, span, message) == st,
{
}

// ---------------------------------------------------------------------------
// Implementation
// ---------------------------------------------------------------------------
/// A function signature: its inputs and its output binding.
#[derive(Debug)]
pub struct FunctionSig {
    pub inputs: Vec<StickyBinding>,
    pub output: StickyBinding,
}

pub open spec fn sig_m(s: FunctionSig) -> SigM {
    SigM { inputs: bindings_m(s.inputs@), output: binding_m(s.output) }
}

/// The model of a signature table.
pub open spec fn table_m(v: Seq<(Vec<char>, FunctionSig)>) -> Seq<(Seq<char>, SigM)> {
    Seq::new(v.len(), |i: int| (v[i].0@, sig_m(v[i].1)))
}

pub open spec fn ctx_of(v: Seq<(Vec<char>, FunctionSig)>) -> TCtx {
    TCtx { funcs: table_m(v) }
}

pub open spec fn scope_m(s: Seq<(Vec<char>, Type)>) -> Seq<(Seq<char>, Type)> {
    Seq::new(s.len(), |i: int| (s[i].0@, s[i].1))
}

pub open spec fn scopes_m(v: Seq<Vec<(Vec<char>, Type)>>) -> Seq<Seq<(Seq<char>, Type)>> {
    Seq::new(v.len(), |i: int| scope_m(v[i]@))
}

pub open spec fn used_m(v: Seq<Vec<char>>) -> Seq<Seq<char>> {
    Seq::new(v.len(), |i: int| v[i]@)
}

pub open spec fn opt_ty(o: Option<&Type>) -> Option<Type> {
    match o {
        Some(t) => Some(*t),
        None => None,
    }
}

fn copy_binding(b: &StickyBinding) -> (r: StickyBinding)
    ensures
        binding_m(r) == binding_m(*b),
{
    StickyBinding { name: b.name.clone(), ty: copy_type(&b.ty) }
}

fn copy_bindings(v: &Vec<StickyBinding>) -> (r: Vec<StickyBinding>)
    ensures
        bindings_m(r@) == bindings_m(v@),
{
    let mut r: Vec<StickyBinding> = Vec::new();
    let mut i: usize = 0;
    while i < v.len()
        invariant
            i <= v@.len(),
            bindings_m(r@) == bindings_m(v@.subrange(0, i as int)),
        decreases v@.len() - i,
    {
        let b = copy_binding(&v[i]);
        proof {
            crate::ast::lemma_bindings_push(r@, b);
            assert(v@.subrange(0, i + 1) =~= v@.subrange(0, i as int).push(v@[i as int]));
            crate::ast::lemma_bindings_push(v@.subrange(0, i as int), v@[i as int]);
        }
        r.push(b);
        i = i + 1;
    }
    assert(v@.subrange(0, v@.len() as int) =~= v@);
    r
}

/// A binding of the built-in signatures.
fn binding(name: &str, ty: Type) -> (b: StickyBinding)
    ensures
        binding_m(b) == bind(name@, ty),
{
    StickyBinding { name: name.to_owned(), ty }
}

/// Adds one built-in signature to the table.
fn builtin(funcs: &mut Vec<(Vec<char>, FunctionSig)>, name: &str, inputs: Vec<StickyBinding>, output: StickyBinding)
    ensures
        table_m(final(funcs)@) == table_m(old(funcs)@).push(
            (name@, SigM { inputs: bindings_m(inputs@), output: binding_m(output) }),
        ),
{
    funcs.push((str_chars(name), FunctionSig { inputs, output }));
    assert(table_m(funcs@) =~= table_m(old(funcs)@).push(
        (name@, SigM { inputs: bindings_m(inputs@), output: binding_m(output) }),
    ));
}

proof fn lemma_bindings_of(v: Seq<StickyBinding>, m: Seq<BindingM>)
    requires
        v.len() == m.len(),
        forall|i: int| 0 <= i < v.len() ==> binding_m(#[trigger] v[i]) == m[i],
    ensures
        bindings_m(v) == m,
{
    assert(bindings_m(v) =~= m);
}

/// Adds the built-in functions to the table.
fn install_builtins(funcs: &mut Vec<(Vec<char>, FunctionSig)>)
    ensures
        table_m(final(funcs)@) == table_m(old(funcs)@) + builtin_sigs(),
{
    let ghost t0 = table_m(funcs@);
    let v1 = vec![binding("value", Type::I32)];
    proof { lemma_bindings_of(v1@, seq![bind("value"@, Type::I32)]); }
    builtin(funcs, "debug_i32", v1, binding("result", Type::Unit));
    let v2 = vec![binding("value", Type::String)];
    proof { lemma_bindings_of(v2@, seq![bind("value"@, Type::String)]); }
    builtin(funcs, "debug_string", v2, binding("result", Type::Unit));
    let v3 = vec![binding("value", Type::I32)];
    proof { lemma_bindings_of(v3@, seq![bind("value"@, Type::I32)]); }
    builtin(funcs, "abs_i32", v3, binding("result", Type::I32));
    let v4 = vec![binding("value", Type::I32)];
    proof { lemma_bindings_of(v4@, seq![bind("value"@, Type::I32)]); }
    builtin(funcs, "is_even_i32", v4, binding("result", Type::Bool));
    let v5 = vec![binding("left", Type::I32), binding("right", Type::I32)];
    proof { lemma_bindings_of(v5@, seq![bind("left"@, Type::I32), bind("right"@, Type::I32)]); }
    builtin(funcs, "max_i32", v5, binding("result", Type::I32));
    let v6 = vec![binding("items", Type::Vector(Box::new(Type::I32)))];
    proof { lemma_bindings_of(v6@, seq![bind("items"@, Type::Vector(Box::new(Type::I32)))]); }
    builtin(funcs, "vector_len_i32", v6, binding("result", Type::I64));
    let v7 = vec![binding("first", Type::I32), binding("second", Type::I32), binding("third", Type::I32)];
    proof {
        lemma_bindings_of(
            v7@,
            seq![bind("first"@, Type::I32), bind("second"@, Type::I32), bind("third"@, Type::I32)],
        );
    }
    builtin(funcs, "vector_i32_3", v7, binding("result", Type::Vector(Box::new(Type::I32))));
    assert(table_m(funcs@) =~= t0 + builtin_sigs());
}

/// The signature table of a program: the built-ins, then its functions.
fn new_table(program: &Program) -> (funcs: Vec<(Vec<char>, FunctionSig)>)
    ensures
        ctx_of(funcs@) == check_ctx(program_m(*program)),
{
    let mut funcs: Vec<(Vec<char>, FunctionSig)> = Vec::new();
    assert(table_m(funcs@) =~= Seq::empty());
    install_builtins(&mut funcs);
    let ghost fm = program_m(*program);
    let mut i: usize = 0;
    assert(builtin_sigs() + sigs_of(fm).subrange(0, 0) =~= Seq::empty() + builtin_sigs());
    while i < program.functions.len()
        invariant
            i <= program.functions@.len(),
            fm == program_m(*program),
            table_m(funcs@) == builtin_sigs() + sigs_of(fm).subrange(0, i as int),
        decreases program.functions@.len() - i,
    {
        let f = &program.functions[i];
        let sig = FunctionSig { inputs: copy_bindings(&f.kind.inputs), output: copy_binding(&f.kind.output) };
        let ghost before = funcs@;
        funcs.push((str_chars(f.kind.name.as_str()), sig));
        assert(fm[i as int] == crate::ast::func_m(program.functions@[i as int]));
        assert(table_m(funcs@) =~= table_m(before).push(sigs_of(fm)[i as int]));
        assert(sigs_of(fm).subrange(0, i + 1) =~= sigs_of(fm).subrange(0, i as int).push(sigs_of(fm)[i as int]));
        i = i + 1;
    }
    assert(sigs_of(fm).subrange(0, sigs_of(fm).len() as int) =~= sigs_of(fm));
    funcs
}

/// The index of the last signature named `name`.
fn find_sig_exec(funcs: &Vec<(Vec<char>, FunctionSig)>, name: &[char]) -> (r: Option<usize>)
    ensures
        match r {
            Some(k) => k < funcs@.len() && find_sig(table_m(funcs@), name@, funcs@.len() as int)
                == Some(sig_m(funcs@[k as int].1)),
            None => find_sig(table_m(funcs@), name@, funcs@.len() as int) is None,
        },
{
    let ghost t = table_m(funcs@);
    let mut k = funcs.len();
    while k > 0
        invariant
            k <= funcs@.len(),
            t == table_m(funcs@),
            find_sig(t, name@, k as int) == find_sig(t, name@, funcs@.len() as int),
        decreases k,
    {
        if chars_eq(funcs[k - 1].0.as_slice(), name) {
            return Some(k - 1);
        }
        k = k - 1;
    }
    None
}

fn same_type_exec(a: &Type, b: &Type) -> (r: bool)
    ensures
        r == same_type(*a, *b),
{
    type_eq(a, b) || matches!(a, Type::Unknown) || matches!(b, Type::Unknown)
}

fn is_valid_cast(source: &Type, target: &Type) -> (r: bool)
    ensures
        r == valid_cast(*source, *target),
{
    same_type_exec(source, target) || (source.is_numeric() && target.is_numeric())
}

fn is_wrapped_type(t: &Type) -> (r: bool)
    ensures
        r == is_wrapped(*t),
{
    matches!(t, Type::Option(_) | Type::Result(_, _))
}

/// `a` followed by the rendering of `t` and `b`.
fn type_in(a: &str, t: &Type, b: &str) -> (s: String)
    ensures
        s@ == a@ + type_text(*t) + b@,
{
    let mut v: Vec<char> = Vec::new();
    push_str(&mut v, a);
    write_type(&mut v, t);
    push_str(&mut v, b);
    assert(v@ =~= a@ + type_text(*t) + b@);
    chars_to_string(v.as_slice())
}

/// `a` followed by `name` and `b`.
fn name_in(a: &str, name: &[char], b: &str) -> (s: String)
    ensures
        s@ == a@ + name@ + b@,
{
    let mut v: Vec<char> = Vec::new();
    push_str(&mut v, a);
    push_chars(&mut v, name);
    push_str(&mut v, b);
    assert(v@ =~= a@ + name@ + b@);
    chars_to_string(v.as_slice())
}

/// `left, right`.
fn pair_string(l: &Type, r: &Type) -> (s: String)
    ensures
        s@ == pair_text(*l, *r),
{
    let mut v: Vec<char> = Vec::new();
    write_type(&mut v, l);
    push_str(&mut v, ", ");
    write_type(&mut v, r);
    assert(v@ =~= pair_text(*l, *r));
    chars_to_string(v.as_slice())
}

struct Checker {
    diags: Vec<Diagnostic>,
    scopes: Vec<Vec<(Vec<char>, Type)>>,
    used: Vec<Vec<char>>,
}

impl Checker {
    spec fn st(&self) -> TSt {
        TSt { diags: diags_m(self.diags@), scopes: scopes_m(self.scopes@), used: used_m(self.used@) }
    }

    fn error(
        &mut self,
        code: &str,
        phase: Phase,
        node_id: &String,
        span: Span,
        message: &str,
        expected: Option<String>,
        actual: Option<String>,
        strategy: &str,
        patch: String,
    )
        ensures
            final(self).st() == t_diag(
                old(self).st(),
                err_m(
                    code@,
                    phase,
                    Some(node_id@),
                    span,
                    message@,
                    crate::diag::opt_m(expected),
                    crate::diag::opt_m(actual),
                    strategy@,
                    patch@,
                ),
            ),
    {
        let d = Diagnostic::error(
            code,
            phase,
            Some(node_id.clone()),
            span,
            message,
            expected,
            actual,
            fix(strategy, patch),
        );
        proof {
            lemma_diags_push(self.diags@, d);
        }
        self.diags.push(d);
    }

    fn warning(
        &mut self,
        code: &str,
        node_id: &String,
        span: Span,
        message: &str,
        expected: Option<String>,
        actual: Option<String>,
        strategy: &str,
        patch: String,
    )
        ensures
            final(self).st() == t_diag(
                old(self).st(),
                warn_m(
                    code@,
                    Phase::Resolve,
                    Some(node_id@),
                    span,
                    message@,
                    crate::diag::opt_m(expected),
                    crate::diag::opt_m(actual),
                    strategy@,
                    patch@,
                ),
            ),
    {
        let d = Diagnostic::warning(
            code,
            Phase::Resolve,
            Some(node_id.clone()),
            span,
            message,
            expected,
            actual,
            fix(strategy, patch),
        );
        proof {
            lemma_diags_push(self.diags@, d);
        }
        self.diags.push(d);
    }

    fn push_scope(&mut self)
        ensures
            final(self).st() == (TSt { scopes: old(self).st().scopes.push(Seq::empty()), ..old(self).st() }),
    {
        let ghost before = self.scopes@;
        let fresh: Vec<(Vec<char>, Type)> = Vec::new();
        assert(scope_m(fresh@) =~= Seq::empty());
        self.scopes.push(fresh);
        assert(scopes_m(self.scopes@) =~= scopes_m(before).push(Seq::empty()));
    }

    fn pop_scope(&mut self)
        ensures
            final(self).st() == pop_scope(old(self).st()),
    {
        let ghost before = self.scopes@;
        if self.scopes.len() > 0 {
            let _ = self.scopes.pop();
            assert(scopes_m(self.scopes@) =~= scopes_m(before).drop_last());
        }
    }

    /// The index of the first entry of `scope` named `name`.
    fn scope_find(scope: &Vec<(Vec<char>, Type)>, name: &[char]) -> (r: Option<usize>)
        ensures
            match r {
                Some(k) => k < scope@.len() && scope_get(scope_m(scope@), name@, 0) == Some(scope@[k as int].1),
                None => scope_get(scope_m(scope@), name@, 0) is None,
            },
    {
        let ghost m = scope_m(scope@);
        let mut k: usize = 0;
        while k < scope.len()
            invariant
                k <= scope@.len(),
                m == scope_m(scope@),
                scope_get(m, name@, k as int) == scope_get(m, name@, 0),
            decreases scope@.len() - k,
        {
            if chars_eq(scope[k].0.as_slice(), name) {
                return Some(k);
            }
            k = k + 1;
        }
        None
    }

    fn lookup_by_name(&mut self, name: &[char], node_id: &String, span: Span) -> (r: Option<Type>)
        ensures
            (r, final(self).st()) == lookup_by_name(old(self).st(), name@, node_id@, span),
    {
        let ghost sm = self.st().scopes;
        let mut k = self.scopes.len();
        while k > 0
            invariant
                k <= self.scopes@.len(),
                self.st() == old(self).st(),
                sm == self.st().scopes,
                lookup_in(sm, name@, k as int) == lookup_in(sm, name@, sm.len() as int),
            decreases k,
        {
            match Checker::scope_find(&self.scopes[k - 1], name) {
                Some(j) => {
                    let t = copy_type(&self.scopes[k - 1][j].1);
                    let ghost before = self.used@;
                    self.used.push(copy_chars(name));
                    assert(used_m(self.used@) =~= used_m(before).push(name@));
                    return Some(t);
                },
                None => {},
            }
            k = k - 1;
        }
        self.error(
            "E_NAME001",
            Phase::Resolve,
            node_id,
            span,
            "unknown identifier",
            Some("declared binding".to_owned()),
            Some(chars_to_string(name)),
            "insert",
            name_in("let ", name, "::i32 = 0"),
        );
        None
    }

    fn declare(&mut self, b: &StickyBinding, node_id: &String, span: Span)
        ensures
            final(self).st() == declare(old(self).st(), binding_m(*b), node_id@, span),
    {
        let n = self.scopes.len();
        if n == 0 {
            return;
        }
        let name = str_chars(b.name.as_str());
        match Checker::scope_find(&self.scopes[n - 1], name.as_slice()) {
            Some(_) => {
                let mut patch: Vec<char> = Vec::new();
                push_chars(&mut patch, name.as_slice());
                push_str(&mut patch, "2::");
                write_type(&mut patch, &b.ty);
                assert(patch@ =~= b.name@ + "2::"@ + type_text(b.ty));
                self.error(
                    "E_NAME002",
                    Phase::Resolve,
                    node_id,
                    span,
                    "identifier redeclared in the same scope",
                    Some("unique binding name".to_owned()),
                    Some(b.name.clone()),
                    "rename",
                    chars_to_string(patch.as_slice()),
                );
            },
            None => {
                let ghost before = self.scopes@;
                let mut last = match self.scopes.pop() {
                    Some(l) => l,
                    None => Vec::new(),
                };
                let ghost lb = last@;
                last.push((name, copy_type(&b.ty)));
                assert(scope_m(last@) =~= scope_m(lb).push((b.name@, b.ty)));
                self.scopes.push(last);
                assert(scopes_m(self.scopes@) =~= scopes_m(before).update(
                    n - 1,
                    scopes_m(before).last().push((b.name@, b.ty)),
                ));
            },
        }
    }

    fn expect_type(&mut self, expected: &Type, actual: &Type, node_id: &String, span: Span, message: &str)
        ensures
            final(self).st() == expect_type(old(self).st(), *expected, *actual, node_id@, span, message@),
    {
        if matches!(expected, Type::Unknown) || matches!(actual, Type::Unknown) || same_type_exec(expected, actual) {
            return;
        }
        if expected.is_numeric() && actual.is_numeric() {
            self.error(
                "E_TYPE003",
                Phase::Type,
                node_id,
                span,
                "implicit numeric widening is not allowed; use as::<T>",
                Some(expected.to_text()),
                Some(actual.to_text()),
                "replace",
                type_in("<", expected, " expression>"),
            );
        } else {
            self.error(
                "E_TYPE002",
                Phase::Type,
                node_id,
                span,
                message,
                Some(expected.to_text()),
                Some(actual.to_text()),
                "replace",
                type_in("<", expected, " expression>"),
            );
        }
    }

    fn binary_result(&mut self, op: BinOp, left: Type, right: Type, node_id: &String, span: Span) -> (r: Type)
        ensures
            (r, final(self).st()) == binary_result(old(self).st(), op, left, right, node_id@, span),
    {
        let logic = matches!(op, BinOp::And | BinOp::Or);
        let arith = matches!(op, BinOp::Add | BinOp::Sub | BinOp::Mul | BinOp::Div | BinOp::Mod);
        let equality = matches!(op, BinOp::Eq | BinOp::Neq);
        if logic {
            if matches!(left, Type::Bool) && matches!(right, Type::Bool) {
                return Type::Bool;
            }
            self.error(
                "E_TYPE002",
                Phase::Type,
                node_id,
                span,
                "logical operands must be bool",
                Some("bool".to_owned()),
                Some(pair_string(&left, &right)),
                "replace",
                "true".to_owned(),
            );
            return Type::Unknown;
        }
        if is_wrapped_type(&left) || is_wrapped_type(&right) {
            if arith {
                self.error(
                    "E_TYPE004",
                    Phase::Type,
                    node_id,
                    span,
                    "wrapped Option/Result values cannot be used as arithmetic operands",
                    Some("unwrapped numeric value".to_owned()),
                    Some(pair_string(&left, &right)),
                    "replace",
                    "0".to_owned(),
                );
            } else if equality {
                self.error(
                    "E_TYPE004",
                    Phase::Type,
                    node_id,
                    span,
                    "wrapped Option/Result values cannot be compared without unwrapping",
                    Some("unwrapped value".to_owned()),
                    Some(pair_string(&left, &right)),
                    "replace",
                    "true".to_owned(),
                );
            } else {
                self.error(
                    "E_TYPE004",
                    Phase::Type,
                    node_id,
                    span,
                    "wrapped Option/Result values cannot be compared without unwrapping",
                    Some("unwrapped numeric value".to_owned()),
                    Some(pair_string(&left, &right)),
                    "replace",
                    "true".to_owned(),
                );
            }
            return Type::Unknown;
        }
        if equality {
            if same_type_exec(&left, &right) {
                return Type::Bool;
            }
            self.error(
                "E_TYPE002",
                Phase::Type,
                node_id,
                span,
                "equality operands must have the same type",
                Some(left.to_text()),
                Some(right.to_text()),
                "replace",
                "true".to_owned(),
            );
            return Type::Unknown;
        }
        let numeric = left.is_numeric() && right.is_numeric();
        if numeric && same_type_exec(&left, &right) {
            if arith {
                return left;
            }
            return Type::Bool;
        }
        if numeric {
            let mut exp: Vec<char> = Vec::new();
            write_type(&mut exp, &right);
            push_str(&mut exp, " as::<");
            write_type(&mut exp, &left);
            push_str(&mut exp, ">");
            assert(exp@ =~= type_text(right) + " as::<"@ + type_text(left) + ">"@);
            self.error(
                "E_TYPE003",
                Phase::Type,
                node_id,
                span,
                "implicit numeric widening is not allowed",
                Some(chars_to_string(exp.as_slice())),
                Some(pair_string(&left, &right)),
                "replace",
                type_in("<expr> as::<", &left, ">"),
            );
        } else if arith {
            self.error(
                "E_TYPE002",
                Phase::Type,
                node_id,
                span,
                "arithmetic operands must have the same numeric type",
                Some(left.to_text()),
                Some(right.to_text()),
                "replace",
                "0".to_owned(),
            );
        } else {
            self.error(
                "E_TYPE002",
                Phase::Type,
                node_id,
                span,
                "comparison operands must have the same numeric type",
                Some(left.to_text()),
                Some(right.to_text()),
                "replace",
                "true".to_owned(),
            );
        }
        Type::Unknown
    }

    fn unary_result(&mut self, op: UnOp, t: Type, node_id: &String, span: Span) -> (r: Type)
        ensures
            (r, final(self).st()) == unary_result(old(self).st(), op, t, node_id@, span),
    {
        match op {
            UnOp::Neg => {
                if t.is_numeric() {
                    return t;
                }
                self.error(
                    "E_TYPE002",
                    Phase::Type,
                    node_id,
                    span,
                    "unary - requires numeric operand",
                    Some("numeric".to_owned()),
                    Some(t.to_text()),
                    "replace",
                    "0".to_owned(),
                );
                Type::Unknown
            },
            UnOp::Not => {
                if matches!(t, Type::Bool) {
                    return Type::Bool;
                }
                self.error(
                    "E_TYPE002",
                    Phase::Type,
                    node_id,
                    span,
                    "unary ! requires bool operand",
                    Some("bool".to_owned()),
                    Some(t.to_text()),
                    "replace",
                    "true".to_owned(),
                );
                Type::Unknown
            },
        }
    }

    fn is_used(&self, name: &[char]) -> (r: bool)
        ensures
            r == self.st().used.contains(name@),
    {
        let mut k: usize = 0;
        while k < self.used.len()
            invariant
                k <= self.used@.len(),
                forall|j: int| 0 <= j < k ==> self.used@[j]@ != name@,
            decreases self.used@.len() - k,
        {
            if chars_eq(self.used[k].as_slice(), name) {
                assert(self.st().used[k as int] == name@);
                return true;
            }
            k = k + 1;
        }
        assert(!self.st().used.contains(name@)) by {
            if self.st().used.contains(name@) {
                let j = choose|j: int| 0 <= j < self.st().used.len() && self.st().used[j] == name@;
                assert(self.used@[j]@ == name@);
            }
        }
        false
    }

    /// The type of an expression, given the type its context expects.
    #[verifier::loop_isolation(false)]
    fn infer_expr(&mut self, c: &Vec<(Vec<char>, FunctionSig)>, e: &Node<Expr>, expected: Option<&Type>) -> (r: Type)
        ensures
            (r, final(self).st()) == infer_expr(ctx_of(c@), old(self).st(), expr_m(*e), opt_ty(expected)),
        decreases e,
    {
        match &e.kind {
            Expr::Lit(l) => match l {
                Literal::Int(_) => match expected {
                    Some(t) => if t.is_numeric() {
                        copy_type(t)
                    } else {
                        Type::I64
                    },
                    None => Type::I64,
                },
                Literal::Float(_) => match expected {
                    Some(t) => if matches!(t, Type::F32) {
                        Type::F32
                    } else {
                        Type::F64
                    },
                    None => Type::F64,
                },
                Literal::Str(_) => Type::String,
                Literal::Bool(_) => Type::Bool,
            },
            Expr::Ident(name) => {
                let n = str_chars(name.as_str());
                match self.lookup_by_name(n.as_slice(), &e.id, e.span) {
                    Some(t) => t,
                    None => Type::Unknown,
                }
            },
            Expr::Paren(inner) => self.infer_expr(c, inner, expected),
            Expr::Unary { op, operand } => {
                let t = self.infer_expr(c, operand, expected);
                self.unary_result(*op, t, &e.id, e.span)
            },
            Expr::Binary { op, lhs, rhs } => {
                let logic = matches!(op, BinOp::And | BinOp::Or);
                let boolean = Type::Bool;
                let left = if logic {
                    self.infer_expr(c, lhs, Some(&boolean))
                } else {
                    self.infer_expr(c, lhs, None)
                };
                let right = if logic {
                    self.infer_expr(c, rhs, Some(&boolean))
                } else {
                    self.infer_expr(c, rhs, Some(&left))
                };
                self.binary_result(*op, left, right, &e.id, e.span)
            },
            Expr::Call { callee, args } => {
                proof {
                    lemma_call_m(*callee, *args);
                }
                let cn = str_chars(callee.as_str());
                match find_sig_exec(c, cn.as_slice()) {
                    None => {
                        self.error(
                            "E_NAME001",
                            Phase::Resolve,
                            &e.id,
                            e.span,
                            "unknown function",
                            Some("declared @func".to_owned()),
                            Some(callee.clone()),
                            "insert",
                            name_after("@func ", cn.as_slice()),
                        );
                        Type::Unknown
                    },
                    Some(k) => {
                        let sig = &c[k].1;
                        if args.len() != sig.inputs.len() {
                            self.error(
                                "E_CALL001",
                                Phase::Type,
                                &e.id,
                                e.span,
                                "function argument count mismatch",
                                Some(usize_to_string(sig.inputs.len())),
                                Some(usize_to_string(args.len())),
                                "replace",
                                name_before(cn.as_slice(), "(...)"),
                            );
                            return copy_type(&sig.output.ty);
                        }
                        let ghost am = exprs_m(args@);
                        let ghost pm = bindings_m(sig.inputs@);
                        let ghost target = infer_args(ctx_of(c@), self.st(), am, pm, 0);
                        let mut i: usize = 0;
                        while i < args.len()
                            invariant
                                i <= args@.len(),
                                args@.len() == sig.inputs@.len(),
                                infer_args(ctx_of(c@), self.st(), am, pm, i as int) == target,
                            decreases args@.len() - i,
                        {
                            let a = &args[i];
                            let pt = &sig.inputs[i].ty;
                            assert(am[i as int] == expr_m(args@[i as int]));
                            assert(pm[i as int] == binding_m(sig.inputs@[i as int]));
                            let t = self.infer_expr(c, a, Some(pt));
                            self.expect_type(pt, &t, &a.id, a.span, "function argument type mismatch");
                            i = i + 1;
                        }
                        copy_type(&sig.output.ty)
                    },
                }
            },
            Expr::Cast { expr: inner, target } => {
                let source = self.infer_expr(c, inner, None);
                if is_valid_cast(&source, target) {
                    copy_type(target)
                } else {
                    self.error(
                        "E_TYPE003",
                        Phase::Type,
                        &e.id,
                        e.span,
                        "explicit cast is not valid for these types",
                        Some(type_in("numeric as::<", target, ">")),
                        Some(source.to_text()),
                        "replace",
                        type_in("<", target, " expression>"),
                    );
                    Type::Unknown
                }
            },
            Expr::Ctor(ct) => match ct {
                ConstructorExpr::SomeOf(v) => match expected {
                    Some(Type::Option(inner)) => {
                        let t = self.infer_expr(c, v, Some(&**inner));
                        self.expect_type(&**inner, &t, &v.id, v.span, "Some payload type mismatch");
                        Type::Option(Box::new(copy_type(&**inner)))
                    },
                    _ => {
                        let t = self.infer_expr(c, v, None);
                        Type::Option(Box::new(t))
                    },
                },
                ConstructorExpr::NoneOf => match expected {
                    Some(Type::Option(inner)) => Type::Option(Box::new(copy_type(&**inner))),
                    _ => {
                        self.error(
                            "E_TYPE005",
                            Phase::Type,
                            &e.id,
                            e.span,
                            "None requires Option<T> context",
                            Some("Option<T>".to_owned()),
                            Some("None without expected type".to_owned()),
                            "annotate_type",
                            "let value::Option<i32> = None".to_owned(),
                        );
                        Type::Unknown
                    },
                },
                ConstructorExpr::OkOf(v) => match expected {
                    Some(Type::Result(ok, err)) => {
                        let t = self.infer_expr(c, v, Some(&**ok));
                        self.expect_type(&**ok, &t, &v.id, v.span, "Ok payload type mismatch");
                        Type::Result(Box::new(copy_type(&**ok)), Box::new(copy_type(&**err)))
                    },
                    _ => {
                        let t = self.infer_expr(c, v, None);
                        Type::Result(Box::new(t), Box::new(Type::Unknown))
                    },
                },
                ConstructorExpr::ErrOf(v) => match expected {
                    Some(Type::Result(ok, err)) => {
                        let t = self.infer_expr(c, v, Some(&**err));
                        self.expect_type(&**err, &t, &v.id, v.span, "Err payload type mismatch");
                        Type::Result(Box::new(copy_type(&**ok)), Box::new(copy_type(&**err)))
                    },
                    _ => {
                        let t = self.infer_expr(c, v, None);
                        Type::Result(Box::new(Type::Unknown), Box::new(t))
                    },
                },
            },
        }
    }
}

/// `a` followed by `name`.
fn name_after(a: &str, name: &[char]) -> (s: String)
    ensures
        s@ == a@ + name@,
{
    let mut v: Vec<char> = Vec::new();
    push_str(&mut v, a);
    push_chars(&mut v, name);
    chars_to_string(v.as_slice())
}

/// `name` followed by `b`.
fn name_before(name: &[char], b: &str) -> (s: String)
    ensures
        s@ == name@ + b@,
{
    let mut v: Vec<char> = Vec::new();
    push_chars(&mut v, name);
    push_str(&mut v, b);
    chars_to_string(v.as_slice())
}

impl Checker {
    /// A guard's action.
    fn check_guard_action(
        &mut self,
        c: &Vec<(Vec<char>, FunctionSig)>,
        action: &GuardAction,
        output: &StickyBinding,
        in_loop: bool,
        assigned: &mut bool,
        node_id: &String,
        span: Span,
    )
        ensures
            (final(self).st(), *final(assigned)) == check_action(
                ctx_of(c@),
                old(self).st(),
                crate::ast::action_m(*action),
                binding_m(*output),
                in_loop,
                *old(assigned),
                node_id@,
                span,
            ),
    {
        match action {
            GuardAction::Continue | GuardAction::Break => {
                if !in_loop {
                    self.error(
                        "E_FLOW001",
                        Phase::Resolve,
                        node_id,
                        span,
                        "@continue and @break must be inside @loop",
                        Some("@loop ... @end loop".to_owned()),
                        Some("guard action outside loop".to_owned()),
                        "replace",
                        "return <expr>".to_owned(),
                    );
                }
            },
            GuardAction::Return(e) => {
                let t = self.infer_expr(c, e, Some(&output.ty));
                self.expect_type(&output.ty, &t, &e.id, e.span, "guard return type does not match @out binding");
                *assigned = true;
            },
            GuardAction::SetAssign { target, value } => {
                let tc = str_chars(target.as_str());
                let expected = self.lookup_by_name(tc.as_slice(), node_id, span);
                let t = match &expected {
                    Some(x) => self.infer_expr(c, value, Some(x)),
                    None => self.infer_expr(c, value, None),
                };
                match &expected {
                    Some(x) => self.expect_type(
                        x,
                        &t,
                        &value.id,
                        value.span,
                        "guard assignment type does not match target binding",
                    ),
                    None => {},
                }
                if *target == output.name {
                    *assigned = true;
                }
            },
        }
    }

    /// A block of statements at nesting depth `depth`.
    #[verifier::loop_isolation(false)]
    fn check_statements(
        &mut self,
        c: &Vec<(Vec<char>, FunctionSig)>,
        stmts: &Vec<Node<Statement>>,
        output: &StickyBinding,
        depth: usize,
        in_loop: bool,
        assigned: &mut bool,
    )
        ensures
            (final(self).st(), *final(assigned)) == check_block(
                ctx_of(c@),
                old(self).st(),
                stmts_m(stmts@),
                binding_m(*output),
                depth as int,
                in_loop,
                *old(assigned),
            ),
        decreases stmts,
    {
        let ghost sm = stmts_m(stmts@);
        if depth > 3 && stmts.len() > 0 {
            let first = &stmts[0];
            assert(sm[0] == stmt_m(stmts@[0]));
            self.error(
                "E_FLAT002",
                Phase::Resolve,
                &first.id,
                first.span,
                "static block nesting exceeds JapalityBean v1 maximum depth",
                Some("nesting depth <= 3".to_owned()),
                Some(usize_to_string(depth)),
                "insert",
                "@func extracted_helper".to_owned(),
            );
        }
        let ghost target = check_block(
            ctx_of(c@),
            old(self).st(),
            sm,
            binding_m(*output),
            depth as int,
            in_loop,
            *old(assigned),
        );
        let mut i: usize = 0;
        while i < stmts.len()
            invariant
                i <= stmts@.len(),
                check_stmts(ctx_of(c@), self.st(), sm, i as int, binding_m(*output), depth as int, in_loop, *assigned)
                    == target,
            decreases stmts@.len() - i,
        {
            assert(sm[i as int] == stmt_m(stmts@[i as int]));
            self.check_stmt(c, &stmts[i], output, depth, in_loop, assigned);
            i = i + 1;
        }
    }

    /// One statement.
    #[verifier::loop_isolation(false)]
    fn check_stmt(
        &mut self,
        c: &Vec<(Vec<char>, FunctionSig)>,
        s: &Node<Statement>,
        output: &StickyBinding,
        depth: usize,
        in_loop: bool,
        assigned: &mut bool,
    )
        ensures
            (final(self).st(), *final(assigned)) == check_stmt(
                ctx_of(c@),
                old(self).st(),
                stmt_m(*s),
                binding_m(*output),
                depth as int,
                in_loop,
                *old(assigned),
            ),
        decreases s,
    {
        match &s.kind {
            Statement::Let(l) => {
                let t = self.infer_expr(c, &l.value, Some(&l.binding.ty));
                self.expect_type(&l.binding.ty, &t, &l.value.id, l.value.span, "sticky-type mismatch on let binding");
                self.declare(&l.binding, &s.id, s.span);
            },
            Statement::SetVar(st) => {
                let tc = str_chars(st.target.as_str());
                let expected = self.lookup_by_name(tc.as_slice(), &s.id, s.span);
                let t = match &expected {
                    Some(x) => self.infer_expr(c, &st.value, Some(x)),
                    None => self.infer_expr(c, &st.value, None),
                };
                match &expected {
                    Some(x) => self.expect_type(
                        x,
                        &t,
                        &st.value.id,
                        st.value.span,
                        "assignment type does not match target binding",
                    ),
                    None => {},
                }
                if st.target == output.name {
                    *assigned = true;
                }
            },
            Statement::Return(r) => {
                let actual = match &r.value {
                    Some(v) => self.infer_expr(c, v, Some(&output.ty)),
                    None => Type::Unit,
                };
                self.expect_type(&output.ty, &actual, &s.id, s.span, "return type does not match @out binding");
                *assigned = true;
            },
            Statement::Loop(l) => {
                proof {
                    lemma_loop_m(*l);
                }
                let coll = str_chars(l.collection.as_str());
                let ct = self.lookup_by_name(coll.as_slice(), &s.id, s.span);
                match &ct {
                    Some(Type::Vector(inner)) => self.expect_type(
                        &l.item.ty,
                        &**inner,
                        &s.id,
                        s.span,
                        "loop item type does not match collection element type",
                    ),
                    Some(other) => self.error(
                        "E_TYPE002",
                        Phase::Type,
                        &s.id,
                        s.span,
                        "loop collection must be Vector<T>",
                        Some("Vector<T>".to_owned()),
                        Some(other.to_text()),
                        "replace",
                        type_in("Vector<", &l.item.ty, ">"),
                    ),
                    None => {},
                }
                self.push_scope();
                self.declare(&l.item, &s.id, s.span);
                let d2 = if depth < usize::MAX {
                    depth + 1
                } else {
                    depth
                };
                self.check_statements(c, &l.body, output, d2, true, assigned);
                self.pop_scope();
            },
            Statement::Condition(cb) => {
                let g = &cb.guard;
                let boolean = Type::Bool;
                let t = self.infer_expr(c, &g.kind.cond, Some(&boolean));
                self.expect_type(
                    &boolean,
                    &t,
                    &g.kind.cond.id,
                    g.kind.cond.span,
                    "condition guard must evaluate to bool",
                );
                self.check_guard_action(c, &g.kind.action, output, in_loop, assigned, &g.id, g.span);
            },
            Statement::Expr(ex) => {
                let _ = self.infer_expr(c, ex, None);
            },
        }
    }

    /// One function, in a fresh scope.
    #[verifier::loop_isolation(false)]
    fn check_function(&mut self, c: &Vec<(Vec<char>, FunctionSig)>, f: &Node<FunctionDecl>)
        ensures
            final(self).st() == check_function(ctx_of(c@), old(self).st(), func_m(*f)),
    {
        let ghost fm = func_m(*f);
        self.scopes = Vec::new();
        self.used = Vec::new();
        assert(scopes_m(self.scopes@) =~= Seq::empty());
        assert(used_m(self.used@) =~= Seq::empty());
        self.push_scope();
        let ghost st0 = self.st();
        assert(st0.scopes =~= seq![Seq::<(Seq<char>, Type)>::empty()]);
        assert(st0 == (TSt { diags: old(self).st().diags, scopes: seq![Seq::empty()], used: Seq::empty() }));
        let ghost target = declare_inputs(st0, fm.kind.inputs, 0, fm.id, fm.span);
        let mut i: usize = 0;
        while i < f.kind.inputs.len()
            invariant
                i <= f.kind.inputs@.len(),
                declare_inputs(self.st(), fm.kind.inputs, i as int, fm.id, fm.span) == target,
            decreases f.kind.inputs@.len() - i,
        {
            self.declare(&f.kind.inputs[i], &f.id, f.span);
            i = i + 1;
        }
        self.declare(&f.kind.output, &f.id, f.span);
        let mut assigned = false;
        self.check_statements(c, &f.kind.body, &f.kind.output, 1, false, &mut assigned);
        let ghost st3 = self.st();
        let ghost target3 = unused_inputs(st3, fm.kind.inputs, 0, fm.id, fm.span);
        let mut i: usize = 0;
        while i < f.kind.inputs.len()
            invariant
                i <= f.kind.inputs@.len(),
                self.st().used == st3.used,
                unused_inputs(self.st(), fm.kind.inputs, i as int, fm.id, fm.span) == target3,
            decreases f.kind.inputs@.len() - i,
        {
            let input = &f.kind.inputs[i];
            let nm = str_chars(input.name.as_str());
            if !self.is_used(nm.as_slice()) {
                let mut patch: Vec<char> = Vec::new();
                push_str(&mut patch, "@in ");
                push_chars(&mut patch, nm.as_slice());
                push_str(&mut patch, "::");
                write_type(&mut patch, &input.ty);
                assert(patch@ =~= "@in "@ + input.name@ + "::"@ + type_text(input.ty));
                self.warning(
                    "W_INTENT002",
                    &f.id,
                    f.span,
                    "input declared in @in is never referenced",
                    Some("referenced input".to_owned()),
                    Some(input.name.clone()),
                    "delete",
                    chars_to_string(patch.as_slice()),
                );
            }
            i = i + 1;
        }
        if !assigned && !matches!(f.kind.output.ty, Type::Unit) {
            let on = str_chars(f.kind.output.name.as_str());
            self.error(
                "E_INTENT003",
                Phase::Resolve,
                &f.id,
                f.span,
                "@out binding is not assigned by set or return on the checked path",
                Some(name_in("set ", on.as_slice(), " = <expr> or return <expr>")),
                None,
                "insert",
                name_in("set ", on.as_slice(), " = <value>"),
            );
        }
        self.pop_scope();
    }

    /// The duplicate-name diagnostics, then every function in order.
    #[verifier::loop_isolation(false)]
    fn check_program(&mut self, c: &Vec<(Vec<char>, FunctionSig)>, program: &Program)
        requires
            old(self).st() == (TSt { diags: Seq::empty(), scopes: Seq::empty(), used: Seq::empty() }),
            ctx_of(c@) == check_ctx(program_m(*program)),
        ensures
            diags_m(final(self).diags@) == check_program_spec(program_m(*program)),
    {
        let fs = &program.functions;
        let ghost fm = program_m(*program);
        let ghost dtarget = dup_diags(fm, 0, Seq::empty());
        let mut i: usize = 0;
        while i < fs.len()
            invariant
                i <= fs@.len(),
                self.st().scopes == Seq::<Seq<(Seq<char>, Type)>>::empty(),
                self.st().used == Seq::<Seq<char>>::empty(),
                dup_diags(fm, i as int, self.st().diags) == dtarget,
            decreases fs@.len() - i,
        {
            let f = &fs[i];
            assert(fm[i as int] == func_m(fs@[i as int]));
            match last_named_exec(fs, i, &f.kind.name) {
                Some(p) => {
                    let prev = &fs[p];
                    assert(fm[p as int] == func_m(fs@[p as int]));
                    let fname = str_chars(f.kind.name.as_str());
                    let pname = str_chars(prev.kind.name.as_str());
                    self.error(
                        "E_MOD001",
                        Phase::Resolve,
                        &f.id,
                        f.span,
                        "duplicate function name",
                        Some("unique function name".to_owned()),
                        Some(f.kind.name.clone()),
                        "rename",
                        name_in("@func ", fname.as_slice(), "_2"),
                    );
                    self.warning(
                        "W_MOD001",
                        &prev.id,
                        prev.span,
                        "previous function definition with the same name",
                        None,
                        Some(prev.kind.name.clone()),
                        "rename",
                        name_in("@func ", pname.as_slice(), "_1"),
                    );
                },
                None => {},
            }
            i = i + 1;
        }
        let ghost target = funcs_loop(ctx_of(c@), self.st(), fm, 0);
        let mut i: usize = 0;
        while i < fs.len()
            invariant
                i <= fs@.len(),
                funcs_loop(ctx_of(c@), self.st(), fm, i as int) == target,
            decreases fs@.len() - i,
        {
            assert(fm[i as int] == func_m(fs@[i as int]));
            self.check_function(c, &fs[i]);
            i = i + 1;
        }
    }
}

/// The index of the last of the first `n` functions named `name`.
fn last_named_exec(fs: &Vec<Node<FunctionDecl>>, n: usize, name: &String) -> (r: Option<usize>)
    requires
        n <= fs@.len(),
    ensures
        match r {
            Some(j) => j < n && last_named(funcs_m(fs@), n as int, name@) == Some(j as int),
            None => last_named(funcs_m(fs@), n as int, name@) is None,
        },
{
    let ghost fm = funcs_m(fs@);
    let mut j = n;
    while j > 0
        invariant
            j <= n,
            n <= fs@.len(),
            fm == funcs_m(fs@),
            last_named(fm, j as int, name@) == last_named(fm, n as int, name@),
        decreases j,
    {
        assert(fm[j - 1] == func_m(fs@[j - 1]));
        if fs[j - 1].kind.name == *name {
            return Some(j - 1);
        }
        j = j - 1;
    }
    None
}

/// Resolves names and checks the types of a program, returning the
/// diagnostics: duplicate function names, then each function's findings.
pub fn check_program(program: &Program) -> (diags: Vec<Diagnostic>)
    ensures
        diags_m(diags@) == check_program_spec(program_m(*program)),
{
    let c = new_table(program);
    let mut checker = Checker { diags: Vec::new(), scopes: Vec::new(), used: Vec::new() };
    assert(checker.st() == (TSt { diags: Seq::empty(), scopes: Seq::empty(), used: Seq::empty() })) by {
        assert(diags_m(checker.diags@) =~= Seq::empty());
        assert(scopes_m(checker.scopes@) =~= Seq::empty());
        assert(used_m(checker.used@) =~= Seq::empty());
    }
    checker.check_program(&c, program);
    checker.diags
}

} // verus!
