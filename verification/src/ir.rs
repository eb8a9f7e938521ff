//! Lowering of a checked program to LLVM text IR.
//!
//! Each function is lowered by a builder that allocates a stack slot for
//! every binding, numbers its temporaries `%t1, %t2, ...` and its labels, and
//! tracks whether the current block has been terminated. The behaviour is
//! specified by the spec functions of this module over the model of the
//! syntax tree: the text of `lower_program_to_ir` is `ir_program_text` of the
//! program's model.
use crate::ast::{
    binding_m, bindings_m, copy_type, expr_m, exprs_m, func_m, funcs_m, lemma_call_m, lemma_loop_m,
    program_m, stmt_m, stmts_m, type_eq, type_is_numeric, ActionM, BinOp, BindingM, ConstructorExpr,
    CtorM, Expr, ExprM, FuncM, FunctionDecl, GuardAction, LitM, Literal, Node, NodeM, Program,
    Statement, StickyBinding, StmtM, Type, UnOp,
};
use crate::expr::{bump_counter, next_counter};
use crate::typeck::opt_ty;
use crate::text::{
    chars_eq, chars_to_string, copy_chars, dec_text, int_text, push_chars, push_dec, push_int, push_str,
    str_chars,
};
use vstd::prelude::*;

verus! {

// ---------------------------------------------------------------------------
// Specification: types, names and instructions
// ---------------------------------------------------------------------------
/// The LLVM type of a language type.
pub open spec fn llvm_ty(t: Type) -> Seq<char>
    decreases t,
{
    match t {
        Type::I8 | Type::U8 => "i8"@,
        Type::I16 | Type::U16 => "i16"@,
        Type::I32 | Type::U32 => "i32"@,
        Type::I64 | Type::U64 => "i64"@,
        Type::F32 => "float"@,
        Type::F64 => "double"@,
        Type::Bool => "i1"@,
        Type::String => "{ i8*, i64 }"@,
        Type::Unit => "void"@,
        Type::Vector(inner) => "{ "@ + llvm_ty(*inner) + "*, i64, i64 }"@,
        Type::Option(inner) => "{ i1, "@ + llvm_ty(*inner) + " }"@,
        Type::Result(ok, err) => "{ i1, { "@ + llvm_ty(*ok) + ", "@ + llvm_ty(*err) + " } }"@,
        Type::Boxed(inner) => llvm_ty(*inner) + "*"@,
        Type::Unknown => "opaque"@,
    }
}

pub open spec fn is_ascii_alnum(c: char) -> bool {
    ('0' <= c && c <= '9') || ('a' <= c && c <= 'z') || ('A' <= c && c <= 'Z')
}

/// A character allowed in an LLVM local name, or `_` in its place.
pub open spec fn sanitize_char(c: char) -> char {
    if is_ascii_alnum(c) || c == '_' || c == '.' {
        c
    } else {
        '_'
    }
}

/// A name with every character outside `[A-Za-z0-9_.]` replaced by `_`.
pub open spec fn sanitize(s: Seq<char>) -> Seq<char> {
    Seq::new(s.len(), |i: int| sanitize_char(s[i]))
}

/// The symbol of a user function.
pub open spec fn mangle(name: Seq<char>) -> Seq<char> {
    "jb_"@ + sanitize(name)
}

pub open spec fn is_float(t: Type) -> bool {
    t == Type::F32 || t == Type::F64
}

/// The width in bits of a scalar type (64 for the others).
pub open spec fn bit_width(t: Type) -> int {
    match t {
        Type::I8 | Type::U8 => 8,
        Type::I16 | Type::U16 => 16,
        Type::I32 | Type::U32 | Type::F32 => 32,
        Type::I64 | Type::U64 | Type::F64 => 64,
        Type::Bool => 1,
        _ => 64,
    }
}

/// The conversion instruction between two numeric types.
pub open spec fn cast_instr(source: Type, target: Type) -> Seq<char> {
    if is_float(source) && is_float(target) {
        if bit_width(source) < bit_width(target) {
            "fpext"@
        } else {
            "fptrunc"@
        }
    } else if is_float(source) {
        "fptosi"@
    } else if is_float(target) {
        "sitofp"@
    } else if bit_width(source) < bit_width(target) {
        "sext"@
    } else {
        "trunc"@
    }
}

/// The instruction of an arithmetic operator on operands of type `t`.
pub open spec fn arith_instr(op: BinOp, t: Type) -> Seq<char> {
    if is_float(t) {
        match op {
            BinOp::Add => "fadd"@,
            BinOp::Sub => "fsub"@,
            BinOp::Mul => "fmul"@,
            BinOp::Div => "fdiv"@,
            _ => "frem"@,
        }
    } else {
        match op {
            BinOp::Add => "add"@,
            BinOp::Sub => "sub"@,
            BinOp::Mul => "mul"@,
            BinOp::Div => "sdiv"@,
            _ => "srem"@,
        }
    }
}

/// The instruction of a comparison on operands of type `t`.
pub open spec fn compare_instr(op: BinOp, t: Type) -> Seq<char> {
    if is_float(t) {
        match op {
            BinOp::Lt => "fcmp olt"@,
            BinOp::Le => "fcmp ole"@,
            BinOp::Gt => "fcmp ogt"@,
            BinOp::Ge => "fcmp oge"@,
            BinOp::Eq => "fcmp oeq"@,
            _ => "fcmp one"@,
        }
    } else {
        match op {
            BinOp::Lt => "icmp slt"@,
            BinOp::Le => "icmp sle"@,
            BinOp::Gt => "icmp sgt"@,
            BinOp::Ge => "icmp sge"@,
            BinOp::Eq => "icmp eq"@,
            _ => "icmp ne"@,
        }
    }
}

/// The zero constant of a type, as the entry wrapper passes it.
pub open spec fn zero_value(t: Type) -> Seq<char> {
    if t == Type::Bool || (type_is_numeric(t) && !is_float(t)) {
        "0"@
    } else if is_float(t) {
        "0.0"@
    } else {
        "zeroinitializer"@
    }
}

// ---------------------------------------------------------------------------
// Specification: the builder
// ---------------------------------------------------------------------------
/// A signature as the lowering sees it.
pub struct IrSigM {
    pub inputs: Seq<Type>,
    pub output: Type,
    pub builtin: bool,
}

/// The signature table, searched from the end.
pub struct ICtx {
    pub funcs: Seq<(Seq<char>, IrSigM)>,
}

/// The stack slot of a binding.
pub struct SlotM {
    pub ptr: Seq<char>,
    pub ty: Type,
}

/// A lowered value: its textual operand and its type.
pub struct ValueM {
    pub repr: Seq<char>,
    pub ty: Type,
}

/// The builder state: the text so far, the two counters, the scopes of
/// slots (innermost last), the enclosing loops' latch and exit labels, and
/// whether the current block has been terminated.
pub struct ISt {
    pub out: Seq<char>,
    pub temps: int,
    pub labels: int,
    pub vars: Seq<Seq<(Seq<char>, SlotM)>>,
    pub loops: Seq<(Seq<char>, Seq<char>)>,
    pub terminated: bool,
}

/// An instruction line: two spaces of indentation, the text, a newline.
pub open spec fn emit(st: ISt, l: Seq<char>) -> ISt {
    ISt { out: st.out + "  "@ + l + "\n"@, ..st }
}

pub open spec fn emit_label(st: ISt, name: Seq<char>) -> ISt {
    ISt { out: st.out + name + ":\n"@, ..st }
}

/// A fresh temporary `%tN`.
pub open spec fn temp(st: ISt) -> (Seq<char>, ISt) {
    let n = next_counter(st.temps);
    ("%t"@ + dec_text(n as nat), ISt { temps: n, ..st })
}

/// A fresh label `prefix.N`.
pub open spec fn fresh_label(st: ISt, prefix: Seq<char>) -> (Seq<char>, ISt) {
    let n = next_counter(st.labels);
    (sanitize(prefix) + "."@ + dec_text(n as nat), ISt { labels: n, ..st })
}

/// A stack slot named after `name`.
pub open spec fn alloca(st: ISt, name: Seq<char>, ty: Type) -> (Seq<char>, ISt) {
    let ptr = "%"@ + sanitize(name);
    (ptr, emit(st, ptr + " = alloca "@ + llvm_ty(ty)))
}

pub open spec fn i_push_scope(st: ISt) -> ISt {
    ISt { vars: st.vars.push(Seq::empty()), ..st }
}

pub open spec fn i_pop_scope(st: ISt) -> ISt {
    if st.vars.len() > 0 {
        ISt { vars: st.vars.drop_last(), ..st }
    } else {
        st
    }
}

/// Binds `name` to a slot in the innermost scope (a later binding of the
/// same name replaces an earlier one).
pub open spec fn i_declare(st: ISt, name: Seq<char>, ptr: Seq<char>, ty: Type) -> ISt {
    if st.vars.len() == 0 {
        st
    } else {
        ISt {
            vars: st.vars.update(st.vars.len() - 1, st.vars.last().push((name, SlotM { ptr, ty }))),
            ..st
        }
    }
}

/// The latest slot of `name` among the first `n` entries of a scope.
pub open spec fn slot_get(scope: Seq<(Seq<char>, SlotM)>, name: Seq<char>, n: int) -> Option<SlotM>
    decreases n,
{
    if n <= 0 || n > scope.len() {
        None
    } else if scope[n - 1].0 == name {
        Some(scope[n - 1].1)
    } else {
        slot_get(scope, name, n - 1)
    }
}

/// The slot of `name` in the first `n` scopes, innermost first.
pub open spec fn i_lookup(vars: Seq<Seq<(Seq<char>, SlotM)>>, name: Seq<char>, n: int) -> Option<SlotM>
    decreases n,
{
    if n <= 0 || n > vars.len() {
        None
    } else {
        match slot_get(vars[n - 1], name, vars[n - 1].len() as int) {
            Some(s) => Some(s),
            None => i_lookup(vars, name, n - 1),
        }
    }
}

pub open spec fn lookup_slot(st: ISt, name: Seq<char>) -> Option<SlotM> {
    i_lookup(st.vars, name, st.vars.len() as int)
}

/// Loads a value of type `ty` from `ptr` into a fresh temporary.
pub open spec fn load_ptr(st: ISt, ptr: Seq<char>, ty: Type) -> (ValueM, ISt) {
    let t = temp(st);
    (
        ValueM { repr: t.0, ty },
        emit(t.1, t.0 + " = load "@ + llvm_ty(ty) + ", "@ + llvm_ty(ty) + "* "@ + ptr),
    )
}

pub open spec fn store_line(ty: Type, val: Seq<char>, ptr: Seq<char>) -> Seq<char> {
    "store "@ + llvm_ty(ty) + " "@ + val + ", "@ + llvm_ty(ty) + "* "@ + ptr
}

/// Converts a value to the type of the slot it is stored in; only numeric
/// values of another LLVM type need an instruction.
pub open spec fn cast_for_store(st: ISt, v: ValueM, target: Type) -> (ValueM, ISt) {
    if v.ty == target || v.ty == Type::Unknown || target == Type::Unknown {
        (ValueM { repr: v.repr, ty: target }, st)
    } else if llvm_ty(v.ty) == llvm_ty(target) {
        (ValueM { repr: v.repr, ty: target }, st)
    } else if !(type_is_numeric(v.ty) && type_is_numeric(target)) {
        (v, st)
    } else {
        let t = temp(st);
        (
            ValueM { repr: t.0, ty: target },
            emit(
                t.1,
                t.0 + " = "@ + cast_instr(v.ty, target) + " "@ + llvm_ty(v.ty) + " "@ + v.repr + " to "@
                    + llvm_ty(target),
            ),
        )
    }
}

/// The value of a literal.
pub open spec fn lit_value(l: LitM, expected: Option<Type>) -> ValueM {
    match l {
        LitM::Int(v) => ValueM {
            repr: int_text(v as int),
            ty: match expected {
                Some(t) => if type_is_numeric(t) {
                    t
                } else {
                    Type::I64
                },
                None => Type::I64,
            },
        },
        LitM::Float(text) => ValueM {
            repr: text,
            ty: match expected {
                Some(t) => if is_float(t) {
                    t
                } else {
                    Type::F64
                },
                None => Type::F64,
            },
        },
        LitM::Bool(b) => ValueM {
            repr: if b {
                "1"@
            } else {
                "0"@
            },
            ty: Type::Bool,
        },
        LitM::Str(_) => ValueM { repr: "zeroinitializer"@, ty: Type::String },
    }
}

/// The last signature named `name` among the first `n` entries.
pub open spec fn find_isig(funcs: Seq<(Seq<char>, IrSigM)>, name: Seq<char>, n: int) -> Option<IrSigM>
    decreases n,
{
    if n <= 0 || n > funcs.len() {
        None
    } else if funcs[n - 1].0 == name {
        Some(funcs[n - 1].1)
    } else {
        find_isig(funcs, name, n - 1)
    }
}

/// The signature a call uses: the table's, or an empty one returning the
/// unknown type.
pub open spec fn call_sig(c: ICtx, name: Seq<char>) -> IrSigM {
    match find_isig(c.funcs, name, c.funcs.len() as int) {
        Some(s) => s,
        None => IrSigM { inputs: Seq::empty(), output: Type::Unknown, builtin: false },
    }
}

pub open spec fn callee_symbol(name: Seq<char>, sig: IrSigM) -> Seq<char> {
    if sig.builtin {
        name
    } else {
        mangle(name)
    }
}

/// The type a constructor lowers to: the expected wrapper, or unknown.
pub open spec fn ctor_type(ct: CtorM, expected: Option<Type>) -> Type {
    match expected {
        Some(Type::Option(inner)) => match ct {
            CtorM::SomeOf(_) | CtorM::NoneOf => Type::Option(inner),
            _ => Type::Unknown,
        },
        Some(Type::Result(ok, err)) => match ct {
            CtorM::OkOf(_) | CtorM::ErrOf(_) => Type::Result(ok, err),
            _ => Type::Unknown,
        },
        _ => Type::Unknown,
    }
}

/// Lowers an expression, given the type its context expects.
pub open spec fn lower_expr(c: ICtx, st: ISt, e: NodeM<ExprM>, expected: Option<Type>) -> (ValueM, ISt)
    decreases e, 0int,
{
    match e.kind {
        ExprM::Lit(l) => (lit_value(l, expected), st),
        ExprM::Ident(name) => match lookup_slot(st, name) {
            Some(slot) => load_ptr(st, slot.ptr, slot.ty),
            None => (ValueM { repr: "0"@, ty: Type::I64 }, st),
        },
        ExprM::Paren(inner) => lower_expr(c, st, *inner, expected),
        ExprM::Unary { op, operand } => {
            let v = lower_expr(c, st, *operand, expected);
            let t = temp(v.1);
            match op {
                UnOp::Neg => {
                    let fl = is_float(v.0.ty);
                    (
                        ValueM { repr: t.0, ty: v.0.ty },
                        emit(
                            t.1,
                            t.0 + " = "@ + (if fl {
                                "fsub"@
                            } else {
                                "sub"@
                            }) + " "@ + llvm_ty(v.0.ty) + " "@ + (if fl {
                                "0.0"@
                            } else {
                                "0"@
                            }) + ", "@ + v.0.repr,
                        ),
                    )
                },
                UnOp::Not => (
                    ValueM { repr: t.0, ty: Type::Bool },
                    emit(t.1, t.0 + " = xor i1 "@ + v.0.repr + ", 1"@),
                ),
            }
        },
        ExprM::Binary { op, lhs, rhs } => {
            let l = lower_expr(c, st, *lhs, expected);
            let r = lower_expr(c, l.1, *rhs, Some(l.0.ty));
            let t = temp(r.1);
            if op == BinOp::And || op == BinOp::Or {
                (
                    ValueM { repr: t.0, ty: Type::Bool },
                    emit(
                        t.1,
                        t.0 + " = "@ + (if op == BinOp::And {
                            "and"@
                        } else {
                            "or"@
                        }) + " i1 "@ + l.0.repr + ", "@ + r.0.repr,
                    ),
                )
            } else if op == BinOp::Add || op == BinOp::Sub || op == BinOp::Mul || op == BinOp::Div || op
                == BinOp::Mod {
                (
                    ValueM { repr: t.0, ty: l.0.ty },
                    emit(
                        t.1,
                        t.0 + " = "@ + arith_instr(op, l.0.ty) + " "@ + llvm_ty(l.0.ty) + " "@ + l.0.repr + ", "@
                            + r.0.repr,
                    ),
                )
            } else {
                (
                    ValueM { repr: t.0, ty: Type::Bool },
                    emit(
                        t.1,
                        t.0 + " = "@ + compare_instr(op, l.0.ty) + " "@ + llvm_ty(l.0.ty) + " "@ + l.0.repr
                            + ", "@ + r.0.repr,
                    ),
                )
            }
        },
        ExprM::Call { callee, args } => {
            let sig = call_sig(c, callee);
            let a = lower_args(c, st, args, sig.inputs, 0, Seq::empty());
            let sym = callee_symbol(callee, sig);
            if sig.output == Type::Unit {
                (
                    ValueM { repr: Seq::empty(), ty: Type::Unit },
                    emit(a.1, "call void @"@ + sym + "("@ + a.0 + ")"@),
                )
            } else {
                let t = temp(a.1);
                (
                    ValueM { repr: t.0, ty: sig.output },
                    emit(t.1, t.0 + " = call "@ + llvm_ty(sig.output) + " @"@ + sym + "("@ + a.0 + ")"@),
                )
            }
        },
        ExprM::Cast { expr, target } => {
            let v = lower_expr(c, st, *expr, None);
            cast_for_store(v.1, v.0, target)
        },
        ExprM::Ctor(ct) => (ValueM { repr: "zeroinitializer"@, ty: ctor_type(ct, expected) }, st),
    }
}

/// Lowers the arguments of a call from argument `i` on, joining the typed
/// operands with `, ` onto `acc`.
pub open spec fn lower_args(
    c: ICtx,
    st: ISt,
    args: Seq<NodeM<ExprM>>,
    inputs: Seq<Type>,
    i: int,
    acc: Seq<char>,
) -> (Seq<char>, ISt)
    decreases args, args.len() - i,
{
    if 0 <= i < args.len() {
        let v = lower_expr(
            c,
            st,
            args[i],
            if i < inputs.len() {
                Some(inputs[i])
            } else {
                None
            },
        );
        let item = llvm_ty(v.0.ty) + " "@ + v.0.repr;
        lower_args(
            c,
            v.1,
            args,
            inputs,
            i + 1,
            if i == 0 {
                item
            } else {
                acc + ", "@ + item
            },
        )
    } else {
        (acc, st)
    }
}

/// `ret` of a value of the output type (`ret void` for unit).
pub open spec fn ret_line(out_ty: Type, repr: Seq<char>) -> Seq<char> {
    if out_ty == Type::Unit {
        "ret void"@
    } else {
        "ret "@ + llvm_ty(out_ty) + " "@ + repr
    }
}

/// A guard's action; `next` is the label after the guard.
pub open spec fn lower_action(c: ICtx, st: ISt, a: ActionM, out_ty: Type, next: Seq<char>) -> ISt {
    match a {
        ActionM::Continue => emit(
            st,
            "br label %"@ + if st.loops.len() > 0 {
                st.loops.last().0
            } else {
                next
            },
        ),
        ActionM::Break => emit(
            st,
            "br label %"@ + if st.loops.len() > 0 {
                st.loops.last().1
            } else {
                next
            },
        ),
        ActionM::Return(e) => {
            let v = lower_expr(c, st, e, Some(out_ty));
            emit(v.1, ret_line(out_ty, v.0.repr))
        },
        ActionM::SetAssign { target, value } => {
            let st1 = match lookup_slot(st, target) {
                Some(slot) => {
                    let v = lower_expr(c, st, value, Some(slot.ty));
                    let cv = cast_for_store(v.1, v.0, slot.ty);
                    emit(cv.1, store_line(slot.ty, cv.0.repr, slot.ptr))
                },
                None => st,
            };
            emit(st1, "br label %"@ + next)
        },
    }
}

pub open spec fn pop_loop(st: ISt) -> ISt {
    if st.loops.len() > 0 {
        ISt { loops: st.loops.drop_last(), ..st }
    } else {
        st
    }
}

/// The statements of a block from statement `i` on; statements after a
/// terminator are skipped.
pub open spec fn lower_stmts(c: ICtx, st: ISt, stmts: Seq<NodeM<StmtM>>, i: int, out_ty: Type) -> ISt
    decreases stmts, stmts.len() - i,
{
    if 0 <= i < stmts.len() {
        let st1 = if !st.terminated {
            lower_stmt(c, st, stmts[i], out_ty)
        } else {
            st
        };
        lower_stmts(c, st1, stmts, i + 1, out_ty)
    } else {
        st
    }
}

/// A loop over a `Vector` binding: an index slot, a header that compares the
/// index with the length, a body that loads the element into the item's
/// slot, and a latch that increments the index.
pub open spec fn lower_loop(
    c: ICtx,
    st: ISt,
    item: BindingM,
    collection: SlotM,
    inner: Type,
    body: Seq<NodeM<StmtM>>,
    out_ty: Type,
) -> ISt
    decreases body, body.len() + 1,
{
    let a = alloca(st, item.name + ".idx"@, Type::I64);
    let st1 = emit(a.1, "store i64 0, i64* "@ + a.0);
    let h = fresh_label(st1, "loop.header"@);
    let b = fresh_label(h.1, "loop.body"@);
    let la = fresh_label(b.1, "loop.latch"@);
    let ex = fresh_label(la.1, "loop.exit"@);
    let st2 = emit_label(emit(ex.1, "br label %"@ + h.0), h.0);
    let idx = load_ptr(st2, a.0, Type::I64);
    let cv = load_ptr(idx.1, collection.ptr, collection.ty);
    let len = temp(cv.1);
    let st3 = emit(len.1, len.0 + " = extractvalue "@ + llvm_ty(collection.ty) + " "@ + cv.0.repr + ", 1"@);
    let cond = temp(st3);
    let st4 = emit(cond.1, cond.0 + " = icmp slt i64 "@ + idx.0.repr + ", "@ + len.0);
    let st5 = emit(st4, "br i1 "@ + cond.0 + ", label %"@ + b.0 + ", label %"@ + ex.0);
    let st6 = i_push_scope(emit_label(st5, b.0));
    let data = temp(st6);
    let st7 = emit(data.1, data.0 + " = extractvalue "@ + llvm_ty(collection.ty) + " "@ + cv.0.repr + ", 0"@);
    let ep = temp(st7);
    let st8 = emit(
        ep.1,
        ep.0 + " = getelementptr "@ + llvm_ty(inner) + ", "@ + llvm_ty(inner) + "* "@ + data.0 + ", i64 "@
            + idx.0.repr,
    );
    let el = temp(st8);
    let st9 = emit(el.1, el.0 + " = load "@ + llvm_ty(inner) + ", "@ + llvm_ty(inner) + "* "@ + ep.0);
    let ip = alloca(st9, item.name, item.ty);
    let st10 = emit(ip.1, store_line(item.ty, el.0, ip.0));
    let st11 = i_declare(st10, item.name, ip.0, item.ty);
    let st12 = ISt { loops: st11.loops.push((la.0, ex.0)), terminated: false, ..st11 };
    let st13 = lower_stmts(c, st12, body, 0, out_ty);
    let st14 = i_pop_scope(pop_loop(st13));
    let st15 = if !st14.terminated {
        emit(st14, "br label %"@ + la.0)
    } else {
        st14
    };
    let st16 = emit_label(ISt { terminated: false, ..st15 }, la.0);
    let nx = temp(st16);
    let st17 = emit(nx.1, nx.0 + " = add i64 "@ + idx.0.repr + ", 1"@);
    let st18 = emit(st17, "store i64 "@ + nx.0 + ", i64* "@ + a.0);
    let st19 = emit(st18, "br label %"@ + h.0);
    emit_label(st19, ex.0)
}

/// One statement.
pub open spec fn lower_stmt(c: ICtx, st: ISt, s: NodeM<StmtM>, out_ty: Type) -> ISt
    decreases s, 0int,
{
    match s.kind {
        StmtM::Let { binding, value } => {
            let v = lower_expr(c, st, value, Some(binding.ty));
            let a = alloca(v.1, binding.name, binding.ty);
            let cv = cast_for_store(a.1, v.0, binding.ty);
            i_declare(emit(cv.1, store_line(binding.ty, cv.0.repr, a.0)), binding.name, a.0, binding.ty)
        },
        StmtM::SetVar { target, value } => match lookup_slot(st, target) {
            Some(slot) => {
                let v = lower_expr(c, st, value, Some(slot.ty));
                let cv = cast_for_store(v.1, v.0, slot.ty);
                emit(cv.1, store_line(slot.ty, cv.0.repr, slot.ptr))
            },
            None => st,
        },
        StmtM::Return { value } => {
            let st1 = match value {
                Some(v) => {
                    let r = lower_expr(c, st, v, Some(out_ty));
                    emit(r.1, ret_line(out_ty, r.0.repr))
                },
                None => emit(st, "ret void"@),
            };
            ISt { terminated: true, ..st1 }
        },
        StmtM::Loop { item, collection, body, close_name } => match lookup_slot(st, collection) {
            Some(slot) => match slot.ty {
                Type::Vector(inner) => lower_loop(c, st, item, slot, *inner, body, out_ty),
                _ => st,
            },
            None => st,
        },
        StmtM::Condition { name, guard } => {
            let v = lower_expr(c, st, guard.kind.cond, Some(Type::Bool));
            let tk = fresh_label(v.1, "cond."@ + name + ".taken"@);
            let nx = fresh_label(tk.1, "cond."@ + name + ".next"@);
            let st1 = emit_label(
                emit(nx.1, "br i1 "@ + v.0.repr + ", label %"@ + tk.0 + ", label %"@ + nx.0),
                tk.0,
            );
            let st2 = lower_action(c, st1, guard.kind.action, out_ty, nx.0);
            ISt { terminated: false, ..emit_label(st2, nx.0) }
        },
        StmtM::Expr(e) => lower_expr(c, st, e, None).1,
    }
}

/// The parameter list `ty %name, ...` from input `i` on, onto `acc`.
pub open spec fn params_text(ins: Seq<BindingM>, i: int, acc: Seq<char>) -> Seq<char>
    decreases ins.len() - i,
{
    if 0 <= i < ins.len() {
        let item = llvm_ty(ins[i].ty) + " %"@ + ins[i].name;
        params_text(
            ins,
            i + 1,
            if i == 0 {
                item
            } else {
                acc + ", "@ + item
            },
        )
    } else {
        acc
    }
}

/// Spills the inputs from input `i` on into their slots.
pub open spec fn store_inputs(st: ISt, ins: Seq<BindingM>, i: int) -> ISt
    decreases ins.len() - i,
{
    if 0 <= i < ins.len() {
        let a = alloca(st, ins[i].name + ".addr"@, ins[i].ty);
        let st1 = emit(
            a.1,
            "store "@ + llvm_ty(ins[i].ty) + " %"@ + ins[i].name + ", "@ + llvm_ty(ins[i].ty) + "* "@ + a.0,
        );
        store_inputs(i_declare(st1, ins[i].name, a.0, ins[i].ty), ins, i + 1)
    } else {
        st
    }
}

pub open spec fn empty_builder() -> ISt {
    ISt { out: Seq::empty(), temps: 0, labels: 0, vars: Seq::empty(), loops: Seq::empty(), terminated: false }
}

/// The text of one function.
pub open spec fn lower_function(c: ICtx, f: FuncM) -> Seq<char> {
    let out = f.output;
    let st1 = emit(
        empty_builder(),
        "define internal "@ + llvm_ty(out.ty) + " @"@ + mangle(f.name) + "("@ + params_text(
            f.inputs,
            0,
            Seq::empty(),
        ) + ") {"@,
    );
    let st2 = i_push_scope(emit_label(st1, "entry"@));
    let st3 = store_inputs(st2, f.inputs, 0);
    let st4 = if out.ty != Type::Unit {
        let a = alloca(st3, out.name, out.ty);
        i_declare(a.1, out.name, a.0, out.ty)
    } else {
        st3
    };
    let st5 = lower_stmts(c, st4, f.body, 0, out.ty);
    let st6 = if st5.terminated {
        st5
    } else if out.ty == Type::Unit {
        emit(st5, "ret void"@)
    } else {
        match lookup_slot(st5, out.name) {
            Some(slot) => {
                let r = load_ptr(st5, slot.ptr, slot.ty);
                emit(r.1, "ret "@ + llvm_ty(r.0.ty) + " "@ + r.0.repr)
            },
            None => emit(st5, "ret "@ + llvm_ty(out.ty) + " zeroinitializer"@),
        }
    };
    emit(i_pop_scope(st6), "}"@).out
}

pub open spec fn builtin_isig(inputs: Seq<Type>, output: Type) -> IrSigM {
    IrSigM { inputs, output, builtin: true }
}

/// The runtime functions that calls lower to by their own names.
pub open spec fn ir_builtins() -> Seq<(Seq<char>, IrSigM)> {
    seq![
        ("debug_i32"@, builtin_isig(seq![Type::I32], Type::Unit)),
        ("debug_string"@, builtin_isig(seq![Type::String], Type::Unit)),
        ("abs_i32"@, builtin_isig(seq![Type::I32], Type::I32)),
        ("is_even_i32"@, builtin_isig(seq![Type::I32], Type::Bool)),
        ("max_i32"@, builtin_isig(seq![Type::I32, Type::I32], Type::I32)),
        ("vector_len_i32"@, builtin_isig(seq![Type::Vector(Box::new(Type::I32))], Type::I64)),
    ]
}

pub open spec fn input_types(ins: Seq<BindingM>) -> Seq<Type> {
    Seq::new(ins.len(), |i: int| ins[i].ty)
}

/// The signature table of a program: the runtime functions, then the
/// program's functions.
pub open spec fn ir_ctx(funcs: Seq<NodeM<FuncM>>) -> ICtx {
    ICtx {
        funcs: ir_builtins() + Seq::new(
            funcs.len(),
            |i: int|
                (
                    funcs[i].kind.name,
                    IrSigM {
                        inputs: input_types(funcs[i].kind.inputs),
                        output: funcs[i].kind.output.ty,
                        builtin: false,
                    },
                ),
        ),
    }
}

/// The module header: a comment and the runtime declarations.
pub open spec fn ir_header() -> Seq<char> {
    "; JapalityBean LLVM text IR\n"@ + "declare void @debug_i32(i32)\n"@
        + "declare void @debug_string({ i8*, i64 })\n"@ + "declare i32 @abs_i32(i32)\n"@
        + "declare i1 @is_even_i32(i32)\n"@ + "declare i32 @max_i32(i32, i32)\n"@
        + "declare i64 @vector_len_i32({ i32*, i64, i64 })\n\n"@
}

/// The texts of the functions from function `i` on, each followed by an
/// empty line.
pub open spec fn funcs_text(c: ICtx, funcs: Seq<NodeM<FuncM>>, i: int) -> Seq<char>
    decreases funcs.len() - i,
{
    if 0 <= i < funcs.len() {
        lower_function(c, funcs[i].kind) + "\n"@ + funcs_text(c, funcs, i + 1)
    } else {
        Seq::empty()
    }
}

/// The IR of a program without an entry wrapper.
pub open spec fn ir_program_text(funcs: Seq<NodeM<FuncM>>) -> Seq<char> {
    ir_header() + funcs_text(ir_ctx(funcs), funcs, 0)
}

/// The zero arguments of the entry call from input `i` on, onto `acc`.
pub open spec fn zero_args(ins: Seq<Type>, i: int, acc: Seq<char>) -> Seq<char>
    decreases ins.len() - i,
{
    if 0 <= i < ins.len() {
        let item = llvm_ty(ins[i]) + " "@ + zero_value(ins[i]);
        zero_args(
            ins,
            i + 1,
            if i == 0 {
                item
            } else {
                acc + ", "@ + item
            },
        )
    } else {
        acc
    }
}

/// The `main` of a Linux executable: calls the entry with zero arguments
/// and turns its result into the exit code.
pub open spec fn main_wrapper(entry: Seq<char>, sig: IrSigM) -> Seq<char> {
    let args = zero_args(sig.inputs, 0, Seq::empty());
    let call = if sig.output == Type::Unit {
        "  call void @"@ + mangle(entry) + "("@ + args + ")\n"@ + "  ret i32 0\n"@
    } else {
        "  %result = call "@ + llvm_ty(sig.output) + " @"@ + mangle(entry) + "("@ + args + ")\n"@ + match sig.output {
            Type::I32 | Type::U32 => "  ret i32 %result\n"@,
            Type::I8 | Type::U8 | Type::I16 | Type::U16 | Type::Bool => "  %exit_code = zext "@ + llvm_ty(
                sig.output,
            ) + " %result to i32\n"@ + "  ret i32 %exit_code\n"@,
            Type::I64 | Type::U64 => "  %exit_code = trunc i64 %result to i32\n"@ + "  ret i32 %exit_code\n"@,
            _ => "  ret i32 0\n"@,
        }
    };
    "define i32 @main() {\n"@ + "entry:\n"@ + call + "}\n"@
}

/// The entry's signature, when it names a function of the program.
pub open spec fn entry_sig(funcs: Seq<NodeM<FuncM>>, entry: Seq<char>) -> Option<IrSigM> {
    table_entry(ir_ctx(funcs), entry)
}

/// The signature of `entry` in a table, when it is not a runtime function.
pub open spec fn table_entry(c: ICtx, entry: Seq<char>) -> Option<IrSigM> {
    match find_isig(c.funcs, entry, c.funcs.len() as int) {
        Some(s) => if s.builtin {
            None
        } else {
            Some(s)
        },
        None => None,
    }
}

// ---------------------------------------------------------------------------
// Every function of a program is defined in its IR
// ---------------------------------------------------------------------------
/// `b` starts with `a`.
pub open spec fn text_grows(a: Seq<char>, b: Seq<char>) -> bool {
    &&& a.len() <= b.len()
    &&& forall|k: int| 0 <= k < a.len() ==> #[trigger] b[k] == a[k]
}

proof fn lemma_text_trans(a: Seq<char>, b: Seq<char>, c: Seq<char>)
    requires
        text_grows(a, b),
        text_grows(b, c),
    ensures
        text_grows(a, c),
{
    assert forall|k: int| 0 <= k < a.len() implies #[trigger] c[k] == a[k] by {
        assert(c[k] == b[k]);
    }
}

proof fn lemma_emit_grows(st: ISt, l: Seq<char>)
    ensures
        text_grows(st.out, emit(st, l).out),
        text_grows(st.out, emit_label(st, l).out),
{
    let a = emit(st, l).out;
    assert forall|k: int| 0 <= k < st.out.len() implies #[trigger] a[k] == st.out[k] by {
        assert(a == st.out + ("  "@ + l + "\n"@));
    }
    let b = emit_label(st, l).out;
    assert forall|k: int| 0 <= k < st.out.len() implies #[trigger] b[k] == st.out[k] by {
        assert(b == st.out + (l + ":\n"@));
    }
}

proof fn lemma_cast_for_store_grows(st: ISt, v: ValueM, target: Type)
    ensures
        text_grows(st.out, cast_for_store(st, v, target).1.out),
{
    lemma_emit_grows(temp(st).1, Seq::empty());
    if !(v.ty == target || v.ty == Type::Unknown || target == Type::Unknown) && llvm_ty(v.ty) != llvm_ty(
        target,
    ) && type_is_numeric(v.ty) && type_is_numeric(target) {
        let t = temp(st);
        lemma_emit_grows(
            t.1,
            t.0 + " = "@ + cast_instr(v.ty, target) + " "@ + llvm_ty(v.ty) + " "@ + v.repr + " to "@ + llvm_ty(
                target,
            ),
        );
    }
}

#[verifier::rlimit(60)]
proof fn lemma_lower_expr_grows(c: ICtx, st: ISt, e: NodeM<ExprM>, expected: Option<Type>)
    ensures
        text_grows(st.out, lower_expr(c, st, e, expected).1.out),
    decreases e, 0int,
{
    let res = lower_expr(c, st, e, expected).1;
    match e.kind {
        ExprM::Lit(l) => {},
        ExprM::Ident(name) => match lookup_slot(st, name) {
            Some(slot) => {
                let t = temp(st);
                lemma_emit_grows(t.1, t.0 + " = load "@ + llvm_ty(slot.ty) + ", "@ + llvm_ty(slot.ty) + "* "@ + slot.ptr);
            },
            None => {},
        },
        ExprM::Paren(inner) => lemma_lower_expr_grows(c, st, *inner, expected),
        ExprM::Unary { op, operand } => {
            let v = lower_expr(c, st, *operand, expected);
            lemma_lower_expr_grows(c, st, *operand, expected);
            let t = temp(v.1);
            assert(res.out.len() >= t.1.out.len() && forall|k: int|
                0 <= k < t.1.out.len() ==> #[trigger] res.out[k] == t.1.out[k]);
            lemma_text_trans(st.out, v.1.out, res.out);
        },
        ExprM::Binary { op, lhs, rhs } => {
            let l = lower_expr(c, st, *lhs, expected);
            lemma_lower_expr_grows(c, st, *lhs, expected);
            let r = lower_expr(c, l.1, *rhs, Some(l.0.ty));
            lemma_lower_expr_grows(c, l.1, *rhs, Some(l.0.ty));
            lemma_text_trans(st.out, l.1.out, r.1.out);
            let t = temp(r.1);
            assert(res.out.len() >= t.1.out.len() && forall|k: int|
                0 <= k < t.1.out.len() ==> #[trigger] res.out[k] == t.1.out[k]);
            lemma_text_trans(st.out, r.1.out, res.out);
        },
        ExprM::Call { callee, args } => {
            let sig = call_sig(c, callee);
            let a = lower_args(c, st, args, sig.inputs, 0, Seq::empty());
            lemma_lower_args_grows(c, st, args, sig.inputs, 0, Seq::empty());
            assert(res.out.len() >= a.1.out.len() && forall|k: int|
                0 <= k < a.1.out.len() ==> #[trigger] res.out[k] == a.1.out[k]);
            lemma_text_trans(st.out, a.1.out, res.out);
        },
        ExprM::Cast { expr, target } => {
            let v = lower_expr(c, st, *expr, None);
            lemma_lower_expr_grows(c, st, *expr, None);
            lemma_cast_for_store_grows(v.1, v.0, target);
            lemma_text_trans(st.out, v.1.out, res.out);
        },
        ExprM::Ctor(ct) => {},
    }
}

proof fn lemma_lower_args_grows(
    c: ICtx,
    st: ISt,
    args: Seq<NodeM<ExprM>>,
    inputs: Seq<Type>,
    i: int,
    acc: Seq<char>,
)
    ensures
        text_grows(st.out, lower_args(c, st, args, inputs, i, acc).1.out),
    decreases args, args.len() - i,
{
    if 0 <= i < args.len() {
        let exp = if i < inputs.len() {
            Some(inputs[i])
        } else {
            None
        };
        let v = lower_expr(c, st, args[i], exp);
        lemma_lower_expr_grows(c, st, args[i], exp);
        let item = llvm_ty(v.0.ty) + " "@ + v.0.repr;
        let acc2 = if i == 0 {
            item
        } else {
            acc + ", "@ + item
        };
        lemma_lower_args_grows(c, v.1, args, inputs, i + 1, acc2);
        lemma_text_trans(st.out, v.1.out, lower_args(c, st, args, inputs, i, acc).1.out);
    }
}

#[verifier::rlimit(60)]
proof fn lemma_lower_action_grows(c: ICtx, st: ISt, a: ActionM, out_ty: Type, next: Seq<char>)
    ensures
        text_grows(st.out, lower_action(c, st, a, out_ty, next).out),
{
    let res = lower_action(c, st, a, out_ty, next);
    match a {
        ActionM::Continue | ActionM::Break => {
            assert(res.out.len() >= st.out.len() && forall|k: int|
                0 <= k < st.out.len() ==> #[trigger] res.out[k] == st.out[k]);
        },
        ActionM::Return(e) => {
            let v = lower_expr(c, st, e, Some(out_ty));
            lemma_lower_expr_grows(c, st, e, Some(out_ty));
            lemma_emit_grows(v.1, ret_line(out_ty, v.0.repr));
            lemma_text_trans(st.out, v.1.out, res.out);
        },
        ActionM::SetAssign { target, value } => {
            let st1 = match lookup_slot(st, target) {
                Some(slot) => {
                    let v = lower_expr(c, st, value, Some(slot.ty));
                    let cv = cast_for_store(v.1, v.0, slot.ty);
                    emit(cv.1, store_line(slot.ty, cv.0.repr, slot.ptr))
                },
                None => st,
            };
            match lookup_slot(st, target) {
                Some(slot) => {
                    let v = lower_expr(c, st, value, Some(slot.ty));
                    lemma_lower_expr_grows(c, st, value, Some(slot.ty));
                    let cv = cast_for_store(v.1, v.0, slot.ty);
                    lemma_cast_for_store_grows(v.1, v.0, slot.ty);
                    lemma_text_trans(st.out, v.1.out, cv.1.out);
                    lemma_emit_grows(cv.1, store_line(slot.ty, cv.0.repr, slot.ptr));
                    lemma_text_trans(st.out, cv.1.out, st1.out);
                },
                None => {},
            }
            lemma_emit_grows(st1, "br label %"@ + next);
            lemma_text_trans(st.out, st1.out, res.out);
        },
    }
}

proof fn lemma_lower_stmts_grows(c: ICtx, st: ISt, stmts: Seq<NodeM<StmtM>>, i: int, out_ty: Type)
    ensures
        text_grows(st.out, lower_stmts(c, st, stmts, i, out_ty).out),
    decreases stmts, stmts.len() - i,
{
    if 0 <= i < stmts.len() {
        let st1 = if !st.terminated {
            lower_stmt(c, st, stmts[i], out_ty)
        } else {
            st
        };
        if !st.terminated {
            lemma_lower_stmt_grows(c, st, stmts[i], out_ty);
        }
        lemma_lower_stmts_grows(c, st1, stmts, i + 1, out_ty);
        lemma_text_trans(st.out, st1.out, lower_stmts(c, st, stmts, i, out_ty).out);
    }
}

#[verifier::rlimit(60)]
proof fn lemma_lower_loop_grows(
    c: ICtx,
    st: ISt,
    item: BindingM,
    collection: SlotM,
    inner: Type,
    body: Seq<NodeM<StmtM>>,
    out_ty: Type,
)
    ensures
        text_grows(st.out, lower_loop(c, st, item, collection, inner, body, out_ty).out),
    decreases body, body.len() + 1,
{
    let a = alloca(st, item.name + ".idx"@, Type::I64);
    let st1 = emit(a.1, "store i64 0, i64* "@ + a.0);
    let h = fresh_label(st1, "loop.header"@);
    let b = fresh_label(h.1, "loop.body"@);
    let la = fresh_label(b.1, "loop.latch"@);
    let ex = fresh_label(la.1, "loop.exit"@);
    let st2 = emit_label(emit(ex.1, "br label %"@ + h.0), h.0);
    let idx = load_ptr(st2, a.0, Type::I64);
    let cv = load_ptr(idx.1, collection.ptr, collection.ty);
    let len = temp(cv.1);
    let st3 = emit(len.1, len.0 + " = extractvalue "@ + llvm_ty(collection.ty) + " "@ + cv.0.repr + ", 1"@);
    let cond = temp(st3);
    let st4 = emit(cond.1, cond.0 + " = icmp slt i64 "@ + idx.0.repr + ", "@ + len.0);
    let st5 = emit(st4, "br i1 "@ + cond.0 + ", label %"@ + b.0 + ", label %"@ + ex.0);
    let st6 = i_push_scope(emit_label(st5, b.0));
    let data = temp(st6);
    let st7 = emit(data.1, data.0 + " = extractvalue "@ + llvm_ty(collection.ty) + " "@ + cv.0.repr + ", 0"@);
    let ep = temp(st7);
    let st8 = emit(
        ep.1,
        ep.0 + " = getelementptr "@ + llvm_ty(inner) + ", "@ + llvm_ty(inner) + "* "@ + data.0 + ", i64 "@
            + idx.0.repr,
    );
    let el = temp(st8);
    let st9 = emit(el.1, el.0 + " = load "@ + llvm_ty(inner) + ", "@ + llvm_ty(inner) + "* "@ + ep.0);
    let ip = alloca(st9, item.name, item.ty);
    let st10 = emit(ip.1, store_line(item.ty, el.0, ip.0));
    let st11 = i_declare(st10, item.name, ip.0, item.ty);
    let st12 = ISt { loops: st11.loops.push((la.0, ex.0)), terminated: false, ..st11 };
    lemma_emit_grows(st, a.0 + " = alloca "@ + llvm_ty(Type::I64));
    lemma_emit_grows(a.1, "store i64 0, i64* "@ + a.0);
    lemma_text_trans(st.out, a.1.out, st1.out);
    lemma_emit_grows(ex.1, "br label %"@ + h.0);
    lemma_emit_grows(emit(ex.1, "br label %"@ + h.0), h.0);
    lemma_text_trans(st.out, st1.out, emit(ex.1, "br label %"@ + h.0).out);
    lemma_text_trans(st.out, emit(ex.1, "br label %"@ + h.0).out, st2.out);
    let it = temp(st2);
    lemma_emit_grows(it.1, it.0 + " = load "@ + llvm_ty(Type::I64) + ", "@ + llvm_ty(Type::I64) + "* "@ + a.0);
    lemma_text_trans(st.out, st2.out, idx.1.out);
    let ct = temp(idx.1);
    lemma_emit_grows(
        ct.1,
        ct.0 + " = load "@ + llvm_ty(collection.ty) + ", "@ + llvm_ty(collection.ty) + "* "@ + collection.ptr,
    );
    lemma_text_trans(st.out, idx.1.out, cv.1.out);
    lemma_emit_grows(len.1, len.0 + " = extractvalue "@ + llvm_ty(collection.ty) + " "@ + cv.0.repr + ", 1"@);
    lemma_text_trans(st.out, cv.1.out, st3.out);
    lemma_emit_grows(cond.1, cond.0 + " = icmp slt i64 "@ + idx.0.repr + ", "@ + len.0);
    lemma_text_trans(st.out, st3.out, st4.out);
    lemma_emit_grows(st4, "br i1 "@ + cond.0 + ", label %"@ + b.0 + ", label %"@ + ex.0);
    lemma_text_trans(st.out, st4.out, st5.out);
    lemma_emit_grows(st5, b.0);
    lemma_text_trans(st.out, st5.out, st6.out);
    lemma_emit_grows(data.1, data.0 + " = extractvalue "@ + llvm_ty(collection.ty) + " "@ + cv.0.repr + ", 0"@);
    lemma_text_trans(st.out, st6.out, st7.out);
    lemma_emit_grows(
        ep.1,
        ep.0 + " = getelementptr "@ + llvm_ty(inner) + ", "@ + llvm_ty(inner) + "* "@ + data.0 + ", i64 "@
            + idx.0.repr,
    );
    lemma_text_trans(st.out, st7.out, st8.out);
    lemma_emit_grows(el.1, el.0 + " = load "@ + llvm_ty(inner) + ", "@ + llvm_ty(inner) + "* "@ + ep.0);
    lemma_text_trans(st.out, st8.out, st9.out);
    lemma_emit_grows(st9, ip.0 + " = alloca "@ + llvm_ty(item.ty));
    lemma_text_trans(st.out, st9.out, ip.1.out);
    lemma_emit_grows(ip.1, store_line(item.ty, el.0, ip.0));
    lemma_text_trans(st.out, ip.1.out, st10.out);
    let st13 = lower_stmts(c, st12, body, 0, out_ty);
    lemma_lower_stmts_grows(c, st12, body, 0, out_ty);
    lemma_text_trans(st.out, st12.out, st13.out);
    let st14 = i_pop_scope(pop_loop(st13));
    let st15 = if !st14.terminated {
        emit(st14, "br label %"@ + la.0)
    } else {
        st14
    };
    let st16 = emit_label(ISt { terminated: false, ..st15 }, la.0);
    let nx = temp(st16);
    let st17 = emit(nx.1, nx.0 + " = add i64 "@ + idx.0.repr + ", 1"@);
    let st18 = emit(st17, "store i64 "@ + nx.0 + ", i64* "@ + a.0);
    let st19 = emit(st18, "br label %"@ + h.0);
    let res = emit_label(st19, ex.0);
    if !st14.terminated {
        lemma_emit_grows(st14, "br label %"@ + la.0);
    }
    lemma_emit_grows(ISt { terminated: false, ..st15 }, la.0);
    lemma_text_trans(st13.out, st15.out, st16.out);
    lemma_emit_grows(nx.1, nx.0 + " = add i64 "@ + idx.0.repr + ", 1"@);
    lemma_text_trans(st13.out, st16.out, st17.out);
    lemma_emit_grows(st17, "store i64 "@ + nx.0 + ", i64* "@ + a.0);
    lemma_text_trans(st13.out, st17.out, st18.out);
    lemma_emit_grows(st18, "br label %"@ + h.0);
    lemma_text_trans(st13.out, st18.out, st19.out);
    lemma_emit_grows(st19, ex.0);
    lemma_text_trans(st13.out, st19.out, res.out);
    lemma_text_trans(st.out, st13.out, res.out);
}

#[verifier::rlimit(60)]
proof fn lemma_lower_stmt_grows(c: ICtx, st: ISt, s: NodeM<StmtM>, out_ty: Type)
    ensures
        text_grows(st.out, lower_stmt(c, st, s, out_ty).out),
    decreases s, 0int,
{
    let res = lower_stmt(c, st, s, out_ty);
    match s.kind {
        StmtM::Let { binding, value } => {
            let v = lower_expr(c, st, value, Some(binding.ty));
            lemma_lower_expr_grows(c, st, value, Some(binding.ty));
            let a = alloca(v.1, binding.name, binding.ty);
            lemma_emit_grows(v.1, a.0 + " = alloca "@ + llvm_ty(binding.ty));
            lemma_text_trans(st.out, v.1.out, a.1.out);
            let cv = cast_for_store(a.1, v.0, binding.ty);
            lemma_cast_for_store_grows(a.1, v.0, binding.ty);
            lemma_text_trans(st.out, a.1.out, cv.1.out);
            lemma_emit_grows(cv.1, store_line(binding.ty, cv.0.repr, a.0));
            lemma_text_trans(st.out, cv.1.out, res.out);
        },
        StmtM::SetVar { target, value } => match lookup_slot(st, target) {
            Some(slot) => {
                let v = lower_expr(c, st, value, Some(slot.ty));
                lemma_lower_expr_grows(c, st, value, Some(slot.ty));
                let cv = cast_for_store(v.1, v.0, slot.ty);
                lemma_cast_for_store_grows(v.1, v.0, slot.ty);
                lemma_text_trans(st.out, v.1.out, cv.1.out);
                lemma_emit_grows(cv.1, store_line(slot.ty, cv.0.repr, slot.ptr));
                lemma_text_trans(st.out, cv.1.out, res.out);
            },
            None => {},
        },
        StmtM::Return { value } => match value {
            Some(v) => {
                let r = lower_expr(c, st, v, Some(out_ty));
                lemma_lower_expr_grows(c, st, v, Some(out_ty));
                lemma_emit_grows(r.1, ret_line(out_ty, r.0.repr));
                lemma_text_trans(st.out, r.1.out, res.out);
            },
            None => lemma_emit_grows(st, "ret void"@),
        },
        StmtM::Loop { item, collection, body, close_name } => match lookup_slot(st, collection) {
            Some(slot) => match slot.ty {
                Type::Vector(inner) => lemma_lower_loop_grows(c, st, item, slot, *inner, body, out_ty),
                _ => {},
            },
            None => {},
        },
        StmtM::Condition { name, guard } => {
            let v = lower_expr(c, st, guard.kind.cond, Some(Type::Bool));
            lemma_lower_expr_grows(c, st, guard.kind.cond, Some(Type::Bool));
            let tk = fresh_label(v.1, "cond."@ + name + ".taken"@);
            let nx = fresh_label(tk.1, "cond."@ + name + ".next"@);
            let st1 = emit_label(
                emit(nx.1, "br i1 "@ + v.0.repr + ", label %"@ + tk.0 + ", label %"@ + nx.0),
                tk.0,
            );
            assert(text_grows(v.1.out, st1.out)) by {
                assert forall|k: int| 0 <= k < v.1.out.len() implies #[trigger] st1.out[k] == v.1.out[k] by {
                    assert(st1.out == v.1.out + st1.out.subrange(v.1.out.len() as int, st1.out.len() as int));
                }
            }
            lemma_text_trans(st.out, v.1.out, st1.out);
            let st2 = lower_action(c, st1, guard.kind.action, out_ty, nx.0);
            lemma_lower_action_grows(c, st1, guard.kind.action, out_ty, nx.0);
            lemma_text_trans(st.out, st1.out, st2.out);
            lemma_emit_grows(st2, nx.0);
            lemma_text_trans(st.out, st2.out, res.out);
        },
        StmtM::Expr(e) => lemma_lower_expr_grows(c, st, e, None),
    }
}

proof fn lemma_store_inputs_grows(st: ISt, ins: Seq<BindingM>, i: int)
    ensures
        text_grows(st.out, store_inputs(st, ins, i).out),
    decreases ins.len() - i,
{
    if 0 <= i < ins.len() {
        let a = alloca(st, ins[i].name + ".addr"@, ins[i].ty);
        let st1 = emit(
            a.1,
            "store "@ + llvm_ty(ins[i].ty) + " %"@ + ins[i].name + ", "@ + llvm_ty(ins[i].ty) + "* "@ + a.0,
        );
        assert(text_grows(st.out, st1.out)) by {
            assert forall|k: int| 0 <= k < st.out.len() implies #[trigger] st1.out[k] == st.out[k] by {
                assert(st1.out == st.out + st1.out.subrange(st.out.len() as int, st1.out.len() as int));
            }
        }
        let st2 = i_declare(st1, ins[i].name, a.0, ins[i].ty);
        lemma_store_inputs_grows(st2, ins, i + 1);
        lemma_text_trans(st.out, st2.out, store_inputs(st, ins, i).out);
    }
}

/// The line that opens the definition of a function: its output type, its
/// mangled name and the opening parenthesis of its parameters.
pub open spec fn define_line(f: FuncM) -> Seq<char> {
    "define internal "@ + llvm_ty(f.output.ty) + " @"@ + mangle(f.name) + "("@
}

proof fn lemma_lower_function_starts(c: ICtx, f: FuncM)
    ensures
        2 + define_line(f).len() <= lower_function(c, f).len(),
        lower_function(c, f).subrange(2, 2 + define_line(f).len() as int) == define_line(f),
{
    let out = f.output;
    let st1 = emit(
        empty_builder(),
        "define internal "@ + llvm_ty(out.ty) + " @"@ + mangle(f.name) + "("@ + params_text(
            f.inputs,
            0,
            Seq::empty(),
        ) + ") {"@,
    );
    let st2 = i_push_scope(emit_label(st1, "entry"@));
    lemma_emit_grows(st1, "entry"@);
    let st3 = store_inputs(st2, f.inputs, 0);
    lemma_store_inputs_grows(st2, f.inputs, 0);
    lemma_text_trans(st1.out, st2.out, st3.out);
    let st4 = if out.ty != Type::Unit {
        let a = alloca(st3, out.name, out.ty);
        i_declare(a.1, out.name, a.0, out.ty)
    } else {
        st3
    };
    if out.ty != Type::Unit {
        lemma_emit_grows(st3, "%"@ + sanitize(out.name) + " = alloca "@ + llvm_ty(out.ty));
    }
    lemma_text_trans(st1.out, st3.out, st4.out);
    let st5 = lower_stmts(c, st4, f.body, 0, out.ty);
    lemma_lower_stmts_grows(c, st4, f.body, 0, out.ty);
    lemma_text_trans(st1.out, st4.out, st5.out);
    let st6 = if st5.terminated {
        st5
    } else if out.ty == Type::Unit {
        emit(st5, "ret void"@)
    } else {
        match lookup_slot(st5, out.name) {
            Some(slot) => {
                let r = load_ptr(st5, slot.ptr, slot.ty);
                emit(r.1, "ret "@ + llvm_ty(r.0.ty) + " "@ + r.0.repr)
            },
            None => emit(st5, "ret "@ + llvm_ty(out.ty) + " zeroinitializer"@),
        }
    };
    assert(text_grows(st5.out, st6.out)) by {
        assert forall|k: int| 0 <= k < st5.out.len() implies #[trigger] st6.out[k] == st5.out[k] by {
            assert(st6.out == st5.out + st6.out.subrange(st5.out.len() as int, st6.out.len() as int));
        }
    }
    lemma_text_trans(st1.out, st5.out, st6.out);
    let fin = emit(i_pop_scope(st6), "}"@);
    lemma_emit_grows(i_pop_scope(st6), "}"@);
    lemma_text_trans(st1.out, st6.out, fin.out);
    let d = define_line(f);
    reveal_strlit("  ");
    assert(st1.out =~= "  "@ + d + (params_text(f.inputs, 0, Seq::empty()) + ") {"@ + "\n"@));
    assert(fin.out.subrange(2, 2 + d.len() as int) =~= d);
}

/// Where the text of function `k` starts in the texts of the functions from
/// function `i` on.
proof fn lemma_funcs_text_holds(c: ICtx, funcs: Seq<NodeM<FuncM>>, i: int, k: int) -> (p: int)
    requires
        0 <= i <= k < funcs.len(),
    ensures
        0 <= p,
        p + lower_function(c, funcs[k].kind).len() <= funcs_text(c, funcs, i).len(),
        funcs_text(c, funcs, i).subrange(p, p + lower_function(c, funcs[k].kind).len()) == lower_function(
            c,
            funcs[k].kind,
        ),
    decreases k - i,
{
    let head = lower_function(c, funcs[i].kind) + "\n"@;
    let t = funcs_text(c, funcs, i);
    assert(t == head + funcs_text(c, funcs, i + 1));
    if i == k {
        assert(t.subrange(0, lower_function(c, funcs[k].kind).len() as int) =~= lower_function(c, funcs[k].kind));
        0
    } else {
        let q = lemma_funcs_text_holds(c, funcs, i + 1, k);
        let l = lower_function(c, funcs[k].kind).len();
        assert(t.subrange(head.len() + q, head.len() + q + l) =~= funcs_text(c, funcs, i + 1).subrange(q, q + l));
        head.len() + q
    }
}

/// Every function of a program is defined in its LLVM IR: the text holds
/// the line that opens the definition, with the function's output type and
/// mangled name.
pub proof fn lemma_ir_defines_every_function(funcs: Seq<NodeM<FuncM>>, k: int)
    requires
        0 <= k < funcs.len(),
    ensures
        exists|p: int|
            0 <= p && p + define_line(funcs[k].kind).len() <= ir_program_text(funcs).len() && (
            #[trigger] ir_program_text(funcs).subrange(p, p + define_line(funcs[k].kind).len()))
                == define_line(funcs[k].kind),
{
    let c = ir_ctx(funcs);
    let f = funcs[k].kind;
    let q = lemma_funcs_text_holds(c, funcs, 0, k);
    lemma_lower_function_starts(c, f);
    let t = ir_program_text(funcs);
    let h = ir_header();
    let d = define_line(f);
    let p = h.len() + q + 2;
    assert(t == h + funcs_text(c, funcs, 0));
    assert(t.subrange(p, p + d.len()) =~= funcs_text(c, funcs, 0).subrange(q + 2, q + 2 + d.len()));
    assert(funcs_text(c, funcs, 0).subrange(q + 2, q + 2 + d.len()) =~= lower_function(c, f).subrange(2, 2 + d.len() as int));
}

// ---------------------------------------------------------------------------
// The integer instructions compute the language's operators
// ---------------------------------------------------------------------------
/// What an LLVM `icmp` predicate says of two signed integers (LLVM's
/// `eq`, `ne`, `slt`, `sle`, `sgt`, `sge`), or nothing for another text.
pub open spec fn icmp_holds(instr: Seq<char>, a: int, b: int) -> Option<bool> {
    if instr == "icmp eq"@ {
        Some(a == b)
    } else if instr == "icmp ne"@ {
        Some(a != b)
    } else if instr == "icmp slt"@ {
        Some(a < b)
    } else if instr == "icmp sle"@ {
        Some(a <= b)
    } else if instr == "icmp sgt"@ {
        Some(a > b)
    } else if instr == "icmp sge"@ {
        Some(a >= b)
    } else {
        None
    }
}

/// Division rounding toward zero.
pub open spec fn div_toward_zero(a: int, b: int) -> int {
    if (a >= 0) == (b > 0) || a == 0 {
        abs_int(a) / abs_int(b)
    } else {
        -(abs_int(a) / abs_int(b))
    }
}

pub open spec fn abs_int(a: int) -> int {
    if a < 0 {
        -a
    } else {
        a
    }
}

/// What an LLVM integer arithmetic instruction computes from two signed
/// integers before wrapping (LLVM's `add`, `sub`, `mul`, `sdiv`, `srem`), or
/// nothing for another text.
pub open spec fn int_arith_result(instr: Seq<char>, a: int, b: int) -> Option<int> {
    if instr == "add"@ {
        Some(a + b)
    } else if instr == "sub"@ {
        Some(a - b)
    } else if instr == "mul"@ {
        Some(a * b)
    } else if instr == "sdiv"@ {
        Some(div_toward_zero(a, b))
    } else if instr == "srem"@ {
        Some(a - b * div_toward_zero(a, b))
    } else {
        None
    }
}

/// The meaning of a comparison operator of the language.
pub open spec fn compares(op: BinOp, a: int, b: int) -> bool {
    match op {
        BinOp::Eq => a == b,
        BinOp::Neq => a != b,
        BinOp::Lt => a < b,
        BinOp::Le => a <= b,
        BinOp::Gt => a > b,
        _ => a >= b,
    }
}

/// The meaning of an arithmetic operator of the language on integers,
/// before wrapping: division rounds toward zero, and the remainder has the
/// sign of the dividend (`-7 % 2` is `-1`).
pub open spec fn computes(op: BinOp, a: int, b: int) -> int {
    match op {
        BinOp::Add => a + b,
        BinOp::Sub => a - b,
        BinOp::Mul => a * b,
        BinOp::Div => div_toward_zero(a, b),
        _ => if a >= 0 {
            abs_int(a) % abs_int(b)
        } else {
            -(abs_int(a) % abs_int(b))
        },
    }
}

proof fn lemma_ir_names()
    ensures
        "icmp eq"@ == seq!['i', 'c', 'm', 'p', ' ', 'e', 'q'],
        "icmp ne"@ == seq!['i', 'c', 'm', 'p', ' ', 'n', 'e'],
        "icmp slt"@ == seq!['i', 'c', 'm', 'p', ' ', 's', 'l', 't'],
        "icmp sle"@ == seq!['i', 'c', 'm', 'p', ' ', 's', 'l', 'e'],
        "icmp sgt"@ == seq!['i', 'c', 'm', 'p', ' ', 's', 'g', 't'],
        "icmp sge"@ == seq!['i', 'c', 'm', 'p', ' ', 's', 'g', 'e'],
        "add"@ == seq!['a', 'd', 'd'],
        "sub"@ == seq!['s', 'u', 'b'],
        "mul"@ == seq!['m', 'u', 'l'],
        "sdiv"@ == seq!['s', 'd', 'i', 'v'],
        "srem"@ == seq!['s', 'r', 'e', 'm'],
{
    reveal_strlit("icmp eq");
    reveal_strlit("icmp ne");
    reveal_strlit("icmp slt");
    reveal_strlit("icmp sle");
    reveal_strlit("icmp sgt");
    reveal_strlit("icmp sge");
    reveal_strlit("add");
    reveal_strlit("sub");
    reveal_strlit("mul");
    reveal_strlit("sdiv");
    reveal_strlit("srem");
}

/// On integer operands, the IR comparison of each comparison operator holds
/// exactly when the operator does: `<` is strict, `<=` is not, and so on.
pub proof fn lemma_ir_compare_meaning(op: BinOp, t: Type, a: int, b: int)
    requires
        op == BinOp::Eq || op == BinOp::Neq || op == BinOp::Lt || op == BinOp::Le || op == BinOp::Gt || op
            == BinOp::Ge,
        !is_float(t),
    ensures
        icmp_holds(compare_instr(op, t), a, b) == Some(compares(op, a, b)),
{
    lemma_ir_names();
}

/// On integer operands, the IR arithmetic instruction of each arithmetic
/// operator computes that operator.
pub proof fn lemma_ir_arith_meaning(op: BinOp, t: Type, a: int, b: int)
    requires
        op == BinOp::Add || op == BinOp::Sub || op == BinOp::Mul || op == BinOp::Div || op == BinOp::Mod,
        !is_float(t),
        b != 0,
    ensures
        int_arith_result(arith_instr(op, t), a, b) == Some(computes(op, a, b)),
{
    lemma_ir_names();
    if op == BinOp::Mod {
        lemma_rem_toward_zero(a, b);
    }
}

/// The remainder left by the division rounding toward zero has the sign of
/// the dividend and the size of the remainder of the sizes.
pub proof fn lemma_rem_toward_zero(a: int, b: int)
    requires
        b != 0,
    ensures
        a - b * div_toward_zero(a, b) == if a >= 0 {
            abs_int(a) % abs_int(b)
        } else {
            -(abs_int(a) % abs_int(b))
        },
{
    let x = abs_int(a);
    let y = abs_int(b);
    let q = x / y;
    let r = x % y;
    assert(x == q * y + r) by (nonlinear_arith)
        requires
            y > 0,
            q == x / y,
            r == x % y,
    ;
    if a >= 0 && b > 0 {
    } else if a >= 0 && b < 0 {
        assert(b * (-q) == q * y) by (nonlinear_arith)
            requires
                y == -b,
        ;
    } else if a < 0 && b > 0 {
        assert(b * (-q) == -(q * y)) by (nonlinear_arith)
            requires
                y == b,
        ;
    } else {
        assert(b * q == -(q * y)) by (nonlinear_arith)
            requires
                y == -b,
        ;
    }
}

// ---------------------------------------------------------------------------
// Implementation
// ---------------------------------------------------------------------------
/// Appends the LLVM type of `t`.
pub fn write_llvm_ty(out: &mut Vec<char>, t: &Type)
    ensures
        final(out)@ == old(out)@ + llvm_ty(*t),
    decreases t,
{
    match t {
        Type::I8 | Type::U8 => push_str(out, "i8"),
        Type::I16 | Type::U16 => push_str(out, "i16"),
        Type::I32 | Type::U32 => push_str(out, "i32"),
        Type::I64 | Type::U64 => push_str(out, "i64"),
        Type::F32 => push_str(out, "float"),
        Type::F64 => push_str(out, "double"),
        Type::Bool => push_str(out, "i1"),
        Type::String => push_str(out, "{ i8*, i64 }"),
        Type::Unit => push_str(out, "void"),
        Type::Vector(inner) => {
            push_str(out, "{ ");
            write_llvm_ty(out, inner);
            push_str(out, "*, i64, i64 }");
            assert(out@ =~= old(out)@ + llvm_ty(*t));
        },
        Type::Option(inner) => {
            push_str(out, "{ i1, ");
            write_llvm_ty(out, inner);
            push_str(out, " }");
            assert(out@ =~= old(out)@ + llvm_ty(*t));
        },
        Type::Result(ok, err) => {
            push_str(out, "{ i1, { ");
            write_llvm_ty(out, ok);
            push_str(out, ", ");
            write_llvm_ty(out, err);
            push_str(out, " } }");
            assert(out@ =~= old(out)@ + llvm_ty(*t));
        },
        Type::Boxed(inner) => {
            write_llvm_ty(out, inner);
            push_str(out, "*");
            assert(out@ =~= old(out)@ + llvm_ty(*t));
        },
        Type::Unknown => push_str(out, "opaque"),
    }
}

/// The LLVM type of `t` as a string.
pub fn llvm_type_string(t: &Type) -> (s: String)
    ensures
        s@ == llvm_ty(*t),
{
    let mut v: Vec<char> = Vec::new();
    write_llvm_ty(&mut v, t);
    assert(v@ =~= llvm_ty(*t));
    chars_to_string(v.as_slice())
}

fn llvm_ty_chars(t: &Type) -> (v: Vec<char>)
    ensures
        v@ == llvm_ty(*t),
{
    let mut v: Vec<char> = Vec::new();
    write_llvm_ty(&mut v, t);
    assert(v@ =~= llvm_ty(*t));
    v
}

/// Replaces every character outside `[A-Za-z0-9_.]` by `_`.
pub fn sanitize_chars(s: &[char]) -> (r: Vec<char>)
    ensures
        r@ == sanitize(s@),
{
    let mut r: Vec<char> = Vec::new();
    let mut i: usize = 0;
    while i < s.len()
        invariant
            i <= s@.len(),
            r@ == sanitize(s@).subrange(0, i as int),
        decreases s@.len() - i,
    {
        let ch = s[i];
        let keep = ('0' <= ch && ch <= '9') || ('a' <= ch && ch <= 'z') || ('A' <= ch && ch <= 'Z') || ch == '_'
            || ch == '.';
        if keep {
            r.push(ch);
        } else {
            r.push('_');
        }
        assert(r@ =~= sanitize(s@).subrange(0, i + 1));
        i = i + 1;
    }
    assert(sanitize(s@).subrange(0, s@.len() as int) =~= sanitize(s@));
    r
}

/// Replaces every character outside `[A-Za-z0-9_.]` by `_`.
pub fn sanitize_name(name: &str) -> (r: String)
    ensures
        r@ == sanitize(name@),
{
    let v = str_chars(name);
    let r = sanitize_chars(v.as_slice());
    chars_to_string(r.as_slice())
}

/// The symbol of a user function, `jb_` and the sanitized name.
pub fn mangle_user_func(name: &str) -> (r: String)
    ensures
        r@ == mangle(name@),
{
    let mut v: Vec<char> = Vec::new();
    push_str(&mut v, "jb_");
    let s = sanitize_chars(str_chars(name).as_slice());
    push_chars(&mut v, s.as_slice());
    chars_to_string(v.as_slice())
}

fn is_float_type(t: &Type) -> (r: bool)
    ensures
        r == is_float(*t),
{
    matches!(t, Type::F32 | Type::F64)
}

/// The width in bits of a scalar type (64 for the others).
pub fn bit_width_of(t: &Type) -> (w: u16)
    ensures
        w as int == bit_width(*t),
{
    match t {
        Type::I8 | Type::U8 => 8,
        Type::I16 | Type::U16 => 16,
        Type::I32 | Type::U32 | Type::F32 => 32,
        Type::I64 | Type::U64 | Type::F64 => 64,
        Type::Bool => 1,
        _ => 64,
    }
}

/// The conversion instruction between two numeric types.
pub fn cast_instr_of(source: &Type, target: &Type) -> (s: &'static str)
    ensures
        s@ == cast_instr(*source, *target),
{
    let sf = is_float_type(source);
    let tf = is_float_type(target);
    if sf && tf {
        if bit_width_of(source) < bit_width_of(target) {
            "fpext"
        } else {
            "fptrunc"
        }
    } else if sf {
        "fptosi"
    } else if tf {
        "sitofp"
    } else if bit_width_of(source) < bit_width_of(target) {
        "sext"
    } else {
        "trunc"
    }
}

/// The instruction of an arithmetic operator on operands of type `t`.
pub fn arithmetic_instr(op: BinOp, t: &Type) -> (s: &'static str)
    ensures
        s@ == arith_instr(op, *t),
{
    if is_float_type(t) {
        match op {
            BinOp::Add => "fadd",
            BinOp::Sub => "fsub",
            BinOp::Mul => "fmul",
            BinOp::Div => "fdiv",
            _ => "frem",
        }
    } else {
        match op {
            BinOp::Add => "add",
            BinOp::Sub => "sub",
            BinOp::Mul => "mul",
            BinOp::Div => "sdiv",
            _ => "srem",
        }
    }
}

/// The instruction of a comparison on operands of type `t`.
pub fn compare_instr_of(op: BinOp, t: &Type) -> (s: &'static str)
    ensures
        s@ == compare_instr(op, *t),
{
    if is_float_type(t) {
        match op {
            BinOp::Lt => "fcmp olt",
            BinOp::Le => "fcmp ole",
            BinOp::Gt => "fcmp ogt",
            BinOp::Ge => "fcmp oge",
            BinOp::Eq => "fcmp oeq",
            _ => "fcmp one",
        }
    } else {
        match op {
            BinOp::Lt => "icmp slt",
            BinOp::Le => "icmp sle",
            BinOp::Gt => "icmp sgt",
            BinOp::Ge => "icmp sge",
            BinOp::Eq => "icmp eq",
            _ => "icmp ne",
        }
    }
}

/// The zero constant of a type.
pub fn zero_value_of(t: &Type) -> (s: &'static str)
    ensures
        s@ == zero_value(*t),
{
    match t {
        Type::Bool | Type::I8 | Type::I16 | Type::I32 | Type::I64 | Type::U8 | Type::U16 | Type::U32
        | Type::U64 => "0",
        Type::F32 | Type::F64 => "0.0",
        _ => "zeroinitializer",
    }
}

/// A signature as the lowering sees it.
#[derive(Debug)]
pub struct FunctionSig {
    pub inputs: Vec<Type>,
    pub output: Type,
    pub builtin: bool,
}

pub open spec fn isig_m(s: FunctionSig) -> IrSigM {
    IrSigM { inputs: s.inputs@, output: s.output, builtin: s.builtin }
}

pub open spec fn itable_m(v: Seq<(Vec<char>, FunctionSig)>) -> Seq<(Seq<char>, IrSigM)> {
    Seq::new(v.len(), |i: int| (v[i].0@, isig_m(v[i].1)))
}

pub open spec fn ictx_of(v: Seq<(Vec<char>, FunctionSig)>) -> ICtx {
    ICtx { funcs: itable_m(v) }
}

fn add_sig(funcs: &mut Vec<(Vec<char>, FunctionSig)>, name: &str, inputs: Vec<Type>, output: Type, builtin: bool)
    ensures
        itable_m(final(funcs)@) == itable_m(old(funcs)@).push(
            (name@, IrSigM { inputs: inputs@, output, builtin }),
        ),
{
    funcs.push((str_chars(name), FunctionSig { inputs, output, builtin }));
    assert(itable_m(funcs@) =~= itable_m(old(funcs)@).push((name@, IrSigM { inputs: inputs@, output, builtin })));
}

/// The signature table of a program: the runtime functions, then the
/// program's functions.
pub fn collect_sigs(program: &Program) -> (funcs: Vec<(Vec<char>, FunctionSig)>)
    ensures
        ictx_of(funcs@) == ir_ctx(program_m(*program)),
{
    let mut funcs: Vec<(Vec<char>, FunctionSig)> = Vec::new();
    assert(itable_m(funcs@) =~= Seq::empty());
    let v1 = vec![Type::I32];
    assert(v1@ =~= seq![Type::I32]);
    add_sig(&mut funcs, "debug_i32", v1, Type::Unit, true);
    let v2 = vec![Type::String];
    assert(v2@ =~= seq![Type::String]);
    add_sig(&mut funcs, "debug_string", v2, Type::Unit, true);
    let v3 = vec![Type::I32];
    assert(v3@ =~= seq![Type::I32]);
    add_sig(&mut funcs, "abs_i32", v3, Type::I32, true);
    let v4 = vec![Type::I32];
    assert(v4@ =~= seq![Type::I32]);
    add_sig(&mut funcs, "is_even_i32", v4, Type::Bool, true);
    let v5 = vec![Type::I32, Type::I32];
    assert(v5@ =~= seq![Type::I32, Type::I32]);
    add_sig(&mut funcs, "max_i32", v5, Type::I32, true);
    let v6 = vec![Type::Vector(Box::new(Type::I32))];
    assert(v6@ =~= seq![Type::Vector(Box::new(Type::I32))]);
    add_sig(&mut funcs, "vector_len_i32", v6, Type::I64, true);
    assert(itable_m(funcs@) =~= ir_builtins());
    let ghost fm = program_m(*program);
    let ghost user = ir_ctx(fm).funcs.subrange(6, ir_ctx(fm).funcs.len() as int);
    assert(ir_ctx(fm).funcs =~= ir_builtins() + user);
    let mut i: usize = 0;
    while i < program.functions.len()
        invariant
            i <= program.functions@.len(),
            fm == program_m(*program),
            user.len() == fm.len(),
            ir_ctx(fm).funcs == ir_builtins() + user,
            itable_m(funcs@) == ir_builtins() + user.subrange(0, i as int),
        decreases program.functions@.len() - i,
    {
        let f = &program.functions[i];
        let mut tys: Vec<Type> = Vec::new();
        let mut k: usize = 0;
        while k < f.kind.inputs.len()
            invariant
                k <= f.kind.inputs@.len(),
                tys@ == input_types(bindings_m(f.kind.inputs@)).subrange(0, k as int),
            decreases f.kind.inputs@.len() - k,
        {
            tys.push(copy_type(&f.kind.inputs[k].ty));
            assert(tys@ =~= input_types(bindings_m(f.kind.inputs@)).subrange(0, k + 1));
            k = k + 1;
        }
        assert(tys@ =~= input_types(bindings_m(f.kind.inputs@)));
        let ghost before = funcs@;
        funcs.push(
            (
                str_chars(f.kind.name.as_str()),
                FunctionSig { inputs: tys, output: copy_type(&f.kind.output.ty), builtin: false },
            ),
        );
        assert(fm[i as int] == func_m(program.functions@[i as int]));
        assert(ir_builtins().len() == 6);
        assert(user[i as int] == ir_ctx(fm).funcs[6 + i]);
        assert(user[i as int] == (
            f.kind.name@,
            IrSigM { inputs: tys@, output: f.kind.output.ty, builtin: false },
        ));
        assert(itable_m(funcs@) =~= itable_m(before).push(user[i as int]));
        assert(ir_builtins() + user.subrange(0, i + 1) =~= (ir_builtins() + user.subrange(0, i as int)).push(
            user[i as int],
        ));
        i = i + 1;
    }
    assert(user.subrange(0, user.len() as int) =~= user);
    funcs
}

/// The index of the last signature named `name`.
fn find_isig_exec(funcs: &Vec<(Vec<char>, FunctionSig)>, name: &[char]) -> (r: Option<usize>)
    ensures
        match r {
            Some(k) => k < funcs@.len() && find_isig(itable_m(funcs@), name@, funcs@.len() as int) == Some(
                isig_m(funcs@[k as int].1),
            ),
            None => find_isig(itable_m(funcs@), name@, funcs@.len() as int) is None,
        },
{
    let ghost t = itable_m(funcs@);
    let mut k = funcs.len();
    while k > 0
        invariant
            k <= funcs@.len(),
            t == itable_m(funcs@),
            find_isig(t, name@, k as int) == find_isig(t, name@, funcs@.len() as int),
        decreases k,
    {
        if chars_eq(funcs[k - 1].0.as_slice(), name) {
            return Some(k - 1);
        }
        k = k - 1;
    }
    None
}

/// The stack slot of a binding.
struct Slot {
    ptr: Vec<char>,
    ty: Type,
}

/// A lowered value.
struct Value {
    repr: Vec<char>,
    ty: Type,
}

struct LoopLabels {
    latch: Vec<char>,
    exit: Vec<char>,
}

spec fn slot_m(s: Slot) -> SlotM {
    SlotM { ptr: s.ptr@, ty: s.ty }
}

spec fn value_m(v: Value) -> ValueM {
    ValueM { repr: v.repr@, ty: v.ty }
}

spec fn iscope_m(s: Seq<(Vec<char>, Slot)>) -> Seq<(Seq<char>, SlotM)> {
    Seq::new(s.len(), |i: int| (s[i].0@, slot_m(s[i].1)))
}

spec fn vars_m(v: Seq<Vec<(Vec<char>, Slot)>>) -> Seq<Seq<(Seq<char>, SlotM)>> {
    Seq::new(v.len(), |i: int| iscope_m(v[i]@))
}

spec fn loops_m(v: Seq<LoopLabels>) -> Seq<(Seq<char>, Seq<char>)> {
    Seq::new(v.len(), |i: int| (v[i].latch@, v[i].exit@))
}

/// The state of lowering one function.
struct FunctionBuilder {
    out: Vec<char>,
    temp_counter: u64,
    label_counter: u64,
    vars: Vec<Vec<(Vec<char>, Slot)>>,
    loops: Vec<LoopLabels>,
    terminated: bool,
}

impl FunctionBuilder {
    spec fn st(&self) -> ISt {
        ISt {
            out: self.out@,
            temps: self.temp_counter as int,
            labels: self.label_counter as int,
            vars: vars_m(self.vars@),
            loops: loops_m(self.loops@),
            terminated: self.terminated,
        }
    }

    fn new() -> (b: FunctionBuilder)
        ensures
            b.st() == empty_builder(),
    {
        let b = FunctionBuilder {
            out: Vec::new(),
            temp_counter: 0,
            label_counter: 0,
            vars: Vec::new(),
            loops: Vec::new(),
            terminated: false,
        };
        assert(b.st().out =~= Seq::<char>::empty());
        assert(b.st().vars =~= Seq::<Seq<(Seq<char>, SlotM)>>::empty());
        assert(b.st().loops =~= Seq::<(Seq<char>, Seq<char>)>::empty());
        b
    }

    /// Appends an instruction line.
    fn line(&mut self, l: &[char])
        ensures
            final(self).st() == emit(old(self).st(), l@),
    {
        push_str(&mut self.out, "  ");
        push_chars(&mut self.out, l);
        self.out.push('\n');
        assert(self.out@ =~= old(self).out@ + "  "@ + l@ + "\n"@) by {
            reveal_strlit("\n");
        }
    }

    /// Appends a label line.
    fn label(&mut self, name: &[char])
        ensures
            final(self).st() == emit_label(old(self).st(), name@),
    {
        push_chars(&mut self.out, name);
        push_str(&mut self.out, ":\n");
    }

    fn temp(&mut self) -> (t: Vec<char>)
        ensures
            (t@, final(self).st()) == temp(old(self).st()),
    {
        self.temp_counter = bump_counter(self.temp_counter);
        let mut t: Vec<char> = Vec::new();
        push_str(&mut t, "%t");
        push_dec(&mut t, self.temp_counter);
        t
    }

    fn fresh_label(&mut self, prefix: &[char]) -> (l: Vec<char>)
        ensures
            (l@, final(self).st()) == fresh_label(old(self).st(), prefix@),
    {
        self.label_counter = bump_counter(self.label_counter);
        let mut l = sanitize_chars(prefix);
        push_str(&mut l, ".");
        push_dec(&mut l, self.label_counter);
        l
    }

    fn alloca(&mut self, name: &[char], ty: &Type) -> (ptr: Vec<char>)
        ensures
            (ptr@, final(self).st()) == alloca(old(self).st(), name@, *ty),
    {
        let mut ptr: Vec<char> = Vec::new();
        push_str(&mut ptr, "%");
        let sn = sanitize_chars(name);
        push_chars(&mut ptr, sn.as_slice());
        let mut l = copy_chars(ptr.as_slice());
        push_str(&mut l, " = alloca ");
        write_llvm_ty(&mut l, ty);
        self.line(l.as_slice());
        ptr
    }

    fn push_scope(&mut self)
        ensures
            final(self).st() == i_push_scope(old(self).st()),
    {
        let ghost before = self.vars@;
        let fresh: Vec<(Vec<char>, Slot)> = Vec::new();
        assert(iscope_m(fresh@) =~= Seq::empty());
        self.vars.push(fresh);
        assert(vars_m(self.vars@) =~= vars_m(before).push(Seq::empty()));
    }

    fn pop_scope(&mut self)
        ensures
            final(self).st() == i_pop_scope(old(self).st()),
    {
        let ghost before = self.vars@;
        if self.vars.len() > 0 {
            let _ = self.vars.pop();
            assert(vars_m(self.vars@) =~= vars_m(before).drop_last());
        }
    }

    fn push_loop(&mut self, latch: Vec<char>, exit: Vec<char>)
        ensures
            final(self).st() == (ISt { loops: old(self).st().loops.push((latch@, exit@)), ..old(self).st() }),
    {
        let ghost before = self.loops@;
        self.loops.push(LoopLabels { latch, exit });
        assert(loops_m(self.loops@) =~= loops_m(before).push((latch@, exit@)));
    }

    fn pop_loop(&mut self)
        ensures
            final(self).st() == pop_loop(old(self).st()),
    {
        let ghost before = self.loops@;
        if self.loops.len() > 0 {
            let _ = self.loops.pop();
            assert(loops_m(self.loops@) =~= loops_m(before).drop_last());
        }
    }

    fn declare(&mut self, name: &[char], ptr: Vec<char>, ty: Type)
        ensures
            final(self).st() == i_declare(old(self).st(), name@, ptr@, ty),
    {
        let n = self.vars.len();
        if n == 0 {
            return;
        }
        let ghost before = self.vars@;
        let mut last = match self.vars.pop() {
            Some(l) => l,
            None => Vec::new(),
        };
        let ghost lb = last@;
        let ghost entry = (name@, SlotM { ptr: ptr@, ty });
        last.push((copy_chars(name), Slot { ptr, ty }));
        assert(iscope_m(last@) =~= iscope_m(lb).push(entry));
        self.vars.push(last);
        assert(vars_m(self.vars@) =~= vars_m(before).update(n - 1, vars_m(before).last().push(entry)));
    }

    /// The latest slot of `name` in a scope.
    fn scope_slot(scope: &Vec<(Vec<char>, Slot)>, name: &[char]) -> (r: Option<usize>)
        ensures
            match r {
                Some(k) => k < scope@.len() && slot_get(iscope_m(scope@), name@, scope@.len() as int) == Some(
                    slot_m(scope@[k as int].1),
                ),
                None => slot_get(iscope_m(scope@), name@, scope@.len() as int) is None,
            },
    {
        let ghost m = iscope_m(scope@);
        let mut k = scope.len();
        while k > 0
            invariant
                k <= scope@.len(),
                m == iscope_m(scope@),
                slot_get(m, name@, k as int) == slot_get(m, name@, scope@.len() as int),
            decreases k,
        {
            if chars_eq(scope[k - 1].0.as_slice(), name) {
                return Some(k - 1);
            }
            k = k - 1;
        }
        None
    }

    /// A copy of the slot of `name`, innermost scope first.
    fn lookup(&self, name: &[char]) -> (r: Option<Slot>)
        ensures
            match r {
                Some(s) => lookup_slot(self.st(), name@) == Some(slot_m(s)),
                None => lookup_slot(self.st(), name@) is None,
            },
    {
        let ghost vm = self.st().vars;
        let mut k = self.vars.len();
        while k > 0
            invariant
                k <= self.vars@.len(),
                vm == self.st().vars,
                i_lookup(vm, name@, k as int) == i_lookup(vm, name@, vm.len() as int),
            decreases k,
        {
            let scope = &self.vars[k - 1];
            assert(vm[k - 1] == iscope_m(scope@));
            match FunctionBuilder::scope_slot(scope, name) {
                Some(j) => {
                    let s = &scope[j].1;
                    return Some(Slot { ptr: copy_chars(s.ptr.as_slice()), ty: copy_type(&s.ty) });
                },
                None => {},
            }
            k = k - 1;
        }
        None
    }

    fn load_ptr(&mut self, ptr: &[char], ty: &Type) -> (v: Value)
        ensures
            (value_m(v), final(self).st()) == load_ptr(old(self).st(), ptr@, *ty),
    {
        let t = self.temp();
        let lt = llvm_ty_chars(ty);
        let mut l = copy_chars(t.as_slice());
        push_str(&mut l, " = load ");
        push_chars(&mut l, lt.as_slice());
        push_str(&mut l, ", ");
        push_chars(&mut l, lt.as_slice());
        push_str(&mut l, "* ");
        push_chars(&mut l, ptr);
        assert(l@ =~= t@ + " = load "@ + llvm_ty(*ty) + ", "@ + llvm_ty(*ty) + "* "@ + ptr@);
        self.line(l.as_slice());
        Value { repr: t, ty: copy_type(ty) }
    }

    fn store(&mut self, ty: &Type, val: &[char], ptr: &[char])
        ensures
            final(self).st() == emit(old(self).st(), store_line(*ty, val@, ptr@)),
    {
        let lt = llvm_ty_chars(ty);
        let mut l: Vec<char> = Vec::new();
        push_str(&mut l, "store ");
        push_chars(&mut l, lt.as_slice());
        push_str(&mut l, " ");
        push_chars(&mut l, val);
        push_str(&mut l, ", ");
        push_chars(&mut l, lt.as_slice());
        push_str(&mut l, "* ");
        push_chars(&mut l, ptr);
        assert(l@ =~= store_line(*ty, val@, ptr@));
        self.line(l.as_slice());
    }

    fn cast_value_for_store(&mut self, v: Value, target: &Type) -> (r: Value)
        ensures
            (value_m(r), final(self).st()) == cast_for_store(old(self).st(), value_m(v), *target),
    {
        if type_eq(&v.ty, target) || matches!(v.ty, Type::Unknown) || matches!(target, Type::Unknown) {
            return Value { repr: v.repr, ty: copy_type(target) };
        }
        let vt = llvm_ty_chars(&v.ty);
        let tt = llvm_ty_chars(target);
        if chars_eq(vt.as_slice(), tt.as_slice()) {
            return Value { repr: v.repr, ty: copy_type(target) };
        }
        if !(v.ty.is_numeric() && target.is_numeric()) {
            return v;
        }
        let t = self.temp();
        let mut l = copy_chars(t.as_slice());
        push_str(&mut l, " = ");
        push_str(&mut l, cast_instr_of(&v.ty, target));
        push_str(&mut l, " ");
        push_chars(&mut l, vt.as_slice());
        push_str(&mut l, " ");
        push_chars(&mut l, v.repr.as_slice());
        push_str(&mut l, " to ");
        push_chars(&mut l, tt.as_slice());
        assert(l@ =~= t@ + " = "@ + cast_instr(v.ty, *target) + " "@ + llvm_ty(v.ty) + " "@ + v.repr@ + " to "@
            + llvm_ty(*target));
        self.line(l.as_slice());
        Value { repr: t, ty: copy_type(target) }
    }
}

impl FunctionBuilder {
    /// Lowers an expression, given the type its context expects.
    #[verifier::loop_isolation(false)]
    fn lower_expr(&mut self, c: &Vec<(Vec<char>, FunctionSig)>, e: &Node<Expr>, expected: Option<&Type>) -> (v: Value)
        ensures
            (value_m(v), final(self).st()) == lower_expr(ictx_of(c@), old(self).st(), expr_m(*e), opt_ty(expected)),
        decreases e,
    {
        match &e.kind {
            Expr::Lit(l) => match l {
                Literal::Int(x) => {
                    let mut r: Vec<char> = Vec::new();
                    push_int(&mut r, *x);
                    assert(r@ =~= int_text(*x as int));
                    let ty = match expected {
                        Some(t) => if t.is_numeric() {
                            copy_type(t)
                        } else {
                            Type::I64
                        },
                        None => Type::I64,
                    };
                    Value { repr: r, ty }
                },
                Literal::Float(text) => {
                    let ty = match expected {
                        Some(t) => if is_float_type(t) {
                            copy_type(t)
                        } else {
                            Type::F64
                        },
                        None => Type::F64,
                    };
                    Value { repr: str_chars(text.as_str()), ty }
                },
                Literal::Bool(b) => Value {
                    repr: if *b {
                        str_chars("1")
                    } else {
                        str_chars("0")
                    },
                    ty: Type::Bool,
                },
                Literal::Str(_) => Value { repr: str_chars("zeroinitializer"), ty: Type::String },
            },
            Expr::Ident(name) => {
                let n = str_chars(name.as_str());
                match self.lookup(n.as_slice()) {
                    Some(slot) => self.load_ptr(slot.ptr.as_slice(), &slot.ty),
                    None => Value { repr: str_chars("0"), ty: Type::I64 },
                }
            },
            Expr::Paren(inner) => self.lower_expr(c, inner, expected),
            Expr::Unary { op, operand } => {
                let v = self.lower_expr(c, operand, expected);
                let t = self.temp();
                match op {
                    UnOp::Neg => {
                        let fl = is_float_type(&v.ty);
                        let mut l = copy_chars(t.as_slice());
                        push_str(&mut l, " = ");
                        push_str(
                            &mut l,
                            if fl {
                                "fsub"
                            } else {
                                "sub"
                            },
                        );
                        push_str(&mut l, " ");
                        write_llvm_ty(&mut l, &v.ty);
                        push_str(&mut l, " ");
                        push_str(
                            &mut l,
                            if fl {
                                "0.0"
                            } else {
                                "0"
                            },
                        );
                        push_str(&mut l, ", ");
                        push_chars(&mut l, v.repr.as_slice());
                        assert(l@ =~= t@ + " = "@ + (if fl {
                            "fsub"@
                        } else {
                            "sub"@
                        }) + " "@ + llvm_ty(v.ty) + " "@ + (if fl {
                            "0.0"@
                        } else {
                            "0"@
                        }) + ", "@ + v.repr@);
                        self.line(l.as_slice());
                        Value { repr: t, ty: v.ty }
                    },
                    UnOp::Not => {
                        let mut l = copy_chars(t.as_slice());
                        push_str(&mut l, " = xor i1 ");
                        push_chars(&mut l, v.repr.as_slice());
                        push_str(&mut l, ", 1");
                        assert(l@ =~= t@ + " = xor i1 "@ + v.repr@ + ", 1"@);
                        self.line(l.as_slice());
                        Value { repr: t, ty: Type::Bool }
                    },
                }
            },
            Expr::Binary { op, lhs, rhs } => {
                let left = self.lower_expr(c, lhs, expected);
                let right = self.lower_expr(c, rhs, Some(&left.ty));
                let t = self.temp();
                let mut l = copy_chars(t.as_slice());
                push_str(&mut l, " = ");
                if matches!(op, BinOp::And | BinOp::Or) {
                    push_str(
                        &mut l,
                        if matches!(op, BinOp::And) {
                            "and"
                        } else {
                            "or"
                        },
                    );
                    push_str(&mut l, " i1 ");
                    push_chars(&mut l, left.repr.as_slice());
                    push_str(&mut l, ", ");
                    push_chars(&mut l, right.repr.as_slice());
                    assert(l@ =~= t@ + " = "@ + (if *op == BinOp::And {
                        "and"@
                    } else {
                        "or"@
                    }) + " i1 "@ + left.repr@ + ", "@ + right.repr@);
                    self.line(l.as_slice());
                    return Value { repr: t, ty: Type::Bool };
                }
                let arith = matches!(op, BinOp::Add | BinOp::Sub | BinOp::Mul | BinOp::Div | BinOp::Mod);
                let instr = if arith {
                    arithmetic_instr(*op, &left.ty)
                } else {
                    compare_instr_of(*op, &left.ty)
                };
                push_str(&mut l, instr);
                push_str(&mut l, " ");
                write_llvm_ty(&mut l, &left.ty);
                push_str(&mut l, " ");
                push_chars(&mut l, left.repr.as_slice());
                push_str(&mut l, ", ");
                push_chars(&mut l, right.repr.as_slice());
                assert(l@ =~= t@ + " = "@ + instr@ + " "@ + llvm_ty(left.ty) + " "@ + left.repr@ + ", "@
                    + right.repr@);
                self.line(l.as_slice());
                if arith {
                    Value { repr: t, ty: left.ty }
                } else {
                    Value { repr: t, ty: Type::Bool }
                }
            },
            Expr::Call { callee, args } => {
                proof {
                    lemma_call_m(*callee, *args);
                }
                let ghost ctx = ictx_of(c@);
                let cn = str_chars(callee.as_str());
                let found = find_isig_exec(c, cn.as_slice());
                let ghost sig = call_sig(ctx, callee@);
                let empty: Vec<Type> = Vec::new();
                let (ins, out_ty, builtin): (&Vec<Type>, Type, bool) = match found {
                    Some(k) => (&c[k].1.inputs, copy_type(&c[k].1.output), c[k].1.builtin),
                    None => (&empty, Type::Unknown, false),
                };
                assert(ins@ =~= sig.inputs);
                let ghost am = exprs_m(args@);
                let ghost target = lower_args(ctx, self.st(), am, sig.inputs, 0, Seq::empty());
                let mut joined: Vec<char> = Vec::new();
                let mut i: usize = 0;
                while i < args.len()
                    invariant
                        i <= args@.len(),
                        i == 0 ==> joined@ == Seq::<char>::empty(),
                        lower_args(ctx, self.st(), am, sig.inputs, i as int, joined@) == target,
                    decreases args@.len() - i,
                {
                    assert(am[i as int] == expr_m(args@[i as int]));
                    let v = if i < ins.len() {
                        self.lower_expr(c, &args[i], Some(&ins[i]))
                    } else {
                        self.lower_expr(c, &args[i], None)
                    };
                    let ghost acc = joined@;
                    if i > 0 {
                        push_str(&mut joined, ", ");
                    }
                    write_llvm_ty(&mut joined, &v.ty);
                    push_str(&mut joined, " ");
                    push_chars(&mut joined, v.repr.as_slice());
                    assert(joined@ =~= (if i == 0 {
                        llvm_ty(v.ty) + " "@ + v.repr@
                    } else {
                        acc + ", "@ + (llvm_ty(v.ty) + " "@ + v.repr@)
                    }));
                    i = i + 1;
                }
                let sym = if builtin {
                    copy_chars(cn.as_slice())
                } else {
                    let mut m: Vec<char> = Vec::new();
                    push_str(&mut m, "jb_");
                    let sn = sanitize_chars(cn.as_slice());
                    push_chars(&mut m, sn.as_slice());
                    m
                };
                assert(sym@ =~= callee_symbol(callee@, sig));
                if matches!(out_ty, Type::Unit) {
                    let mut l: Vec<char> = Vec::new();
                    push_str(&mut l, "call void @");
                    push_chars(&mut l, sym.as_slice());
                    push_str(&mut l, "(");
                    push_chars(&mut l, joined.as_slice());
                    push_str(&mut l, ")");
                    assert(l@ =~= "call void @"@ + sym@ + "("@ + joined@ + ")"@);
                    self.line(l.as_slice());
                    Value { repr: Vec::new(), ty: Type::Unit }
                } else {
                    let t = self.temp();
                    let mut l = copy_chars(t.as_slice());
                    push_str(&mut l, " = call ");
                    write_llvm_ty(&mut l, &out_ty);
                    push_str(&mut l, " @");
                    push_chars(&mut l, sym.as_slice());
                    push_str(&mut l, "(");
                    push_chars(&mut l, joined.as_slice());
                    push_str(&mut l, ")");
                    assert(l@ =~= t@ + " = call "@ + llvm_ty(out_ty) + " @"@ + sym@ + "("@ + joined@ + ")"@);
                    self.line(l.as_slice());
                    Value { repr: t, ty: out_ty }
                }
            },
            Expr::Cast { expr: inner, target } => {
                let v = self.lower_expr(c, inner, None);
                self.cast_value_for_store(v, target)
            },
            Expr::Ctor(ct) => {
                let ty = match ct {
                    ConstructorExpr::SomeOf(_) | ConstructorExpr::NoneOf => match expected {
                        Some(Type::Option(inner)) => Type::Option(Box::new(copy_type(&**inner))),
                        _ => Type::Unknown,
                    },
                    ConstructorExpr::OkOf(_) | ConstructorExpr::ErrOf(_) => match expected {
                        Some(Type::Result(ok, err)) => Type::Result(
                            Box::new(copy_type(&**ok)),
                            Box::new(copy_type(&**err)),
                        ),
                        _ => Type::Unknown,
                    },
                };
                Value { repr: str_chars("zeroinitializer"), ty }
            },
        }
    }
}

fn ret_chars(out_ty: &Type, repr: &[char]) -> (l: Vec<char>)
    ensures
        l@ == ret_line(*out_ty, repr@),
{
    let mut l: Vec<char> = Vec::new();
    if matches!(out_ty, Type::Unit) {
        push_str(&mut l, "ret void");
    } else {
        push_str(&mut l, "ret ");
        write_llvm_ty(&mut l, out_ty);
        push_str(&mut l, " ");
        push_chars(&mut l, repr);
        assert(l@ =~= "ret "@ + llvm_ty(*out_ty) + " "@ + repr@);
    }
    l
}

fn br_chars(target: &[char]) -> (l: Vec<char>)
    ensures
        l@ == "br label %"@ + target@,
{
    let mut l: Vec<char> = Vec::new();
    push_str(&mut l, "br label %");
    push_chars(&mut l, target);
    l
}

impl FunctionBuilder {
    /// A guard's action; `next` is the label after the guard.
    fn lower_guard_action(
        &mut self,
        c: &Vec<(Vec<char>, FunctionSig)>,
        action: &GuardAction,
        out_ty: &Type,
        next: &[char],
    )
        ensures
            final(self).st() == lower_action(
                ictx_of(c@),
                old(self).st(),
                crate::ast::action_m(*action),
                *out_ty,
                next@,
            ),
    {
        match action {
            GuardAction::Continue => {
                let n = self.loops.len();
                let l = if n > 0 {
                    br_chars(self.loops[n - 1].latch.as_slice())
                } else {
                    br_chars(next)
                };
                self.line(l.as_slice());
            },
            GuardAction::Break => {
                let n = self.loops.len();
                let l = if n > 0 {
                    br_chars(self.loops[n - 1].exit.as_slice())
                } else {
                    br_chars(next)
                };
                self.line(l.as_slice());
            },
            GuardAction::Return(e) => {
                let v = self.lower_expr(c, e, Some(out_ty));
                let l = ret_chars(out_ty, v.repr.as_slice());
                self.line(l.as_slice());
            },
            GuardAction::SetAssign { target, value } => {
                let tn = str_chars(target.as_str());
                match self.lookup(tn.as_slice()) {
                    Some(slot) => {
                        let v = self.lower_expr(c, value, Some(&slot.ty));
                        let cv = self.cast_value_for_store(v, &slot.ty);
                        self.store(&slot.ty, cv.repr.as_slice(), slot.ptr.as_slice());
                    },
                    None => {},
                }
                let l = br_chars(next);
                self.line(l.as_slice());
            },
        }
    }

    /// The statements of a block, skipping those after a terminator.
    #[verifier::loop_isolation(false)]
    fn lower_block(&mut self, c: &Vec<(Vec<char>, FunctionSig)>, stmts: &Vec<Node<Statement>>, out_ty: &Type)
        ensures
            final(self).st() == lower_stmts(ictx_of(c@), old(self).st(), stmts_m(stmts@), 0, *out_ty),
        decreases stmts,
    {
        let ghost sm = stmts_m(stmts@);
        let ghost target = lower_stmts(ictx_of(c@), self.st(), sm, 0, *out_ty);
        let mut i: usize = 0;
        while i < stmts.len()
            invariant
                i <= stmts@.len(),
                lower_stmts(ictx_of(c@), self.st(), sm, i as int, *out_ty) == target,
            decreases stmts@.len() - i,
        {
            assert(sm[i as int] == stmt_m(stmts@[i as int]));
            if !self.terminated {
                self.lower_stmt(c, &stmts[i], out_ty);
            }
            i = i + 1;
        }
    }

    /// One statement.
    #[verifier::rlimit(40)]
    #[verifier::spinoff_prover]
    fn lower_stmt(&mut self, c: &Vec<(Vec<char>, FunctionSig)>, s: &Node<Statement>, out_ty: &Type)
        ensures
            final(self).st() == lower_stmt(ictx_of(c@), old(self).st(), stmt_m(*s), *out_ty),
        decreases s,
    {
        match &s.kind {
            Statement::Let(l) => {
                let bn = str_chars(l.binding.name.as_str());
                let v = self.lower_expr(c, &l.value, Some(&l.binding.ty));
                let ptr = self.alloca(bn.as_slice(), &l.binding.ty);
                let cv = self.cast_value_for_store(v, &l.binding.ty);
                self.store(&l.binding.ty, cv.repr.as_slice(), ptr.as_slice());
                self.declare(bn.as_slice(), ptr, copy_type(&l.binding.ty));
            },
            Statement::SetVar(st) => {
                let tn = str_chars(st.target.as_str());
                match self.lookup(tn.as_slice()) {
                    Some(slot) => {
                        let v = self.lower_expr(c, &st.value, Some(&slot.ty));
                        let cv = self.cast_value_for_store(v, &slot.ty);
                        self.store(&slot.ty, cv.repr.as_slice(), slot.ptr.as_slice());
                    },
                    None => {},
                }
            },
            Statement::Return(r) => {
                match &r.value {
                    Some(v) => {
                        let val = self.lower_expr(c, v, Some(out_ty));
                        let l = ret_chars(out_ty, val.repr.as_slice());
                        self.line(l.as_slice());
                    },
                    None => {
                        let l = str_chars("ret void");
                        self.line(l.as_slice());
                    },
                }
                self.terminated = true;
            },
            Statement::Loop(lb) => {
                proof {
                    lemma_loop_m(*lb);
                }
                let cn = str_chars(lb.collection.as_str());
                match self.lookup(cn.as_slice()) {
                    Some(slot) => match &slot.ty {
                        Type::Vector(inner) => {
                            self.lower_loop(c, lb, &slot, &**inner, out_ty);
                        },
                        _ => {},
                    },
                    None => {},
                }
            },
            Statement::Condition(cb) => {
                let boolean = Type::Bool;
                let v = self.lower_expr(c, &cb.guard.kind.cond, Some(&boolean));
                let name = str_chars(cb.name.as_str());
                let mut tp: Vec<char> = Vec::new();
                push_str(&mut tp, "cond.");
                push_chars(&mut tp, name.as_slice());
                push_str(&mut tp, ".taken");
                let taken = self.fresh_label(tp.as_slice());
                let mut np: Vec<char> = Vec::new();
                push_str(&mut np, "cond.");
                push_chars(&mut np, name.as_slice());
                push_str(&mut np, ".next");
                let next = self.fresh_label(np.as_slice());
                let mut l: Vec<char> = Vec::new();
                push_str(&mut l, "br i1 ");
                push_chars(&mut l, v.repr.as_slice());
                push_str(&mut l, ", label %");
                push_chars(&mut l, taken.as_slice());
                push_str(&mut l, ", label %");
                push_chars(&mut l, next.as_slice());
                assert(l@ =~= "br i1 "@ + v.repr@ + ", label %"@ + taken@ + ", label %"@ + next@);
                self.line(l.as_slice());
                self.label(taken.as_slice());
                self.lower_guard_action(c, &cb.guard.kind.action, out_ty, next.as_slice());
                self.label(next.as_slice());
                self.terminated = false;
            },
            Statement::Expr(e) => {
                let _ = self.lower_expr(c, e, None);
            },
        }
    }

    /// A loop over the `Vector` in `coll`, whose elements have type `inner`.
    #[verifier::loop_isolation(false)]
    fn lower_loop(
        &mut self,
        c: &Vec<(Vec<char>, FunctionSig)>,
        lb: &crate::ast::LoopBlock,
        coll: &Slot,
        inner: &Type,
        out_ty: &Type,
    )
        ensures
            final(self).st() == lower_loop(
                ictx_of(c@),
                old(self).st(),
                binding_m(lb.item),
                slot_m(*coll),
                *inner,
                stmts_m(lb.body@),
                *out_ty,
            ),
        decreases lb,
    {
        let item = str_chars(lb.item.name.as_str());
        let mut iname = copy_chars(item.as_slice());
        push_str(&mut iname, ".idx");
        let idx_ptr = self.alloca(iname.as_slice(), &Type::I64);
        let mut l0: Vec<char> = Vec::new();
        push_str(&mut l0, "store i64 0, i64* ");
        push_chars(&mut l0, idx_ptr.as_slice());
        self.line(l0.as_slice());
        let header = self.fresh_label(str_chars("loop.header").as_slice());
        let body = self.fresh_label(str_chars("loop.body").as_slice());
        let latch = self.fresh_label(str_chars("loop.latch").as_slice());
        let exit = self.fresh_label(str_chars("loop.exit").as_slice());
        let l1 = br_chars(header.as_slice());
        self.line(l1.as_slice());
        self.label(header.as_slice());
        let idx = self.load_ptr(idx_ptr.as_slice(), &Type::I64);
        let cv = self.load_ptr(coll.ptr.as_slice(), &coll.ty);
        let ct = llvm_ty_chars(&coll.ty);
        let len = self.temp();
        let mut l2 = copy_chars(len.as_slice());
        push_str(&mut l2, " = extractvalue ");
        push_chars(&mut l2, ct.as_slice());
        push_str(&mut l2, " ");
        push_chars(&mut l2, cv.repr.as_slice());
        push_str(&mut l2, ", 1");
        assert(l2@ =~= len@ + " = extractvalue "@ + llvm_ty(coll.ty) + " "@ + cv.repr@ + ", 1"@);
        self.line(l2.as_slice());
        let cond = self.temp();
        let mut l3 = copy_chars(cond.as_slice());
        push_str(&mut l3, " = icmp slt i64 ");
        push_chars(&mut l3, idx.repr.as_slice());
        push_str(&mut l3, ", ");
        push_chars(&mut l3, len.as_slice());
        assert(l3@ =~= cond@ + " = icmp slt i64 "@ + idx.repr@ + ", "@ + len@);
        self.line(l3.as_slice());
        let mut l4: Vec<char> = Vec::new();
        push_str(&mut l4, "br i1 ");
        push_chars(&mut l4, cond.as_slice());
        push_str(&mut l4, ", label %");
        push_chars(&mut l4, body.as_slice());
        push_str(&mut l4, ", label %");
        push_chars(&mut l4, exit.as_slice());
        assert(l4@ =~= "br i1 "@ + cond@ + ", label %"@ + body@ + ", label %"@ + exit@);
        self.line(l4.as_slice());
        self.label(body.as_slice());
        self.push_scope();
        let data = self.temp();
        let mut l5 = copy_chars(data.as_slice());
        push_str(&mut l5, " = extractvalue ");
        push_chars(&mut l5, ct.as_slice());
        push_str(&mut l5, " ");
        push_chars(&mut l5, cv.repr.as_slice());
        push_str(&mut l5, ", 0");
        assert(l5@ =~= data@ + " = extractvalue "@ + llvm_ty(coll.ty) + " "@ + cv.repr@ + ", 0"@);
        self.line(l5.as_slice());
        let it = llvm_ty_chars(inner);
        let ep = self.temp();
        let mut l6 = copy_chars(ep.as_slice());
        push_str(&mut l6, " = getelementptr ");
        push_chars(&mut l6, it.as_slice());
        push_str(&mut l6, ", ");
        push_chars(&mut l6, it.as_slice());
        push_str(&mut l6, "* ");
        push_chars(&mut l6, data.as_slice());
        push_str(&mut l6, ", i64 ");
        push_chars(&mut l6, idx.repr.as_slice());
        assert(l6@ =~= ep@ + " = getelementptr "@ + llvm_ty(*inner) + ", "@ + llvm_ty(*inner) + "* "@ + data@
            + ", i64 "@ + idx.repr@);
        self.line(l6.as_slice());
        let el = self.temp();
        let mut l7 = copy_chars(el.as_slice());
        push_str(&mut l7, " = load ");
        push_chars(&mut l7, it.as_slice());
        push_str(&mut l7, ", ");
        push_chars(&mut l7, it.as_slice());
        push_str(&mut l7, "* ");
        push_chars(&mut l7, ep.as_slice());
        assert(l7@ =~= el@ + " = load "@ + llvm_ty(*inner) + ", "@ + llvm_ty(*inner) + "* "@ + ep@);
        self.line(l7.as_slice());
        let item_ptr = self.alloca(item.as_slice(), &lb.item.ty);
        self.store(&lb.item.ty, el.as_slice(), item_ptr.as_slice());
        self.declare(item.as_slice(), item_ptr, copy_type(&lb.item.ty));
        self.push_loop(copy_chars(latch.as_slice()), copy_chars(exit.as_slice()));
        self.terminated = false;
        self.lower_block(c, &lb.body, out_ty);
        self.pop_loop();
        self.pop_scope();
        if !self.terminated {
            let l8 = br_chars(latch.as_slice());
            self.line(l8.as_slice());
        }
        self.terminated = false;
        self.label(latch.as_slice());
        let nx = self.temp();
        let mut l9 = copy_chars(nx.as_slice());
        push_str(&mut l9, " = add i64 ");
        push_chars(&mut l9, idx.repr.as_slice());
        push_str(&mut l9, ", 1");
        assert(l9@ =~= nx@ + " = add i64 "@ + idx.repr@ + ", 1"@);
        self.line(l9.as_slice());
        let mut l10: Vec<char> = Vec::new();
        push_str(&mut l10, "store i64 ");
        push_chars(&mut l10, nx.as_slice());
        push_str(&mut l10, ", i64* ");
        push_chars(&mut l10, idx_ptr.as_slice());
        assert(l10@ =~= "store i64 "@ + nx@ + ", i64* "@ + idx_ptr@);
        self.line(l10.as_slice());
        let l11 = br_chars(header.as_slice());
        self.line(l11.as_slice());
        self.label(exit.as_slice());
    }
}

impl FunctionBuilder {
    /// The text of one function.
    #[verifier::loop_isolation(false)]
    fn lower_function(&mut self, c: &Vec<(Vec<char>, FunctionSig)>, f: &Node<FunctionDecl>) -> (text: Vec<char>)
        requires
            old(self).st() == empty_builder(),
        ensures
            text@ == lower_function(ictx_of(c@), func_m(*f).kind),
    {
        let ghost fm = func_m(*f).kind;
        let ghost ctx = ictx_of(c@);
        let ins = &f.kind.inputs;
        let out_ty = &f.kind.output.ty;
        let mut params: Vec<char> = Vec::new();
        let ghost ptarget = params_text(fm.inputs, 0, Seq::empty());
        let mut i: usize = 0;
        while i < ins.len()
            invariant
                i <= ins@.len(),
                fm.inputs == bindings_m(ins@),
                i == 0 ==> params@ == Seq::<char>::empty(),
                params_text(fm.inputs, i as int, params@) == ptarget,
            decreases ins@.len() - i,
        {
            let ghost acc = params@;
            if i > 0 {
                push_str(&mut params, ", ");
            }
            write_llvm_ty(&mut params, &ins[i].ty);
            push_str(&mut params, " %");
            push_chars(&mut params, str_chars(ins[i].name.as_str()).as_slice());
            let ghost item = llvm_ty(fm.inputs[i as int].ty) + " %"@ + fm.inputs[i as int].name;
            assert(params@ =~= (if i == 0 {
                item
            } else {
                acc + ", "@ + item
            }));
            i = i + 1;
        }
        let mut head: Vec<char> = Vec::new();
        push_str(&mut head, "define internal ");
        write_llvm_ty(&mut head, out_ty);
        push_str(&mut head, " @");
        push_str(&mut head, "jb_");
        push_chars(&mut head, sanitize_chars(str_chars(f.kind.name.as_str()).as_slice()).as_slice());
        push_str(&mut head, "(");
        push_chars(&mut head, params.as_slice());
        push_str(&mut head, ") {");
        assert(head@ =~= "define internal "@ + llvm_ty(fm.output.ty) + " @"@ + mangle(fm.name) + "("@ + ptarget
            + ") {"@);
        self.line(head.as_slice());
        self.label(str_chars("entry").as_slice());
        self.push_scope();
        let ghost starget = store_inputs(self.st(), fm.inputs, 0);
        let mut i: usize = 0;
        while i < ins.len()
            invariant
                i <= ins@.len(),
                fm.inputs == bindings_m(ins@),
                store_inputs(self.st(), fm.inputs, i as int) == starget,
            decreases ins@.len() - i,
        {
            let input = &ins[i];
            let name = str_chars(input.name.as_str());
            let mut an = copy_chars(name.as_slice());
            push_str(&mut an, ".addr");
            let ptr = self.alloca(an.as_slice(), &input.ty);
            let lt = llvm_ty_chars(&input.ty);
            let mut l: Vec<char> = Vec::new();
            push_str(&mut l, "store ");
            push_chars(&mut l, lt.as_slice());
            push_str(&mut l, " %");
            push_chars(&mut l, name.as_slice());
            push_str(&mut l, ", ");
            push_chars(&mut l, lt.as_slice());
            push_str(&mut l, "* ");
            push_chars(&mut l, ptr.as_slice());
            assert(l@ =~= "store "@ + llvm_ty(input.ty) + " %"@ + input.name@ + ", "@ + llvm_ty(input.ty) + "* "@
                + ptr@);
            self.line(l.as_slice());
            self.declare(name.as_slice(), ptr, copy_type(&input.ty));
            i = i + 1;
        }
        let oname = str_chars(f.kind.output.name.as_str());
        if !matches!(out_ty, Type::Unit) {
            let ptr = self.alloca(oname.as_slice(), out_ty);
            self.declare(oname.as_slice(), ptr, copy_type(out_ty));
        }
        self.lower_block(c, &f.kind.body, out_ty);
        if !self.terminated {
            if matches!(out_ty, Type::Unit) {
                self.line(str_chars("ret void").as_slice());
            } else {
                match self.lookup(oname.as_slice()) {
                    Some(slot) => {
                        let r = self.load_ptr(slot.ptr.as_slice(), &slot.ty);
                        let mut l: Vec<char> = Vec::new();
                        push_str(&mut l, "ret ");
                        write_llvm_ty(&mut l, &r.ty);
                        push_str(&mut l, " ");
                        push_chars(&mut l, r.repr.as_slice());
                        assert(l@ =~= "ret "@ + llvm_ty(r.ty) + " "@ + r.repr@);
                        self.line(l.as_slice());
                    },
                    None => {
                        let mut l: Vec<char> = Vec::new();
                        push_str(&mut l, "ret ");
                        write_llvm_ty(&mut l, out_ty);
                        push_str(&mut l, " zeroinitializer");
                        assert(l@ =~= "ret "@ + llvm_ty(*out_ty) + " zeroinitializer"@);
                        self.line(l.as_slice());
                    },
                }
            }
        }
        self.pop_scope();
        self.line(str_chars("}").as_slice());
        copy_chars(self.out.as_slice())
    }
}

/// Appends the `main` of a Linux executable that calls `entry`, or reports
/// that `entry` is not a function of the program.
fn append_linux_main_wrapper(out: &mut Vec<char>, funcs: &Vec<(Vec<char>, FunctionSig)>, entry: &str) -> (r: Result<
    (),
    String,
>)
    ensures
        match table_entry(ictx_of(funcs@), entry@) {
            Some(sig) => r is Ok && final(out)@ == old(out)@ + main_wrapper(entry@, sig),
            None => r matches Err(m) && m@ == "executable entrypoint function not found: "@ + entry@
                && final(out)@ == old(out)@,
        },
{
    let en = str_chars(entry);
    let k = match find_isig_exec(funcs, en.as_slice()) {
        Some(k) => {
            if funcs[k].1.builtin {
                None
            } else {
                Some(k)
            }
        },
        None => None,
    };
    let k = match k {
        Some(k) => k,
        None => {
            let mut m: Vec<char> = Vec::new();
            push_str(&mut m, "executable entrypoint function not found: ");
            push_chars(&mut m, en.as_slice());
            return Err(chars_to_string(m.as_slice()));
        },
    };
    let sig = &funcs[k].1;
    let ghost sm = isig_m(*sig);
    let mut args: Vec<char> = Vec::new();
    let ghost atarget = zero_args(sm.inputs, 0, Seq::empty());
    let mut i: usize = 0;
    while i < sig.inputs.len()
        invariant
            i <= sig.inputs@.len(),
            sm.inputs == sig.inputs@,
            i == 0 ==> args@ == Seq::<char>::empty(),
            zero_args(sm.inputs, i as int, args@) == atarget,
        decreases sig.inputs@.len() - i,
    {
        let ghost acc = args@;
        if i > 0 {
            push_str(&mut args, ", ");
        }
        write_llvm_ty(&mut args, &sig.inputs[i]);
        push_str(&mut args, " ");
        push_str(&mut args, zero_value_of(&sig.inputs[i]));
        let ghost item = llvm_ty(sm.inputs[i as int]) + " "@ + zero_value(sm.inputs[i as int]);
        assert(args@ =~= (if i == 0 {
            item
        } else {
            acc + ", "@ + item
        }));
        i = i + 1;
    }
    let mut sym: Vec<char> = Vec::new();
    push_str(&mut sym, "jb_");
    push_chars(&mut sym, sanitize_chars(en.as_slice()).as_slice());
    let mut w: Vec<char> = Vec::new();
    push_str(&mut w, "define i32 @main() {\n");
    push_str(&mut w, "entry:\n");
    let ghost w0 = w@;
    if matches!(sig.output, Type::Unit) {
        push_str(&mut w, "  call void @");
        push_chars(&mut w, sym.as_slice());
        push_str(&mut w, "(");
        push_chars(&mut w, args.as_slice());
        push_str(&mut w, ")\n");
        push_str(&mut w, "  ret i32 0\n");
        assert(w@ =~= w0 + ("  call void @"@ + mangle(entry@) + "("@ + atarget + ")\n"@ + "  ret i32 0\n"@));
    } else {
        push_str(&mut w, "  %result = call ");
        write_llvm_ty(&mut w, &sig.output);
        push_str(&mut w, " @");
        push_chars(&mut w, sym.as_slice());
        push_str(&mut w, "(");
        push_chars(&mut w, args.as_slice());
        push_str(&mut w, ")\n");
        let ghost w1 = w@;
        assert(w1 =~= w0 + ("  %result = call "@ + llvm_ty(sm.output) + " @"@ + mangle(entry@) + "("@ + atarget
            + ")\n"@));
        match sig.output {
            Type::I32 | Type::U32 => push_str(&mut w, "  ret i32 %result\n"),
            Type::I8 | Type::U8 | Type::I16 | Type::U16 | Type::Bool => {
                push_str(&mut w, "  %exit_code = zext ");
                write_llvm_ty(&mut w, &sig.output);
                push_str(&mut w, " %result to i32\n");
                push_str(&mut w, "  ret i32 %exit_code\n");
            },
            Type::I64 | Type::U64 => {
                push_str(&mut w, "  %exit_code = trunc i64 %result to i32\n");
                push_str(&mut w, "  ret i32 %exit_code\n");
            },
            _ => push_str(&mut w, "  ret i32 0\n"),
        }
    }
    push_str(&mut w, "}\n");
    assert(w@ =~= main_wrapper(entry@, sm));
    push_chars(out, w.as_slice());
    Ok(())
}

/// A program that has been checked, ready for lowering.
pub struct TypedProgram<'a> {
    pub program: &'a Program,
}

/// The LLVM text IR of a program, with a Linux `main` that calls `entry`
/// when one is named; an error when `entry` is not a function of the
/// program.
pub fn lower_typed_program_to_llvm_with_entry(typed: &TypedProgram, entry: Option<&str>) -> (r: Result<
    String,
    String,
>)
    ensures
        match entry {
            None => r matches Ok(s) && s@ == ir_program_text(program_m(*typed.program)),
            Some(e) => match entry_sig(program_m(*typed.program), e@) {
                Some(sig) => r matches Ok(s) && s@ == ir_program_text(program_m(*typed.program)) + main_wrapper(
                    e@,
                    sig,
                ),
                None => r matches Err(m) && m@ == "executable entrypoint function not found: "@ + e@,
            },
        },
{
    let program = typed.program;
    let funcs = collect_sigs(program);
    let ghost fm = program_m(*program);
    let ghost ctx = ir_ctx(fm);
    let mut out: Vec<char> = Vec::new();
    push_str(&mut out, "; JapalityBean LLVM text IR\n");
    push_str(&mut out, "declare void @debug_i32(i32)\n");
    push_str(&mut out, "declare void @debug_string({ i8*, i64 })\n");
    push_str(&mut out, "declare i32 @abs_i32(i32)\n");
    push_str(&mut out, "declare i1 @is_even_i32(i32)\n");
    push_str(&mut out, "declare i32 @max_i32(i32, i32)\n");
    push_str(&mut out, "declare i64 @vector_len_i32({ i32*, i64, i64 })\n\n");
    assert(out@ =~= ir_header());
    let mut i: usize = 0;
    while i < program.functions.len()
        invariant
            i <= program.functions@.len(),
            fm == program_m(*program),
            ictx_of(funcs@) == ctx,
            out@ + funcs_text(ctx, fm, i as int) == ir_program_text(fm),
        decreases program.functions@.len() - i,
    {
        let mut b = FunctionBuilder::new();
        let text = b.lower_function(&funcs, &program.functions[i]);
        assert(fm[i as int] == func_m(program.functions@[i as int]));
        let ghost before = out@;
        push_chars(&mut out, text.as_slice());
        push_str(&mut out, "\n");
        assert(out@ + funcs_text(ctx, fm, i + 1) =~= before + funcs_text(ctx, fm, i as int));
        i = i + 1;
    }
    assert(out@ =~= ir_program_text(fm));
    match entry {
        Some(e) => match append_linux_main_wrapper(&mut out, &funcs, e) {
            Ok(()) => {},
            Err(m) => {
                return Err(m);
            },
        },
        None => {},
    }
    Ok(chars_to_string(out.as_slice()))
}

/// The LLVM text IR of a program, without an entry wrapper.
pub fn lower_typed_program_to_llvm(typed: &TypedProgram) -> (s: String)
    ensures
        s@ == ir_program_text(program_m(*typed.program)),
{
    match lower_typed_program_to_llvm_with_entry(typed, None) {
        Ok(s) => s,
        Err(_) => {
            assert(false);
            String::new()
        },
    }
}

/// The LLVM text IR of a program.
pub fn lower_program_to_ir(program: &Program) -> (s: String)
    ensures
        s@ == ir_program_text(program_m(*program)),
{
    lower_typed_program_to_llvm(&TypedProgram { program })
}

} // verus!
