//! The native backend: x86-64 machine code for Linux, wrapped in a minimal
//! ELF executable.
//!
//! The module emits a start stub that reads integer arguments from `argv`
//! and exits with the entry function's result, two runtime helpers, the
//! functions of the program, and the static data; then it resolves the
//! 32-bit relative branches and 64-bit absolute addresses that refer to
//! labels. Every local has a stack slot below `rbp`; expressions leave their
//! value in `eax`. The behaviour is specified by the spec functions of this
//! module over the model of the syntax tree.
use crate::ast::{
    binding_m, bindings_m, copy_type, expr_m, exprs_m, func_m, funcs_m, lemma_call_m, lemma_loop_m, program_m,
    stmt_m, stmts_m, type_eq, ActionM, BinOp, BindingM, ConstructorExpr, CtorM, Expr, ExprM, FuncM,
    FunctionDecl, GuardAction, LitM, Literal, Node, NodeM, Program, Statement, StickyBinding, StmtM, Type,
    UnOp,
};
use crate::expr::{bump_counter, next_counter};
use crate::ir::{abs_int, compares, computes, div_toward_zero, lemma_rem_toward_zero};
use crate::text::{
    chars_eq, chars_eq_str, chars_to_string, copy_chars, dec_text, push_chars, push_dec, push_str,
    str_chars,
};
use vstd::prelude::*;
use vstd::utf8::encode_utf8;

verus! {

/// The address the executable is loaded at.
pub const BASE_ADDR: u64 = 0x400000;

/// The size of the ELF header.
pub const ELF_HEADER_SIZE: usize = 64;

/// The size of one program header.
pub const PROGRAM_HEADER_SIZE: usize = 56;

/// The file offset of the code: after the ELF header and one program header.
pub const CODE_OFFSET: usize = 120;

// ---------------------------------------------------------------------------
// Specification: encodings, names and layout
// ---------------------------------------------------------------------------
/// The four little-endian bytes of a 32-bit value.
pub open spec fn le32(v: u32) -> Seq<u8> {
    seq![(v & 0xff) as u8, ((v >> 8u32) & 0xff) as u8, ((v >> 16u32) & 0xff) as u8, ((v >> 24u32) & 0xff) as u8]
}

/// The four little-endian bytes of a signed 32-bit value.
pub open spec fn le32s(v: i32) -> Seq<u8> {
    le32(v as u32)
}

/// The two little-endian bytes of a 16-bit value.
pub open spec fn le16(v: u16) -> Seq<u8> {
    seq![(v & 0xff) as u8, ((v >> 8u16) & 0xff) as u8]
}

/// The eight little-endian bytes of a 64-bit value.
pub open spec fn le64(v: u64) -> Seq<u8> {
    le32((v & 0xffff_ffff) as u32) + le32((v >> 32u64) as u32)
}

pub open spec fn is_ascii_alnum(c: char) -> bool {
    ('0' <= c && c <= '9') || ('a' <= c && c <= 'z') || ('A' <= c && c <= 'Z')
}

/// A name with every character outside `[A-Za-z0-9_]` replaced by `_`.
pub open spec fn nsanitize(s: Seq<char>) -> Seq<char> {
    Seq::new(
        s.len(),
        |i: int|
            if is_ascii_alnum(s[i]) || s[i] == '_' {
                s[i]
            } else {
                '_'
            },
    )
}

pub open spec fn func_label(name: Seq<char>) -> Seq<char> {
    "func."@ + nsanitize(name)
}

pub open spec fn loop_index_name(node_id: Seq<char>) -> Seq<char> {
    "__idx_"@ + nsanitize(node_id)
}

pub open spec fn vec_data_name(binding: Seq<char>) -> Seq<char> {
    "__vecdata_"@ + nsanitize(binding)
}

/// The bytes a stack slot of the type takes.
pub open spec fn slot_size(t: Type) -> int {
    match t {
        Type::Vector(_) | Type::String => 24,
        Type::Option(_) | Type::Result(_, _) => 16,
        _ => 8,
    }
}

/// The types whose values are passed in integer registers.
pub open spec fn native_int(t: Type) -> bool {
    match t {
        Type::I8 | Type::I16 | Type::I32 | Type::I64 | Type::U8 | Type::U16 | Type::U32 | Type::U64
        | Type::Bool => true,
        _ => false,
    }
}

/// `value` rounded up to a multiple of `align`.
pub open spec fn align_up(value: int, align: int) -> int {
    ((value + align - 1) / align) * align
}

/// The argument registers, by position: the ModRM byte of `xor r, r`, of
/// `mov [rbp+disp32], r` and of `mov r, eax`.
pub open spec fn arg_xor(idx: int) -> u8 {
    if idx == 0 {
        0xff
    } else if idx == 1 {
        0xf6
    } else if idx == 2 {
        0xd2
    } else {
        0xc9
    }
}

pub open spec fn arg_store(idx: int) -> u8 {
    if idx == 0 {
        0xbd
    } else if idx == 1 {
        0xb5
    } else if idx == 2 {
        0x95
    } else {
        0x8d
    }
}

pub open spec fn arg_mov(idx: int) -> u8 {
    if idx == 0 {
        0xc7
    } else if idx == 1 {
        0xc6
    } else if idx == 2 {
        0xc2
    } else {
        0xc1
    }
}

// ---------------------------------------------------------------------------
// Specification: the module
// ---------------------------------------------------------------------------
/// The module being emitted: the code, the labels (a later mark of a name
/// replaces an earlier one), the pending relative and absolute patches, the
/// static data, and the label counter.
pub struct NSt {
    pub code: Seq<u8>,
    pub labels: Seq<(Seq<char>, int)>,
    pub patches: Seq<(int, Seq<char>)>,
    pub abs64: Seq<(int, Seq<char>)>,
    pub data: Seq<(Seq<char>, Seq<u8>)>,
    pub counter: int,
}

pub open spec fn n_bytes(st: NSt, b: Seq<u8>) -> NSt {
    NSt { code: st.code + b, ..st }
}

pub open spec fn n_i32(st: NSt, v: i32) -> NSt {
    n_bytes(st, le32s(v))
}

pub open spec fn n_mark(st: NSt, label: Seq<char>) -> NSt {
    NSt { labels: st.labels.push((label, st.code.len() as int)), ..st }
}

pub open spec fn n_rel32(st: NSt, label: Seq<char>) -> NSt {
    n_i32(NSt { patches: st.patches.push((st.code.len() as int, label)), ..st }, 0)
}

pub open spec fn n_call(st: NSt, label: Seq<char>) -> NSt {
    n_rel32(n_bytes(st, seq![0xe8u8]), label)
}

pub open spec fn n_jmp(st: NSt, label: Seq<char>) -> NSt {
    n_rel32(n_bytes(st, seq![0xe9u8]), label)
}

pub open spec fn n_jcc(st: NSt, opcode: u8, label: Seq<char>) -> NSt {
    n_rel32(n_bytes(st, seq![0x0fu8, opcode]), label)
}

pub open spec fn n_abs64(st: NSt, label: Seq<char>) -> NSt {
    n_bytes(
        NSt { abs64: st.abs64.push((st.code.len() as int, label)), ..st },
        seq![0u8, 0u8, 0u8, 0u8, 0u8, 0u8, 0u8, 0u8],
    )
}

/// A fresh label `prefix.N`.
pub open spec fn n_fresh(st: NSt, prefix: Seq<char>) -> (Seq<char>, NSt) {
    let n = next_counter(st.counter);
    (nsanitize(prefix) + "."@ + dec_text(n as nat), NSt { counter: n, ..st })
}

/// Static bytes under a fresh label, placed after the code.
pub open spec fn n_static(st: NSt, prefix: Seq<char>, bytes: Seq<u8>) -> (Seq<char>, NSt) {
    let f = n_fresh(st, prefix);
    (f.0, NSt { data: f.1.data.push((f.0, bytes)), ..f.1 })
}

/// The helper that reads a decimal `i32` from the string at `rdi`.
pub open spec fn parse_helper(st: NSt) -> NSt {
    let s1 = n_mark(st, "runtime.parse_i32"@);
    let s2 = n_bytes(s1, seq![0x31u8, 0xc0, 0x31, 0xc9, 0x0f, 0xb6, 0x17, 0x80, 0xfa, 0x2d]);
    let d = n_fresh(s2, "parse.digits"@);
    let s3 = n_jcc(d.1, 0x85, d.0);
    let s4 = n_bytes(n_i32(n_bytes(s3, seq![0xb9u8]), 1), seq![0x48u8, 0xff, 0xc7]);
    let s5 = n_mark(s4, d.0);
    let lp = n_fresh(s5, "parse.loop"@);
    let dn = n_fresh(lp.1, "parse.done"@);
    let ps = n_fresh(dn.1, "parse.positive"@);
    let s6 = n_bytes(n_mark(ps.1, lp.0), seq![0x0fu8, 0xb6, 0x17, 0x80, 0xfa, 0x30]);
    let s7 = n_bytes(n_jcc(s6, 0x82, dn.0), seq![0x80u8, 0xfa, 0x39]);
    let s8 = n_i32(n_bytes(n_jcc(s7, 0x87, dn.0), seq![0x69u8, 0xc0]), 10);
    let s9 = n_jmp(n_bytes(s8, seq![0x83u8, 0xea, 0x30, 0x01, 0xd0, 0x48, 0xff, 0xc7]), lp.0);
    let s10 = n_bytes(n_mark(s9, dn.0), seq![0x85u8, 0xc9]);
    let s11 = n_bytes(n_jcc(s10, 0x84, ps.0), seq![0xf7u8, 0xd8]);
    n_bytes(n_mark(s11, ps.0), seq![0xc3u8])
}

/// The helper that writes `edi` in decimal and a newline to standard output.
pub open spec fn debug_helper(st: NSt) -> NSt {
    let s1 = n_mark(st, "runtime.debug_i32"@);
    let s2 = n_bytes(
        s1,
        seq![0x55u8, 0x48, 0x89, 0xe5, 0x53, 0x48, 0x83, 0xec, 0x20, 0x89, 0xf8, 0x48, 0x8d, 0x75, 0xff, 0xc6, 0x06, 0x0a, 0xb9],
    );
    let s3 = n_bytes(n_i32(s2, 1), seq![0x83u8, 0xf8, 0x00]);
    let lp = n_fresh(s3, "debug.loop"@);
    let wr = n_fresh(lp.1, "debug.write"@);
    let s4 = n_jcc(wr.1, 0x85, lp.0);
    let s5 = n_jmp(n_bytes(s4, seq![0x48u8, 0xff, 0xce, 0xc6, 0x06, 0x30, 0xff, 0xc1]), wr.0);
    let s6 = n_i32(n_bytes(n_mark(s5, lp.0), seq![0x31u8, 0xd2, 0xbb]), 10);
    let s7 = n_bytes(
        s6,
        seq![0xf7u8, 0xf3, 0x80, 0xc2, 0x30, 0x48, 0xff, 0xce, 0x88, 0x16, 0xff, 0xc1, 0x85, 0xc0],
    );
    let s8 = n_jcc(s7, 0x85, lp.0);
    let s9 = n_i32(n_bytes(n_mark(s8, wr.0), seq![0xb8u8]), 1);
    let s10 = n_i32(n_bytes(s9, seq![0xbfu8]), 1);
    n_bytes(s10, seq![0x89u8, 0xca, 0x0f, 0x05, 0x48, 0x83, 0xc4, 0x20, 0x5b, 0x5d, 0xc3])
}

/// Loads the integer arguments of the entry from `argv`, from argument
/// `idx` on; a missing argument leaves the register zero.
pub open spec fn entry_args(st: NSt, ins: Seq<BindingM>, idx: int) -> NSt
    decreases ins.len() - idx,
{
    if 0 <= idx < ins.len() && idx < 4 {
        let s1 = n_bytes(st, seq![0x31u8, arg_xor(idx)]);
        let s2 = if native_int(ins[idx].ty) {
            let m = n_fresh(s1, "argv.missing"@);
            let a = n_i32(n_bytes(m.1, seq![0x48u8, 0x8b, 0xbc, 0x24]), (16 + idx * 8) as i32);
            let b = n_call(n_jcc(n_bytes(a, seq![0x48u8, 0x85, 0xff]), 0x84, m.0), "runtime.parse_i32"@);
            n_mark(n_bytes(b, seq![0x89u8, arg_mov(idx)]), m.0)
        } else {
            s1
        };
        entry_args(s2, ins, idx + 1)
    } else {
        st
    }
}

/// The index of the first function named `name`.
pub open spec fn first_named(funcs: Seq<NodeM<FuncM>>, name: Seq<char>, i: int) -> Option<int>
    decreases funcs.len() - i,
{
    if 0 <= i < funcs.len() {
        if funcs[i].kind.name == name {
            Some(i)
        } else {
            first_named(funcs, name, i + 1)
        }
    } else {
        None
    }
}

/// The start stub: load the entry's arguments, call it, exit with its result.
pub open spec fn start_stub(st: NSt, entry: Seq<char>, ins: Seq<BindingM>) -> NSt {
    let s1 = n_call(entry_args(st, ins, 0), func_label(entry));
    let s2 = n_i32(n_bytes(s1, seq![0x89u8, 0xc7, 0xb8]), 60);
    n_bytes(s2, seq![0x0fu8, 0x05])
}

// ---------------------------------------------------------------------------
// Specification: one function
// ---------------------------------------------------------------------------
pub struct NSlot {
    pub offset: int,
    pub ty: Type,
}

/// The state of emitting one function: the module, the stack slots (each
/// name at most once), the size of the frame so far, whether the current
/// path has returned, and the enclosing loops' latch and exit labels.
pub struct FSt {
    pub m: NSt,
    pub locals: Seq<(Seq<char>, NSlot)>,
    pub next_offset: int,
    pub returned: bool,
    pub loops: Seq<(Seq<char>, Seq<char>)>,
}

pub type NRes = Result<FSt, Seq<char>>;

pub open spec fn f_bytes(f: FSt, b: Seq<u8>) -> FSt {
    FSt { m: n_bytes(f.m, b), ..f }
}

pub open spec fn f_i32(f: FSt, v: i32) -> FSt {
    FSt { m: n_i32(f.m, v), ..f }
}

pub open spec fn f_m(f: FSt, m: NSt) -> FSt {
    FSt { m, ..f }
}

/// The slot of `name` among the first `n` slots.
pub open spec fn local_get(locals: Seq<(Seq<char>, NSlot)>, name: Seq<char>, n: int) -> Option<NSlot>
    decreases n,
{
    if n <= 0 || n > locals.len() {
        None
    } else if locals[n - 1].0 == name {
        Some(locals[n - 1].1)
    } else {
        local_get(locals, name, n - 1)
    }
}

pub open spec fn local(f: FSt, name: Seq<char>) -> Option<NSlot> {
    local_get(f.locals, name, f.locals.len() as int)
}

/// The frame offset stops growing at the largest 32-bit value.
pub open spec fn sat_i32(v: int) -> int {
    if v > 0x7fff_ffff {
        0x7fff_ffff
    } else {
        v
    }
}

/// Gives `name` a slot below the previous ones, unless it has one.
pub open spec fn alloc_slot(f: FSt, name: Seq<char>, ty: Type) -> FSt {
    if local(f, name) is Some {
        f
    } else {
        let n = sat_i32(f.next_offset + slot_size(ty));
        FSt { locals: f.locals.push((name, NSlot { offset: n, ty })), next_offset: n, ..f }
    }
}

pub open spec fn is_vec3_call(e: NodeM<ExprM>) -> bool {
    e.kind matches ExprM::Call { callee, .. } && callee == "vector_i32_3"@
}

/// The slots of a statement and of the statements nested in it.
pub open spec fn collect_stmt(f: FSt, s: NodeM<StmtM>) -> FSt
    decreases s, 0int,
{
    match s.kind {
        StmtM::Let { binding, value } => {
            let f1 = alloc_slot(f, binding.name, binding.ty);
            if is_vec3_call(value) {
                alloc_slot(f1, vec_data_name(binding.name), Type::Option(Box::new(Type::I32)))
            } else {
                f1
            }
        },
        StmtM::Loop { item, collection, body, close_name } => {
            let f1 = alloc_slot(alloc_slot(f, item.name, item.ty), loop_index_name(s.id), Type::I64);
            collect_stmts(f1, body, 0)
        },
        _ => f,
    }
}

pub open spec fn collect_stmts(f: FSt, stmts: Seq<NodeM<StmtM>>, i: int) -> FSt
    decreases stmts, stmts.len() - i,
{
    if 0 <= i < stmts.len() {
        collect_stmts(collect_stmt(f, stmts[i]), stmts, i + 1)
    } else {
        f
    }
}

pub open spec fn alloc_inputs(f: FSt, ins: Seq<BindingM>, i: int) -> FSt
    decreases ins.len() - i,
{
    if 0 <= i < ins.len() {
        alloc_inputs(alloc_slot(f, ins[i].name, ins[i].ty), ins, i + 1)
    } else {
        f
    }
}

/// The slots of a function: its inputs, its output, then the bindings of its
/// body in order.
pub open spec fn collect_slots(f: FSt, func: FuncM) -> FSt {
    collect_stmts(alloc_slot(alloc_inputs(f, func.inputs, 0), func.output.name, func.output.ty), func.body, 0)
}

pub open spec fn unresolved_local(name: Seq<char>) -> Seq<char> {
    "native backend could not resolve local: "@ + name
}

/// An instruction `prefix [rbp+disp32]` on the slot of `name` at
/// `field_offset` bytes into it.
pub open spec fn f_slot_op(f: FSt, prefix: Seq<u8>, name: Seq<char>, field_offset: int) -> NRes {
    match local(f, name) {
        Some(slot) => Ok(f_i32(f_bytes(f, prefix), (field_offset - slot.offset) as i32)),
        None => Err(unresolved_local(name)),
    }
}

pub open spec fn mov_eax_mem(f: FSt, name: Seq<char>, off: int) -> NRes {
    f_slot_op(f, seq![0x8bu8, 0x85], name, off)
}

pub open spec fn mov_mem_eax(f: FSt, name: Seq<char>, off: int) -> NRes {
    f_slot_op(f, seq![0x89u8, 0x85], name, off)
}

pub open spec fn lea_rax(f: FSt, name: Seq<char>, off: int) -> NRes {
    f_slot_op(f, seq![0x48u8, 0x8d, 0x85], name, off)
}

pub open spec fn mov_rax_mem(f: FSt, name: Seq<char>, off: int) -> NRes {
    f_slot_op(f, seq![0x48u8, 0x8b, 0x85], name, off)
}

pub open spec fn mov_mem_rax(f: FSt, name: Seq<char>, off: int) -> NRes {
    f_slot_op(f, seq![0x48u8, 0x89, 0x85], name, off)
}

/// `mov qword [slot + off], imm32`.
pub open spec fn mov_mem_imm(f: FSt, name: Seq<char>, off: int, value: i32) -> NRes {
    match f_slot_op(f, seq![0x48u8, 0xc7, 0x85], name, off) {
        Ok(f1) => Ok(f_i32(f1, value)),
        Err(e) => Err(e),
    }
}

pub open spec fn f_return(f: FSt) -> FSt {
    f_bytes(f, seq![0x48u8, 0x89, 0xec, 0x5d, 0xc3])
}

/// Zeroes the quadwords from `idx` on of the slot of `name`.
pub open spec fn zero_words(f: FSt, name: Seq<char>, idx: int, words: int) -> NRes
    decreases words - idx,
{
    if 0 <= idx < words {
        match mov_mem_imm(f, name, idx * 8, 0) {
            Ok(f1) => zero_words(f1, name, idx + 1, words),
            Err(e) => Err(e),
        }
    } else {
        Ok(f)
    }
}

/// Zeroes every slot from slot `k` on, in the order the slots were given.
pub open spec fn zero_slots(f: FSt, slots: Seq<(Seq<char>, NSlot)>, k: int) -> NRes
    decreases slots.len() - k,
{
    if 0 <= k < slots.len() {
        match zero_words(f, slots[k].0, 0, slot_size(slots[k].1.ty) / 8) {
            Ok(f1) => zero_slots(f1, slots, k + 1),
            Err(e) => Err(e),
        }
    } else {
        Ok(f)
    }
}

/// Stores the integer arguments in their slots, from input `idx` on.
pub open spec fn store_args(f: FSt, ins: Seq<BindingM>, idx: int) -> NRes
    decreases ins.len() - idx,
{
    if 0 <= idx < ins.len() && idx < 4 {
        if native_int(ins[idx].ty) {
            match f_slot_op(f, seq![0x89u8, arg_store(idx)], ins[idx].name, 0) {
                Ok(f1) => store_args(f1, ins, idx + 1),
                Err(e) => Err(e),
            }
        } else {
            store_args(f, ins, idx + 1)
        }
    } else {
        Ok(f)
    }
}

/// `eax := eax op ecx`.
pub open spec fn binop_bytes(op: BinOp) -> Seq<u8> {
    match op {
        BinOp::Add => seq![0x01u8, 0xc8],
        BinOp::Sub => seq![0x29u8, 0xc8],
        BinOp::Mul => seq![0x0fu8, 0xaf, 0xc1],
        BinOp::Div => seq![0x99u8, 0xf7, 0xf9],
        BinOp::Mod => seq![0x99u8, 0xf7, 0xf9, 0x89, 0xd0],
        BinOp::And => seq![0x21u8, 0xc8],
        BinOp::Or => seq![0x09u8, 0xc8],
        _ => seq![0x39u8, 0xc8, 0x0f, setcc(op), 0xc0, 0x0f, 0xb6, 0xc0],
    }
}

/// The `setcc` opcode of a comparison.
pub open spec fn setcc(op: BinOp) -> u8 {
    match op {
        BinOp::Eq => 0x94,
        BinOp::Neq => 0x95,
        BinOp::Lt => 0x9c,
        BinOp::Le => 0x9e,
        BinOp::Gt => 0x9f,
        _ => 0x9d,
    }
}

pub open spec fn arg_count_error(name: Seq<char>, expected: nat, got: nat) -> Seq<char> {
    "native builtin "@ + name + " expected "@ + dec_text(expected) + " arguments but got "@ + dec_text(got)
}

pub open spec fn runtime_abi_error() -> Seq<char> {
    "native backend currently lowers executable integer/control-flow code; string, float, Option, and Result values need the runtime ABI"@
}

/// Pops `n` pushed arguments into the argument registers, last first.
pub open spec fn pop_args(n: int) -> Seq<u8>
    decreases n,
{
    if n <= 0 {
        Seq::empty()
    } else {
        seq![0x58u8, 0x89, arg_mov(n - 1)] + pop_args(n - 1)
    }
}

/// Emits an expression, leaving its value in `eax`.
pub open spec fn emit_expr(f: FSt, e: NodeM<ExprM>) -> NRes
    decreases e, 0int,
{
    match e.kind {
        ExprM::Lit(LitM::Int(v)) => Ok(f_i32(f_bytes(f, seq![0xb8u8]), v as i32)),
        ExprM::Lit(LitM::Bool(b)) => Ok(
            f_i32(
                f_bytes(f, seq![0xb8u8]),
                if b {
                    1
                } else {
                    0
                },
            ),
        ),
        ExprM::Ident(name) => mov_eax_mem(f, name, 0),
        ExprM::Paren(inner) => emit_expr(f, *inner),
        ExprM::Unary { op, operand } => match emit_expr(f, *operand) {
            Ok(f1) => Ok(
                f_bytes(
                    f1,
                    match op {
                        UnOp::Neg => seq![0xf7u8, 0xd8],
                        UnOp::Not => seq![0x83u8, 0xf8, 0x00, 0x0f, 0x94, 0xc0, 0x0f, 0xb6, 0xc0],
                    },
                ),
            ),
            Err(m) => Err(m),
        },
        ExprM::Binary { op, lhs, rhs } => match emit_expr(f, *lhs) {
            Ok(f1) => match emit_expr(f_bytes(f1, seq![0x50u8]), *rhs) {
                Ok(f2) => Ok(f_bytes(f_bytes(f2, seq![0x89u8, 0xc1, 0x58]), binop_bytes(op))),
                Err(m) => Err(m),
            },
            Err(m) => Err(m),
        },
        ExprM::Call { callee, args } => if callee == "debug_i32"@ {
            if args.len() != 1 {
                Err(arg_count_error(callee, 1, args.len()))
            } else {
                match emit_expr(f, args[0]) {
                    Ok(f1) => {
                        let f2 = f_bytes(f1, seq![0x89u8, 0xc7]);
                        Ok(f_bytes(f_m(f2, n_call(f2.m, "runtime.debug_i32"@)), seq![0x31u8, 0xc0]))
                    },
                    Err(m) => Err(m),
                }
            }
        } else if callee == "debug_string"@ {
            if args.len() != 1 {
                Err(arg_count_error(callee, 1, args.len()))
            } else {
                match args[0].kind {
                    ExprM::Lit(LitM::Str(value)) => {
                        let bytes = encode_utf8(value);
                        let sl = n_static(f.m, "string.literal"@, bytes);
                        let f1 = f_i32(f_bytes(f_i32(f_bytes(f_m(f, sl.1), seq![0xb8u8]), 1), seq![0xbfu8]), 1);
                        let f2 = f_bytes(f1, seq![0x48u8, 0xbe]);
                        let f3 = f_m(f2, n_abs64(f2.m, sl.0));
                        Ok(f_bytes(f_i32(f_bytes(f3, seq![0xbau8]), bytes.len() as i32), seq![0x0fu8, 0x05, 0x31, 0xc0]))
                    },
                    _ => Err("native debug_string currently requires a string literal"@),
                }
            }
        } else if callee == "abs_i32"@ {
            if args.len() != 1 {
                Err(arg_count_error(callee, 1, args.len()))
            } else {
                match emit_expr(f, args[0]) {
                    Ok(f1) => Ok(f_bytes(f1, seq![0x89u8, 0xc1, 0xf7, 0xd9, 0x83, 0xf8, 0x00, 0x0f, 0x48, 0xc1])),
                    Err(m) => Err(m),
                }
            }
        } else if callee == "is_even_i32"@ {
            if args.len() != 1 {
                Err(arg_count_error(callee, 1, args.len()))
            } else {
                match emit_expr(f, args[0]) {
                    Ok(f1) => Ok(
                        f_bytes(f1, seq![0x83u8, 0xe0, 0x01, 0x83, 0xf8, 0x00, 0x0f, 0x94, 0xc0, 0x0f, 0xb6, 0xc0]),
                    ),
                    Err(m) => Err(m),
                }
            }
        } else if callee == "max_i32"@ {
            if args.len() != 2 {
                Err(arg_count_error(callee, 2, args.len()))
            } else {
                match emit_expr(f, args[0]) {
                    Ok(f1) => match emit_expr(f_bytes(f1, seq![0x50u8]), args[1]) {
                        Ok(f2) => Ok(f_bytes(f2, seq![0x89u8, 0xc1, 0x58, 0x39, 0xc8, 0x0f, 0x4c, 0xc1])),
                        Err(m) => Err(m),
                    },
                    Err(m) => Err(m),
                }
            }
        } else if callee == "vector_len_i32"@ {
            if args.len() != 1 {
                Err(arg_count_error(callee, 1, args.len()))
            } else {
                match args[0].kind {
                    ExprM::Ident(name) => mov_eax_mem(f, name, 8),
                    _ => Err("native vector_len_i32 currently requires a vector identifier"@),
                }
            }
        } else if callee == "vector_i32_3"@ {
            Err("native vector_i32_3 must initialize a Vector<i32> binding"@)
        } else if args.len() > 4 {
            Err("native backend currently supports up to 6 integer call arguments"@)
        } else {
            match push_args(f, args, 0) {
                Ok(f1) => {
                    let f2 = f_bytes(f1, pop_args(args.len() as int));
                    Ok(f_m(f2, n_call(f2.m, func_label(callee))))
                },
                Err(m) => Err(m),
            }
        },
        ExprM::Cast { expr, target } => emit_expr(f, *expr),
        _ => Err(runtime_abi_error()),
    }
}

/// Evaluates and pushes the arguments from argument `i` on.
pub open spec fn push_args(f: FSt, args: Seq<NodeM<ExprM>>, i: int) -> NRes
    decreases args, args.len() - i,
{
    if 0 <= i < args.len() {
        match emit_expr(f, args[i]) {
            Ok(f1) => push_args(f_bytes(f1, seq![0x50u8]), args, i + 1),
            Err(m) => Err(m),
        }
    } else {
        Ok(f)
    }
}

/// Stores the arguments of `vector_i32_3` from argument `i` on in the
/// binding's data slot.
pub open spec fn vec3_args(f: FSt, args: Seq<NodeM<ExprM>>, i: int, data: Seq<char>) -> NRes
    decreases args.len() - i,
{
    if 0 <= i < args.len() {
        match emit_expr(f, args[i]) {
            Ok(f1) => match mov_mem_eax(f1, data, i * 4) {
                Ok(f2) => vec3_args(f2, args, i + 1, data),
                Err(m) => Err(m),
            },
            Err(m) => Err(m),
        }
    } else {
        Ok(f)
    }
}

/// `let v::Vector<i32> = vector_i32_3(a, b, c)`: the three values in the
/// data slot, and the vector's pointer, length and capacity in its slot.
pub open spec fn vec3_let(f: FSt, binding: BindingM, args: Seq<NodeM<ExprM>>) -> NRes {
    if args.len() != 3 {
        Err(arg_count_error("vector_i32_3"@, 3, args.len()))
    } else if !(binding.ty is Vector) {
        Err("native vector_i32_3 must initialize a Vector<i32> binding"@)
    } else {
        let data = vec_data_name(binding.name);
        match vec3_args(f, args, 0, data) {
            Ok(f1) => match lea_rax(f1, data, 0) {
                Ok(f2) => match mov_mem_rax(f2, binding.name, 0) {
                    Ok(f3) => match mov_mem_imm(f3, binding.name, 8, 3) {
                        Ok(f4) => mov_mem_imm(f4, binding.name, 16, 3),
                        Err(m) => Err(m),
                    },
                    Err(m) => Err(m),
                },
                Err(m) => Err(m),
            },
            Err(m) => Err(m),
        }
    }
}

/// A guard's action; `next` is the label after the guard.
pub open spec fn emit_action(f: FSt, a: ActionM, next: Seq<char>) -> NRes {
    match a {
        ActionM::Continue => if f.loops.len() > 0 {
            Ok(f_m(f, n_jmp(f.m, f.loops.last().0)))
        } else {
            Err("native backend found @continue outside loop"@)
        },
        ActionM::Break => if f.loops.len() > 0 {
            Ok(f_m(f, n_jmp(f.m, f.loops.last().1)))
        } else {
            Err("native backend found @break outside loop"@)
        },
        ActionM::Return(e) => match emit_expr(f, e) {
            Ok(f1) => Ok(FSt { returned: true, ..f_return(f1) }),
            Err(m) => Err(m),
        },
        ActionM::SetAssign { target, value } => match emit_expr(f, value) {
            Ok(f1) => match mov_mem_eax(f1, target, 0) {
                Ok(f2) => Ok(f_m(f2, n_jmp(f2.m, next))),
                Err(m) => Err(m),
            },
            Err(m) => Err(m),
        },
    }
}

/// The statements of a block from statement `i` on, up to a return.
pub open spec fn emit_block(f: FSt, stmts: Seq<NodeM<StmtM>>, i: int) -> NRes
    decreases stmts, stmts.len() - i,
{
    if 0 <= i < stmts.len() && !f.returned {
        match emit_stmt(f, stmts[i]) {
            Ok(f1) => emit_block(f1, stmts, i + 1),
            Err(m) => Err(m),
        }
    } else {
        Ok(f)
    }
}

pub open spec fn is_loop_item_type(t: Type) -> bool {
    t == Type::I32 || t == Type::U32 || t == Type::Bool
}

/// A loop over a `Vector<i32>` slot: the index slot counts from zero to the
/// vector's length.
pub open spec fn emit_loop(f: FSt, id: Seq<char>, item: BindingM, collection: Seq<char>, body: Seq<NodeM<StmtM>>) -> NRes
    decreases body, body.len() + 1,
{
    match local(f, collection) {
        None => Err("native backend could not resolve loop collection: "@ + collection),
        Some(slot) => match slot.ty {
            Type::Vector(inner) => if !is_loop_item_type(*inner) {
                Err("native backend loops currently support Vector<i32> items"@)
            } else {
                let idx = loop_index_name(id);
                match mov_mem_imm(f, idx, 0, 0) {
                    Err(m) => Err(m),
                    Ok(f1) => {
                        let h = n_fresh(f1.m, "loop.header"@);
                        let b = n_fresh(h.1, "loop.body"@);
                        let la = n_fresh(b.1, "loop.latch"@);
                        let ex = n_fresh(la.1, "loop.exit"@);
                        let f2 = f_m(f1, n_mark(ex.1, h.0));
                        match mov_rax_mem(f2, idx, 0) {
                            Err(m) => Err(m),
                            Ok(f3) => {
                                let f4 = f_bytes(
                                    f_i32(f_bytes(f3, seq![0x48u8, 0x8b, 0x8d]), (-(slot.offset - 8)) as i32),
                                    seq![0x48u8, 0x39, 0xc8],
                                );
                                let m5 = n_mark(n_jmp(n_jcc(f4.m, 0x8d, ex.0), b.0), b.0);
                                let f5 = f_i32(f_bytes(f_m(f4, m5), seq![0x48u8, 0x8b, 0x95]), (-slot.offset) as i32);
                                match mov_rax_mem(f5, idx, 0) {
                                    Err(m) => Err(m),
                                    Ok(f6) => match mov_mem_eax(f_bytes(f6, seq![0x8bu8, 0x04, 0x82]), item.name, 0) {
                                        Err(m) => Err(m),
                                        Ok(f7) => {
                                            let f8 = FSt { loops: f7.loops.push((la.0, ex.0)), returned: false, ..f7 };
                                            match emit_block(f8, body, 0) {
                                                Err(m) => Err(m),
                                                Ok(f9) => {
                                                    let f10 = FSt {
                                                        loops: if f9.loops.len() > 0 {
                                                            f9.loops.drop_last()
                                                        } else {
                                                            f9.loops
                                                        },
                                                        ..f9
                                                    };
                                                    let f11 = if !f10.returned {
                                                        f_m(f10, n_jmp(f10.m, la.0))
                                                    } else {
                                                        f10
                                                    };
                                                    let f12 = FSt { returned: false, m: n_mark(f11.m, la.0), ..f11 };
                                                    match mov_rax_mem(f12, idx, 0) {
                                                        Err(m) => Err(m),
                                                        Ok(f13) => match mov_mem_rax(
                                                            f_bytes(f13, seq![0x48u8, 0x83, 0xc0, 0x01]),
                                                            idx,
                                                            0,
                                                        ) {
                                                            Err(m) => Err(m),
                                                            Ok(f14) => Ok(f_m(f14, n_mark(n_jmp(f14.m, h.0), ex.0))),
                                                        },
                                                    }
                                                },
                                            }
                                        },
                                    },
                                }
                            },
                        }
                    },
                }
            },
            _ => Err("native backend loops currently require Vector<T>"@),
        },
    }
}

/// One statement.
pub open spec fn emit_stmt(f: FSt, s: NodeM<StmtM>) -> NRes
    decreases s, 0int,
{
    match s.kind {
        StmtM::Let { binding, value } => if is_vec3_call(value) {
            vec3_let(f, binding, value.kind->Call_args)
        } else {
            match emit_expr(f, value) {
                Ok(f1) => mov_mem_eax(f1, binding.name, 0),
                Err(m) => Err(m),
            }
        },
        StmtM::SetVar { target, value } => match emit_expr(f, value) {
            Ok(f1) => mov_mem_eax(f1, target, 0),
            Err(m) => Err(m),
        },
        StmtM::Return { value } => {
            let r = match value {
                Some(v) => emit_expr(f, v),
                None => Ok(f_bytes(f, seq![0x31u8, 0xc0])),
            };
            match r {
                Ok(f1) => Ok(FSt { returned: true, ..f_return(f1) }),
                Err(m) => Err(m),
            }
        },
        StmtM::Loop { item, collection, body, close_name } => emit_loop(f, s.id, item, collection, body),
        StmtM::Condition { name, guard } => {
            let nx = n_fresh(f.m, "cond."@ + name + ".next"@);
            match emit_expr(f_m(f, nx.1), guard.kind.cond) {
                Err(m) => Err(m),
                Ok(f1) => {
                    let f2 = f_bytes(f1, seq![0x83u8, 0xf8, 0x00]);
                    match emit_action(f_m(f2, n_jcc(f2.m, 0x84, nx.0)), guard.kind.action, nx.0) {
                        Err(m) => Err(m),
                        Ok(f3) => Ok(FSt { returned: false, m: n_mark(f3.m, nx.0), ..f3 }),
                    }
                },
            }
        },
        StmtM::Expr(e) => emit_expr(f, e),
    }
}

/// The frame size of the slots, a multiple of 16 (stopping at the largest
/// 32-bit value).
pub open spec fn frame_size(next_offset: int) -> int {
    sat_i32(align_up(next_offset, 16))
}

/// One function: the prologue, zeroed slots, the stored arguments, the body,
/// and, unless every path returned, a return of the output slot.
pub open spec fn function_code(m: NSt, func: FuncM) -> Result<NSt, Seq<char>> {
    let f0 = collect_slots(FSt { m, locals: Seq::empty(), next_offset: 0, returned: false, loops: Seq::empty() }, func);
    let f1 = f_i32(
        f_bytes(f_m(f0, n_mark(f0.m, func_label(func.name))), seq![0x55u8, 0x48, 0x89, 0xe5, 0x48, 0x81, 0xec]),
        frame_size(f0.next_offset) as i32,
    );
    match zero_slots(f1, f1.locals, 0) {
        Err(e) => Err(e),
        Ok(f2) => match store_args(f2, func.inputs, 0) {
            Err(e) => Err(e),
            Ok(f3) => match emit_block(f3, func.body, 0) {
                Err(e) => Err(e),
                Ok(f4) => if f4.returned {
                    Ok(f4.m)
                } else {
                    match mov_eax_mem(f4, func.output.name, 0) {
                        Err(e) => Err(e),
                        Ok(f5) => Ok(f_return(f5).m),
                    }
                },
            },
        },
    }
}

/// The functions from function `i` on.
pub open spec fn emit_functions(m: NSt, funcs: Seq<NodeM<FuncM>>, i: int) -> Result<NSt, Seq<char>>
    decreases funcs.len() - i,
{
    if 0 <= i < funcs.len() {
        match function_code(m, funcs[i].kind) {
            Ok(m1) => emit_functions(m1, funcs, i + 1),
            Err(e) => Err(e),
        }
    } else {
        Ok(m)
    }
}

/// The static data from item `i` on, each under its label.
pub open spec fn emit_data(m: NSt, data: Seq<(Seq<char>, Seq<u8>)>, i: int) -> NSt
    decreases data.len() - i,
{
    if 0 <= i < data.len() {
        emit_data(n_bytes(n_mark(m, data[i].0), data[i].1), data, i + 1)
    } else {
        m
    }
}

/// The position of the latest mark of `label` among the first `n` marks.
pub open spec fn label_pos(labels: Seq<(Seq<char>, int)>, label: Seq<char>, n: int) -> Option<int>
    decreases n,
{
    if n <= 0 || n > labels.len() {
        None
    } else if labels[n - 1].0 == label {
        Some(labels[n - 1].1)
    } else {
        label_pos(labels, label, n - 1)
    }
}

/// `code` with `bytes` written at `pos`.
pub open spec fn write_at(code: Seq<u8>, pos: int, bytes: Seq<u8>) -> Seq<u8> {
    code.subrange(0, pos) + bytes + code.subrange(pos + bytes.len(), code.len() as int)
}

/// Resolves the relative branches from patch `k` on: each gets the distance
/// from the end of its 32-bit field to its label.
pub open spec fn patch_rel32(m: NSt, k: int) -> Result<NSt, Seq<char>>
    decreases m.patches.len() - k,
{
    if 0 <= k < m.patches.len() {
        let p = m.patches[k];
        match label_pos(m.labels, p.1, m.labels.len() as int) {
            None => Err("native backend unresolved label: "@ + p.1),
            Some(target) => {
                let rel = target - (p.0 + 4);
                if rel < -0x8000_0000 || rel > 0x7fff_ffff {
                    Err("native backend branch is out of range: "@ + p.1)
                } else {
                    patch_rel32(NSt { code: write_at(m.code, p.0, le32s(rel as i32)), ..m }, k + 1)
                }
            },
        }
    } else {
        Ok(m)
    }
}

/// Resolves the absolute addresses from patch `k` on: each gets the load
/// address of its label.
pub open spec fn patch_abs64(m: NSt, k: int) -> Result<NSt, Seq<char>>
    decreases m.abs64.len() - k,
{
    if 0 <= k < m.abs64.len() {
        let p = m.abs64[k];
        match label_pos(m.labels, p.1, m.labels.len() as int) {
            None => Err("native backend unresolved data label: "@ + p.1),
            Some(target) => patch_abs64(
                NSt {
                    code: write_at(m.code, p.0, le64(((0x400078 + target) % 0x1_0000_0000_0000_0000) as u64)),
                    ..m
                },
                k + 1,
            ),
        }
    } else {
        Ok(m)
    }
}

pub open spec fn empty_module() -> NSt {
    NSt {
        code: Seq::empty(),
        labels: Seq::empty(),
        patches: Seq::empty(),
        abs64: Seq::empty(),
        data: Seq::empty(),
        counter: 0,
    }
}

/// The code of a program with the given entry function (which exists): the
/// start stub, the helpers, the functions, the data, with every label
/// resolved.
pub open spec fn module_code(funcs: Seq<NodeM<FuncM>>, entry: Seq<char>, ins: Seq<BindingM>) -> Result<
    Seq<u8>,
    Seq<char>,
> {
    let m1 = debug_helper(parse_helper(start_stub(empty_module(), entry, ins)));
    match emit_functions(m1, funcs, 0) {
        Err(e) => Err(e),
        Ok(m2) => {
            let m3 = emit_data(NSt { data: Seq::empty(), ..m2 }, m2.data, 0);
            match patch_rel32(m3, 0) {
                Err(e) => Err(e),
                Ok(m4) => match patch_abs64(m4, 0) {
                    Err(e) => Err(e),
                    Ok(m5) => Ok(m5.code),
                },
            }
        },
    }
}

/// The ELF header and the one loadable, readable and executable segment
/// that holds the whole file, followed by the code.
pub open spec fn elf_image(code: Seq<u8>) -> Seq<u8> {
    let file_size = ((120 + code.len()) % 0x1_0000_0000_0000_0000) as u64;
    seq![0x7fu8, 0x45, 0x4c, 0x46, 2, 1, 1, 0, 0, 0, 0, 0, 0, 0, 0, 0] + le16(2) + le16(62) + le32(1) + le64(
        0x400078,
    ) + le64(64) + le64(0) + le32(0) + le16(64) + le16(56) + le16(1) + le16(0) + le16(0) + le16(0) + le32(1)
        + le32(5) + le64(0) + le64(0x400000) + le64(0x400000) + le64(file_size) + le64(file_size) + le64(0x1000)
        + code
}

/// The executable of a program for the named entry function, or the reason
/// it cannot be built.
pub open spec fn executable_spec(funcs: Seq<NodeM<FuncM>>, entry: Seq<char>) -> Result<Seq<u8>, Seq<char>> {
    match first_named(funcs, entry, 0) {
        None => Err("native entrypoint function not found: "@ + entry),
        Some(k) => match module_code(funcs, entry, funcs[k].kind.inputs) {
            Ok(code) => Ok(elf_image(code)),
            Err(e) => Err(e),
        },
    }
}

/// The layout of the executable: the `\x7fELF` magic of a 64-bit
/// little-endian file, the entry point right after the headers, and the
/// code, unchanged, from the code offset to the end of the file.
pub proof fn lemma_elf_layout(code: Seq<u8>)
    ensures
        elf_image(code).len() == CODE_OFFSET + code.len(),
        elf_image(code).subrange(0, 6) == seq![0x7fu8, 0x45u8, 0x4cu8, 0x46u8, 2u8, 1u8],
        elf_image(code).subrange(24, 32) == le64((BASE_ADDR + CODE_OFFSET) as u64),
        elf_image(code).subrange(CODE_OFFSET as int, elf_image(code).len() as int) == code,
{
    let img = elf_image(code);
    let head = img.subrange(0, 120);
    assert(img.len() == 120 + code.len());
    assert(img =~= head + code);
    assert(img.subrange(0, 6) =~= seq![0x7fu8, 0x45u8, 0x4cu8, 0x46u8, 2u8, 1u8]);
    assert(img.subrange(24, 32) =~= le64(0x400078));
    assert(img.subrange(120, img.len() as int) =~= code);
}

/// The frame of a function holds its slots and keeps the stack aligned:
/// it is a multiple of 16 and at least the slots' size, while that fits
/// in 32 bits.
pub proof fn lemma_frame_size_aligned(next_offset: int)
    requires
        0 <= next_offset <= 0x7fff_fff0,
    ensures
        frame_size(next_offset) % 16 == 0,
        next_offset <= frame_size(next_offset) < next_offset + 16,
{
    let a = align_up(next_offset, 16);
    assert(a == ((next_offset + 15) / 16) * 16);
    assert(a % 16 == 0 && next_offset <= a < next_offset + 16) by (nonlinear_arith)
        requires
            a == ((next_offset + 15) / 16) * 16,
            0 <= next_offset,
    ;
}

// ---------------------------------------------------------------------------
// The operator bytes compute the operators
// ---------------------------------------------------------------------------
/// The registers an x86-64 operator sequence reads and writes: `eax`,
/// `ecx`, `edx` as signed 32-bit values, and the two operands of the last
/// `cmp`.
pub struct X86Regs {
    pub eax: int,
    pub ecx: int,
    pub edx: int,
    pub cond_left: int,
    pub cond_right: int,
}

/// A 32-bit result kept as a signed value: the value modulo 2^32, between
/// -2^31 and 2^31 - 1.
pub open spec fn wrap32(x: int) -> int {
    let m = x % 0x1_0000_0000;
    if m >= 0x8000_0000 {
        m - 0x1_0000_0000
    } else {
        m
    }
}

pub open spec fn reg_get(r: X86Regs, n: int) -> Option<int> {
    if n == 0 {
        Some(r.eax)
    } else if n == 1 {
        Some(r.ecx)
    } else if n == 2 {
        Some(r.edx)
    } else {
        None
    }
}

pub open spec fn reg_set(r: X86Regs, n: int, v: int) -> X86Regs {
    if n == 0 {
        X86Regs { eax: v, ..r }
    } else if n == 1 {
        X86Regs { ecx: v, ..r }
    } else {
        X86Regs { edx: v, ..r }
    }
}

/// Whether the condition of a `setcc` opcode (`0f 9x`) holds after
/// `cmp left, right`: `sete`, `setne`, `setl`, `setge`, `setle`, `setg`.
pub open spec fn setcc_holds(code: u8, left: int, right: int) -> Option<bool> {
    if code == 0x94 {
        Some(left == right)
    } else if code == 0x95 {
        Some(left != right)
    } else if code == 0x9c {
        Some(left < right)
    } else if code == 0x9d {
        Some(left >= right)
    } else if code == 0x9e {
        Some(left <= right)
    } else if code == 0x9f {
        Some(left > right)
    } else {
        None
    }
}

/// Both operands 0 or 1: the bitwise `and` and `or` of such values.
pub open spec fn bit_and01(a: int, b: int) -> int {
    if a == 1 && b == 1 {
        1
    } else {
        0
    }
}

pub open spec fn bit_or01(a: int, b: int) -> int {
    if a == 1 || b == 1 {
        1
    } else {
        0
    }
}

/// `cdq`: `edx` takes the sign of `eax`.
pub open spec fn x86_cdq(r: X86Regs) -> X86Regs {
    X86Regs { edx: if r.eax < 0 { -1 } else { 0 }, ..r }
}

/// One one-byte-opcode instruction with register operands (ModRM byte `m`
/// in mode 3, `rm` its low three bits, `reg` the next three): `add`, `sub`,
/// `and`, `or` (of truth values), `mov r/m32, r32`, `cmp r/m32, r32` and
/// `idiv r/m32`; or nothing for another instruction.
pub open spec fn x86_instr(op: u8, m: int, r: X86Regs) -> Option<X86Regs> {
    let rm = m % 8;
    let reg = (m / 8) % 8;
    if m < 0xc0 || m > 0xff || reg_get(r, rm) is None {
        None
    } else {
        let x = reg_get(r, rm).unwrap();
        if op == 0xf7 && reg == 7 {
            let dividend = r.edx * 0x1_0000_0000 + r.eax % 0x1_0000_0000;
            let q = div_toward_zero(dividend, x);
            if x == 0 || q < -0x8000_0000 || q > 0x7fff_ffff {
                None
            } else {
                Some(X86Regs { eax: q, edx: dividend - x * q, ..r })
            }
        } else if reg_get(r, reg) is None {
            None
        } else {
            let y = reg_get(r, reg).unwrap();
            if op == 0x01 {
                Some(reg_set(r, rm, wrap32(x + y)))
            } else if op == 0x29 {
                Some(reg_set(r, rm, wrap32(x - y)))
            } else if op == 0x21 && (x == 0 || x == 1) && (y == 0 || y == 1) {
                Some(reg_set(r, rm, bit_and01(x, y)))
            } else if op == 0x09 && (x == 0 || x == 1) && (y == 0 || y == 1) {
                Some(reg_set(r, rm, bit_or01(x, y)))
            } else if op == 0x89 {
                Some(reg_set(r, rm, y))
            } else if op == 0x39 {
                Some(X86Regs { cond_left: x, cond_right: y, ..r })
            } else {
                None
            }
        }
    }
}

/// One two-byte-opcode instruction (`0f op m`): `imul r32, r/m32`, `setcc`
/// into `al`, and `movzx r32, r/m8`; or nothing for another instruction.
pub open spec fn x86_instr0f(op: u8, m: int, r: X86Regs) -> Option<X86Regs> {
    let rm = m % 8;
    let reg = (m / 8) % 8;
    if m < 0xc0 || m > 0xff || reg_get(r, rm) is None || reg_get(r, reg) is None {
        None
    } else if op == 0xaf {
        Some(reg_set(r, reg, wrap32(reg_get(r, reg).unwrap() * reg_get(r, rm).unwrap())))
    } else if op == 0xb6 {
        Some(reg_set(r, reg, reg_get(r, rm).unwrap() % 256))
    } else if setcc_holds(op, r.cond_left, r.cond_right) is Some && rm == 0 {
        let bit: int = if setcc_holds(op, r.cond_left, r.cond_right).unwrap() {
            1
        } else {
            0
        };
        Some(X86Regs { eax: r.eax - r.eax % 256 + bit, ..r })
    } else {
        None
    }
}

/// Runs the instructions from index `i` to the end of the code.
pub open spec fn x86_run(code: Seq<u8>, i: int, r: X86Regs) -> Option<X86Regs>
    decreases code.len() - i,
{
    if i < 0 || i >= code.len() {
        Some(r)
    } else if code[i] == 0x99 {
        x86_run(code, i + 1, x86_cdq(r))
    } else if code[i] == 0x0f {
        if i + 2 < code.len() {
            match x86_instr0f(code[i + 1], code[i + 2] as int, r) {
                Some(r2) => x86_run(code, i + 3, r2),
                None => None,
            }
        } else {
            None
        }
    } else if i + 1 < code.len() {
        match x86_instr(code[i], code[i + 1] as int, r) {
            Some(r2) => x86_run(code, i + 2, r2),
            None => None,
        }
    } else {
        None
    }
}

/// What a binary operator leaves in `eax` for operands `a` and `b`: the
/// arithmetic wrapped to 32 bits, division and remainder rounding toward
/// zero, 1 or 0 for a comparison, and `and`/`or` of truth values.
pub open spec fn native_result(op: BinOp, a: int, b: int) -> int {
    match op {
        BinOp::Add => wrap32(a + b),
        BinOp::Sub => wrap32(a - b),
        BinOp::Mul => wrap32(a * b),
        BinOp::Div => div_toward_zero(a, b),
        BinOp::Mod => computes(BinOp::Mod, a, b),
        BinOp::And => bit_and01(a, b),
        BinOp::Or => bit_or01(a, b),
        _ => if compares(op, a, b) {
            1
        } else {
            0
        },
    }
}

proof fn lemma_low_byte(a: int, bit: int)
    requires
        bit == 0 || bit == 1,
    ensures
        (a - a % 256 + bit) % 256 == bit,
{
    let k = a / 256;
    assert(a - a % 256 == 256 * k) by (nonlinear_arith)
        requires
            k == a / 256,
    ;
    assert((256 * k + bit) % 256 == bit) by (nonlinear_arith)
        requires
            bit == 0 || bit == 1,
    ;
}

proof fn lemma_div_fits(a: int, b: int)
    requires
        -0x8000_0000 <= a <= 0x7fff_ffff,
        -0x8000_0000 <= b <= 0x7fff_ffff,
        b != 0,
        !(a == -0x8000_0000 && b == -1),
    ensures
        -0x8000_0000 <= div_toward_zero(a, b) <= 0x7fff_ffff,
{
    let x = abs_int(a);
    let y = abs_int(b);
    assert(x / y <= x) by (nonlinear_arith)
        requires
            x >= 0,
            y >= 1,
    ;
    assert(x / y >= 0) by (nonlinear_arith)
        requires
            x >= 0,
            y >= 1,
    ;
    if x == 0x8000_0000 && y == 1 {
        assert(x / y == x) by (nonlinear_arith)
            requires
                y == 1,
        ;
    } else if x == 0x8000_0000 {
        assert(x / y <= x / 2) by (nonlinear_arith)
            requires
                x >= 0,
                y >= 2,
        ;
    }
}

proof fn lemma_modrm_fields()
    ensures
        0xc8int % 8 == 0 && (0xc8int / 8) % 8 == 1,
        0xc1int % 8 == 1 && (0xc1int / 8) % 8 == 0,
        0xc0int % 8 == 0 && (0xc0int / 8) % 8 == 0,
        0xf9int % 8 == 1 && (0xf9int / 8) % 8 == 7,
        0xd0int % 8 == 0 && (0xd0int / 8) % 8 == 2,
{
}

proof fn lemma_cdq_dividend(a: int)
    requires
        -0x8000_0000 <= a <= 0x7fff_ffff,
    ensures
        (if a < 0 {
            -1int
        } else {
            0int
        }) * 0x1_0000_0000 + a % 0x1_0000_0000 == a,
{
    if a < 0 {
        assert(a % 0x1_0000_0000 == a + 0x1_0000_0000);
    } else {
        assert(a % 0x1_0000_0000 == a);
    }
}

proof fn lemma_bytes_simple(op: BinOp, r0: X86Regs)
    requires
        op == BinOp::Add || op == BinOp::Sub || op == BinOp::Mul || op == BinOp::And || op == BinOp::Or,
        (op == BinOp::And || op == BinOp::Or) ==> (r0.eax == 0 || r0.eax == 1) && (r0.ecx == 0 || r0.ecx == 1),
    ensures
        x86_run(binop_bytes(op), 0, r0) matches Some(r) && r.eax == native_result(op, r0.eax, r0.ecx),
{
    let code = binop_bytes(op);
    lemma_modrm_fields();
    if op == BinOp::Mul {
        assert(code[0] == 0x0f && code[1] == 0xaf && code[2] == 0xc1 && code.len() == 3);
        let r1 = reg_set(r0, 0, wrap32(r0.eax * r0.ecx));
        assert(x86_instr0f(0xaf, 0xc1, r0) == Some(r1));
        assert(x86_run(code, 3, r1) == Some(r1));
    } else {
        assert(code.len() == 2 && code[1] == 0xc8);
        let r1 = x86_instr(code[0], 0xc8, r0).unwrap();
        assert(x86_instr(code[0], 0xc8, r0) is Some);
        assert(x86_run(code, 2, r1) == Some(r1));
    }
}

proof fn lemma_bytes_div(op: BinOp, r0: X86Regs)
    requires
        op == BinOp::Div || op == BinOp::Mod,
        -0x8000_0000 <= r0.eax <= 0x7fff_ffff,
        -0x8000_0000 <= r0.ecx <= 0x7fff_ffff,
        r0.ecx != 0,
        !(r0.eax == -0x8000_0000 && r0.ecx == -1),
    ensures
        x86_run(binop_bytes(op), 0, r0) matches Some(r) && r.eax == native_result(op, r0.eax, r0.ecx),
{
    let code = binop_bytes(op);
    let a = r0.eax;
    let b = r0.ecx;
    lemma_modrm_fields();
    let r1 = x86_cdq(r0);
    lemma_cdq_dividend(a);
    assert(r1.edx * 0x1_0000_0000 + r1.eax % 0x1_0000_0000 == a);
    lemma_div_fits(a, b);
    let q = div_toward_zero(a, b);
    let r2 = X86Regs { eax: q, edx: a - b * q, ..r1 };
    assert(x86_instr(0xf7, 0xf9, r1) == Some(r2));
    assert(code[0] == 0x99 && code[1] == 0xf7 && code[2] == 0xf9);
    if op == BinOp::Div {
        assert(code.len() == 3);
        assert(x86_run(code, 3, r2) == Some(r2));
        assert(x86_run(code, 1, r1) == Some(r2));
    } else {
        assert(code.len() == 5 && code[3] == 0x89 && code[4] == 0xd0);
        let r3 = reg_set(r2, 0, r2.edx);
        assert(x86_instr(0x89, 0xd0, r2) == Some(r3));
        assert(x86_run(code, 5, r3) == Some(r3));
        assert(x86_run(code, 3, r2) == Some(r3));
        assert(x86_run(code, 1, r1) == Some(r3));
        lemma_rem_toward_zero(a, b);
    }
}

proof fn lemma_bytes_compare(op: BinOp, r0: X86Regs)
    requires
        op == BinOp::Eq || op == BinOp::Neq || op == BinOp::Lt || op == BinOp::Le || op == BinOp::Gt || op
            == BinOp::Ge,
    ensures
        x86_run(binop_bytes(op), 0, r0) matches Some(r) && r.eax == native_result(op, r0.eax, r0.ecx),
{
    let code = binop_bytes(op);
    let a = r0.eax;
    let b = r0.ecx;
    lemma_modrm_fields();
    assert(code.len() == 8 && code[0] == 0x39 && code[1] == 0xc8 && code[2] == 0x0f && code[3] == setcc(op)
        && code[4] == 0xc0 && code[5] == 0x0f && code[6] == 0xb6 && code[7] == 0xc0);
    let r1 = X86Regs { cond_left: a, cond_right: b, ..r0 };
    assert(x86_instr(0x39, 0xc8, r0) == Some(r1));
    let bit: int = if compares(op, a, b) {
        1
    } else {
        0
    };
    let r2 = X86Regs { eax: a - a % 256 + bit, ..r1 };
    assert(setcc_holds(setcc(op), a, b) == Some(compares(op, a, b)));
    assert(x86_instr0f(setcc(op), 0xc0, r1) == Some(r2));
    lemma_low_byte(a, bit);
    let r3 = reg_set(r2, 0, bit);
    assert(x86_instr0f(0xb6, 0xc0, r2) == Some(r3));
    assert(x86_run(code, 8, r3) == Some(r3));
    assert(x86_run(code, 5, r2) == Some(r3));
    assert(x86_run(code, 2, r1) == Some(r3));
}

/// The bytes emitted for each binary operator compute it: run from
/// `eax = a`, `ecx = b`, they leave `native_result(op, a, b)` in `eax`
/// (`sub eax, ecx` for `-`, `setl` after `cmp eax, ecx` for `<`, and so on).
/// Division needs a divisor that is not 0 and a quotient that fits; `&&`
/// and `||` are given truth values.
pub proof fn lemma_binop_bytes_compute(op: BinOp, a: int, b: int, d: int, cl: int, cr: int)
    requires
        -0x8000_0000 <= a <= 0x7fff_ffff,
        -0x8000_0000 <= b <= 0x7fff_ffff,
        (op == BinOp::Div || op == BinOp::Mod) ==> b != 0 && !(a == -0x8000_0000 && b == -1),
        (op == BinOp::And || op == BinOp::Or) ==> (a == 0 || a == 1) && (b == 0 || b == 1),
    ensures
        x86_run(binop_bytes(op), 0, X86Regs { eax: a, ecx: b, edx: d, cond_left: cl, cond_right: cr }) matches Some(
            r,
        ) && r.eax == native_result(op, a, b),
{
    let r0 = X86Regs { eax: a, ecx: b, edx: d, cond_left: cl, cond_right: cr };
    match op {
        BinOp::Add | BinOp::Sub | BinOp::Mul | BinOp::And | BinOp::Or => lemma_bytes_simple(op, r0),
        BinOp::Div | BinOp::Mod => lemma_bytes_div(op, r0),
        _ => lemma_bytes_compare(op, r0),
    }
}

// ---------------------------------------------------------------------------
// Implementation: the module
// ---------------------------------------------------------------------------
/// Replaces every character outside `[A-Za-z0-9_]` by `_`.
fn nsanitize_chars(s: &[char]) -> (r: Vec<char>)
    ensures
        r@ == nsanitize(s@),
{
    let mut r: Vec<char> = Vec::new();
    let mut i: usize = 0;
    while i < s.len()
        invariant
            i <= s@.len(),
            r@ == nsanitize(s@).subrange(0, i as int),
        decreases s@.len() - i,
    {
        let ch = s[i];
        if ('0' <= ch && ch <= '9') || ('a' <= ch && ch <= 'z') || ('A' <= ch && ch <= 'Z') || ch == '_' {
            r.push(ch);
        } else {
            r.push('_');
        }
        assert(r@ =~= nsanitize(s@).subrange(0, i + 1));
        i = i + 1;
    }
    assert(nsanitize(s@).subrange(0, s@.len() as int) =~= nsanitize(s@));
    r
}

/// `prefix` followed by the sanitized `name`.
fn prefixed_name(prefix: &str, name: &[char]) -> (r: Vec<char>)
    ensures
        r@ == prefix@ + nsanitize(name@),
{
    let mut r: Vec<char> = Vec::new();
    push_str(&mut r, prefix);
    push_chars(&mut r, nsanitize_chars(name).as_slice());
    r
}

fn func_label_chars(name: &[char]) -> (r: Vec<char>)
    ensures
        r@ == func_label(name@),
{
    prefixed_name("func.", name)
}

fn arg_xor_of(idx: usize) -> (b: u8)
    ensures
        b == arg_xor(idx as int),
{
    if idx == 0 {
        0xff
    } else if idx == 1 {
        0xf6
    } else if idx == 2 {
        0xd2
    } else {
        0xc9
    }
}

fn arg_store_of(idx: usize) -> (b: u8)
    ensures
        b == arg_store(idx as int),
{
    if idx == 0 {
        0xbd
    } else if idx == 1 {
        0xb5
    } else if idx == 2 {
        0x95
    } else {
        0x8d
    }
}

fn arg_mov_of(idx: usize) -> (b: u8)
    ensures
        b == arg_mov(idx as int),
{
    if idx == 0 {
        0xc7
    } else if idx == 1 {
        0xc6
    } else if idx == 2 {
        0xc2
    } else {
        0xc1
    }
}

fn is_native_int(t: &Type) -> (r: bool)
    ensures
        r == native_int(*t),
{
    matches!(t, Type::I8 | Type::I16 | Type::I32 | Type::I64 | Type::U8 | Type::U16 | Type::U32 | Type::U64 | Type::Bool)
}

/// The bytes a stack slot of the type takes.
pub fn type_slot_size(t: &Type) -> (n: i32)
    ensures
        n as int == slot_size(*t),
{
    match t {
        Type::Vector(_) | Type::String => 24,
        Type::Option(_) | Type::Result(_, _) => 16,
        _ => 8,
    }
}

/// `value + 15` divided by 16 with the quotient rounded toward zero, times
/// 16: a non-negative value rounded up to a multiple of 16, a negative one
/// rounded toward zero.
pub open spec fn align16(value: int) -> int {
    let a = value + 15;
    if a >= 0 {
        (a / 16) * 16
    } else {
        -(((-a) / 16) * 16)
    }
}

/// `value` rounded up to a multiple of 16, as a frame size (stopping at the
/// largest 32-bit value); a negative value is rounded toward zero.
pub fn align_to(value: i32) -> (r: i32)
    ensures
        r as int == if value >= 0 {
            frame_size(value as int)
        } else {
            align16(value as int)
        },
{
    if value >= 0 {
        let v = value as u64 + 15;
        let a = (v / 16) * 16;
        if a > 0x7fff_ffff {
            0x7fff_ffff
        } else {
            a as i32
        }
    } else {
        let v: i64 = value as i64 + 15;
        if v >= 0 {
            ((v / 16) * 16) as i32
        } else {
            let n: i64 = -v;
            let m: i64 = (n / 16) * 16;
            assert(0 <= m <= n) by (nonlinear_arith)
                requires
                    m == (n / 16) * 16,
                    n >= 0,
            ;
            (-m) as i32
        }
    }
}

/// The module being emitted.
struct NativeModule {
    code: Vec<u8>,
    labels: Vec<(Vec<char>, usize)>,
    patches: Vec<(usize, Vec<char>)>,
    abs64_patches: Vec<(usize, Vec<char>)>,
    data_items: Vec<(Vec<char>, Vec<u8>)>,
    unique_counter: u64,
}

spec fn labels_m(v: Seq<(Vec<char>, usize)>) -> Seq<(Seq<char>, int)> {
    Seq::new(v.len(), |i: int| (v[i].0@, v[i].1 as int))
}

spec fn patches_m(v: Seq<(usize, Vec<char>)>) -> Seq<(int, Seq<char>)> {
    Seq::new(v.len(), |i: int| (v[i].0 as int, v[i].1@))
}

spec fn data_m(v: Seq<(Vec<char>, Vec<u8>)>) -> Seq<(Seq<char>, Seq<u8>)> {
    Seq::new(v.len(), |i: int| (v[i].0@, v[i].1@))
}

impl NativeModule {
    spec fn st(&self) -> NSt {
        NSt {
            code: self.code@,
            labels: labels_m(self.labels@),
            patches: patches_m(self.patches@),
            abs64: patches_m(self.abs64_patches@),
            data: data_m(self.data_items@),
            counter: self.unique_counter as int,
        }
    }

    /// Every pending patch lies inside the code.
    spec fn wf(&self) -> bool {
        &&& forall|k: int| 0 <= k < self.patches@.len() ==> #[trigger] self.patches@[k].0 + 4 <= self.code@.len()
        &&& forall|k: int|
            0 <= k < self.abs64_patches@.len() ==> #[trigger] self.abs64_patches@[k].0 + 8 <= self.code@.len()
    }

    fn new() -> (m: NativeModule)
        ensures
            m.wf(),
            m.st() == empty_module(),
    {
        let m = NativeModule {
            code: Vec::new(),
            labels: Vec::new(),
            patches: Vec::new(),
            abs64_patches: Vec::new(),
            data_items: Vec::new(),
            unique_counter: 0,
        };
        assert(m.st().labels =~= Seq::<(Seq<char>, int)>::empty());
        assert(m.st().patches =~= Seq::<(int, Seq<char>)>::empty());
        assert(m.st().abs64 =~= Seq::<(int, Seq<char>)>::empty());
        assert(m.st().data =~= Seq::<(Seq<char>, Seq<u8>)>::empty());
        m
    }

    fn emit_bytes(&mut self, bytes: &[u8])
        requires
            old(self).wf(),
        ensures
            final(self).wf(),
            final(self).st() == n_bytes(old(self).st(), bytes@),
    {
        let mut i: usize = 0;
        while i < bytes.len()
            invariant
                i <= bytes@.len(),
                self.wf(),
                self.st() == (NSt { code: old(self).st().code + bytes@.subrange(0, i as int), ..old(self).st() }),
            decreases bytes@.len() - i,
        {
            self.code.push(bytes[i]);
            assert(self.st().code =~= old(self).st().code + bytes@.subrange(0, i + 1));
            i = i + 1;
        }
        assert(bytes@.subrange(0, bytes@.len() as int) =~= bytes@);
    }

    fn emit_u32(&mut self, v: u32)
        requires
            old(self).wf(),
        ensures
            final(self).wf(),
            final(self).st() == n_bytes(old(self).st(), le32(v)),
    {
        let b = [(v & 0xff) as u8, ((v >> 8u32) & 0xff) as u8, ((v >> 16u32) & 0xff) as u8, ((v >> 24u32) & 0xff) as u8];
        self.emit_bytes(&b);
        assert(b@ =~= le32(v));
    }

    fn emit_i32(&mut self, v: i32)
        requires
            old(self).wf(),
        ensures
            final(self).wf(),
            final(self).st() == n_i32(old(self).st(), v),
    {
        self.emit_u32(v as u32);
    }

    fn mark_label(&mut self, label: &[char])
        requires
            old(self).wf(),
        ensures
            final(self).wf(),
            final(self).st() == n_mark(old(self).st(), label@),
    {
        let ghost before = self.labels@;
        let pos = self.code.len();
        self.labels.push((copy_chars(label), pos));
        assert(labels_m(self.labels@) =~= labels_m(before).push((label@, pos as int)));
    }

    fn emit_rel32_patch(&mut self, label: &[char])
        requires
            old(self).wf(),
        ensures
            final(self).wf(),
            final(self).st() == n_rel32(old(self).st(), label@),
    {
        let pos = self.code.len();
        self.emit_i32(0);
        let ghost before = self.patches@;
        self.patches.push((pos, copy_chars(label)));
        assert(patches_m(self.patches@) =~= patches_m(before).push((pos as int, label@)));
    }

    fn emit_call(&mut self, label: &[char])
        requires
            old(self).wf(),
        ensures
            final(self).wf(),
            final(self).st() == n_call(old(self).st(), label@),
    {
        let b: [u8; 1] = [0xe8];
        self.emit_bytes(&b);
        assert(b@ =~= seq![0xe8u8]);
        self.emit_rel32_patch(label);
    }

    fn emit_jmp(&mut self, label: &[char])
        requires
            old(self).wf(),
        ensures
            final(self).wf(),
            final(self).st() == n_jmp(old(self).st(), label@),
    {
        let b: [u8; 1] = [0xe9];
        self.emit_bytes(&b);
        assert(b@ =~= seq![0xe9u8]);
        self.emit_rel32_patch(label);
    }

    fn emit_jcc(&mut self, opcode: u8, label: &[char])
        requires
            old(self).wf(),
        ensures
            final(self).wf(),
            final(self).st() == n_jcc(old(self).st(), opcode, label@),
    {
        self.emit_bytes(&[0x0f, opcode]);
        self.emit_rel32_patch(label);
    }

    fn emit_abs64_patch(&mut self, label: &[char])
        requires
            old(self).wf(),
        ensures
            final(self).wf(),
            final(self).st() == n_abs64(old(self).st(), label@),
    {
        let pos = self.code.len();
        self.emit_bytes(&[0, 0, 0, 0, 0, 0, 0, 0]);
        let ghost before = self.abs64_patches@;
        self.abs64_patches.push((pos, copy_chars(label)));
        assert(patches_m(self.abs64_patches@) =~= patches_m(before).push((pos as int, label@)));
    }

    fn fresh_label(&mut self, prefix: &[char]) -> (l: Vec<char>)
        requires
            old(self).wf(),
        ensures
            final(self).wf(),
            (l@, final(self).st()) == n_fresh(old(self).st(), prefix@),
    {
        self.unique_counter = bump_counter(self.unique_counter);
        let mut l = nsanitize_chars(prefix);
        push_str(&mut l, ".");
        push_dec(&mut l, self.unique_counter);
        l
    }

    fn add_static_bytes(&mut self, prefix: &[char], bytes: Vec<u8>) -> (l: Vec<char>)
        requires
            old(self).wf(),
        ensures
            final(self).wf(),
            (l@, final(self).st()) == n_static(old(self).st(), prefix@, bytes@),
    {
        let label = self.fresh_label(prefix);
        let ghost before = self.data_items@;
        self.data_items.push((copy_chars(label.as_slice()), bytes));
        assert(data_m(self.data_items@) =~= data_m(before).push((label@, bytes@)));
        label
    }
}

impl NativeModule {
    fn emit_byte(&mut self, b: u8)
        requires
            old(self).wf(),
        ensures
            final(self).wf(),
            final(self).st() == n_bytes(old(self).st(), seq![b]),
    {
        let ghost before = self.st();
        self.code.push(b);
        assert(self.st().code =~= before.code + seq![b]);
    }

    fn emit_parse_i32_helper(&mut self)
        requires
            old(self).wf(),
        ensures
            final(self).wf(),
            final(self).st() == parse_helper(old(self).st()),
    {
        self.mark_label(str_chars("runtime.parse_i32").as_slice());
        self.emit_bytes(&[0x31, 0xc0, 0x31, 0xc9, 0x0f, 0xb6, 0x17, 0x80, 0xfa, 0x2d]);
        let digits = self.fresh_label(str_chars("parse.digits").as_slice());
        self.emit_jcc(0x85, digits.as_slice());
        self.emit_byte(0xb9);
        self.emit_i32(1);
        self.emit_bytes(&[0x48, 0xff, 0xc7]);
        self.mark_label(digits.as_slice());
        let loop_label = self.fresh_label(str_chars("parse.loop").as_slice());
        let done = self.fresh_label(str_chars("parse.done").as_slice());
        let positive = self.fresh_label(str_chars("parse.positive").as_slice());
        self.mark_label(loop_label.as_slice());
        self.emit_bytes(&[0x0f, 0xb6, 0x17, 0x80, 0xfa, 0x30]);
        self.emit_jcc(0x82, done.as_slice());
        self.emit_bytes(&[0x80, 0xfa, 0x39]);
        self.emit_jcc(0x87, done.as_slice());
        self.emit_bytes(&[0x69, 0xc0]);
        self.emit_i32(10);
        self.emit_bytes(&[0x83, 0xea, 0x30, 0x01, 0xd0, 0x48, 0xff, 0xc7]);
        self.emit_jmp(loop_label.as_slice());
        self.mark_label(done.as_slice());
        self.emit_bytes(&[0x85, 0xc9]);
        self.emit_jcc(0x84, positive.as_slice());
        self.emit_bytes(&[0xf7, 0xd8]);
        self.mark_label(positive.as_slice());
        self.emit_byte(0xc3);
    }

    fn emit_debug_i32_helper(&mut self)
        requires
            old(self).wf(),
        ensures
            final(self).wf(),
            final(self).st() == debug_helper(old(self).st()),
    {
        self.mark_label(str_chars("runtime.debug_i32").as_slice());
        self.emit_bytes(
            &[0x55, 0x48, 0x89, 0xe5, 0x53, 0x48, 0x83, 0xec, 0x20, 0x89, 0xf8, 0x48, 0x8d, 0x75, 0xff, 0xc6, 0x06, 0x0a, 0xb9],
        );
        self.emit_i32(1);
        self.emit_bytes(&[0x83, 0xf8, 0x00]);
        let loop_label = self.fresh_label(str_chars("debug.loop").as_slice());
        let write = self.fresh_label(str_chars("debug.write").as_slice());
        self.emit_jcc(0x85, loop_label.as_slice());
        self.emit_bytes(&[0x48, 0xff, 0xce, 0xc6, 0x06, 0x30, 0xff, 0xc1]);
        self.emit_jmp(write.as_slice());
        self.mark_label(loop_label.as_slice());
        self.emit_bytes(&[0x31, 0xd2, 0xbb]);
        self.emit_i32(10);
        self.emit_bytes(&[0xf7, 0xf3, 0x80, 0xc2, 0x30, 0x48, 0xff, 0xce, 0x88, 0x16, 0xff, 0xc1, 0x85, 0xc0]);
        self.emit_jcc(0x85, loop_label.as_slice());
        self.mark_label(write.as_slice());
        self.emit_byte(0xb8);
        self.emit_i32(1);
        self.emit_byte(0xbf);
        self.emit_i32(1);
        self.emit_bytes(&[0x89, 0xca, 0x0f, 0x05, 0x48, 0x83, 0xc4, 0x20, 0x5b, 0x5d, 0xc3]);
    }

    /// Loads the integer arguments of the entry from `argv`.
    #[verifier::loop_isolation(false)]
    fn emit_entry_args(&mut self, inputs: &Vec<StickyBinding>)
        requires
            old(self).wf(),
        ensures
            final(self).wf(),
            final(self).st() == entry_args(old(self).st(), bindings_m(inputs@), 0),
    {
        let ghost bm = bindings_m(inputs@);
        let ghost target = entry_args(self.st(), bm, 0);
        let mut idx: usize = 0;
        while idx < inputs.len() && idx < 4
            invariant
                idx <= inputs@.len(),
                idx <= 4,
                self.wf(),
                entry_args(self.st(), bm, idx as int) == target,
            decreases inputs@.len() - idx,
        {
            assert(bm[idx as int] == binding_m(inputs@[idx as int]));
            self.emit_bytes(&[0x31, arg_xor_of(idx)]);
            if is_native_int(&inputs[idx].ty) {
                let missing = self.fresh_label(str_chars("argv.missing").as_slice());
                self.emit_bytes(&[0x48, 0x8b, 0xbc, 0x24]);
                let disp: i32 = 16 + (idx as i32) * 8;
                self.emit_i32(disp);
                self.emit_bytes(&[0x48, 0x85, 0xff]);
                self.emit_jcc(0x84, missing.as_slice());
                self.emit_call(str_chars("runtime.parse_i32").as_slice());
                self.emit_bytes(&[0x89, arg_mov_of(idx)]);
                self.mark_label(missing.as_slice());
            }
            idx = idx + 1;
        }
    }
}

// ---------------------------------------------------------------------------
// Implementation: one function
// ---------------------------------------------------------------------------
struct LocalSlot {
    offset: i32,
    ty: Type,
}

struct FunctionEmitter {
    locals: Vec<(Vec<char>, LocalSlot)>,
    next_offset: i32,
    returned: bool,
    loops: Vec<(Vec<char>, Vec<char>)>,
}

spec fn locals_m(v: Seq<(Vec<char>, LocalSlot)>) -> Seq<(Seq<char>, NSlot)> {
    Seq::new(v.len(), |i: int| (v[i].0@, NSlot { offset: v[i].1.offset as int, ty: v[i].1.ty }))
}

spec fn nloops_m(v: Seq<(Vec<char>, Vec<char>)>) -> Seq<(Seq<char>, Seq<char>)> {
    Seq::new(v.len(), |i: int| (v[i].0@, v[i].1@))
}

/// The outcome of an emitting step, as the specification states it.
spec fn res(r: Result<(), String>, f: FSt) -> NRes {
    match r {
        Ok(_) => Ok(f),
        Err(e) => Err(e@),
    }
}

impl FunctionEmitter {
    spec fn fst(&self, m: NSt) -> FSt {
        FSt {
            m,
            locals: locals_m(self.locals@),
            next_offset: self.next_offset as int,
            returned: self.returned,
            loops: nloops_m(self.loops@),
        }
    }

    /// The frame size is not negative and every slot lies at least eight
    /// bytes below the frame base.
    spec fn fwf(&self) -> bool {
        &&& self.next_offset >= 0
        &&& forall|k: int| 0 <= k < self.locals@.len() ==> 8 <= #[trigger] self.locals@[k].1.offset
    }

    fn new() -> (e: FunctionEmitter)
        ensures
            e.fwf(),
            forall|ms: NSt| #[trigger] e.fst(ms) == (FSt { m: ms, locals: Seq::empty(), next_offset: 0, returned: false, loops: Seq::empty() }),
    {
        let e = FunctionEmitter { locals: Vec::new(), next_offset: 0, returned: false, loops: Vec::new() };
        assert(locals_m(e.locals@) =~= Seq::empty());
        assert(nloops_m(e.loops@) =~= Seq::empty());
        e
    }

    /// The index of the slot of `name`.
    fn local_index(&self, name: &[char]) -> (r: Option<usize>)
        ensures
            match r {
                Some(k) => k < self.locals@.len() && local_get(locals_m(self.locals@), name@, self.locals@.len() as int)
                    == Some(NSlot { offset: self.locals@[k as int].1.offset as int, ty: self.locals@[k as int].1.ty }),
                None => local_get(locals_m(self.locals@), name@, self.locals@.len() as int) is None,
            },
    {
        let ghost lm = locals_m(self.locals@);
        let mut k = self.locals.len();
        while k > 0
            invariant
                k <= self.locals@.len(),
                lm == locals_m(self.locals@),
                local_get(lm, name@, k as int) == local_get(lm, name@, self.locals@.len() as int),
            decreases k,
        {
            if chars_eq(self.locals[k - 1].0.as_slice(), name) {
                return Some(k - 1);
            }
            k = k - 1;
        }
        None
    }

    fn alloc_slot(&mut self, Ghost(ms): Ghost<NSt>, name: &[char], ty: &Type)
        requires
            old(self).fwf(),
        ensures
            final(self).fwf(),
            final(self).fst(ms) == alloc_slot(old(self).fst(ms), name@, *ty),
    {
        if self.local_index(name).is_some() {
            return;
        }
        let sz = type_slot_size(ty);
        let n = if self.next_offset > 0x7fff_ffff - sz {
            0x7fff_ffff
        } else {
            self.next_offset + sz
        };
        let ghost before = self.locals@;
        self.locals.push((copy_chars(name), LocalSlot { offset: n, ty: copy_type(ty) }));
        self.next_offset = n;
        assert(locals_m(self.locals@) =~= locals_m(before).push((name@, NSlot { offset: n as int, ty: *ty })));
        assert forall|k: int| 0 <= k < self.locals@.len() implies 8 <= #[trigger] self.locals@[k].1.offset by {
            if k < before.len() {
                assert(self.locals@[k] == before[k]);
            }
        }
    }

    /// The slots of a statement and of the statements nested in it.
    #[verifier::loop_isolation(false)]
    fn collect_stmt_slots(&mut self, Ghost(ms): Ghost<NSt>, s: &Node<Statement>)
        requires
            old(self).fwf(),
        ensures
            final(self).fwf(),
            final(self).fst(ms) == collect_stmt(old(self).fst(ms), stmt_m(*s)),
        decreases s,
    {
        match &s.kind {
            Statement::Let(l) => {
                let name = str_chars(l.binding.name.as_str());
                self.alloc_slot(Ghost(ms), name.as_slice(), &l.binding.ty);
                let is_vec3 = match &l.value.kind {
                    Expr::Call { callee, .. } => chars_eq_str(str_chars(callee.as_str()).as_slice(), "vector_i32_3"),
                    _ => false,
                };
                if is_vec3 {
                    let data = prefixed_name("__vecdata_", name.as_slice());
                    self.alloc_slot(Ghost(ms), data.as_slice(), &Type::Option(Box::new(Type::I32)));
                }
            },
            Statement::Loop(lb) => {
                proof {
                    lemma_loop_m(*lb);
                }
                let item = str_chars(lb.item.name.as_str());
                self.alloc_slot(Ghost(ms), item.as_slice(), &lb.item.ty);
                let idx = prefixed_name("__idx_", str_chars(s.id.as_str()).as_slice());
                self.alloc_slot(Ghost(ms), idx.as_slice(), &Type::I64);
                let ghost bm = stmts_m(lb.body@);
                let ghost target = collect_stmts(self.fst(ms), bm, 0);
                let mut i: usize = 0;
                while i < lb.body.len()
                    invariant
                        i <= lb.body@.len(),
                        self.fwf(),
                        collect_stmts(self.fst(ms), bm, i as int) == target,
                    decreases lb.body@.len() - i,
                {
                    assert(bm[i as int] == stmt_m(lb.body@[i as int]));
                    self.collect_stmt_slots(Ghost(ms), &lb.body[i]);
                    i = i + 1;
                }
            },
            _ => {},
        }
    }

    /// The slots of a function: inputs, output, then the body's bindings.
    #[verifier::loop_isolation(false)]
    fn collect_function_slots(&mut self, Ghost(ms): Ghost<NSt>, f: &Node<FunctionDecl>)
        requires
            old(self).fwf(),
        ensures
            final(self).fwf(),
            final(self).fst(ms) == collect_slots(old(self).fst(ms), func_m(*f).kind),
    {
        let ghost fm = func_m(*f).kind;
        let ghost t1 = alloc_inputs(self.fst(ms), fm.inputs, 0);
        let mut i: usize = 0;
        while i < f.kind.inputs.len()
            invariant
                i <= f.kind.inputs@.len(),
                self.fwf(),
                fm.inputs == bindings_m(f.kind.inputs@),
                alloc_inputs(self.fst(ms), fm.inputs, i as int) == t1,
            decreases f.kind.inputs@.len() - i,
        {
            assert(fm.inputs[i as int] == binding_m(f.kind.inputs@[i as int]));
            self.alloc_slot(Ghost(ms), str_chars(f.kind.inputs[i].name.as_str()).as_slice(), &f.kind.inputs[i].ty);
            i = i + 1;
        }
        self.alloc_slot(Ghost(ms), str_chars(f.kind.output.name.as_str()).as_slice(), &f.kind.output.ty);
        let ghost bm = stmts_m(f.kind.body@);
        let ghost target = collect_stmts(self.fst(ms), bm, 0);
        let mut i: usize = 0;
        while i < f.kind.body.len()
            invariant
                i <= f.kind.body@.len(),
                self.fwf(),
                bm == fm.body,
                collect_stmts(self.fst(ms), bm, i as int) == target,
            decreases f.kind.body@.len() - i,
        {
            assert(bm[i as int] == stmt_m(f.kind.body@[i as int]));
            self.collect_stmt_slots(Ghost(ms), &f.kind.body[i]);
            i = i + 1;
        }
    }

    /// An instruction `prefix [rbp+disp32]` on the slot of `name`.
    fn slot_op(&self, m: &mut NativeModule, prefix: &[u8], name: &[char], field_offset: i32) -> (r: Result<(), String>)
        requires
            old(m).wf(),
            self.fwf(),
            0 <= field_offset <= 16,
        ensures
            final(m).wf(),
            res(r, self.fst(final(m).st())) == f_slot_op(self.fst(old(m).st()), prefix@, name@, field_offset as int),
    {
        match self.local_index(name) {
            Some(k) => {
                let disp = field_offset - self.locals[k].1.offset;
                m.emit_bytes(prefix);
                m.emit_i32(disp);
                Ok(())
            },
            None => {
                let mut msg: Vec<char> = Vec::new();
                push_str(&mut msg, "native backend could not resolve local: ");
                push_chars(&mut msg, name);
                Err(chars_to_string(msg.as_slice()))
            },
        }
    }

    fn mov_mem_imm(&self, m: &mut NativeModule, name: &[char], field_offset: i32, value: i32) -> (r: Result<(), String>)
        requires
            old(m).wf(),
            self.fwf(),
            0 <= field_offset <= 16,
        ensures
            final(m).wf(),
            res(r, self.fst(final(m).st())) == mov_mem_imm(self.fst(old(m).st()), name@, field_offset as int, value),
    {
        match self.slot_op(m, &[0x48, 0xc7, 0x85], name, field_offset) {
            Ok(()) => {
                m.emit_i32(value);
                Ok(())
            },
            Err(e) => Err(e),
        }
    }

    /// Zeroes every slot, in the order the slots were given.
    #[verifier::loop_isolation(false)]
    fn zero_all_slots(&self, m: &mut NativeModule) -> (r: Result<(), String>)
        requires
            old(m).wf(),
            self.fwf(),
        ensures
            final(m).wf(),
            res(r, self.fst(final(m).st())) == zero_slots(self.fst(old(m).st()), locals_m(self.locals@), 0),
    {
        let ghost lm = locals_m(self.locals@);
        let ghost target = zero_slots(self.fst(m.st()), lm, 0);
        let mut k: usize = 0;
        while k < self.locals.len()
            invariant
                k <= self.locals@.len(),
                m.wf(),
                zero_slots(self.fst(m.st()), lm, k as int) == target,
            decreases self.locals@.len() - k,
        {
            let words = type_slot_size(&self.locals[k].1.ty) / 8;
            let ghost wtarget = zero_words(self.fst(m.st()), lm[k as int].0, 0, words as int);
            assert(zero_slots(self.fst(m.st()), lm, k as int) == match wtarget {
                Ok(f1) => zero_slots(f1, lm, k + 1),
                Err(e) => Err(e),
            });
            let mut idx: i32 = 0;
            while idx < words
                invariant
                    0 <= idx <= words <= 3,
                    m.wf(),
                    zero_words(self.fst(m.st()), lm[k as int].0, idx as int, words as int) == wtarget,
                decreases words - idx,
            {
                match self.mov_mem_imm(m, self.locals[k].0.as_slice(), idx * 8, 0) {
                    Ok(()) => {},
                    Err(e) => {
                        return Err(e);
                    },
                }
                idx = idx + 1;
            }
            k = k + 1;
        }
        Ok(())
    }

    /// Stores the integer arguments in their slots.
    #[verifier::loop_isolation(false)]
    fn store_input_args(&self, m: &mut NativeModule, inputs: &Vec<StickyBinding>) -> (r: Result<(), String>)
        requires
            old(m).wf(),
            self.fwf(),
        ensures
            final(m).wf(),
            res(r, self.fst(final(m).st())) == store_args(self.fst(old(m).st()), bindings_m(inputs@), 0),
    {
        let ghost bm = bindings_m(inputs@);
        let ghost target = store_args(self.fst(m.st()), bm, 0);
        let mut idx: usize = 0;
        while idx < inputs.len() && idx < 4
            invariant
                idx <= inputs@.len(),
                idx <= 4,
                m.wf(),
                store_args(self.fst(m.st()), bm, idx as int) == target,
            decreases inputs@.len() - idx,
        {
            assert(bm[idx as int] == binding_m(inputs@[idx as int]));
            if is_native_int(&inputs[idx].ty) {
                match self.slot_op(m, &[0x89, arg_store_of(idx)], str_chars(inputs[idx].name.as_str()).as_slice(), 0) {
                    Ok(()) => {},
                    Err(e) => {
                        return Err(e);
                    },
                }
            }
            idx = idx + 1;
        }
        Ok(())
    }
}

fn arg_count_message(name: &str, expected: usize, got: usize) -> (s: String)
    ensures
        s@ == arg_count_error(name@, expected as nat, got as nat),
{
    let mut v: Vec<char> = Vec::new();
    push_str(&mut v, "native builtin ");
    push_str(&mut v, name);
    push_str(&mut v, " expected ");
    push_dec(&mut v, expected as u64);
    push_str(&mut v, " arguments but got ");
    push_dec(&mut v, got as u64);
    assert(v@ =~= arg_count_error(name@, expected as nat, got as nat));
    chars_to_string(v.as_slice())
}

/// The error of a built-in called with the wrong number of arguments.
fn require_arg_count(name: &str, args: &Vec<Node<Expr>>, expected: usize) -> (r: Result<(), String>)
    ensures
        args@.len() == expected ==> r is Ok,
        args@.len() != expected ==> (r matches Err(e) && e@ == arg_count_error(name@, expected as nat, args@.len())),
{
    if args.len() == expected {
        Ok(())
    } else {
        Err(arg_count_message(name, expected, args.len()))
    }
}

fn static_err(msg: &str) -> (r: Result<(), String>)
    ensures
        r matches Err(e) && e@ == msg@,
{
    Err(msg.to_owned())
}

impl FunctionEmitter {
    /// Emits an expression, leaving its value in `eax`.
    #[verifier::loop_isolation(false)]
    #[verifier::rlimit(60)]
    #[verifier::spinoff_prover]
    fn emit_expr(&self, m: &mut NativeModule, e: &Node<Expr>) -> (r: Result<(), String>)
        requires
            old(m).wf(),
            self.fwf(),
        ensures
            final(m).wf(),
            res(r, self.fst(final(m).st())) == emit_expr(self.fst(old(m).st()), expr_m(*e)),
        decreases e,
    {
        match &e.kind {
            Expr::Lit(Literal::Int(v)) => {
                m.emit_byte(0xb8);
                m.emit_i32(*v as i32);
                Ok(())
            },
            Expr::Lit(Literal::Bool(b)) => {
                m.emit_byte(0xb8);
                m.emit_i32(
                    if *b {
                        1
                    } else {
                        0
                    },
                );
                Ok(())
            },
            Expr::Ident(name) => self.slot_op(m, &[0x8b, 0x85], str_chars(name.as_str()).as_slice(), 0),
            Expr::Paren(inner) => self.emit_expr(m, inner),
            Expr::Unary { op, operand } => {
                match self.emit_expr(m, operand) {
                    Ok(()) => {},
                    Err(x) => {
                        return Err(x);
                    },
                }
                match op {
                    UnOp::Neg => m.emit_bytes(&[0xf7, 0xd8]),
                    UnOp::Not => m.emit_bytes(&[0x83, 0xf8, 0x00, 0x0f, 0x94, 0xc0, 0x0f, 0xb6, 0xc0]),
                }
                Ok(())
            },
            Expr::Binary { op, lhs, rhs } => {
                match self.emit_expr(m, lhs) {
                    Ok(()) => {},
                    Err(x) => {
                        return Err(x);
                    },
                }
                m.emit_byte(0x50);
                match self.emit_expr(m, rhs) {
                    Ok(()) => {},
                    Err(x) => {
                        return Err(x);
                    },
                }
                m.emit_bytes(&[0x89, 0xc1, 0x58]);
                self.emit_binary_op(m, *op);
                Ok(())
            },
            Expr::Call { callee, args } => {
                proof {
                    lemma_call_m(*callee, *args);
                }
                self.emit_call_expr(m, e, callee, args)
            },
            Expr::Cast { expr: inner, .. } => self.emit_expr(m, inner),
            _ => static_err(
                "native backend currently lowers executable integer/control-flow code; string, float, Option, and Result values need the runtime ABI",
            ),
        }
    }

    fn emit_binary_op(&self, m: &mut NativeModule, op: BinOp)
        requires
            old(m).wf(),
        ensures
            final(m).wf(),
            final(m).st() == n_bytes(old(m).st(), binop_bytes(op)),
    {
        match op {
            BinOp::Add => m.emit_bytes(&[0x01, 0xc8]),
            BinOp::Sub => m.emit_bytes(&[0x29, 0xc8]),
            BinOp::Mul => m.emit_bytes(&[0x0f, 0xaf, 0xc1]),
            BinOp::Div => m.emit_bytes(&[0x99, 0xf7, 0xf9]),
            BinOp::Mod => m.emit_bytes(&[0x99, 0xf7, 0xf9, 0x89, 0xd0]),
            BinOp::And => m.emit_bytes(&[0x21, 0xc8]),
            BinOp::Or => m.emit_bytes(&[0x09, 0xc8]),
            _ => {
                let cc: u8 = match op {
                    BinOp::Eq => 0x94,
                    BinOp::Neq => 0x95,
                    BinOp::Lt => 0x9c,
                    BinOp::Le => 0x9e,
                    BinOp::Gt => 0x9f,
                    _ => 0x9d,
                };
                m.emit_bytes(&[0x39, 0xc8, 0x0f, cc, 0xc0, 0x0f, 0xb6, 0xc0]);
            },
        }
    }

    /// A call: a built-in inline, or a user function with its arguments in
    /// registers.
    #[verifier::loop_isolation(false)]
    #[verifier::rlimit(80)]
    #[verifier::spinoff_prover]
    fn emit_call_expr(
        &self,
        m: &mut NativeModule,
        e: &Node<Expr>,
        callee: &String,
        args: &Vec<Node<Expr>>,
    ) -> (r: Result<(), String>)
        requires
            old(m).wf(),
            self.fwf(),
            e.kind == (Expr::Call { callee: *callee, args: *args }),
            ekind_call(expr_m(*e).kind, callee@, exprs_m(args@)),
        ensures
            final(m).wf(),
            res(r, self.fst(final(m).st())) == emit_expr(self.fst(old(m).st()), expr_m(*e)),
        decreases e, 1int,
    {
        let cn = str_chars(callee.as_str());
        let ghost am = exprs_m(args@);
        if chars_eq_str(cn.as_slice(), "debug_i32") {
            match require_arg_count("debug_i32", args, 1) {
                Ok(()) => {},
                Err(x) => {
                    return Err(x);
                },
            }
            assert(am[0] == expr_m(args@[0]));
            match self.emit_expr(m, &args[0]) {
                Ok(()) => {},
                Err(x) => {
                    return Err(x);
                },
            }
            m.emit_bytes(&[0x89, 0xc7]);
            m.emit_call(str_chars("runtime.debug_i32").as_slice());
            m.emit_bytes(&[0x31, 0xc0]);
            return Ok(());
        }
        if chars_eq_str(cn.as_slice(), "debug_string") {
            match require_arg_count("debug_string", args, 1) {
                Ok(()) => {},
                Err(x) => {
                    return Err(x);
                },
            }
            assert(am[0] == expr_m(args@[0]));
            let value = match &args[0].kind {
                Expr::Lit(Literal::Str(v)) => v,
                _ => {
                    return static_err("native debug_string currently requires a string literal");
                },
            };
            let vb = value.as_str().as_bytes();
            let mut bytes: Vec<u8> = Vec::new();
            let mut i: usize = 0;
            while i < vb.len()
                invariant
                    i <= vb@.len(),
                    bytes@ == vb@.subrange(0, i as int),
                decreases vb@.len() - i,
            {
                bytes.push(vb[i]);
                assert(bytes@ =~= vb@.subrange(0, i + 1));
                i = i + 1;
            }
            assert(bytes@ =~= vb@);
            let n = bytes.len();
            let label = m.add_static_bytes(str_chars("string.literal").as_slice(), bytes);
            m.emit_byte(0xb8);
            m.emit_i32(1);
            m.emit_byte(0xbf);
            m.emit_i32(1);
            m.emit_bytes(&[0x48, 0xbe]);
            m.emit_abs64_patch(label.as_slice());
            m.emit_byte(0xba);
            m.emit_i32(#[verifier::truncate] (n as i32));
            m.emit_bytes(&[0x0f, 0x05, 0x31, 0xc0]);
            return Ok(());
        }
        if chars_eq_str(cn.as_slice(), "abs_i32") || chars_eq_str(cn.as_slice(), "is_even_i32") {
            let abs = chars_eq_str(cn.as_slice(), "abs_i32");
            match require_arg_count(
                if abs {
                    "abs_i32"
                } else {
                    "is_even_i32"
                },
                args,
                1,
            ) {
                Ok(()) => {},
                Err(x) => {
                    return Err(x);
                },
            }
            assert(am[0] == expr_m(args@[0]));
            match self.emit_expr(m, &args[0]) {
                Ok(()) => {},
                Err(x) => {
                    return Err(x);
                },
            }
            if abs {
                m.emit_bytes(&[0x89, 0xc1, 0xf7, 0xd9, 0x83, 0xf8, 0x00, 0x0f, 0x48, 0xc1]);
            } else {
                m.emit_bytes(&[0x83, 0xe0, 0x01, 0x83, 0xf8, 0x00, 0x0f, 0x94, 0xc0, 0x0f, 0xb6, 0xc0]);
            }
            return Ok(());
        }
        if chars_eq_str(cn.as_slice(), "max_i32") {
            match require_arg_count("max_i32", args, 2) {
                Ok(()) => {},
                Err(x) => {
                    return Err(x);
                },
            }
            assert(am[0] == expr_m(args@[0]));
            assert(am[1] == expr_m(args@[1]));
            match self.emit_expr(m, &args[0]) {
                Ok(()) => {},
                Err(x) => {
                    return Err(x);
                },
            }
            m.emit_byte(0x50);
            match self.emit_expr(m, &args[1]) {
                Ok(()) => {},
                Err(x) => {
                    return Err(x);
                },
            }
            m.emit_bytes(&[0x89, 0xc1, 0x58, 0x39, 0xc8, 0x0f, 0x4c, 0xc1]);
            return Ok(());
        }
        if chars_eq_str(cn.as_slice(), "vector_len_i32") {
            match require_arg_count("vector_len_i32", args, 1) {
                Ok(()) => {},
                Err(x) => {
                    return Err(x);
                },
            }
            assert(am[0] == expr_m(args@[0]));
            return match &args[0].kind {
                Expr::Ident(name) => self.slot_op(m, &[0x8b, 0x85], str_chars(name.as_str()).as_slice(), 8),
                _ => static_err("native vector_len_i32 currently requires a vector identifier"),
            };
        }
        if chars_eq_str(cn.as_slice(), "vector_i32_3") {
            return static_err("native vector_i32_3 must initialize a Vector<i32> binding");
        }
        if args.len() > 4 {
            return static_err("native backend currently supports up to 6 integer call arguments");
        }
        let ghost target = push_args(self.fst(m.st()), am, 0);
        let mut i: usize = 0;
        while i < args.len()
            invariant
                i <= args@.len(),
                m.wf(),
                push_args(self.fst(m.st()), am, i as int) == target,
            decreases args@.len() - i,
        {
            assert(am[i as int] == expr_m(args@[i as int]));
            match self.emit_expr(m, &args[i]) {
                Ok(()) => {},
                Err(x) => {
                    return Err(x);
                },
            }
            m.emit_byte(0x50);
            i = i + 1;
        }
        let mut k = args.len();
        let ghost n = args@.len() as int;
        let ghost start = m.st();
        assert(target == Ok::<FSt, Seq<char>>(self.fst(start)));
        proof {
            lemma_pop_args_len(n);
            assert(start.code =~= start.code + pop_args(n).subrange(0, 0));
        }
        while k > 0
            invariant
                k <= args@.len(),
                n == args@.len(),
                m.wf(),
                pop_args(n).len() == 3 * n,
                m.st() == n_bytes(start, pop_args(n).subrange(0, 3 * (n - k))),
            decreases k,
        {
            proof {
                lemma_pop_args(n, k as int);
            }
            let ghost before = m.st();
            m.emit_bytes(&[0x58, 0x89, arg_mov_of(k - 1)]);
            assert(m.st().code =~= start.code + pop_args(n).subrange(0, 3 * (n - k + 1))) by {
                assert(pop_args(n).subrange(0, 3 * (n - k + 1)) =~= pop_args(n).subrange(0, 3 * (n - k)) + seq![
                    0x58u8,
                    0x89,
                    arg_mov(k - 1),
                ]);
            }
            k = k - 1;
        }
        assert(pop_args(n).subrange(0, 3 * n) =~= pop_args(n));
        m.emit_call(func_label_chars(cn.as_slice()).as_slice());
        Ok(())
    }
}

pub open spec fn ekind_call(k: ExprM, callee: Seq<char>, args: Seq<NodeM<ExprM>>) -> bool {
    k == (ExprM::Call { callee, args })
}

proof fn lemma_pop_args_len(n: int)
    requires
        n >= 0,
    ensures
        pop_args(n).len() == 3 * n,
    decreases n,
{
    if n > 0 {
        lemma_pop_args_len(n - 1);
    }
}

/// The pops of `pop_args(n)` for the argument `k - 1` sit at `3 * (n - k)`.
proof fn lemma_pop_args(n: int, k: int)
    requires
        0 < k <= n,
    ensures
        pop_args(n).len() == 3 * n,
        pop_args(n).subrange(3 * (n - k), 3 * (n - k) + 3) == seq![0x58u8, 0x89, arg_mov(k - 1)],
    decreases n,
{
    lemma_pop_args_len(n);
    lemma_pop_args_len(n - 1);
    if k == n {
        assert(pop_args(n).subrange(0, 3) =~= seq![0x58u8, 0x89, arg_mov(n - 1)]);
    } else {
        lemma_pop_args(n - 1, k);
        assert(pop_args(n).subrange(3 * (n - k), 3 * (n - k) + 3) =~= pop_args(n - 1).subrange(
            3 * (n - 1 - k),
            3 * (n - 1 - k) + 3,
        ));
    }
}

impl FunctionEmitter {
    fn emit_return(&self, m: &mut NativeModule)
        requires
            old(m).wf(),
        ensures
            final(m).wf(),
            self.fst(final(m).st()) == f_return(self.fst(old(m).st())),
    {
        m.emit_bytes(&[0x48, 0x89, 0xec, 0x5d, 0xc3]);
    }

    /// `let v::Vector<i32> = vector_i32_3(a, b, c)`.
    #[verifier::loop_isolation(false)]
    fn emit_vector_i32_3_let(&self, m: &mut NativeModule, b: &StickyBinding, args: &Vec<Node<Expr>>) -> (r: Result<
        (),
        String,
    >)
        requires
            old(m).wf(),
            self.fwf(),
        ensures
            final(m).wf(),
            res(r, self.fst(final(m).st())) == vec3_let(self.fst(old(m).st()), binding_m(*b), exprs_m(args@)),
    {
        match require_arg_count("vector_i32_3", args, 3) {
            Ok(()) => {},
            Err(x) => {
                return Err(x);
            },
        }
        if !matches!(b.ty, Type::Vector(_)) {
            return static_err("native vector_i32_3 must initialize a Vector<i32> binding");
        }
        let name = str_chars(b.name.as_str());
        let data = prefixed_name("__vecdata_", name.as_slice());
        let ghost am = exprs_m(args@);
        let ghost target = vec3_args(self.fst(m.st()), am, 0, data@);
        let mut i: usize = 0;
        while i < args.len()
            invariant
                i <= args@.len(),
                args@.len() == 3,
                m.wf(),
                vec3_args(self.fst(m.st()), am, i as int, data@) == target,
            decreases args@.len() - i,
        {
            assert(am[i as int] == expr_m(args@[i as int]));
            match self.emit_expr(m, &args[i]) {
                Ok(()) => {},
                Err(x) => {
                    return Err(x);
                },
            }
            match self.slot_op(m, &[0x89, 0x85], data.as_slice(), (i as i32) * 4) {
                Ok(()) => {},
                Err(x) => {
                    return Err(x);
                },
            }
            i = i + 1;
        }
        match self.slot_op(m, &[0x48, 0x8d, 0x85], data.as_slice(), 0) {
            Ok(()) => {},
            Err(x) => {
                return Err(x);
            },
        }
        match self.slot_op(m, &[0x48, 0x89, 0x85], name.as_slice(), 0) {
            Ok(()) => {},
            Err(x) => {
                return Err(x);
            },
        }
        match self.mov_mem_imm(m, name.as_slice(), 8, 3) {
            Ok(()) => {},
            Err(x) => {
                return Err(x);
            },
        }
        self.mov_mem_imm(m, name.as_slice(), 16, 3)
    }

    /// A guard's action; `next` is the label after the guard.
    fn emit_guard_action(&mut self, m: &mut NativeModule, action: &GuardAction, next: &[char]) -> (r: Result<(), String>)
        requires
            old(m).wf(),
            old(self).fwf(),
        ensures
            final(m).wf(),
            final(self).fwf(),
            res(r, final(self).fst(final(m).st())) == emit_action(
                old(self).fst(old(m).st()),
                crate::ast::action_m(*action),
                next@,
            ),
    {
        match action {
            GuardAction::Continue => {
                let n = self.loops.len();
                if n == 0 {
                    return static_err("native backend found @continue outside loop");
                }
                m.emit_jmp(self.loops[n - 1].0.as_slice());
                Ok(())
            },
            GuardAction::Break => {
                let n = self.loops.len();
                if n == 0 {
                    return static_err("native backend found @break outside loop");
                }
                m.emit_jmp(self.loops[n - 1].1.as_slice());
                Ok(())
            },
            GuardAction::Return(e) => {
                match self.emit_expr(m, e) {
                    Ok(()) => {},
                    Err(x) => {
                        return Err(x);
                    },
                }
                self.emit_return(m);
                self.returned = true;
                Ok(())
            },
            GuardAction::SetAssign { target, value } => {
                match self.emit_expr(m, value) {
                    Ok(()) => {},
                    Err(x) => {
                        return Err(x);
                    },
                }
                match self.slot_op(m, &[0x89, 0x85], str_chars(target.as_str()).as_slice(), 0) {
                    Ok(()) => {},
                    Err(x) => {
                        return Err(x);
                    },
                }
                m.emit_jmp(next);
                Ok(())
            },
        }
    }

    /// The statements of a block, up to a return.
    #[verifier::loop_isolation(false)]
    fn emit_block(&mut self, m: &mut NativeModule, stmts: &Vec<Node<Statement>>) -> (r: Result<(), String>)
        requires
            old(m).wf(),
            old(self).fwf(),
        ensures
            final(m).wf(),
            final(self).fwf(),
            res(r, final(self).fst(final(m).st())) == emit_block(old(self).fst(old(m).st()), stmts_m(stmts@), 0),
        decreases stmts,
    {
        let ghost sm = stmts_m(stmts@);
        let ghost target = emit_block(self.fst(m.st()), sm, 0);
        let mut i: usize = 0;
        while i < stmts.len()
            invariant
                i <= stmts@.len(),
                m.wf(),
                self.fwf(),
                emit_block(self.fst(m.st()), sm, i as int) == target,
            decreases stmts@.len() - i,
        {
            if self.returned {
                break;
            }
            assert(sm[i as int] == stmt_m(stmts@[i as int]));
            match self.emit_stmt(m, &stmts[i]) {
                Ok(()) => {},
                Err(x) => {
                    return Err(x);
                },
            }
            i = i + 1;
        }
        Ok(())
    }
}

impl FunctionEmitter {
    fn push_loop(&mut self, latch: &[char], exit: &[char])
        ensures
            final(self).locals@ == old(self).locals@,
            final(self).next_offset == old(self).next_offset,
            forall|ms: NSt|
                #[trigger] final(self).fst(ms) == (FSt {
                    loops: old(self).fst(ms).loops.push((latch@, exit@)),
                    returned: false,
                    ..old(self).fst(ms)
                }),
    {
        let ghost before = self.loops@;
        self.loops.push((copy_chars(latch), copy_chars(exit)));
        self.returned = false;
        assert(nloops_m(self.loops@) =~= nloops_m(before).push((latch@, exit@)));
    }

    fn pop_loop(&mut self)
        ensures
            final(self).locals@ == old(self).locals@,
            final(self).next_offset == old(self).next_offset,
            forall|ms: NSt|
                #[trigger] final(self).fst(ms) == (FSt {
                    loops: if old(self).fst(ms).loops.len() > 0 {
                        old(self).fst(ms).loops.drop_last()
                    } else {
                        old(self).fst(ms).loops
                    },
                    ..old(self).fst(ms)
                }),
    {
        let ghost before = self.loops@;
        if self.loops.len() > 0 {
            let _ = self.loops.pop();
            assert(nloops_m(self.loops@) =~= nloops_m(before).drop_last());
        }
    }

    /// A loop over the `Vector<i32>` slot of its collection.
    #[verifier::loop_isolation(false)]
    #[verifier::rlimit(80)]
    #[verifier::spinoff_prover]
    fn emit_loop(&mut self, m: &mut NativeModule, id: &String, lb: &crate::ast::LoopBlock) -> (r: Result<(), String>)
        requires
            old(m).wf(),
            old(self).fwf(),
        ensures
            final(m).wf(),
            final(self).fwf(),
            res(r, final(self).fst(final(m).st())) == emit_loop(
                old(self).fst(old(m).st()),
                id@,
                binding_m(lb.item),
                lb.collection@,
                stmts_m(lb.body@),
            ),
        decreases lb,
    {
        let coll = str_chars(lb.collection.as_str());
        let k = match self.local_index(coll.as_slice()) {
            Some(k) => k,
            None => {
                let mut msg: Vec<char> = Vec::new();
                push_str(&mut msg, "native backend could not resolve loop collection: ");
                push_chars(&mut msg, coll.as_slice());
                return Err(chars_to_string(msg.as_slice()));
            },
        };
        let offset = self.locals[k].1.offset;
        match &self.locals[k].1.ty {
            Type::Vector(inner) => {
                if !matches!(**inner, Type::I32 | Type::U32 | Type::Bool) {
                    return static_err("native backend loops currently support Vector<i32> items");
                }
            },
            _ => {
                return static_err("native backend loops currently require Vector<T>");
            },
        }
        let idx = prefixed_name("__idx_", str_chars(id.as_str()).as_slice());
        let item = str_chars(lb.item.name.as_str());
        match self.mov_mem_imm(m, idx.as_slice(), 0, 0) {
            Ok(()) => {},
            Err(x) => {
                return Err(x);
            },
        }
        let header = m.fresh_label(str_chars("loop.header").as_slice());
        let body = m.fresh_label(str_chars("loop.body").as_slice());
        let latch = m.fresh_label(str_chars("loop.latch").as_slice());
        let exit = m.fresh_label(str_chars("loop.exit").as_slice());
        m.mark_label(header.as_slice());
        match self.slot_op(m, &[0x48, 0x8b, 0x85], idx.as_slice(), 0) {
            Ok(()) => {},
            Err(x) => {
                return Err(x);
            },
        }
        m.emit_bytes(&[0x48, 0x8b, 0x8d]);
        m.emit_i32(-(offset - 8));
        m.emit_bytes(&[0x48, 0x39, 0xc8]);
        m.emit_jcc(0x8d, exit.as_slice());
        m.emit_jmp(body.as_slice());
        m.mark_label(body.as_slice());
        m.emit_bytes(&[0x48, 0x8b, 0x95]);
        m.emit_i32(-offset);
        match self.slot_op(m, &[0x48, 0x8b, 0x85], idx.as_slice(), 0) {
            Ok(()) => {},
            Err(x) => {
                return Err(x);
            },
        }
        m.emit_bytes(&[0x8b, 0x04, 0x82]);
        match self.slot_op(m, &[0x89, 0x85], item.as_slice(), 0) {
            Ok(()) => {},
            Err(x) => {
                return Err(x);
            },
        }
        self.push_loop(latch.as_slice(), exit.as_slice());
        match self.emit_block(m, &lb.body) {
            Ok(()) => {},
            Err(x) => {
                return Err(x);
            },
        }
        self.pop_loop();
        if !self.returned {
            m.emit_jmp(latch.as_slice());
        }
        self.returned = false;
        m.mark_label(latch.as_slice());
        match self.slot_op(m, &[0x48, 0x8b, 0x85], idx.as_slice(), 0) {
            Ok(()) => {},
            Err(x) => {
                return Err(x);
            },
        }
        m.emit_bytes(&[0x48, 0x83, 0xc0, 0x01]);
        match self.slot_op(m, &[0x48, 0x89, 0x85], idx.as_slice(), 0) {
            Ok(()) => {},
            Err(x) => {
                return Err(x);
            },
        }
        m.emit_jmp(header.as_slice());
        m.mark_label(exit.as_slice());
        Ok(())
    }

    /// One statement.
    #[verifier::loop_isolation(false)]
    #[verifier::rlimit(60)]
    #[verifier::spinoff_prover]
    fn emit_stmt(&mut self, m: &mut NativeModule, s: &Node<Statement>) -> (r: Result<(), String>)
        requires
            old(m).wf(),
            old(self).fwf(),
        ensures
            final(m).wf(),
            final(self).fwf(),
            res(r, final(self).fst(final(m).st())) == emit_stmt(old(self).fst(old(m).st()), stmt_m(*s)),
        decreases s,
    {
        match &s.kind {
            Statement::Let(l) => {
                match &l.value.kind {
                    Expr::Call { callee, args } => {
                        proof {
                            lemma_call_m(*callee, *args);
                        }
                        if chars_eq_str(str_chars(callee.as_str()).as_slice(), "vector_i32_3") {
                            return self.emit_vector_i32_3_let(m, &l.binding, args);
                        }
                    },
                    _ => {},
                }
                match self.emit_expr(m, &l.value) {
                    Ok(()) => {},
                    Err(x) => {
                        return Err(x);
                    },
                }
                self.slot_op(m, &[0x89, 0x85], str_chars(l.binding.name.as_str()).as_slice(), 0)
            },
            Statement::SetVar(st) => {
                match self.emit_expr(m, &st.value) {
                    Ok(()) => {},
                    Err(x) => {
                        return Err(x);
                    },
                }
                self.slot_op(m, &[0x89, 0x85], str_chars(st.target.as_str()).as_slice(), 0)
            },
            Statement::Return(rs) => {
                match &rs.value {
                    Some(v) => match self.emit_expr(m, v) {
                        Ok(()) => {},
                        Err(x) => {
                            return Err(x);
                        },
                    },
                    None => m.emit_bytes(&[0x31, 0xc0]),
                }
                self.emit_return(m);
                self.returned = true;
                Ok(())
            },
            Statement::Loop(lb) => {
                proof {
                    lemma_loop_m(*lb);
                }
                self.emit_loop(m, &s.id, lb)
            },
            Statement::Condition(cb) => {
                let mut p: Vec<char> = Vec::new();
                push_str(&mut p, "cond.");
                push_chars(&mut p, str_chars(cb.name.as_str()).as_slice());
                push_str(&mut p, ".next");
                let next = m.fresh_label(p.as_slice());
                match self.emit_expr(m, &cb.guard.kind.cond) {
                    Ok(()) => {},
                    Err(x) => {
                        return Err(x);
                    },
                }
                m.emit_bytes(&[0x83, 0xf8, 0x00]);
                m.emit_jcc(0x84, next.as_slice());
                match self.emit_guard_action(m, &cb.guard.kind.action, next.as_slice()) {
                    Ok(()) => {},
                    Err(x) => {
                        return Err(x);
                    },
                }
                m.mark_label(next.as_slice());
                self.returned = false;
                Ok(())
            },
            Statement::Expr(e) => self.emit_expr(m, e),
        }
    }
}

/// One function: the prologue, zeroed slots, the stored arguments, the
/// body, and, unless every path returned, a return of the output slot.
#[verifier::loop_isolation(false)]
fn emit_function(m: &mut NativeModule, f: &Node<FunctionDecl>) -> (r: Result<(), String>)
    requires
        old(m).wf(),
    ensures
        final(m).wf(),
        match function_code(old(m).st(), func_m(*f).kind) {
            Ok(ms) => r is Ok && final(m).st() == ms,
            Err(e) => r matches Err(x) && x@ == e,
        },
{
    let ghost m0 = m.st();
    let mut fe = FunctionEmitter::new();
    fe.collect_function_slots(Ghost(m0), f);
    let stack = align_to(fe.next_offset);
    m.mark_label(func_label_chars(str_chars(f.kind.name.as_str()).as_slice()).as_slice());
    m.emit_bytes(&[0x55, 0x48, 0x89, 0xe5, 0x48, 0x81, 0xec]);
    m.emit_i32(stack);
    match fe.zero_all_slots(m) {
        Ok(()) => {},
        Err(x) => {
            return Err(x);
        },
    }
    match fe.store_input_args(m, &f.kind.inputs) {
        Ok(()) => {},
        Err(x) => {
            return Err(x);
        },
    }
    match fe.emit_block(m, &f.kind.body) {
        Ok(()) => {},
        Err(x) => {
            return Err(x);
        },
    }
    if !fe.returned {
        match fe.slot_op(m, &[0x8b, 0x85], str_chars(f.kind.output.name.as_str()).as_slice(), 0) {
            Ok(()) => {},
            Err(x) => {
                return Err(x);
            },
        }
        fe.emit_return(m);
    }
    Ok(())
}

impl NativeModule {
    /// Writes the four bytes of `v` at `pos`.
    fn write_u32_at(&mut self, pos: usize, v: u32)
        requires
            old(self).wf(),
            pos + 4 <= old(self).code@.len(),
        ensures
            final(self).wf(),
            final(self).st() == (NSt { code: write_at(old(self).code@, pos as int, le32(v)), ..old(self).st() }),
    {
        let len = self.code.len();
        assert(pos + 4 <= len);
        self.code.set(pos, (v & 0xff) as u8);
        self.code.set(pos + 1, ((v >> 8u32) & 0xff) as u8);
        self.code.set(pos + 2, ((v >> 16u32) & 0xff) as u8);
        self.code.set(pos + 3, ((v >> 24u32) & 0xff) as u8);
        assert(self.code@ =~= write_at(old(self).code@, pos as int, le32(v)));
    }

    /// Writes the eight bytes of `v` at `pos`.
    fn write_u64_at(&mut self, pos: usize, v: u64)
        requires
            old(self).wf(),
            pos + 8 <= old(self).code@.len(),
        ensures
            final(self).wf(),
            final(self).st() == (NSt { code: write_at(old(self).code@, pos as int, le64(v)), ..old(self).st() }),
    {
        let len = self.code.len();
        assert(pos + 8 <= len);
        self.write_u32_at(pos, (v & 0xffff_ffff) as u32);
        self.write_u32_at(pos + 4, (v >> 32u64) as u32);
        assert(self.code@ =~= write_at(old(self).code@, pos as int, le64(v)));
    }

    /// The position of the latest mark of `label`.
    fn label_position(&self, label: &[char]) -> (r: Option<usize>)
        ensures
            match r {
                Some(p) => label_pos(self.st().labels, label@, self.labels@.len() as int) == Some(p as int),
                None => label_pos(self.st().labels, label@, self.labels@.len() as int) is None,
            },
    {
        let ghost lm = self.st().labels;
        let mut k = self.labels.len();
        while k > 0
            invariant
                k <= self.labels@.len(),
                lm == self.st().labels,
                label_pos(lm, label@, k as int) == label_pos(lm, label@, self.labels@.len() as int),
            decreases k,
        {
            if chars_eq(self.labels[k - 1].0.as_slice(), label) {
                return Some(self.labels[k - 1].1);
            }
            k = k - 1;
        }
        None
    }

    /// Resolves the relative branches.
    #[verifier::loop_isolation(false)]
    fn patch_rel32(&mut self) -> (r: Result<(), String>)
        requires
            old(self).wf(),
        ensures
            final(self).wf(),
            match patch_rel32(old(self).st(), 0) {
                Ok(ms) => r is Ok && final(self).st() == ms,
                Err(e) => r matches Err(x) && x@ == e,
            },
    {
        let ghost target = patch_rel32(self.st(), 0);
        let mut k: usize = 0;
        while k < self.patches.len()
            invariant
                k <= self.patches@.len(),
                self.wf(),
                patch_rel32(self.st(), k as int) == target,
            decreases self.patches@.len() - k,
        {
            let pos = self.patches[k].0;
            let label = copy_chars(self.patches[k].1.as_slice());
            let t = match self.label_position(label.as_slice()) {
                Some(t) => t,
                None => {
                    let mut msg: Vec<char> = Vec::new();
                    push_str(&mut msg, "native backend unresolved label: ");
                    push_chars(&mut msg, label.as_slice());
                    return Err(chars_to_string(msg.as_slice()));
                },
            };
            let rel: i128 = t as i128 - (pos as i128 + 4);
            if rel < -0x8000_0000 || rel > 0x7fff_ffff {
                let mut msg: Vec<char> = Vec::new();
                push_str(&mut msg, "native backend branch is out of range: ");
                push_chars(&mut msg, label.as_slice());
                return Err(chars_to_string(msg.as_slice()));
            }
            let r32 = rel as i32;
            assert(self.patches@[k as int].0 + 4 <= self.code@.len());
            self.write_u32_at(pos, r32 as u32);
            k = k + 1;
        }
        Ok(())
    }

    /// Resolves the absolute addresses.
    #[verifier::loop_isolation(false)]
    fn patch_abs64(&mut self) -> (r: Result<(), String>)
        requires
            old(self).wf(),
        ensures
            final(self).wf(),
            match patch_abs64(old(self).st(), 0) {
                Ok(ms) => r is Ok && final(self).st() == ms,
                Err(e) => r matches Err(x) && x@ == e,
            },
    {
        let ghost target = patch_abs64(self.st(), 0);
        let mut k: usize = 0;
        while k < self.abs64_patches.len()
            invariant
                k <= self.abs64_patches@.len(),
                self.wf(),
                patch_abs64(self.st(), k as int) == target,
            decreases self.abs64_patches@.len() - k,
        {
            let pos = self.abs64_patches[k].0;
            let label = copy_chars(self.abs64_patches[k].1.as_slice());
            let t = match self.label_position(label.as_slice()) {
                Some(t) => t,
                None => {
                    let mut msg: Vec<char> = Vec::new();
                    push_str(&mut msg, "native backend unresolved data label: ");
                    push_chars(&mut msg, label.as_slice());
                    return Err(chars_to_string(msg.as_slice()));
                },
            };
            let addr = 0x400078u64.wrapping_add(t as u64);
            assert(addr == ((0x400078 + t) % 0x1_0000_0000_0000_0000) as u64);
            assert(self.abs64_patches@[k as int].0 + 8 <= self.code@.len());
            self.write_u64_at(pos, addr);
            k = k + 1;
        }
        Ok(())
    }

    /// The static data, each item under its label.
    #[verifier::loop_isolation(false)]
    fn emit_static_data(&mut self)
        requires
            old(self).wf(),
        ensures
            final(self).wf(),
            final(self).st() == emit_data(
                NSt { data: Seq::empty(), ..old(self).st() },
                old(self).st().data,
                0,
            ),
    {
        let mut items: Vec<(Vec<char>, Vec<u8>)> = Vec::new();
        std::mem::swap(&mut items, &mut self.data_items);
        let ghost dm = data_m(items@);
        assert(data_m(self.data_items@) =~= Seq::empty());
        let ghost target = emit_data(self.st(), dm, 0);
        let mut i: usize = 0;
        while i < items.len()
            invariant
                i <= items@.len(),
                dm == data_m(items@),
                self.wf(),
                emit_data(self.st(), dm, i as int) == target,
            decreases items@.len() - i,
        {
            self.mark_label(items[i].0.as_slice());
            self.emit_bytes(items[i].1.as_slice());
            i = i + 1;
        }
    }
}

/// The ELF header and the one loadable, readable and executable segment
/// that holds the whole file, followed by the code.
pub fn wrap_elf(code: Vec<u8>) -> (out: Vec<u8>)
    ensures
        out@ == elf_image(code@),
{
    let file_size = (CODE_OFFSET as u64).wrapping_add(code.len() as u64);
    assert(file_size == ((120 + code@.len()) % 0x1_0000_0000_0000_0000) as u64);
    let mut m = NativeModule::new();
    m.emit_bytes(&[0x7f, 0x45, 0x4c, 0x46, 2, 1, 1, 0, 0, 0, 0, 0, 0, 0, 0, 0]);
    m.emit_u16(2);
    m.emit_u16(62);
    m.emit_u32(1);
    m.emit_u64(0x400078);
    m.emit_u64(64);
    m.emit_u64(0);
    m.emit_u32(0);
    m.emit_u16(64);
    m.emit_u16(56);
    m.emit_u16(1);
    m.emit_u16(0);
    m.emit_u16(0);
    m.emit_u16(0);
    m.emit_u32(1);
    m.emit_u32(5);
    m.emit_u64(0);
    m.emit_u64(BASE_ADDR);
    m.emit_u64(BASE_ADDR);
    m.emit_u64(file_size);
    m.emit_u64(file_size);
    m.emit_u64(0x1000);
    m.emit_bytes(code.as_slice());
    assert(m.code@ =~= elf_image(code@));
    m.code
}

impl NativeModule {
    fn emit_u16(&mut self, v: u16)
        requires
            old(self).wf(),
        ensures
            final(self).wf(),
            final(self).st() == n_bytes(old(self).st(), le16(v)),
    {
        let b = [(v & 0xff) as u8, ((v >> 8u16) & 0xff) as u8];
        self.emit_bytes(&b);
        assert(b@ =~= le16(v));
    }

    fn emit_u64(&mut self, v: u64)
        requires
            old(self).wf(),
        ensures
            final(self).wf(),
            final(self).st() == n_bytes(old(self).st(), le64(v)),
    {
        let ghost s0 = self.st();
        self.emit_u32((v & 0xffff_ffff) as u32);
        self.emit_u32((v >> 32u64) as u32);
        assert(self.st().code =~= s0.code + le64(v));
    }
}

/// The index of the first function named `name`.
fn first_named_exec(funcs: &Vec<Node<FunctionDecl>>, name: &str) -> (r: Option<usize>)
    ensures
        match r {
            Some(k) => k < funcs@.len() && first_named(funcs_m(funcs@), name@, 0) == Some(k as int),
            None => first_named(funcs_m(funcs@), name@, 0) is None,
        },
{
    let ghost fm = funcs_m(funcs@);
    let mut i: usize = 0;
    while i < funcs.len()
        invariant
            i <= funcs@.len(),
            fm == funcs_m(funcs@),
            first_named(fm, name@, i as int) == first_named(fm, name@, 0),
        decreases funcs@.len() - i,
    {
        assert(fm[i as int] == func_m(funcs@[i as int]));
        if chars_eq(str_chars(funcs[i].kind.name.as_str()).as_slice(), str_chars(name).as_slice()) {
            return Some(i);
        }
        i = i + 1;
    }
    None
}

/// The Linux x86-64 executable of a program whose entry is the named
/// function, or the reason it cannot be built.
#[verifier::loop_isolation(false)]
pub fn emit_linux_x86_64_executable(program: &Program, entry: &str) -> (r: Result<Vec<u8>, String>)
    ensures
        match executable_spec(program_m(*program), entry@) {
            Ok(b) => r matches Ok(x) && x@ == b,
            Err(e) => r matches Err(x) && x@ == e,
        },
{
    let ghost fm = program_m(*program);
    let k = match first_named_exec(&program.functions, entry) {
        Some(k) => k,
        None => {
            let mut msg: Vec<char> = Vec::new();
            push_str(&mut msg, "native entrypoint function not found: ");
            push_str(&mut msg, entry);
            return Err(chars_to_string(msg.as_slice()));
        },
    };
    assert(fm[k as int] == func_m(program.functions@[k as int]));
    let mut m = NativeModule::new();
    m.emit_entry_args(&program.functions[k].kind.inputs);
    m.emit_call(func_label_chars(str_chars(entry).as_slice()).as_slice());
    m.emit_bytes(&[0x89, 0xc7, 0xb8]);
    m.emit_i32(60);
    m.emit_bytes(&[0x0f, 0x05]);
    m.emit_parse_i32_helper();
    m.emit_debug_i32_helper();
    let ghost target = emit_functions(m.st(), fm, 0);
    let mut i: usize = 0;
    while i < program.functions.len()
        invariant
            i <= program.functions@.len(),
            fm == program_m(*program),
            m.wf(),
            emit_functions(m.st(), fm, i as int) == target,
        decreases program.functions@.len() - i,
    {
        assert(fm[i as int] == func_m(program.functions@[i as int]));
        match emit_function(&mut m, &program.functions[i]) {
            Ok(()) => {},
            Err(x) => {
                return Err(x);
            },
        }
        i = i + 1;
    }
    m.emit_static_data();
    match m.patch_rel32() {
        Ok(()) => {},
        Err(x) => {
            return Err(x);
        },
    }
    match m.patch_abs64() {
        Ok(()) => {},
        Err(x) => {
            return Err(x);
        },
    }
    Ok(wrap_elf(m.code))
}

} // verus!
