//! The syntax tree of a program, its mathematical model (the same tree with
//! every string replaced by its character sequence), and the canonical
//! rendering of types and operators.
use crate::text::{chars_to_string, push_str};
use vstd::prelude::*;

verus! {

/// A source range: byte offsets and 1-based line/column positions.
#[derive(Debug, Clone, Copy, PartialEq, Eq, Structural)]
pub struct Span {
    pub start_byte: usize,
    pub end_byte: usize,
    pub start_line: usize,
    pub start_col: usize,
    pub end_line: usize,
    pub end_col: usize,
}

/// A syntax node: a stable identifier, its source range and its payload.
#[derive(Debug, Clone)]
pub struct Node<T> {
    pub id: String,
    pub span: Span,
    pub kind: T,
}

#[derive(Debug)]
pub struct Program {
    pub functions: Vec<Node<FunctionDecl>>,
}

#[derive(Debug)]
pub struct FunctionDecl {
    pub name: String,
    pub intent: String,
    pub inputs: Vec<StickyBinding>,
    pub output: StickyBinding,
    pub body: Vec<Node<Statement>>,
    pub close_name: String,
}

/// A name with its sticky type annotation, `name::Type`.
#[derive(Debug, Clone, PartialEq, Eq)]
pub struct StickyBinding {
    pub name: String,
    pub ty: Type,
}

#[derive(Debug)]
pub enum Statement {
    Let(LetStmt),
    SetVar(SetStmt),
    Return(ReturnStmt),
    Loop(LoopBlock),
    Condition(ConditionBlock),
    Expr(Node<Expr>),
}

#[derive(Debug)]
pub struct LetStmt {
    pub binding: StickyBinding,
    pub value: Node<Expr>,
}

#[derive(Debug)]
pub struct SetStmt {
    pub target: String,
    pub value: Node<Expr>,
}

#[derive(Debug)]
pub struct ReturnStmt {
    pub value: Option<Node<Expr>>,
}

#[derive(Debug)]
pub struct LoopBlock {
    pub item: StickyBinding,
    pub collection: String,
    pub body: Vec<Node<Statement>>,
    pub close_name: Option<String>,
}

#[derive(Debug)]
pub struct ConditionBlock {
    pub name: String,
    pub guard: Node<GuardStmt>,
}

#[derive(Debug)]
pub struct GuardStmt {
    pub cond: Node<Expr>,
    pub action: GuardAction,
}

#[derive(Debug)]
pub enum GuardAction {
    Continue,
    Break,
    Return(Node<Expr>),
    SetAssign { target: String, value: Node<Expr> },
}

#[derive(Debug)]
pub enum Expr {
    Lit(Literal),
    Ident(String),
    Binary { op: BinOp, lhs: Box<Node<Expr>>, rhs: Box<Node<Expr>> },
    Unary { op: UnOp, operand: Box<Node<Expr>> },
    Call { callee: String, args: Vec<Node<Expr>> },
    Cast { expr: Box<Node<Expr>>, target: Type },
    Ctor(ConstructorExpr),
    Paren(Box<Node<Expr>>),
}

#[derive(Debug)]
pub enum ConstructorExpr {
    SomeOf(Box<Node<Expr>>),
    NoneOf,
    OkOf(Box<Node<Expr>>),
    ErrOf(Box<Node<Expr>>),
}

/// A literal. A float literal keeps the digits it was written with.
#[derive(Debug, Clone)]
pub enum Literal {
    Int(i64),
    Float(String),
    Str(String),
    Bool(bool),
}

#[derive(Debug, Clone, Copy, PartialEq, Eq, Structural)]
pub enum BinOp {
    Add,
    Sub,
    Mul,
    Div,
    Mod,
    Eq,
    Neq,
    Lt,
    Le,
    Gt,
    Ge,
    And,
    Or,
}

#[derive(Debug, Clone, Copy, PartialEq, Eq, Structural)]
pub enum UnOp {
    Neg,
    Not,
}

#[derive(Debug, PartialEq, Eq)]
pub enum Type {
    I8,
    I16,
    I32,
    I64,
    U8,
    U16,
    U32,
    U64,
    F32,
    F64,
    Bool,
    String,
    Unit,
    Vector(Box<Type>),
    Option(Box<Type>),
    Result(Box<Type>, Box<Type>),
    Boxed(Box<Type>),
    Unknown,
}

// ---------------------------------------------------------------------------
// Types
// ---------------------------------------------------------------------------
/// The numeric types: the eight integer types and the two float types.
pub open spec fn type_is_numeric(t: Type) -> bool {
    match t {
        Type::I8 | Type::I16 | Type::I32 | Type::I64 | Type::U8 | Type::U16 | Type::U32
        | Type::U64 | Type::F32 | Type::F64 => true,
        _ => false,
    }
}

impl Type {
    pub fn is_numeric(&self) -> (r: bool)
        ensures
            r == type_is_numeric(*self),
    {
        match self {
            Type::I8 | Type::I16 | Type::I32 | Type::I64 | Type::U8 | Type::U16 | Type::U32
            | Type::U64 | Type::F32 | Type::F64 => true,
            _ => false,
        }
    }

    /// The canonical rendering of the type (`Vector<i32>`, `Result<i32,string>`).
    pub fn to_text(&self) -> (s: String)
        ensures
            s@ == type_text(*self),
    {
        let mut out: Vec<char> = Vec::new();
        write_type(&mut out, self);
        assert(out@ =~= type_text(*self));
        chars_to_string(out.as_slice())
    }
}

/// The canonical rendering of a type, as the formatter and the diagnostics
/// write it.
pub open spec fn type_text(t: Type) -> Seq<char>
    decreases t,
{
    match t {
        Type::I8 => "i8"@,
        Type::I16 => "i16"@,
        Type::I32 => "i32"@,
        Type::I64 => "i64"@,
        Type::U8 => "u8"@,
        Type::U16 => "u16"@,
        Type::U32 => "u32"@,
        Type::U64 => "u64"@,
        Type::F32 => "f32"@,
        Type::F64 => "f64"@,
        Type::Bool => "bool"@,
        Type::String => "string"@,
        Type::Unit => "unit"@,
        Type::Vector(inner) => "Vector<"@ + type_text(*inner) + ">"@,
        Type::Option(inner) => "Option<"@ + type_text(*inner) + ">"@,
        Type::Result(ok, err) => "Result<"@ + type_text(*ok) + ","@ + type_text(*err) + ">"@,
        Type::Boxed(inner) => "Box<"@ + type_text(*inner) + ">"@,
        Type::Unknown => "unknown"@,
    }
}

/// Appends the canonical rendering of `t`.
pub fn write_type(out: &mut Vec<char>, t: &Type)
    ensures
        final(out)@ == old(out)@ + type_text(*t),
    decreases t,
{
    match t {
        Type::I8 => push_str(out, "i8"),
        Type::I16 => push_str(out, "i16"),
        Type::I32 => push_str(out, "i32"),
        Type::I64 => push_str(out, "i64"),
        Type::U8 => push_str(out, "u8"),
        Type::U16 => push_str(out, "u16"),
        Type::U32 => push_str(out, "u32"),
        Type::U64 => push_str(out, "u64"),
        Type::F32 => push_str(out, "f32"),
        Type::F64 => push_str(out, "f64"),
        Type::Bool => push_str(out, "bool"),
        Type::String => push_str(out, "string"),
        Type::Unit => push_str(out, "unit"),
        Type::Vector(inner) => {
            push_str(out, "Vector<");
            write_type(out, inner);
            push_str(out, ">");
            assert(out@ =~= old(out)@ + type_text(*t));
        },
        Type::Option(inner) => {
            push_str(out, "Option<");
            write_type(out, inner);
            push_str(out, ">");
            assert(out@ =~= old(out)@ + type_text(*t));
        },
        Type::Result(ok, err) => {
            push_str(out, "Result<");
            write_type(out, ok);
            push_str(out, ",");
            write_type(out, err);
            push_str(out, ">");
            assert(out@ =~= old(out)@ + type_text(*t));
        },
        Type::Boxed(inner) => {
            push_str(out, "Box<");
            write_type(out, inner);
            push_str(out, ">");
            assert(out@ =~= old(out)@ + type_text(*t));
        },
        Type::Unknown => push_str(out, "unknown"),
    }
}

/// The derived `Debug` rendering of a type (`Vector(I32)`, `Result(I32, String)`).
pub open spec fn type_debug_text(t: Type) -> Seq<char>
    decreases t,
{
    match t {
        Type::I8 => "I8"@,
        Type::I16 => "I16"@,
        Type::I32 => "I32"@,
        Type::I64 => "I64"@,
        Type::U8 => "U8"@,
        Type::U16 => "U16"@,
        Type::U32 => "U32"@,
        Type::U64 => "U64"@,
        Type::F32 => "F32"@,
        Type::F64 => "F64"@,
        Type::Bool => "Bool"@,
        Type::String => "String"@,
        Type::Unit => "Unit"@,
        Type::Vector(inner) => "Vector("@ + type_debug_text(*inner) + ")"@,
        Type::Option(inner) => "Option("@ + type_debug_text(*inner) + ")"@,
        Type::Result(ok, err) => "Result("@ + type_debug_text(*ok) + ", "@ + type_debug_text(*err)
            + ")"@,
        Type::Boxed(inner) => "Boxed("@ + type_debug_text(*inner) + ")"@,
        Type::Unknown => "Unknown"@,
    }
}

/// Appends the `Debug` rendering of `t`.
pub fn write_type_debug(out: &mut Vec<char>, t: &Type)
    ensures
        final(out)@ == old(out)@ + type_debug_text(*t),
    decreases t,
{
    match t {
        Type::I8 => push_str(out, "I8"),
        Type::I16 => push_str(out, "I16"),
        Type::I32 => push_str(out, "I32"),
        Type::I64 => push_str(out, "I64"),
        Type::U8 => push_str(out, "U8"),
        Type::U16 => push_str(out, "U16"),
        Type::U32 => push_str(out, "U32"),
        Type::U64 => push_str(out, "U64"),
        Type::F32 => push_str(out, "F32"),
        Type::F64 => push_str(out, "F64"),
        Type::Bool => push_str(out, "Bool"),
        Type::String => push_str(out, "String"),
        Type::Unit => push_str(out, "Unit"),
        Type::Vector(inner) => {
            push_str(out, "Vector(");
            write_type_debug(out, inner);
            push_str(out, ")");
            assert(out@ =~= old(out)@ + type_debug_text(*t));
        },
        Type::Option(inner) => {
            push_str(out, "Option(");
            write_type_debug(out, inner);
            push_str(out, ")");
            assert(out@ =~= old(out)@ + type_debug_text(*t));
        },
        Type::Result(ok, err) => {
            push_str(out, "Result(");
            write_type_debug(out, ok);
            push_str(out, ", ");
            write_type_debug(out, err);
            push_str(out, ")");
            assert(out@ =~= old(out)@ + type_debug_text(*t));
        },
        Type::Boxed(inner) => {
            push_str(out, "Boxed(");
            write_type_debug(out, inner);
            push_str(out, ")");
            assert(out@ =~= old(out)@ + type_debug_text(*t));
        },
        Type::Unknown => push_str(out, "Unknown"),
    }
}

impl Clone for Type {
    fn clone(&self) -> (r: Self)
        ensures
            r == *self,
    {
        copy_type(self)
    }
}

/// A copy of a type.
pub fn copy_type(t: &Type) -> (r: Type)
    ensures
        r == *t,
    decreases t,
{
    match t {
        Type::I8 => Type::I8,
        Type::I16 => Type::I16,
        Type::I32 => Type::I32,
        Type::I64 => Type::I64,
        Type::U8 => Type::U8,
        Type::U16 => Type::U16,
        Type::U32 => Type::U32,
        Type::U64 => Type::U64,
        Type::F32 => Type::F32,
        Type::F64 => Type::F64,
        Type::Bool => Type::Bool,
        Type::String => Type::String,
        Type::Unit => Type::Unit,
        Type::Vector(inner) => Type::Vector(Box::new(copy_type(inner))),
        Type::Option(inner) => Type::Option(Box::new(copy_type(inner))),
        Type::Result(ok, err) => Type::Result(Box::new(copy_type(ok)), Box::new(copy_type(err))),
        Type::Boxed(inner) => Type::Boxed(Box::new(copy_type(inner))),
        Type::Unknown => Type::Unknown,
    }
}

/// Structural equality of types.
pub fn type_eq(a: &Type, b: &Type) -> (r: bool)
    ensures
        r == (*a == *b),
    decreases a,
{
    match (a, b) {
        (Type::I8, Type::I8) => true,
        (Type::I16, Type::I16) => true,
        (Type::I32, Type::I32) => true,
        (Type::I64, Type::I64) => true,
        (Type::U8, Type::U8) => true,
        (Type::U16, Type::U16) => true,
        (Type::U32, Type::U32) => true,
        (Type::U64, Type::U64) => true,
        (Type::F32, Type::F32) => true,
        (Type::F64, Type::F64) => true,
        (Type::Bool, Type::Bool) => true,
        (Type::String, Type::String) => true,
        (Type::Unit, Type::Unit) => true,
        (Type::Vector(x), Type::Vector(y)) => type_eq(x, y),
        (Type::Option(x), Type::Option(y)) => type_eq(x, y),
        (Type::Result(x1, x2), Type::Result(y1, y2)) => type_eq(x1, y1) && type_eq(x2, y2),
        (Type::Boxed(x), Type::Boxed(y)) => type_eq(x, y),
        (Type::Unknown, Type::Unknown) => true,
        _ => false,
    }
}

// ---------------------------------------------------------------------------
// Operators
// ---------------------------------------------------------------------------
/// The source rendering of a binary operator.
pub open spec fn binop_text(op: BinOp) -> Seq<char> {
    match op {
        BinOp::Add => "+"@,
        BinOp::Sub => "-"@,
        BinOp::Mul => "*"@,
        BinOp::Div => "/"@,
        BinOp::Mod => "%"@,
        BinOp::Eq => "=="@,
        BinOp::Neq => "!="@,
        BinOp::Lt => "<"@,
        BinOp::Le => "<="@,
        BinOp::Gt => ">"@,
        BinOp::Ge => ">="@,
        BinOp::And => "&&"@,
        BinOp::Or => "||"@,
    }
}

pub fn write_binop(out: &mut Vec<char>, op: BinOp)
    ensures
        final(out)@ == old(out)@ + binop_text(op),
{
    match op {
        BinOp::Add => push_str(out, "+"),
        BinOp::Sub => push_str(out, "-"),
        BinOp::Mul => push_str(out, "*"),
        BinOp::Div => push_str(out, "/"),
        BinOp::Mod => push_str(out, "%"),
        BinOp::Eq => push_str(out, "=="),
        BinOp::Neq => push_str(out, "!="),
        BinOp::Lt => push_str(out, "<"),
        BinOp::Le => push_str(out, "<="),
        BinOp::Gt => push_str(out, ">"),
        BinOp::Ge => push_str(out, ">="),
        BinOp::And => push_str(out, "&&"),
        BinOp::Or => push_str(out, "||"),
    }
}

/// The source rendering of a unary operator.
pub open spec fn unop_text(op: UnOp) -> Seq<char> {
    match op {
        UnOp::Neg => "-"@,
        UnOp::Not => "!"@,
    }
}

pub fn write_unop(out: &mut Vec<char>, op: UnOp)
    ensures
        final(out)@ == old(out)@ + unop_text(op),
{
    match op {
        UnOp::Neg => push_str(out, "-"),
        UnOp::Not => push_str(out, "!"),
    }
}

// ---------------------------------------------------------------------------
// The model of the tree
// ---------------------------------------------------------------------------
pub struct BindingM {
    pub name: Seq<char>,
    pub ty: Type,
}

pub struct NodeM<K> {
    pub id: Seq<char>,
    pub span: Span,
    pub kind: K,
}

pub enum LitM {
    Int(i64),
    Float(Seq<char>),
    Str(Seq<char>),
    Bool(bool),
}

pub enum CtorM {
    SomeOf(Box<NodeM<ExprM>>),
    NoneOf,
    OkOf(Box<NodeM<ExprM>>),
    ErrOf(Box<NodeM<ExprM>>),
}

pub enum ExprM {
    Lit(LitM),
    Ident(Seq<char>),
    Binary { op: BinOp, lhs: Box<NodeM<ExprM>>, rhs: Box<NodeM<ExprM>> },
    Unary { op: UnOp, operand: Box<NodeM<ExprM>> },
    Call { callee: Seq<char>, args: Seq<NodeM<ExprM>> },
    Cast { expr: Box<NodeM<ExprM>>, target: Type },
    Ctor(CtorM),
    Paren(Box<NodeM<ExprM>>),
}

pub enum ActionM {
    Continue,
    Break,
    Return(NodeM<ExprM>),
    SetAssign { target: Seq<char>, value: NodeM<ExprM> },
}

pub struct GuardM {
    pub cond: NodeM<ExprM>,
    pub action: ActionM,
}

pub enum StmtM {
    Let { binding: BindingM, value: NodeM<ExprM> },
    SetVar { target: Seq<char>, value: NodeM<ExprM> },
    Return { value: Option<NodeM<ExprM>> },
    Loop {
        item: BindingM,
        collection: Seq<char>,
        body: Seq<NodeM<StmtM>>,
        close_name: Option<Seq<char>>,
    },
    Condition { name: Seq<char>, guard: NodeM<GuardM> },
    Expr(NodeM<ExprM>),
}

pub struct FuncM {
    pub name: Seq<char>,
    pub intent: Seq<char>,
    pub inputs: Seq<BindingM>,
    pub output: BindingM,
    pub body: Seq<NodeM<StmtM>>,
    pub close_name: Seq<char>,
}

pub open spec fn opt_text(o: Option<String>) -> Option<Seq<char>> {
    match o {
        Some(s) => Some(s@),
        None => None,
    }
}

pub open spec fn binding_m(b: StickyBinding) -> BindingM {
    BindingM { name: b.name@, ty: b.ty }
}

pub open spec fn bindings_m(v: Seq<StickyBinding>) -> Seq<BindingM> {
    v.map_values(|b: StickyBinding| binding_m(b))
}

pub open spec fn lit_m(l: Literal) -> LitM {
    match l {
        Literal::Int(v) => LitM::Int(v),
        Literal::Float(s) => LitM::Float(s@),
        Literal::Str(s) => LitM::Str(s@),
        Literal::Bool(b) => LitM::Bool(b),
    }
}

/// The model of an expression node.
pub open spec fn expr_m(n: Node<Expr>) -> NodeM<ExprM>
    decreases n,
{
    NodeM { id: n.id@, span: n.span, kind: ekind_m(n.kind) }
}

/// The model of an expression.
pub open spec fn ekind_m(e: Expr) -> ExprM
    decreases e,
{
    match e {
        Expr::Lit(l) => ExprM::Lit(lit_m(l)),
        Expr::Ident(s) => ExprM::Ident(s@),
        Expr::Binary { op, lhs, rhs } => ExprM::Binary {
            op,
            lhs: Box::new(expr_m(*lhs)),
            rhs: Box::new(expr_m(*rhs)),
        },
        Expr::Unary { op, operand } => ExprM::Unary { op, operand: Box::new(expr_m(*operand)) },
        Expr::Call { callee, args } => ExprM::Call {
            callee: callee@,
            args: Seq::new(
                args@.len(),
                |i: int|
                    if 0 <= i < args@.len() {
                        expr_m(args@[i])
                    } else {
                        NodeM { id: Seq::empty(), span: dummy_span(), kind: ExprM::Ident(Seq::empty()) }
                    },
            ),
        },
        Expr::Cast { expr, target } => ExprM::Cast { expr: Box::new(expr_m(*expr)), target },
        Expr::Ctor(c) => ExprM::Ctor(
            match c {
                ConstructorExpr::SomeOf(e) => CtorM::SomeOf(Box::new(expr_m(*e))),
                ConstructorExpr::NoneOf => CtorM::NoneOf,
                ConstructorExpr::OkOf(e) => CtorM::OkOf(Box::new(expr_m(*e))),
                ConstructorExpr::ErrOf(e) => CtorM::ErrOf(Box::new(expr_m(*e))),
            },
        ),
        Expr::Paren(e) => ExprM::Paren(Box::new(expr_m(*e))),
    }
}

pub open spec fn dummy_span() -> Span {
    Span { start_byte: 0, end_byte: 0, start_line: 0, start_col: 0, end_line: 0, end_col: 0 }
}

pub open spec fn exprs_m(v: Seq<Node<Expr>>) -> Seq<NodeM<ExprM>> {
    Seq::new(v.len(), |i: int| expr_m(v[i]))
}

pub proof fn lemma_call_m(callee: String, args: Vec<Node<Expr>>)
    ensures
        ekind_m(Expr::Call { callee, args }) == (ExprM::Call { callee: callee@, args: exprs_m(args@) }),
{
    let e = Expr::Call { callee, args };
    if let ExprM::Call { callee: c2, args: a2 } = ekind_m(e) {
        assert(a2 =~= exprs_m(args@));
    }
}

pub open spec fn action_m(a: GuardAction) -> ActionM {
    match a {
        GuardAction::Continue => ActionM::Continue,
        GuardAction::Break => ActionM::Break,
        GuardAction::Return(e) => ActionM::Return(expr_m(e)),
        GuardAction::SetAssign { target, value } => ActionM::SetAssign {
            target: target@,
            value: expr_m(value),
        },
    }
}

pub open spec fn guard_m(g: Node<GuardStmt>) -> NodeM<GuardM> {
    NodeM {
        id: g.id@,
        span: g.span,
        kind: GuardM { cond: expr_m(g.kind.cond), action: action_m(g.kind.action) },
    }
}

/// The model of a statement node.
pub open spec fn stmt_m(n: Node<Statement>) -> NodeM<StmtM>
    decreases n,
{
    NodeM { id: n.id@, span: n.span, kind: skind_m(n.kind) }
}

/// The model of a statement.
pub open spec fn skind_m(s: Statement) -> StmtM
    decreases s,
{
    match s {
        Statement::Let(s) => StmtM::Let { binding: binding_m(s.binding), value: expr_m(s.value) },
        Statement::SetVar(s) => StmtM::SetVar { target: s.target@, value: expr_m(s.value) },
        Statement::Return(s) => StmtM::Return {
            value: match s.value {
                Some(e) => Some(expr_m(e)),
                None => None,
            },
        },
        Statement::Loop(l) => StmtM::Loop {
            item: binding_m(l.item),
            collection: l.collection@,
            body: Seq::new(
                l.body@.len(),
                |i: int|
                    if 0 <= i < l.body@.len() {
                        stmt_m(l.body@[i])
                    } else {
                        NodeM { id: Seq::empty(), span: dummy_span(), kind: StmtM::Return { value: None } }
                    },
            ),
            close_name: opt_text(l.close_name),
        },
        Statement::Condition(c) => StmtM::Condition { name: c.name@, guard: guard_m(c.guard) },
        Statement::Expr(e) => StmtM::Expr(expr_m(e)),
    }
}

pub open spec fn stmts_m(v: Seq<Node<Statement>>) -> Seq<NodeM<StmtM>> {
    Seq::new(v.len(), |i: int| stmt_m(v[i]))
}

pub proof fn lemma_loop_m(l: LoopBlock)
    ensures
        skind_m(Statement::Loop(l)) == (StmtM::Loop {
            item: binding_m(l.item),
            collection: l.collection@,
            body: stmts_m(l.body@),
            close_name: opt_text(l.close_name),
        }),
{
    if let StmtM::Loop { body, .. } = skind_m(Statement::Loop(l)) {
        assert(body =~= stmts_m(l.body@));
    }
}

pub proof fn lemma_stmts_push(v: Seq<Node<Statement>>, n: Node<Statement>)
    ensures
        stmts_m(v.push(n)) == stmts_m(v).push(stmt_m(n)),
{
    assert(stmts_m(v.push(n)) =~= stmts_m(v).push(stmt_m(n)));
}

pub proof fn lemma_funcs_push(v: Seq<Node<FunctionDecl>>, n: Node<FunctionDecl>)
    ensures
        funcs_m(v.push(n)) == funcs_m(v).push(func_m(n)),
{
    assert(funcs_m(v.push(n)) =~= funcs_m(v).push(func_m(n)));
}

pub proof fn lemma_bindings_push(v: Seq<StickyBinding>, b: StickyBinding)
    ensures
        bindings_m(v.push(b)) == bindings_m(v).push(binding_m(b)),
{
    assert(bindings_m(v.push(b)) =~= bindings_m(v).push(binding_m(b)));
}

pub open spec fn func_m(n: Node<FunctionDecl>) -> NodeM<FuncM> {
    NodeM {
        id: n.id@,
        span: n.span,
        kind: FuncM {
            name: n.kind.name@,
            intent: n.kind.intent@,
            inputs: bindings_m(n.kind.inputs@),
            output: binding_m(n.kind.output),
            body: stmts_m(n.kind.body@),
            close_name: n.kind.close_name@,
        },
    }
}

pub open spec fn funcs_m(v: Seq<Node<FunctionDecl>>) -> Seq<NodeM<FuncM>> {
    Seq::new(v.len(), |i: int| func_m(v[i]))
}

pub open spec fn program_m(p: Program) -> Seq<NodeM<FuncM>> {
    funcs_m(p.functions@)
}

} // verus!
