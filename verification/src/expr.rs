//! Expressions: a small lexer for the text of one expression and a
//! precedence-climbing parser over its tokens.
use crate::ast::{
    copy_type, ekind_m, expr_m, exprs_m, lemma_call_m, type_debug_text, write_type_debug, BinOp, ConstructorExpr, CtorM,
    Expr, ExprM, LitM, Literal, Node, NodeM, Span, Type, UnOp,
};
use crate::diag::{
    diag_m, diags_m, err_m, errors_added, fix, lemma_errors_added_push, lemma_errors_added_trans, DiagM,
    Diagnostic, Phase,
};
use crate::lexer::{at, lemma_diags_push};
use crate::text::{
    chars_eq_str, chars_to_string, digit, hex_digits, ident_continue, ident_start, is_digit,
    is_ident_continue, is_ident_start, is_ws, push_dec_padded, push_hex_digits, push_str,
    whitespace, zero_pad, dec_text, copy_chars, str_chars,
};
use crate::types::{parse_type_chars, parse_type_spec};
use vstd::prelude::*;

verus! {

// ---------------------------------------------------------------------------
// Node identifiers
// ---------------------------------------------------------------------------
/// The identifier of a node: `kind:counter:hash`, the counter zero-padded to
/// four decimal digits and the source hash as eight lower-case hex digits.
pub open spec fn node_id(kind: Seq<char>, counter: int, hash: u32) -> Seq<char> {
    kind + ":"@ + zero_pad(dec_text(counter as nat), 4) + ":"@ + hex_digits(hash as nat, 8)
}

pub fn make_node_id(kind: &str, counter: u64, hash: u32) -> (s: String)
    ensures
        s@ == node_id(kind@, counter as int, hash),
{
    let mut v: Vec<char> = Vec::new();
    push_str(&mut v, kind);
    push_str(&mut v, ":");
    push_dec_padded(&mut v, counter, 4);
    push_str(&mut v, ":");
    push_hex_digits(&mut v, hash as u64, 8);
    assert(v@ =~= node_id(kind@, counter as int, hash));
    chars_to_string(v.as_slice())
}

/// The next value of the node counter (it stays at its maximum).
pub open spec fn next_counter(c: int) -> int {
    if c < 0xffff_ffff_ffff_ffff {
        c + 1
    } else {
        c
    }
}

pub fn bump_counter(c: u64) -> (r: u64)
    ensures
        r == next_counter(c as int),
{
    if c < 0xffff_ffff_ffff_ffff {
        c + 1
    } else {
        c
    }
}

// ---------------------------------------------------------------------------
// Expression tokens
// ---------------------------------------------------------------------------
#[derive(Debug)]
pub enum ExprToken {
    Ident(String),
    Int(i64),
    Float(String),
    Str(String),
    Bool(bool),
    CastType(Type),
    Op(String),
    LParen,
    RParen,
    Comma,
}

pub enum ETokM {
    Ident(Seq<char>),
    Int(i64),
    Float(Seq<char>),
    Str(Seq<char>),
    Bool(bool),
    CastType(Type),
    Op(Seq<char>),
    LParen,
    RParen,
    Comma,
}

pub open spec fn etok_m(t: ExprToken) -> ETokM {
    match t {
        ExprToken::Ident(s) => ETokM::Ident(s@),
        ExprToken::Int(v) => ETokM::Int(v),
        ExprToken::Float(s) => ETokM::Float(s@),
        ExprToken::Str(s) => ETokM::Str(s@),
        ExprToken::Bool(b) => ETokM::Bool(b),
        ExprToken::CastType(t) => ETokM::CastType(t),
        ExprToken::Op(s) => ETokM::Op(s@),
        ExprToken::LParen => ETokM::LParen,
        ExprToken::RParen => ETokM::RParen,
        ExprToken::Comma => ETokM::Comma,
    }
}

pub open spec fn etoks_m(v: Seq<ExprToken>) -> Seq<ETokM> {
    Seq::new(v.len(), |i: int| etok_m(v[i]))
}

proof fn lemma_etoks_push(v: Seq<ExprToken>, t: ExprToken)
    ensures
        etoks_m(v.push(t)) == etoks_m(v).push(etok_m(t)),
{
    assert(etoks_m(v.push(t)) =~= etoks_m(v).push(etok_m(t)));
}

// ---------------------------------------------------------------------------
// Lexing an expression: specification
// ---------------------------------------------------------------------------
/// A string literal body starting at `j` (after the opening quote); returns
/// the index after the literal and its decoded text.
pub open spec fn str_body(s: Seq<char>, j: int, acc: Seq<char>) -> (int, Seq<char>)
    decreases s.len() - j,
{
    if j < 0 || j >= s.len() {
        (s.len() as int, acc)
    } else if s[j] == '"' {
        (j + 1, acc)
    } else if s[j] == '\\' {
        if j + 1 >= s.len() {
            (j + 1, acc)
        } else {
            let e = s[j + 1];
            let d = if e == 'n' {
                '\n'
            } else if e == 't' {
                '\t'
            } else {
                e
            };
            str_body(s, j + 2, acc.push(d))
        }
    } else {
        str_body(s, j + 1, acc.push(s[j]))
    }
}

/// Digits and dots from `j`.
pub open spec fn num_end(s: Seq<char>, j: int) -> int
    decreases s.len() - j,
{
    if 0 <= j < s.len() && (is_digit(s[j]) || s[j] == '.') {
        num_end(s, j + 1)
    } else {
        j
    }
}

/// Identifier characters from `j`.
pub open spec fn ident_end(s: Seq<char>, j: int) -> int
    decreases s.len() - j,
{
    if 0 <= j < s.len() && is_ident_continue(s[j]) {
        ident_end(s, j + 1)
    } else {
        j
    }
}

pub open spec fn count_char(s: Seq<char>, c: char) -> nat
    decreases s.len(),
{
    if s.len() == 0 {
        0
    } else {
        count_char(s.drop_last(), c) + if s.last() == c {
            1nat
        } else {
            0nat
        }
    }
}

/// Value of a sequence of decimal digits.
pub open spec fn dec_value(s: Seq<char>) -> nat
    decreases s.len(),
{
    if s.len() == 0 {
        0
    } else {
        dec_value(s.drop_last()) * 10 + ((s.last() as int - '0' as int) as nat)
    }
}

pub open spec fn all_digits(s: Seq<char>) -> bool {
    forall|i: int| 0 <= i < s.len() ==> is_digit(#[trigger] s[i])
}

/// `i64::from_str` on the text of a number: an optional sign and one or more
/// decimal digits whose value is in range.
pub open spec fn parse_i64(s: Seq<char>) -> Option<i64> {
    let neg = s.len() > 0 && s[0] == '-';
    let d = if s.len() > 0 && (s[0] == '-' || s[0] == '+') {
        s.drop_first()
    } else {
        s
    };
    if d.len() == 0 || !all_digits(d) {
        None
    } else if neg {
        if dec_value(d) <= 0x8000_0000_0000_0000 {
            Some((-(dec_value(d) as int)) as i64)
        } else {
            None
        }
    } else if dec_value(d) <= 0x7fff_ffff_ffff_ffff {
        Some(dec_value(d) as i64)
    } else {
        None
    }
}

/// The number of a scanned numeric text: a float keeps its text when it has a
/// single decimal point (which `f64::from_str` accepts); an integer is kept
/// when it is in range; otherwise the text yields no token.
pub open spec fn number_token(num: Seq<char>) -> Option<ETokM> {
    if num.contains('.') {
        if count_char(num, '.') == 1 {
            Some(ETokM::Float(num))
        } else {
            None
        }
    } else {
        match parse_i64(num) {
            Some(v) => Some(ETokM::Int(v)),
            None => None,
        }
    }
}

/// Whether a `-` followed by a digit starts a negative literal.
pub open spec fn neg_literal_ok(toks: Seq<ETokM>) -> bool {
    toks.len() == 0 || match toks.last() {
        ETokM::LParen => true,
        ETokM::Comma => true,
        ETokM::Op(_) => true,
        _ => false,
    }
}

/// Result of scanning `::<Type>` after `as`: `None` when the text does not
/// start with `::<`; otherwise the index after what was consumed and the type,
/// if the text between the brackets names one.
pub open spec fn cast_scan(s: Seq<char>, k: int, depth: nat, acc: Seq<char>) -> (int, Option<Type>)
    decreases s.len() - k,
{
    if k < 0 || k >= s.len() {
        (s.len() as int, None)
    } else if s[k] == '<' {
        cast_scan(s, k + 1, depth + 1, acc.push('<'))
    } else if s[k] == '>' {
        let d = if depth == 0 {
            0nat
        } else {
            (depth - 1) as nat
        };
        if d == 0 {
            (
                k + 1,
                match parse_type_spec(acc) {
                    Ok(t) => Some(t),
                    Err(_) => None,
                },
            )
        } else {
            cast_scan(s, k + 1, d, acc.push('>'))
        }
    } else {
        cast_scan(s, k + 1, depth, acc.push(s[k]))
    }
}

pub open spec fn cast_probe(s: Seq<char>, j: int) -> bool {
    at(s, j) == Some(':') && at(s, j + 1) == Some(':') && at(s, j + 2) == Some('<')
}

pub open spec fn is_op_start(c: char) -> bool {
    c == '&' || c == '|' || c == '=' || c == '!' || c == '<' || c == '>'
}

pub open spec fn is_arith(c: char) -> bool {
    c == '+' || c == '-' || c == '*' || c == '/' || c == '%'
}

pub open spec fn op_joins(c: char, n: char) -> bool {
    n == '=' || (c == '&' && n == '&') || (c == '|' && n == '|')
}

/// One step of the expression lexer at index `i`: the next index and the
/// tokens so far.
pub open spec fn lex_expr_step(s: Seq<char>, i: int, toks: Seq<ETokM>) -> (int, Seq<ETokM>) {
    let c = s[i];
    if is_ws(c) {
        (i + 1, toks)
    } else if c == '"' {
        let r = str_body(s, i + 1, Seq::empty());
        (r.0, toks.push(ETokM::Str(r.1)))
    } else if is_digit(c) || (c == '-' && (at(s, i + 1) matches Some(n) && is_digit(n))
        && neg_literal_ok(toks)) {
        let e = num_end(s, i + 1);
        let num = s.subrange(i, e);
        (
            e,
            match number_token(num) {
                Some(t) => toks.push(t),
                None => toks,
            },
        )
    } else if is_ident_start(c) {
        let e = ident_end(s, i);
        let ident = s.subrange(i, e);
        if ident == "as"@ && cast_probe(s, e) {
            let r = cast_scan(s, e + 3, 1, Seq::empty());
            match r.1 {
                Some(t) => (r.0, toks.push(ETokM::CastType(t))),
                None => (r.0, toks.push(ETokM::Ident(ident))),
            }
        } else if ident == "true"@ {
            (e, toks.push(ETokM::Bool(true)))
        } else if ident == "false"@ {
            (e, toks.push(ETokM::Bool(false)))
        } else {
            (e, toks.push(ETokM::Ident(ident)))
        }
    } else if c == '(' {
        (i + 1, toks.push(ETokM::LParen))
    } else if c == ')' {
        (i + 1, toks.push(ETokM::RParen))
    } else if c == ',' {
        (i + 1, toks.push(ETokM::Comma))
    } else if is_op_start(c) {
        match at(s, i + 1) {
            Some(n) => if op_joins(c, n) {
                (i + 2, toks.push(ETokM::Op(seq![c, n])))
            } else {
                (i + 1, toks.push(ETokM::Op(seq![c])))
            },
            None => (i + 1, toks.push(ETokM::Op(seq![c]))),
        }
    } else if is_arith(c) {
        (i + 1, toks.push(ETokM::Op(seq![c])))
    } else {
        (i + 1, toks)
    }
}

pub open spec fn lex_expr_run(s: Seq<char>, i: int, toks: Seq<ETokM>) -> Seq<ETokM>
    decreases s.len() - i,
{
    if 0 <= i < s.len() {
        let r = lex_expr_step(s, i, toks);
        if i < r.0 <= s.len() {
            lex_expr_run(s, r.0, r.1)
        } else {
            r.1
        }
    } else {
        toks
    }
}

/// The tokens of the text of an expression.
pub open spec fn lex_expr_spec(s: Seq<char>) -> Seq<ETokM> {
    lex_expr_run(s, 0, Seq::empty())
}

// ---------------------------------------------------------------------------
// Lexing an expression: implementation
// ---------------------------------------------------------------------------
#[verifier::loop_isolation(false)]
fn str_body_exec(s: &[char], j0: usize) -> (r: (usize, Vec<char>))
    requires
        j0 <= s@.len(),
    ensures
        (r.0 as int, r.1@) == str_body(s@, j0 as int, Seq::empty()),
        j0 <= r.0 <= s@.len(),
{
    let mut j = j0;
    let mut acc: Vec<char> = Vec::new();
    let ghost target = str_body(s@, j0 as int, Seq::empty());
    while j < s.len()
        invariant
            j0 <= j <= s@.len(),
            str_body(s@, j as int, acc@) == target,
        decreases s@.len() - j,
    {
        let c = s[j];
        if c == '"' {
            return (j + 1, acc);
        } else if c == '\\' {
            if j + 1 >= s.len() {
                return (j + 1, acc);
            }
            let e = s[j + 1];
            let d = if e == 'n' {
                '\n'
            } else if e == 't' {
                '\t'
            } else {
                e
            };
            acc.push(d);
            j = j + 2;
        } else {
            acc.push(c);
            j = j + 1;
        }
    }
    (s.len(), acc)
}

#[verifier::loop_isolation(false)]
fn num_end_exec(s: &[char], j0: usize) -> (e: usize)
    requires
        j0 <= s@.len(),
    ensures
        e == num_end(s@, j0 as int),
        j0 <= e <= s@.len(),
{
    let mut j = j0;
    while j < s.len() && (digit(s[j]) || s[j] == '.')
        invariant
            j0 <= j <= s@.len(),
            num_end(s@, j as int) == num_end(s@, j0 as int),
        decreases s@.len() - j,
    {
        j = j + 1;
    }
    j
}

#[verifier::loop_isolation(false)]
fn ident_end_exec(s: &[char], j0: usize) -> (e: usize)
    requires
        j0 <= s@.len(),
    ensures
        e == ident_end(s@, j0 as int),
        j0 <= e <= s@.len(),
        (j0 < s@.len() && is_ident_continue(s@[j0 as int])) ==> e > j0,
{
    let mut j = j0;
    while j < s.len() && ident_continue(s[j])
        invariant
            j0 <= j <= s@.len(),
            ident_end(s@, j as int) == ident_end(s@, j0 as int),
        decreases s@.len() - j,
    {
        j = j + 1;
    }
    j
}

#[verifier::loop_isolation(false)]
fn count_dots(s: &[char]) -> (n: usize)
    ensures
        n == count_char(s@, '.'),
{
    let mut n: usize = 0;
    let mut i: usize = 0;
    while i < s.len()
        invariant
            i <= s@.len(),
            n == count_char(s@.subrange(0, i as int), '.'),
            n <= i,
        decreases s@.len() - i,
    {
        assert(s@.subrange(0, i + 1).drop_last() =~= s@.subrange(0, i as int));
        if s[i] == '.' {
            n = n + 1;
        }
        i = i + 1;
    }
    assert(s@.subrange(0, s@.len() as int) =~= s@);
    n
}

proof fn lemma_dec_value_grows(s: Seq<char>, k: int)
    requires
        0 <= k <= s.len(),
        all_digits(s),
    ensures
        dec_value(s.subrange(0, k)) <= dec_value(s),
    decreases s.len() - k,
{
    if k < s.len() {
        lemma_dec_value_grows(s, k + 1);
        assert(s.subrange(0, k + 1).drop_last() =~= s.subrange(0, k));
    } else {
        assert(s.subrange(0, k) =~= s);
    }
}

/// `i64::from_str`.
#[verifier::loop_isolation(false)]
fn parse_i64_exec(s: &[char]) -> (r: Option<i64>)
    ensures
        r == parse_i64(s@),
{
    let neg = s.len() > 0 && s[0] == '-';
    let start: usize = if s.len() > 0 && (s[0] == '-' || s[0] == '+') {
        1
    } else {
        0
    };
    let ghost d = if s@.len() > 0 && (s@[0] == '-' || s@[0] == '+') {
        s@.drop_first()
    } else {
        s@
    };
    assert(d =~= s@.subrange(start as int, s@.len() as int));
    if start == s.len() {
        return None;
    }
    let limit: u64 = if neg {
        0x8000_0000_0000_0000
    } else {
        0x7fff_ffff_ffff_ffff
    };
    let mut v: u64 = 0;
    let mut i: usize = start;
    while i < s.len()
        invariant
            start <= i <= s@.len(),
            all_digits(d.subrange(0, i - start)),
            v == dec_value(d.subrange(0, i - start)),
            v <= limit,
        decreases s@.len() - i,
    {
        let c = s[i];
        assert(d[i - start] == c);
        if !digit(c) {
            assert(!all_digits(d));
            return None;
        }
        assert(d.subrange(0, i + 1 - start).drop_last() =~= d.subrange(0, i - start));
        assert(d.subrange(0, i + 1 - start).last() == c);
        let dv = (c as u32 - '0' as u32) as u64;
        assert(dv as int == c as int - '0' as int);
        if v > (limit - dv) / 10 {
            proof {
                assert(v * 10 + dv > limit) by (nonlinear_arith)
                    requires
                        v > (limit - dv) / 10,
                        dv <= 9,
                        dv <= limit,
                ;
                if all_digits(d) {
                    lemma_dec_value_grows(d, i + 1 - start);
                }
            }
            return None;
        }
        assert(v * 10 + dv <= limit) by (nonlinear_arith)
            requires
                v <= (limit - dv) / 10,
                dv <= limit,
        ;
        v = v * 10 + dv;
        i = i + 1;
    }
    assert(d.subrange(0, s@.len() - start) =~= d);
    if neg {
        if v == 0x8000_0000_0000_0000 {
            Some(-0x7fff_ffff_ffff_ffff - 1)
        } else {
            Some(-(v as i64))
        }
    } else {
        Some(v as i64)
    }
}

fn last_allows_negative(toks: &Vec<ExprToken>) -> (r: bool)
    ensures
        r == neg_literal_ok(etoks_m(toks@)),
{
    if toks.len() == 0 {
        return true;
    }
    match &toks[toks.len() - 1] {
        ExprToken::LParen => true,
        ExprToken::Comma => true,
        ExprToken::Op(_) => true,
        _ => false,
    }
}

#[verifier::loop_isolation(false)]
fn cast_scan_exec(s: &[char], k0: usize) -> (r: (usize, Option<Type>))
    requires
        1 <= k0 <= s@.len(),
    ensures
        (r.0 as int, r.1) == cast_scan(s@, k0 as int, 1, Seq::empty()),
        k0 <= r.0 <= s@.len(),
{
    let mut k = k0;
    let mut depth: usize = 1;
    let mut acc: Vec<char> = Vec::new();
    let ghost target = cast_scan(s@, k0 as int, 1, Seq::empty());
    while k < s.len()
        invariant
            k0 <= k <= s@.len(),
            depth + k0 <= k + 1,
            cast_scan(s@, k as int, depth as nat, acc@) == target,
        decreases s@.len() - k,
    {
        let c = s[k];
        if c == '<' {
            depth = depth + 1;
            acc.push(c);
        } else if c == '>' {
            if depth > 0 {
                depth = depth - 1;
            }
            if depth == 0 {
                let t = match parse_type_chars(acc.as_slice()) {
                    Ok(t) => Some(t),
                    Err(_) => None,
                };
                return (k + 1, t);
            }
            acc.push(c);
        } else {
            acc.push(c);
        }
        k = k + 1;
    }
    (s.len(), None)
}

fn op_token(c: char, n: Option<char>) -> (r: (usize, ExprToken))
    ensures
        r.0 == (if (n matches Some(m) && op_joins(c, m)) {
            2usize
        } else {
            1usize
        }),
        etok_m(r.1) == (if (n matches Some(m) && op_joins(c, m)) {
            ETokM::Op(seq![c, n.unwrap()])
        } else {
            ETokM::Op(seq![c])
        }),
{
    match n {
        Some(m) => {
            if m == '=' || (c == '&' && m == '&') || (c == '|' && m == '|') {
                let v: Vec<char> = vec![c, m];
                assert(v@ =~= seq![c, m]);
                return (2, ExprToken::Op(chars_to_string(v.as_slice())));
            }
        },
        None => {},
    }
    let v: Vec<char> = vec![c];
    assert(v@ =~= seq![c]);
    (1, ExprToken::Op(chars_to_string(v.as_slice())))
}

/// Lexes the text of one expression.
#[verifier::loop_isolation(false)]
pub fn lex_expr(s: &[char]) -> (toks: Vec<ExprToken>)
    ensures
        etoks_m(toks@) == lex_expr_spec(s@),
{
    let mut toks: Vec<ExprToken> = Vec::new();
    let mut i: usize = 0;
    assert(etoks_m(toks@) =~= Seq::empty());
    while i < s.len()
        invariant
            i <= s@.len(),
            lex_expr_run(s@, i as int, etoks_m(toks@)) == lex_expr_spec(s@),
        decreases s@.len() - i,
    {
        let ghost t0 = etoks_m(toks@);
        let ghost step = lex_expr_step(s@, i as int, t0);
        let c = s[i];
        let next: usize;
        if whitespace(c) {
            next = i + 1;
        } else if c == '"' {
            let r = str_body_exec(s, i + 1);
            let t = ExprToken::Str(chars_to_string(r.1.as_slice()));
            proof {
                lemma_etoks_push(toks@, t);
            }
            toks.push(t);
            next = r.0;
        } else if digit(c) || (c == '-' && i + 1 < s.len() && digit(s[i + 1])
            && last_allows_negative(&toks)) {
            let e = num_end_exec(s, i + 1);
            let num = crate::text::sub_chars(s, i, e);
            let dots = count_dots(num.as_slice());
            if crate::text::chars_contains(num.as_slice(), '.') {
                if dots == 1 {
                    let t = ExprToken::Float(chars_to_string(num.as_slice()));
                    proof {
                        lemma_etoks_push(toks@, t);
                    }
                    toks.push(t);
                }
            } else {
                match parse_i64_exec(num.as_slice()) {
                    Some(v) => {
                        let t = ExprToken::Int(v);
                        proof {
                            lemma_etoks_push(toks@, t);
                        }
                        toks.push(t);
                    },
                    None => {},
                }
            }
            next = e;
        } else if ident_start(c) {
            let e = ident_end_exec(s, i);
            let ident = crate::text::sub_chars(s, i, e);
            let is_as = chars_eq_str(ident.as_slice(), "as");
            let probe = s.len() - e > 2 && s[e] == ':' && s[e + 1] == ':' && s[e + 2] == '<';
            if is_as && probe {
                let r = cast_scan_exec(s, e + 3);
                let t = match r.1 {
                    Some(ty) => ExprToken::CastType(ty),
                    None => ExprToken::Ident(chars_to_string(ident.as_slice())),
                };
                proof {
                    lemma_etoks_push(toks@, t);
                }
                toks.push(t);
                next = r.0;
            } else {
                let t = if chars_eq_str(ident.as_slice(), "true") {
                    ExprToken::Bool(true)
                } else if chars_eq_str(ident.as_slice(), "false") {
                    ExprToken::Bool(false)
                } else {
                    ExprToken::Ident(chars_to_string(ident.as_slice()))
                };
                proof {
                    lemma_etoks_push(toks@, t);
                }
                toks.push(t);
                next = e;
            }
        } else if c == '(' || c == ')' || c == ',' {
            let t = if c == '(' {
                ExprToken::LParen
            } else if c == ')' {
                ExprToken::RParen
            } else {
                ExprToken::Comma
            };
            proof {
                lemma_etoks_push(toks@, t);
            }
            toks.push(t);
            next = i + 1;
        } else if c == '&' || c == '|' || c == '=' || c == '!' || c == '<' || c == '>' {
            let n = if i + 1 < s.len() {
                Some(s[i + 1])
            } else {
                None
            };
            let r = op_token(c, n);
            proof {
                lemma_etoks_push(toks@, r.1);
            }
            toks.push(r.1);
            next = i + r.0;
        } else if c == '+' || c == '-' || c == '*' || c == '/' || c == '%' {
            let v: Vec<char> = vec![c];
            assert(v@ =~= seq![c]);
            let t = ExprToken::Op(chars_to_string(v.as_slice()));
            proof {
                lemma_etoks_push(toks@, t);
            }
            toks.push(t);
            next = i + 1;
        } else {
            next = i + 1;
        }
        assert(next as int == step.0 && etoks_m(toks@) == step.1);
        i = next;
    }
    toks
}

// ---------------------------------------------------------------------------
// Parsing an expression: specification
// ---------------------------------------------------------------------------
/// The state of the expression parser: the next token, the diagnostics and
/// the node counter.
pub struct EPSt {
    pub pos: int,
    pub diags: Seq<DiagM>,
    pub counter: int,
}

/// The fixed context of one expression: its tokens, the source range every
/// node gets, and the source hash used in identifiers.
pub struct ECtx {
    pub toks: Seq<ETokM>,
    pub span: Span,
    pub hash: u32,
}

pub open spec fn tok_at(c: ECtx, i: int) -> Option<ETokM> {
    if 0 <= i < c.toks.len() {
        Some(c.toks[i])
    } else {
        None
    }
}

pub open spec fn mk_node(c: ECtx, st: EPSt, kind: Seq<char>, e: ExprM) -> (NodeM<ExprM>, EPSt) {
    let n = next_counter(st.counter);
    (NodeM { id: node_id(kind, n, c.hash), span: c.span, kind: e }, EPSt { counter: n, ..st })
}

pub open spec fn adv(st: EPSt) -> EPSt {
    EPSt { pos: st.pos + 1, ..st }
}

pub open spec fn binop_of(op: Seq<char>) -> Option<BinOp> {
    if op == "+"@ {
        Some(BinOp::Add)
    } else if op == "-"@ {
        Some(BinOp::Sub)
    } else if op == "*"@ {
        Some(BinOp::Mul)
    } else if op == "/"@ {
        Some(BinOp::Div)
    } else if op == "%"@ {
        Some(BinOp::Mod)
    } else if op == "=="@ {
        Some(BinOp::Eq)
    } else if op == "!="@ {
        Some(BinOp::Neq)
    } else if op == "<"@ {
        Some(BinOp::Lt)
    } else if op == "<="@ {
        Some(BinOp::Le)
    } else if op == ">"@ {
        Some(BinOp::Gt)
    } else if op == ">="@ {
        Some(BinOp::Ge)
    } else if op == "&&"@ {
        Some(BinOp::And)
    } else if op == "||"@ {
        Some(BinOp::Or)
    } else {
        None
    }
}

pub open spec fn peek_binop(c: ECtx, st: EPSt) -> Option<BinOp> {
    match tok_at(c, st.pos) {
        Some(ETokM::Op(op)) => binop_of(op),
        _ => None,
    }
}

/// Left and right binding powers of a binary operator.
pub open spec fn binding_power(op: BinOp) -> (int, int) {
    match op {
        BinOp::Or => (20, 21),
        BinOp::And => (30, 31),
        BinOp::Eq | BinOp::Neq => (40, 41),
        BinOp::Lt | BinOp::Le | BinOp::Gt | BinOp::Ge => (50, 51),
        BinOp::Add | BinOp::Sub => (60, 61),
        BinOp::Mul | BinOp::Div | BinOp::Mod => (70, 71),
    }
}

pub open spec fn is_ctor_name(n: Seq<char>) -> bool {
    n == "Some"@ || n == "None"@ || n == "Ok"@ || n == "Err"@
}

/// The `Debug` rendering of a token that cannot start an expression.
pub open spec fn stray_debug(t: Option<ETokM>) -> Seq<char> {
    match t {
        None => "None"@,
        Some(ETokM::Op(o)) => "Some(Op(\""@ + o + "\"))"@,
        Some(ETokM::RParen) => "Some(RParen)"@,
        Some(ETokM::Comma) => "Some(Comma)"@,
        Some(ETokM::CastType(ty)) => "Some(CastType("@ + type_debug_text(ty) + "))"@,
        _ => Seq::empty(),
    }
}

pub open spec fn skip_tok(c: ECtx, st: EPSt, t: ETokM) -> EPSt {
    if tok_at(c, st.pos) == Some(t) {
        adv(st)
    } else {
        st
    }
}

pub open spec fn measure(c: ECtx, st: EPSt) -> int {
    c.toks.len() - st.pos
}

pub open spec fn ok_pos(c: ECtx, before: EPSt, after: EPSt) -> bool {
    before.pos <= after.pos <= c.toks.len()
}

/// `expr_bp`: an expression whose operators bind at least as tightly as
/// `min_bp`.
pub open spec fn expr_bp(c: ECtx, st: EPSt, min_bp: int) -> (NodeM<ExprM>, EPSt)
    decreases measure(c, st), 2int,
{
    if 0 <= st.pos <= c.toks.len() {
        let p = prefix(c, st);
        if ok_pos(c, st, p.1) {
            expr_loop(c, p.1, min_bp, p.0)
        } else {
            p
        }
    } else {
        mk_node(c, st, "int"@, ExprM::Lit(LitM::Int(0)))
    }
}

/// The loop of `expr_bp` after its left operand.
pub open spec fn expr_loop(c: ECtx, st: EPSt, min_bp: int, lhs: NodeM<ExprM>) -> (
    NodeM<ExprM>,
    EPSt,
)
    decreases measure(c, st), 1int,
{
    if !(0 <= st.pos <= c.toks.len()) {
        (lhs, st)
    } else {
        match tok_at(c, st.pos) {
            Some(ETokM::CastType(target)) => {
                let n = mk_node(
                    c,
                    adv(st),
                    "cast"@,
                    ExprM::Cast { expr: Box::new(lhs), target },
                );
                expr_loop(c, n.1, min_bp, n.0)
            },
            _ => match peek_binop(c, st) {
                None => (lhs, st),
                Some(op) => {
                    if binding_power(op).0 < min_bp {
                        (lhs, st)
                    } else {
                        let r = expr_bp(c, adv(st), binding_power(op).1);
                        if ok_pos(c, adv(st), r.1) {
                            let n = mk_node(
                                c,
                                r.1,
                                "binary"@,
                                ExprM::Binary { op, lhs: Box::new(lhs), rhs: Box::new(r.0) },
                            );
                            expr_loop(c, n.1, min_bp, n.0)
                        } else {
                            r
                        }
                    }
                },
            },
        }
    }
}

/// A primary expression, a unary operation, or a call.
pub open spec fn prefix(c: ECtx, st: EPSt) -> (NodeM<ExprM>, EPSt)
    decreases measure(c, st), 0int,
{
    if !(0 <= st.pos <= c.toks.len()) {
        mk_node(c, st, "int"@, ExprM::Lit(LitM::Int(0)))
    } else {
        let t = tok_at(c, st.pos);
        let st1 = if t is Some {
            adv(st)
        } else {
            st
        };
        match t {
            Some(ETokM::Op(op)) if op == "-"@ || op == "!"@ => {
                let r = expr_bp(c, st1, 80);
                mk_node(
                    c,
                    r.1,
                    "unary"@,
                    ExprM::Unary {
                        op: if op == "-"@ {
                            UnOp::Neg
                        } else {
                            UnOp::Not
                        },
                        operand: Box::new(r.0),
                    },
                )
            },
            Some(ETokM::Int(v)) => mk_node(c, st1, "int"@, ExprM::Lit(LitM::Int(v))),
            Some(ETokM::Float(v)) => mk_node(c, st1, "float"@, ExprM::Lit(LitM::Float(v))),
            Some(ETokM::Str(v)) => mk_node(c, st1, "string"@, ExprM::Lit(LitM::Str(v))),
            Some(ETokM::Bool(v)) => mk_node(c, st1, "bool"@, ExprM::Lit(LitM::Bool(v))),
            Some(ETokM::Ident(name)) => {
                if is_ctor_name(name) {
                    ctor(c, st1, name)
                } else if tok_at(c, st1.pos) == Some(ETokM::LParen) {
                    let r = args_loop(c, adv(st1), Seq::empty());
                    if ok_pos(c, adv(st1), r.1) {
                        mk_node(
                            c,
                            skip_tok(c, r.1, ETokM::RParen),
                            "call"@,
                            ExprM::Call { callee: name, args: r.0 },
                        )
                    } else {
                        mk_node(c, r.1, "call"@, ExprM::Call { callee: name, args: r.0 })
                    }
                } else {
                    mk_node(c, st1, "ident"@, ExprM::Ident(name))
                }
            },
            Some(ETokM::LParen) => {
                let r = expr_bp(c, st1, 0);
                mk_node(c, skip_tok(c, r.1, ETokM::RParen), "paren"@, ExprM::Paren(Box::new(r.0)))
            },
            _ => {
                let d = err_m(
                    "E_PARSE007"@,
                    Phase::Parse,
                    None,
                    c.span,
                    "invalid expression"@,
                    Some("expression"@),
                    Some(stray_debug(t)),
                    "replace"@,
                    "0"@,
                );
                mk_node(
                    c,
                    EPSt { diags: st1.diags.push(d), ..st1 },
                    "int"@,
                    ExprM::Lit(LitM::Int(0)),
                )
            },
        }
    }
}

/// The arguments of a call, after the opening parenthesis.
pub open spec fn args_loop(c: ECtx, st: EPSt, args: Seq<NodeM<ExprM>>) -> (
    Seq<NodeM<ExprM>>,
    EPSt,
)
    decreases measure(c, st), 4int,
{
    if !(0 <= st.pos <= c.toks.len()) {
        (args, st)
    } else if tok_at(c, st.pos) != Some(ETokM::RParen) && tok_at(c, st.pos) is Some {
        let r = expr_bp(c, st, 0);
        let args2 = args.push(r.0);
        if tok_at(c, r.1.pos) == Some(ETokM::Comma) && ok_pos(c, st, r.1) {
            args_loop(c, adv(r.1), args2)
        } else {
            (args2, r.1)
        }
    } else {
        (args, st)
    }
}

/// `Some(..)`, `None`, `Ok(..)` or `Err(..)`, after the constructor name.
pub open spec fn ctor(c: ECtx, st: EPSt, name: Seq<char>) -> (NodeM<ExprM>, EPSt)
    decreases measure(c, st), 3int,
{
    if !(0 <= st.pos <= c.toks.len()) {
        mk_node(c, st, "int"@, ExprM::Lit(LitM::Int(0)))
    } else if name == "None"@ {
        let st1 = if tok_at(c, st.pos) == Some(ETokM::LParen) {
            skip_tok(c, adv(st), ETokM::RParen)
        } else {
            st
        };
        mk_node(c, st1, "ctor"@, ExprM::Ctor(CtorM::NoneOf))
    } else {
        let st1 = if tok_at(c, st.pos) == Some(ETokM::LParen) {
            adv(st)
        } else {
            EPSt {
                diags: st.diags.push(
                    err_m(
                        "E_PARSE007"@,
                        Phase::Parse,
                        None,
                        c.span,
                        "constructor requires parentheses"@,
                        Some(name + "(<expr>)"@),
                        Some(name),
                        "insert"@,
                        name + "(...)"@,
                    ),
                ),
                ..st
            }
        };
        let r = expr_bp(c, st1, 0);
        let st2 = skip_tok(c, r.1, ETokM::RParen);
        let v = Box::new(r.0);
        mk_node(
            c,
            st2,
            "ctor"@,
            ExprM::Ctor(
                if name == "Some"@ {
                    CtorM::SomeOf(v)
                } else if name == "Ok"@ {
                    CtorM::OkOf(v)
                } else {
                    CtorM::ErrOf(v)
                },
            ),
        )
    }
}

/// `parse_expr_node`: the expression node of a text, with the diagnostics
/// and node counter after parsing it.
pub open spec fn parse_expr_spec(src: Seq<char>, span: Span, diags: Seq<DiagM>, counter: int, hash: u32) -> (
    NodeM<ExprM>,
    Seq<DiagM>,
    int,
) {
    let c = ECtx { toks: lex_expr_spec(src), span, hash };
    let r = expr_bp(c, EPSt { pos: 0, diags, counter }, 0);
    (r.0, r.1.diags, r.1.counter)
}

// ---------------------------------------------------------------------------
// Parsing an expression only adds errors
// ---------------------------------------------------------------------------
proof fn lemma_expr_bp_errors(c: ECtx, st: EPSt, min_bp: int)
    ensures
        errors_added(st.diags, expr_bp(c, st, min_bp).1.diags),
    decreases measure(c, st), 2int,
{
    if 0 <= st.pos <= c.toks.len() {
        let p = prefix(c, st);
        lemma_prefix_errors(c, st);
        if ok_pos(c, st, p.1) {
            lemma_expr_loop_errors(c, p.1, min_bp, p.0);
            lemma_errors_added_trans(st.diags, p.1.diags, expr_bp(c, st, min_bp).1.diags);
        }
    }
}

proof fn lemma_expr_loop_errors(c: ECtx, st: EPSt, min_bp: int, lhs: NodeM<ExprM>)
    ensures
        errors_added(st.diags, expr_loop(c, st, min_bp, lhs).1.diags),
    decreases measure(c, st), 1int,
{
    if 0 <= st.pos <= c.toks.len() {
        match tok_at(c, st.pos) {
            Some(ETokM::CastType(target)) => {
                let n = mk_node(c, adv(st), "cast"@, ExprM::Cast { expr: Box::new(lhs), target });
                lemma_expr_loop_errors(c, n.1, min_bp, n.0);
            },
            _ => match peek_binop(c, st) {
                None => {},
                Some(op) => {
                    if binding_power(op).0 >= min_bp {
                        let r = expr_bp(c, adv(st), binding_power(op).1);
                        lemma_expr_bp_errors(c, adv(st), binding_power(op).1);
                        if ok_pos(c, adv(st), r.1) {
                            let n = mk_node(
                                c,
                                r.1,
                                "binary"@,
                                ExprM::Binary { op, lhs: Box::new(lhs), rhs: Box::new(r.0) },
                            );
                            lemma_expr_loop_errors(c, n.1, min_bp, n.0);
                            lemma_errors_added_trans(
                                st.diags,
                                r.1.diags,
                                expr_loop(c, st, min_bp, lhs).1.diags,
                            );
                        }
                    }
                },
            },
        }
    }
}

proof fn lemma_prefix_errors(c: ECtx, st: EPSt)
    ensures
        errors_added(st.diags, prefix(c, st).1.diags),
    decreases measure(c, st), 0int,
{
    if 0 <= st.pos <= c.toks.len() {
        let t = tok_at(c, st.pos);
        let st1 = if t is Some {
            adv(st)
        } else {
            st
        };
        match t {
            Some(ETokM::Op(op)) if op == "-"@ || op == "!"@ => {
                lemma_expr_bp_errors(c, st1, 80);
            },
            Some(ETokM::Int(v)) => {},
            Some(ETokM::Float(v)) => {},
            Some(ETokM::Str(v)) => {},
            Some(ETokM::Bool(v)) => {},
            Some(ETokM::Ident(name)) => {
                if is_ctor_name(name) {
                    lemma_ctor_errors(c, st1, name);
                } else if tok_at(c, st1.pos) == Some(ETokM::LParen) {
                    lemma_args_loop_errors(c, adv(st1), Seq::empty());
                }
            },
            Some(ETokM::LParen) => {
                lemma_expr_bp_errors(c, st1, 0);
            },
            _ => {
                lemma_errors_added_push(st1.diags, prefix(c, st).1.diags.last());
                assert(prefix(c, st).1.diags == st1.diags.push(prefix(c, st).1.diags.last()));
            },
        }
    }
}

proof fn lemma_args_loop_errors(c: ECtx, st: EPSt, args: Seq<NodeM<ExprM>>)
    ensures
        errors_added(st.diags, args_loop(c, st, args).1.diags),
    decreases measure(c, st), 4int,
{
    if 0 <= st.pos <= c.toks.len() && tok_at(c, st.pos) != Some(ETokM::RParen) && tok_at(c, st.pos) is Some {
        let r = expr_bp(c, st, 0);
        lemma_expr_bp_errors(c, st, 0);
        if tok_at(c, r.1.pos) == Some(ETokM::Comma) && ok_pos(c, st, r.1) {
            lemma_args_loop_errors(c, adv(r.1), args.push(r.0));
            lemma_errors_added_trans(st.diags, r.1.diags, args_loop(c, st, args).1.diags);
        }
    }
}

proof fn lemma_ctor_errors(c: ECtx, st: EPSt, name: Seq<char>)
    ensures
        errors_added(st.diags, ctor(c, st, name).1.diags),
    decreases measure(c, st), 3int,
{
    if 0 <= st.pos <= c.toks.len() && name != "None"@ {
        let st1 = if tok_at(c, st.pos) == Some(ETokM::LParen) {
            adv(st)
        } else {
            EPSt {
                diags: st.diags.push(
                    err_m(
                        "E_PARSE007"@,
                        Phase::Parse,
                        None,
                        c.span,
                        "constructor requires parentheses"@,
                        Some(name + "(<expr>)"@),
                        Some(name),
                        "insert"@,
                        name + "(...)"@,
                    ),
                ),
                ..st
            }
        };
        if tok_at(c, st.pos) != Some(ETokM::LParen) {
            lemma_errors_added_push(st.diags, st1.diags.last());
            assert(st1.diags == st.diags.push(st1.diags.last()));
        }
        lemma_expr_bp_errors(c, st1, 0);
        lemma_errors_added_trans(st.diags, st1.diags, expr_bp(c, st1, 0).1.diags);
    }
}

/// Parsing an expression keeps the diagnostics it is given and adds only
/// errors.
pub proof fn lemma_parse_expr_errors(src: Seq<char>, span: Span, diags: Seq<DiagM>, counter: int, hash: u32)
    ensures
        errors_added(diags, parse_expr_spec(src, span, diags, counter, hash).1),
{
    let c = ECtx { toks: lex_expr_spec(src), span, hash };
    lemma_expr_bp_errors(c, EPSt { pos: 0, diags, counter }, 0);
}

// ---------------------------------------------------------------------------
// Operator precedence
// ---------------------------------------------------------------------------
/// The precedence of the binary operators, loosest first: `||`, `&&`,
/// equality, comparison, additive, multiplicative.
pub open spec fn precedence(op: BinOp) -> int {
    match op {
        BinOp::Or => 1,
        BinOp::And => 2,
        BinOp::Eq | BinOp::Neq => 3,
        BinOp::Lt | BinOp::Le | BinOp::Gt | BinOp::Ge => 4,
        BinOp::Add | BinOp::Sub => 5,
        BinOp::Mul | BinOp::Div | BinOp::Mod => 6,
    }
}

/// The source text of a binary operator.
pub open spec fn op_symbol(op: BinOp) -> Seq<char> {
    match op {
        BinOp::Add => "+"@,
        BinOp::Sub => "-"@,
        BinOp::Mul => "*"@,
        BinOp::Div => "/"@,
        BinOp::Mod => "%"@,
        BinOp::Eq => "=="@,
        BinOp::Neq => "!="@,
        BinOp::Lt => "<"@,
        BinOp::Le => "<="@,
        BinOp::Gt => ">"@,
        BinOp::Ge => ">="@,
        BinOp::And => "&&"@,
        BinOp::Or => "||"@,
    }
}

proof fn lemma_op_symbol_reads_back(op: BinOp)
    ensures
        binop_of(op_symbol(op)) == Some(op),
{
    reveal_strlit("+");
    reveal_strlit("-");
    reveal_strlit("*");
    reveal_strlit("/");
    reveal_strlit("%");
    reveal_strlit("==");
    reveal_strlit("!=");
    reveal_strlit("<");
    reveal_strlit("<=");
    reveal_strlit(">");
    reveal_strlit(">=");
    reveal_strlit("&&");
    reveal_strlit("||");
    match op {
        BinOp::Add => {
            assert(op_symbol(op) == seq!['+']);
            assert(binop_of(op_symbol(op)) == Some(op));
        },
        BinOp::Sub => {
            assert(op_symbol(op) == seq!['-']);
            assert(op_symbol(op)[0] != "+"@[0]);
            assert(binop_of(op_symbol(op)) == Some(op));
        },
        BinOp::Mul => {
            assert(op_symbol(op) == seq!['*']);
            assert(op_symbol(op)[0] != "+"@[0]);
            assert(op_symbol(op)[0] != "-"@[0]);
            assert(binop_of(op_symbol(op)) == Some(op));
        },
        BinOp::Div => {
            assert(op_symbol(op) == seq!['/']);
            assert(op_symbol(op)[0] != "+"@[0]);
            assert(op_symbol(op)[0] != "-"@[0]);
            assert(op_symbol(op)[0] != "*"@[0]);
            assert(binop_of(op_symbol(op)) == Some(op));
        },
        BinOp::Mod => {
            assert(op_symbol(op) == seq!['%']);
            assert(op_symbol(op)[0] != "+"@[0]);
            assert(op_symbol(op)[0] != "-"@[0]);
            assert(op_symbol(op)[0] != "*"@[0]);
            assert(op_symbol(op)[0] != "/"@[0]);
            assert(binop_of(op_symbol(op)) == Some(op));
        },
        BinOp::Eq => {
            assert(op_symbol(op) == seq!['=', '=']);
            assert(binop_of(op_symbol(op)) == Some(op));
        },
        BinOp::Neq => {
            assert(op_symbol(op) == seq!['!', '=']);
            assert(op_symbol(op)[0] != "=="@[0]);
            assert(binop_of(op_symbol(op)) == Some(op));
        },
        BinOp::Lt => {
            assert(op_symbol(op) == seq!['<']);
            assert(op_symbol(op)[0] != "+"@[0]);
            assert(op_symbol(op)[0] != "-"@[0]);
            assert(op_symbol(op)[0] != "*"@[0]);
            assert(op_symbol(op)[0] != "/"@[0]);
            assert(op_symbol(op)[0] != "%"@[0]);
            assert(binop_of(op_symbol(op)) == Some(op));
        },
        BinOp::Le => {
            assert(op_symbol(op) == seq!['<', '=']);
            assert(op_symbol(op)[0] != "=="@[0]);
            assert(op_symbol(op)[0] != "!="@[0]);
            assert(binop_of(op_symbol(op)) == Some(op));
        },
        BinOp::Gt => {
            assert(op_symbol(op) == seq!['>']);
            assert(op_symbol(op)[0] != "+"@[0]);
            assert(op_symbol(op)[0] != "-"@[0]);
            assert(op_symbol(op)[0] != "*"@[0]);
            assert(op_symbol(op)[0] != "/"@[0]);
            assert(op_symbol(op)[0] != "%"@[0]);
            assert(op_symbol(op)[0] != "<"@[0]);
            assert(binop_of(op_symbol(op)) == Some(op));
        },
        BinOp::Ge => {
            assert(op_symbol(op) == seq!['>', '=']);
            assert(op_symbol(op)[0] != "=="@[0]);
            assert(op_symbol(op)[0] != "!="@[0]);
            assert(op_symbol(op)[0] != "<="@[0]);
            assert(binop_of(op_symbol(op)) == Some(op));
        },
        BinOp::And => {
            assert(op_symbol(op) == seq!['&', '&']);
            assert(op_symbol(op)[0] != "=="@[0]);
            assert(op_symbol(op)[0] != "!="@[0]);
            assert(op_symbol(op)[0] != "<="@[0]);
            assert(op_symbol(op)[0] != ">="@[0]);
            assert(binop_of(op_symbol(op)) == Some(op));
        },
        BinOp::Or => {
            assert(op_symbol(op) == seq!['|', '|']);
            assert(op_symbol(op)[0] != "=="@[0]);
            assert(op_symbol(op)[0] != "!="@[0]);
            assert(op_symbol(op)[0] != "<="@[0]);
            assert(op_symbol(op)[0] != ">="@[0]);
            assert(op_symbol(op)[0] != "&&"@[0]);
            assert(binop_of(op_symbol(op)) == Some(op));
        },
    }
}

/// The two operands of a binary expression with the operator `o`.
pub open spec fn operands(e: ExprM, o: BinOp) -> Option<(ExprM, ExprM)> {
    match e {
        ExprM::Binary { op, lhs, rhs } => if op == o {
            Some((lhs.kind, rhs.kind))
        } else {
            None
        },
        _ => None,
    }
}

/// The tokens of `a op1 b op2 c` for three plain names.
pub open spec fn three_names(a: Seq<char>, op1: BinOp, b: Seq<char>, op2: BinOp, c: Seq<char>) -> Seq<ETokM> {
    seq![ETokM::Ident(a), ETokM::Op(op_symbol(op1)), ETokM::Ident(b), ETokM::Op(op_symbol(op2)), ETokM::Ident(c)]
}

/// Tighter operators group first, and operators of one precedence group to
/// the left: `a op1 b op2 c` parses as `a op1 (b op2 c)` when `op2` binds
/// tighter than `op1`, and as `(a op1 b) op2 c` otherwise; so `1 + 2 * x`
/// is `1 + (2 * x)` and `a * b + c` is `(a * b) + c`.
pub proof fn lemma_precedence_groups(
    a: Seq<char>,
    op1: BinOp,
    b: Seq<char>,
    op2: BinOp,
    c: Seq<char>,
    span: Span,
    hash: u32,
    diags: Seq<DiagM>,
    counter: int,
)
    requires
        !is_ctor_name(a),
        !is_ctor_name(b),
        !is_ctor_name(c),
    ensures
        ({
            let e = expr_bp(
                ECtx { toks: three_names(a, op1, b, op2, c), span, hash },
                EPSt { pos: 0, diags, counter },
                0,
            ).0;
            &&& precedence(op2) > precedence(op1) ==> operands(e.kind, op1) is Some && operands(e.kind, op1).unwrap().0
                == ExprM::Ident(a) && operands(operands(e.kind, op1).unwrap().1, op2) == Some(
                (ExprM::Ident(b), ExprM::Ident(c)),
            )
            &&& precedence(op2) <= precedence(op1) ==> operands(e.kind, op2) is Some && operands(e.kind, op2).unwrap().1
                == ExprM::Ident(c) && operands(operands(e.kind, op2).unwrap().0, op1) == Some(
                (ExprM::Ident(a), ExprM::Ident(b)),
            )
        }),
{
    let cx = ECtx { toks: three_names(a, op1, b, op2, c), span, hash };
    let s0 = EPSt { pos: 0, diags, counter };
    lemma_op_symbol_reads_back(op1);
    lemma_op_symbol_reads_back(op2);
    assert(tok_at(cx, 0) == Some(ETokM::Ident(a)));
    assert(tok_at(cx, 1) == Some(ETokM::Op(op_symbol(op1))));
    assert(tok_at(cx, 2) == Some(ETokM::Ident(b)));
    assert(tok_at(cx, 3) == Some(ETokM::Op(op_symbol(op2))));
    assert(tok_at(cx, 4) == Some(ETokM::Ident(c)));
    assert(tok_at(cx, 5) is None);
    let pa = prefix(cx, s0);
    assert(pa.1.pos == 1 && pa.0.kind == ExprM::Ident(a));
    let r1 = binding_power(op1).1;
    let s2 = adv(pa.1);
    let pb = prefix(cx, s2);
    assert(pb.1.pos == 3 && pb.0.kind == ExprM::Ident(b));
    let s4 = adv(pb.1);
    let pc = prefix(cx, s4);
    assert(pc.1.pos == 5 && pc.0.kind == ExprM::Ident(c));
    // the right operand of op1
    let rb = expr_bp(cx, s2, r1);
    assert(rb == expr_loop(cx, pb.1, r1, pb.0));
    if precedence(op2) > precedence(op1) {
        let r2 = binding_power(op2).1;
        let rc = expr_bp(cx, s4, r2);
        assert(rc == expr_loop(cx, pc.1, r2, pc.0));
        assert(rc == pc);
        let n2 = mk_node(cx, rc.1, "binary"@, ExprM::Binary { op: op2, lhs: Box::new(pb.0), rhs: Box::new(rc.0) });
        assert(expr_loop(cx, n2.1, r1, n2.0) == n2);
        assert(rb == n2);
        let n1 = mk_node(cx, rb.1, "binary"@, ExprM::Binary { op: op1, lhs: Box::new(pa.0), rhs: Box::new(rb.0) });
        assert(expr_loop(cx, n1.1, 0, n1.0) == n1);
        assert(expr_loop(cx, pa.1, 0, pa.0) == n1);
    } else {
        assert(rb == pb);
        let n1 = mk_node(cx, rb.1, "binary"@, ExprM::Binary { op: op1, lhs: Box::new(pa.0), rhs: Box::new(rb.0) });
        let r2 = binding_power(op2).1;
        let s4b = adv(n1.1);
        let pcb = prefix(cx, s4b);
        assert(pcb.1.pos == 5 && pcb.0.kind == ExprM::Ident(c));
        let rc = expr_bp(cx, s4b, r2);
        assert(rc == expr_loop(cx, pcb.1, r2, pcb.0));
        assert(rc == pcb);
        let n2 = mk_node(cx, rc.1, "binary"@, ExprM::Binary { op: op2, lhs: Box::new(n1.0), rhs: Box::new(rc.0) });
        assert(expr_loop(cx, n2.1, 0, n2.0) == n2);
        assert(expr_loop(cx, n1.1, 0, n1.0) == n2);
        assert(expr_loop(cx, pa.1, 0, pa.0) == n2);
    }
}

// ---------------------------------------------------------------------------
// Parsing an expression: implementation
// ---------------------------------------------------------------------------
struct ExprParser {
    tokens: Vec<ExprToken>,
    pos: usize,
    span: Span,
    hash: u32,
    diags: Vec<Diagnostic>,
    counter: u64,
}

pub proof fn lemma_exprs_push(v: Seq<Node<Expr>>, n: Node<Expr>)
    ensures
        exprs_m(v.push(n)) == exprs_m(v).push(expr_m(n)),
{
    assert(exprs_m(v.push(n)) =~= exprs_m(v).push(expr_m(n)));
}

fn clone_token(t: &ExprToken) -> (r: ExprToken)
    ensures
        etok_m(r) == etok_m(*t),
{
    match t {
        ExprToken::Ident(s) => ExprToken::Ident(s.clone()),
        ExprToken::Int(v) => ExprToken::Int(*v),
        ExprToken::Float(s) => ExprToken::Float(s.clone()),
        ExprToken::Str(s) => ExprToken::Str(s.clone()),
        ExprToken::Bool(b) => ExprToken::Bool(*b),
        ExprToken::CastType(t) => ExprToken::CastType(copy_type(t)),
        ExprToken::Op(s) => ExprToken::Op(s.clone()),
        ExprToken::LParen => ExprToken::LParen,
        ExprToken::RParen => ExprToken::RParen,
        ExprToken::Comma => ExprToken::Comma,
    }
}

impl ExprParser {
    spec fn ctx(&self) -> ECtx {
        ECtx { toks: etoks_m(self.tokens@), span: self.span, hash: self.hash }
    }

    spec fn st(&self) -> EPSt {
        EPSt { pos: self.pos as int, diags: diags_m(self.diags@), counter: self.counter as int }
    }

    spec fn wf(&self) -> bool {
        self.pos <= self.tokens@.len()
    }

    fn peek(&self) -> (r: Option<ExprToken>)
        requires
            self.wf(),
        ensures
            match r {
                Some(t) => tok_at(self.ctx(), self.pos as int) == Some(etok_m(t)),
                None => tok_at(self.ctx(), self.pos as int) is None,
            },
    {
        if self.pos < self.tokens.len() {
            Some(clone_token(&self.tokens[self.pos]))
        } else {
            None
        }
    }

    fn peek_is(&self, t: ETokKind) -> (r: bool)
        requires
            self.wf(),
        ensures
            r == (tok_at(self.ctx(), self.pos as int) == Some(kind_tok(t))),
            r ==> self.pos < self.tokens@.len(),
    {
        if self.pos < self.tokens.len() {
            match (&self.tokens[self.pos], t) {
                (ExprToken::LParen, ETokKind::LParen) => true,
                (ExprToken::RParen, ETokKind::RParen) => true,
                (ExprToken::Comma, ETokKind::Comma) => true,
                _ => false,
            }
        } else {
            false
        }
    }

    fn skip(&mut self, t: ETokKind)
        requires
            old(self).wf(),
        ensures
            final(self).wf(),
            final(self).ctx() == old(self).ctx(),
            final(self).st() == skip_tok(old(self).ctx(), old(self).st(), kind_tok(t)),
    {
        if self.peek_is(t) {
            self.advance();
        }
    }

    fn advance(&mut self)
        requires
            old(self).pos < old(self).tokens@.len(),
        ensures
            final(self).pos == old(self).pos + 1,
            final(self).tokens == old(self).tokens,
            final(self).span == old(self).span,
            final(self).hash == old(self).hash,
            final(self).diags == old(self).diags,
            final(self).counter == old(self).counter,
    {
        let n = self.tokens.len();
        assert(self.pos < n);
        self.pos = self.pos + 1;
    }

    fn node(&mut self, kind: &str, e: Expr) -> (n: Node<Expr>)
        requires
            old(self).wf(),
        ensures
            final(self).wf(),
            final(self).ctx() == old(self).ctx(),
            (expr_m(n), final(self).st()) == mk_node(old(self).ctx(), old(self).st(), kind@, ekind_m(e)),
    {
        self.counter = bump_counter(self.counter);
        Node { id: make_node_id(kind, self.counter, self.hash), span: self.span, kind: e }
    }

    fn push_diag(&mut self, d: Diagnostic)
        requires
            old(self).wf(),
        ensures
            final(self).wf(),
            final(self).ctx() == old(self).ctx(),
            final(self).st() == (EPSt { diags: old(self).st().diags.push(diag_m(d)), ..old(self).st() }),
    {
        proof {
            lemma_diags_push(self.diags@, d);
        }
        self.diags.push(d);
    }

    fn peek_binop(&self) -> (r: Option<BinOp>)
        requires
            self.wf(),
        ensures
            r == peek_binop(self.ctx(), self.st()),
    {
        if self.pos < self.tokens.len() {
            match &self.tokens[self.pos] {
                ExprToken::Op(op) => {
                    let v = str_chars(op.as_str());
                    binop_of_exec(v.as_slice())
                },
                _ => None,
            }
        } else {
            None
        }
    }

    #[verifier::loop_isolation(false)]
    fn expr_bp(&mut self, min_bp: u8) -> (n: Node<Expr>)
        requires
            old(self).wf(),
        ensures
            final(self).wf(),
            final(self).ctx() == old(self).ctx(),
            (expr_m(n), final(self).st()) == expr_bp(old(self).ctx(), old(self).st(), min_bp as int),
            ok_pos(old(self).ctx(), old(self).st(), final(self).st()),
        decreases old(self).tokens@.len() - old(self).pos, 2int,
    {
        let ghost c = self.ctx();
        let ghost st0 = self.st();
        let ghost target = expr_bp(c, st0, min_bp as int);
        let mut lhs = self.prefix();
        loop
            invariant
                self.wf(),
                self.ctx() == c,
                ok_pos(c, st0, self.st()),
                expr_loop(c, self.st(), min_bp as int, expr_m(lhs)) == target,
            decreases self.tokens@.len() - self.pos,
        {
            if self.pos < self.tokens.len() {
                match &self.tokens[self.pos] {
                    ExprToken::CastType(t) => {
                        let target_ty = copy_type(t);
                        self.advance();
                        lhs = self.node("cast", Expr::Cast { expr: Box::new(lhs), target: target_ty });
                        continue;
                    },
                    _ => {},
                }
            }
            match self.peek_binop() {
                None => {
                    return lhs;
                },
                Some(op) => {
                    let (l, r) = infix_binding_power(op);
                    if l < min_bp {
                        return lhs;
                    }
                    self.advance();
                    let rhs = self.expr_bp(r);
                    lhs = self.node("binary", Expr::Binary { op, lhs: Box::new(lhs), rhs: Box::new(rhs) });
                },
            }
        }
    }

    fn prefix(&mut self) -> (n: Node<Expr>)
        requires
            old(self).wf(),
        ensures
            final(self).wf(),
            final(self).ctx() == old(self).ctx(),
            (expr_m(n), final(self).st()) == prefix(old(self).ctx(), old(self).st()),
            ok_pos(old(self).ctx(), old(self).st(), final(self).st()),
        decreases old(self).tokens@.len() - old(self).pos, 0int,
    {
        let ghost c = self.ctx();
        let t = self.peek();
        if t.is_some() {
            self.advance();
        }
        match t {
            Some(ExprToken::Op(op)) => {
                let ov = str_chars(op.as_str());
                let is_neg = chars_eq_str(ov.as_slice(), "-");
                let is_not = chars_eq_str(ov.as_slice(), "!");
                if is_neg || is_not {
                    let operand = self.expr_bp(80);
                    return self.node(
                        "unary",
                        Expr::Unary {
                            op: if is_neg {
                                UnOp::Neg
                            } else {
                                UnOp::Not
                            },
                            operand: Box::new(operand),
                        },
                    );
                }
                let d = self.stray(Some(ExprToken::Op(op)));
                self.push_diag(d);
                self.node("int", Expr::Lit(Literal::Int(0)))
            },
            Some(ExprToken::Int(v)) => self.node("int", Expr::Lit(Literal::Int(v))),
            Some(ExprToken::Float(v)) => self.node("float", Expr::Lit(Literal::Float(v))),
            Some(ExprToken::Str(v)) => self.node("string", Expr::Lit(Literal::Str(v))),
            Some(ExprToken::Bool(v)) => self.node("bool", Expr::Lit(Literal::Bool(v))),
            Some(ExprToken::Ident(name)) => {
                let nv = str_chars(name.as_str());
                if is_ctor(nv.as_slice()) {
                    return self.ctor(name);
                }
                if self.peek_is(ETokKind::LParen) {
                    self.advance();
                    let args = self.args();
                    self.skip(ETokKind::RParen);
                    proof {
                        lemma_call_m(name, args);
                    }
                    let n = self.node("call", Expr::Call { callee: name, args });
                    return n;
                }
                self.node("ident", Expr::Ident(name))
            },
            Some(ExprToken::LParen) => {
                let inner = self.expr_bp(0);
                self.skip(ETokKind::RParen);
                self.node("paren", Expr::Paren(Box::new(inner)))
            },
            other => {
                let d = self.stray(other);
                self.push_diag(d);
                self.node("int", Expr::Lit(Literal::Int(0)))
            },
        }
    }

    fn stray(&self, t: Option<ExprToken>) -> (d: Diagnostic)
        ensures
            diag_m(d) == err_m(
                "E_PARSE007"@,
                Phase::Parse,
                None,
                self.span,
                "invalid expression"@,
                Some("expression"@),
                Some(
                    stray_debug(
                        match t {
                            Some(x) => Some(etok_m(x)),
                            None => None,
                        },
                    ),
                ),
                "replace"@,
                "0"@,
            ),
    {
        let mut v: Vec<char> = Vec::new();
        match &t {
            None => push_str(&mut v, "None"),
            Some(ExprToken::Op(o)) => {
                push_str(&mut v, "Some(Op(\"");
                push_str(&mut v, o.as_str());
                push_str(&mut v, "\"))");
            },
            Some(ExprToken::RParen) => push_str(&mut v, "Some(RParen)"),
            Some(ExprToken::Comma) => push_str(&mut v, "Some(Comma)"),
            Some(ExprToken::CastType(ty)) => {
                push_str(&mut v, "Some(CastType(");
                write_type_debug(&mut v, ty);
                push_str(&mut v, "))");
            },
            _ => {},
        }
        proof {
            reveal_strlit("");
        }
        assert(v@ =~= stray_debug(
            match t {
                Some(x) => Some(etok_m(x)),
                None => None,
            },
        ));
        Diagnostic::error(
            "E_PARSE007",
            Phase::Parse,
            None,
            self.span,
            "invalid expression",
            Some("expression".to_owned()),
            Some(chars_to_string(v.as_slice())),
            fix("replace", "0".to_owned()),
        )
    }

    #[verifier::loop_isolation(false)]
    fn args(&mut self) -> (args: Vec<Node<Expr>>)
        requires
            old(self).wf(),
        ensures
            final(self).wf(),
            final(self).ctx() == old(self).ctx(),
            (exprs_m(args@), final(self).st()) == args_loop(old(self).ctx(), old(self).st(), Seq::empty()),
            ok_pos(old(self).ctx(), old(self).st(), final(self).st()),
        decreases old(self).tokens@.len() - old(self).pos, 4int,
    {
        let ghost c = self.ctx();
        let ghost st0 = self.st();
        let ghost target = args_loop(c, st0, Seq::empty());
        let mut args: Vec<Node<Expr>> = Vec::new();
        assert(exprs_m(args@) =~= Seq::empty());
        loop
            invariant
                self.wf(),
                self.ctx() == c,
                ok_pos(c, st0, self.st()),
                args_loop(c, self.st(), exprs_m(args@)) == target,
            decreases self.tokens@.len() - self.pos,
        {
            if self.peek_is(ETokKind::RParen) || self.pos >= self.tokens.len() {
                return args;
            }
            let ghost before = self.st();
            let a = self.expr_bp(0);
            proof {
                lemma_exprs_push(args@, a);
            }
            args.push(a);
            if self.peek_is(ETokKind::Comma) {
                self.advance();
            } else {
                return args;
            }
        }
    }

    fn ctor(&mut self, name: String) -> (n: Node<Expr>)
        requires
            old(self).wf(),
            is_ctor_name(name@),
        ensures
            final(self).wf(),
            final(self).ctx() == old(self).ctx(),
            (expr_m(n), final(self).st()) == ctor(old(self).ctx(), old(self).st(), name@),
            ok_pos(old(self).ctx(), old(self).st(), final(self).st()),
        decreases old(self).tokens@.len() - old(self).pos, 3int,
    {
        let nv = str_chars(name.as_str());
        if chars_eq_str(nv.as_slice(), "None") {
            if self.peek_is(ETokKind::LParen) {
                self.advance();
                self.skip(ETokKind::RParen);
            }
            return self.node("ctor", Expr::Ctor(ConstructorExpr::NoneOf));
        }
        if self.peek_is(ETokKind::LParen) {
            self.advance();
        } else {
            let mut ex: Vec<char> = Vec::new();
            push_str(&mut ex, name.as_str());
            push_str(&mut ex, "(<expr>)");
            let mut patch: Vec<char> = Vec::new();
            push_str(&mut patch, name.as_str());
            push_str(&mut patch, "(...)");
            let d = Diagnostic::error(
                "E_PARSE007",
                Phase::Parse,
                None,
                self.span,
                "constructor requires parentheses",
                Some(chars_to_string(ex.as_slice())),
                Some(name.clone()),
                fix("insert", chars_to_string(patch.as_slice())),
            );
            self.push_diag(d);
        }
        let value = self.expr_bp(0);
        self.skip(ETokKind::RParen);
        let v = Box::new(value);
        let c = if chars_eq_str(nv.as_slice(), "Some") {
            ConstructorExpr::SomeOf(v)
        } else if chars_eq_str(nv.as_slice(), "Ok") {
            ConstructorExpr::OkOf(v)
        } else {
            ConstructorExpr::ErrOf(v)
        };
        self.node("ctor", Expr::Ctor(c))
    }
}

/// The punctuation tokens the parser looks ahead for.
#[derive(Clone, Copy)]
pub enum ETokKind {
    LParen,
    RParen,
    Comma,
}

pub open spec fn kind_tok(k: ETokKind) -> ETokM {
    match k {
        ETokKind::LParen => ETokM::LParen,
        ETokKind::RParen => ETokM::RParen,
        ETokKind::Comma => ETokM::Comma,
    }
}

fn is_ctor(n: &[char]) -> (r: bool)
    ensures
        r == is_ctor_name(n@),
{
    chars_eq_str(n, "Some") || chars_eq_str(n, "None") || chars_eq_str(n, "Ok") || chars_eq_str(
        n,
        "Err",
    )
}

fn binop_of_exec(op: &[char]) -> (r: Option<BinOp>)
    ensures
        r == binop_of(op@),
{
    if chars_eq_str(op, "+") {
        Some(BinOp::Add)
    } else if chars_eq_str(op, "-") {
        Some(BinOp::Sub)
    } else if chars_eq_str(op, "*") {
        Some(BinOp::Mul)
    } else if chars_eq_str(op, "/") {
        Some(BinOp::Div)
    } else if chars_eq_str(op, "%") {
        Some(BinOp::Mod)
    } else if chars_eq_str(op, "==") {
        Some(BinOp::Eq)
    } else if chars_eq_str(op, "!=") {
        Some(BinOp::Neq)
    } else if chars_eq_str(op, "<") {
        Some(BinOp::Lt)
    } else if chars_eq_str(op, "<=") {
        Some(BinOp::Le)
    } else if chars_eq_str(op, ">") {
        Some(BinOp::Gt)
    } else if chars_eq_str(op, ">=") {
        Some(BinOp::Ge)
    } else if chars_eq_str(op, "&&") {
        Some(BinOp::And)
    } else if chars_eq_str(op, "||") {
        Some(BinOp::Or)
    } else {
        None
    }
}

/// Left and right binding powers of a binary operator.
pub fn infix_binding_power(op: BinOp) -> (r: (u8, u8))
    ensures
        (r.0 as int, r.1 as int) == binding_power(op),
{
    match op {
        BinOp::Or => (20, 21),
        BinOp::And => (30, 31),
        BinOp::Eq | BinOp::Neq => (40, 41),
        BinOp::Lt | BinOp::Le | BinOp::Gt | BinOp::Ge => (50, 51),
        BinOp::Add | BinOp::Sub => (60, 61),
        BinOp::Mul | BinOp::Div | BinOp::Mod => (70, 71),
    }
}

/// Parses the text of an expression; every node gets `span`, the counter and
/// diagnostics are threaded through.
pub fn parse_expr_node(
    src: &[char],
    span: Span,
    diags: &mut Vec<Diagnostic>,
    counter: &mut u64,
    hash: u32,
) -> (n: Node<Expr>)
    ensures
        (expr_m(n), diags_m(final(diags)@), *final(counter) as int) == parse_expr_spec(
            src@,
            span,
            diags_m(old(diags)@),
            *old(counter) as int,
            hash,
        ),
{
    let tokens = lex_expr(src);
    let mut ds: Vec<Diagnostic> = Vec::new();
    std::mem::swap(&mut ds, diags);
    let mut p = ExprParser { tokens, pos: 0, span, hash, diags: ds, counter: *counter };
    let n = p.expr_bp(0);
    *diags = p.diags;
    *counter = p.counter;
    n
}

} // verus!
