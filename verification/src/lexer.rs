//! The lexer: turns source text into tokens and lexical diagnostics.
//!
//! The behaviour is specified as a state machine over the source characters:
//! `lex_step` is one step from a state whose position is on a character,
//! `lex_run` runs the steps to the end of the source, and `lex_spec` adds the
//! final end-of-file token.
use crate::ast::Span;
use crate::diag::{
    any_error, diag_m, diags_m, err_m, errors_added, fix, lemma_errors_added_trans, DiagM, Diagnostic, Phase,
    Severity,
};
use crate::text::{
    char_utf8_len, chars_eq_str, chars_to_string, sub_chars, digit, ident_continue, ident_start, is_digit,
    is_ident_continue, is_ident_start, str_chars, usize_to_string, utf8_len, dec_text,
};
use crate::lines::{byte_off, is_boundary, lemma_byte_off_bound, lemma_byte_off_mono, lemma_byte_off_step, tokens_fit};
use vstd::prelude::*;

verus! {

#[derive(Debug, Clone, Copy, PartialEq, Eq, Structural)]
pub enum TokenKind {
    Tag,
    Keyword,
    Ident,
    Int,
    Float,
    String,
    Operator,
    Punct,
    Newline,
    Eof,
}

#[derive(Debug, Clone)]
pub struct Token {
    pub kind: TokenKind,
    pub lexeme: String,
    pub span: Span,
}

pub struct TokenM {
    pub kind: TokenKind,
    pub lexeme: Seq<char>,
    pub span: Span,
}

pub open spec fn token_m(t: Token) -> TokenM {
    TokenM { kind: t.kind, lexeme: t.lexeme@, span: t.span }
}

pub open spec fn tokens_m(v: Seq<Token>) -> Seq<TokenM> {
    Seq::new(v.len(), |i: int| token_m(v[i]))
}

pub proof fn lemma_tokens_push(v: Seq<Token>, t: Token)
    ensures
        tokens_m(v.push(t)) == tokens_m(v).push(token_m(t)),
{
    assert(tokens_m(v.push(t)) =~= tokens_m(v).push(token_m(t)));
}

pub proof fn lemma_diags_push(v: Seq<Diagnostic>, d: Diagnostic)
    ensures
        diags_m(v.push(d)) == diags_m(v).push(diag_m(d)),
{
    assert(diags_m(v.push(d)) =~= diags_m(v).push(diag_m(d)));
}

// ---------------------------------------------------------------------------
// Specification
// ---------------------------------------------------------------------------
/// The state of the lexer: the index of the next character, its byte
/// offset, its line and column, and what has been produced so far.
pub struct LexSt {
    pub ci: int,
    pub pos: int,
    pub line: int,
    pub col: int,
    pub tokens: Seq<TokenM>,
    pub diags: Seq<DiagM>,
}

pub open spec fn at(src: Seq<char>, i: int) -> Option<char> {
    if 0 <= i < src.len() {
        Some(src[i])
    } else {
        None
    }
}

/// Moves past one character, updating the byte offset, line and column.
pub open spec fn bump(src: Seq<char>, st: LexSt) -> LexSt {
    if 0 <= st.ci < src.len() {
        let ch = src[st.ci];
        LexSt {
            ci: st.ci + 1,
            pos: st.pos + char_utf8_len(ch),
            line: if ch == '\n' {
                st.line + 1
            } else {
                st.line
            },
            col: if ch == '\n' {
                1
            } else {
                st.col + 1
            },
            ..st
        }
    } else {
        st
    }
}

pub open spec fn bump_n(src: Seq<char>, st: LexSt, n: nat) -> LexSt
    decreases n,
{
    if n == 0 {
        st
    } else {
        bump_n(src, bump(src, st), (n - 1) as nat)
    }
}

/// The range from the start mark `(pos, line, col)` to the current position.
pub open spec fn span_from(st: LexSt, start: (int, int, int)) -> Span {
    Span {
        start_byte: start.0 as usize,
        end_byte: st.pos as usize,
        start_line: start.1 as usize,
        start_col: start.2 as usize,
        end_line: st.line as usize,
        end_col: st.col as usize,
    }
}

pub open spec fn mark(st: LexSt) -> (int, int, int) {
    (st.pos, st.line, st.col)
}

pub open spec fn with_token(st: LexSt, kind: TokenKind, lexeme: Seq<char>, span: Span) -> LexSt {
    LexSt { tokens: st.tokens.push(TokenM { kind, lexeme, span }), ..st }
}

pub open spec fn with_diag(st: LexSt, d: DiagM) -> LexSt {
    LexSt { diags: st.diags.push(d), ..st }
}

/// `@func | @loop | ... | @break`: the tags of the language.
pub open spec fn known_tag(t: Seq<char>) -> bool {
    ||| t == "@func"@
    ||| t == "@loop"@
    ||| t == "@condition"@
    ||| t == "@intent"@
    ||| t == "@in"@
    ||| t == "@out"@
    ||| t == "@end"@
    ||| t == "@continue"@
    ||| t == "@break"@
}

/// The keywords of the language.
pub open spec fn keyword(t: Seq<char>) -> bool {
    ||| t == "let"@
    ||| t == "set"@
    ||| t == "if"@
    ||| t == "else"@
    ||| t == "return"@
    ||| t == "in"@
    ||| t == "true"@
    ||| t == "false"@
    ||| t == "as"@
    ||| t == "Some"@
    ||| t == "None"@
    ||| t == "Ok"@
    ||| t == "Err"@
}

/// Moves past the identifier characters at the current position.
pub open spec fn skip_ident(src: Seq<char>, st: LexSt) -> LexSt
    decreases src.len() - st.ci,
{
    if 0 <= st.ci < src.len() && is_ident_continue(src[st.ci]) {
        skip_ident(src, bump(src, st))
    } else {
        st
    }
}

/// Moves to the end of the line, leaving the newline itself.
pub open spec fn skip_comment(src: Seq<char>, st: LexSt) -> LexSt
    decreases src.len() - st.ci,
{
    if 0 <= st.ci < src.len() && src[st.ci] != '\n' {
        skip_comment(src, bump(src, st))
    } else {
        st
    }
}

pub open spec fn lex_tag(src: Seq<char>, st: LexSt) -> LexSt {
    let start = mark(st);
    let end = skip_ident(src, bump(src, st));
    let text = src.subrange(st.ci, end.ci);
    let span = span_from(end, start);
    if known_tag(text) {
        with_token(end, TokenKind::Tag, text, span)
    } else {
        with_diag(
            end,
            err_m(
                "E_LEX004"@,
                Phase::Lex,
                None,
                span,
                "unknown @ tag"@,
                Some("@func | @loop | @condition | @intent | @in | @out | @end"@),
                Some(text),
                "replace"@,
                "@condition"@,
            ),
        )
    }
}

pub open spec fn lex_ident(src: Seq<char>, st: LexSt) -> LexSt {
    let start = mark(st);
    let end = skip_ident(src, st);
    let text = src.subrange(st.ci, end.ci);
    let span = span_from(end, start);
    if keyword(text) {
        with_token(end, TokenKind::Keyword, text, span)
    } else if text.len() > 256 {
        with_diag(
            end,
            err_m(
                "E_LEX005"@,
                Phase::Lex,
                None,
                span,
                "identifier exceeds 256 bytes"@,
                Some("identifier length <= 256 bytes"@),
                Some(dec_text(text.len())),
                "rename"@,
                text.subrange(0, 256),
            ),
        )
    } else {
        with_token(end, TokenKind::Ident, text, span)
    }
}

/// Digits, and at most one dot, at the current position.
pub open spec fn number_loop(src: Seq<char>, st: LexSt, text: Seq<char>, has_dot: bool) -> (
    LexSt,
    Seq<char>,
    bool,
)
    decreases src.len() - st.ci,
{
    if 0 <= st.ci < src.len() && is_digit(src[st.ci]) {
        number_loop(src, bump(src, st), text.push(src[st.ci]), has_dot)
    } else if 0 <= st.ci < src.len() && src[st.ci] == '.' && !has_dot {
        number_loop(src, bump(src, st), text.push('.'), true)
    } else {
        (st, text, has_dot)
    }
}

pub open spec fn lex_number(src: Seq<char>, st: LexSt) -> LexSt {
    let start = mark(st);
    let neg = at(src, st.ci) == Some('-');
    let st1 = if neg {
        bump(src, st)
    } else {
        st
    };
    let text0: Seq<char> = if neg {
        seq!['-']
    } else {
        Seq::empty()
    };
    let r = number_loop(src, st1, text0, false);
    with_token(
        r.0,
        if r.2 {
            TokenKind::Float
        } else {
            TokenKind::Int
        },
        r.1,
        span_from(r.0, start),
    )
}

/// The value of a hexadecimal digit, or -1.
pub open spec fn hex_val(c: char) -> int {
    if '0' <= c <= '9' {
        c as int - '0' as int
    } else if 'a' <= c <= 'f' {
        c as int - 'a' as int + 10
    } else if 'A' <= c <= 'F' {
        c as int - 'A' as int + 10
    } else {
        -1
    }
}

pub open spec fn all_hex(s: Seq<char>) -> bool {
    forall|i: int| 0 <= i < s.len() ==> hex_val(#[trigger] s[i]) >= 0
}

pub open spec fn hex_value(s: Seq<char>) -> nat
    decreases s.len(),
{
    if s.len() == 0 {
        0
    } else {
        hex_value(s.drop_last()) * 16 + (hex_val(s.last()) as nat)
    }
}

/// `u32::from_str_radix(s, 16)`: an optional `+`, then one or more hex
/// digits whose value fits in 32 bits.
pub open spec fn parse_hex_u32(s: Seq<char>) -> Option<u32> {
    let d = if s.len() > 0 && s[0] == '+' {
        s.drop_first()
    } else {
        s
    };
    if d.len() == 0 || !all_hex(d) || hex_value(d) > 0xffff_ffff {
        None
    } else {
        Some(hex_value(d) as u32)
    }
}

/// `char::from_u32`: the scalar values are those below 0x110000 outside the
/// surrogate range.
pub open spec fn char_from_u32(v: u32) -> Option<char> {
    if v < 0xd800 || (0xe000 <= v && v <= 0x10ffff) {
        Some(v as char)
    } else {
        None
    }
}

/// Characters up to a closing `}` (consumed) or the end of the source.
pub open spec fn hex_loop(src: Seq<char>, st: LexSt, hex: Seq<char>) -> (LexSt, Seq<char>)
    decreases src.len() - st.ci,
{
    if 0 <= st.ci < src.len() {
        if src[st.ci] == '}' {
            (bump(src, st), hex)
        } else {
            hex_loop(src, bump(src, st), hex.push(src[st.ci]))
        }
    } else {
        (st, hex)
    }
}

pub open spec fn unterminated(st: LexSt, start: (int, int, int)) -> LexSt {
    with_diag(
        st,
        err_m(
            "E_LEX002"@,
            Phase::Lex,
            None,
            span_from(st, start),
            "unterminated string literal"@,
            Some("closing quote"@),
            Some("end of line"@),
            "insert"@,
            "\""@,
        ),
    )
}

pub open spec fn push_decoded(text: Seq<char>, hex: Seq<char>) -> Seq<char> {
    match parse_hex_u32(hex) {
        Some(v) => match char_from_u32(v) {
            Some(c) => text.push(c),
            None => text,
        },
        None => text,
    }
}

/// The body of a string literal, after the opening quote.
pub open spec fn string_loop(src: Seq<char>, st: LexSt, text: Seq<char>, start: (int, int, int)) -> LexSt
    decreases src.len() - st.ci,
{
    if !(0 <= st.ci < src.len()) {
        unterminated(st, start)
    } else {
        let ch = src[st.ci];
        if ch == '"' {
            let st1 = bump(src, st);
            with_token(st1, TokenKind::String, text, span_from(st1, start))
        } else if ch == '\\' {
            let st1 = bump(src, st);
            match at(src, st1.ci) {
                Some(e) => {
                    if e == 'n' {
                        string_loop(src, bump(src, st1), text.push('\n'), start)
                    } else if e == 't' {
                        string_loop(src, bump(src, st1), text.push('\t'), start)
                    } else if e == 'u' {
                        let st2 = bump(src, st1);
                        if at(src, st2.ci) == Some('{') {
                            let r = hex_loop(src, bump(src, st2), Seq::empty());
                            if st.ci < r.0.ci <= src.len() {
                                string_loop(src, r.0, push_decoded(text, r.1), start)
                            } else {
                                st
                            }
                        } else {
                            string_loop(src, st2, text, start)
                        }
                    } else {
                        string_loop(src, bump(src, st1), text.push(e), start)
                    }
                },
                None => unterminated(st1, start),
            }
        } else if ch == '\n' {
            unterminated(st, start)
        } else {
            string_loop(src, bump(src, st), text.push(ch), start)
        }
    }
}

pub open spec fn lex_string(src: Seq<char>, st: LexSt) -> LexSt {
    string_loop(src, bump(src, st), Seq::empty(), mark(st))
}

pub open spec fn lex_fixed(src: Seq<char>, st: LexSt, text: Seq<char>, kind: TokenKind) -> LexSt {
    let end = bump_n(src, st, text.len());
    with_token(end, kind, text, span_from(end, mark(st)))
}

pub open spec fn lex_single(src: Seq<char>, st: LexSt, kind: TokenKind) -> LexSt {
    let end = bump(src, st);
    with_token(end, kind, seq![src[st.ci]], span_from(end, mark(st)))
}

pub open spec fn lex_rejected(src: Seq<char>, st: LexSt, code: Seq<char>, message: Seq<char>, expected: Seq<char>, strategy: Seq<char>, patch: Seq<char>) -> LexSt {
    let end = bump(src, st);
    with_diag(
        end,
        err_m(
            code,
            Phase::Lex,
            None,
            span_from(end, mark(st)),
            message,
            Some(expected),
            Some(seq![src[st.ci]]),
            strategy,
            patch,
        ),
    )
}

pub open spec fn lex_newline(src: Seq<char>, st: LexSt) -> LexSt {
    let end = bump(src, st);
    with_token(end, TokenKind::Newline, seq!['\\', 'n'], span_from(end, mark(st)))
}

pub open spec fn is_single_op(c: char) -> bool {
    c == '+' || c == '-' || c == '*' || c == '/' || c == '%' || c == '=' || c == '<' || c == '>'
        || c == '!'
}

/// The two-character operator starting at `i`, if any.
pub open spec fn two_char_op(src: Seq<char>, i: int) -> Option<Seq<char>> {
    let c = src[i];
    let n = at(src, i + 1);
    if c == ':' && n == Some(':') {
        Some("::"@)
    } else if c == '-' && n == Some('>') {
        Some("->"@)
    } else if c == '=' && n == Some('=') {
        Some("=="@)
    } else if c == '!' && n == Some('=') {
        Some("!="@)
    } else if c == '<' && n == Some('=') {
        Some("<="@)
    } else if c == '>' && n == Some('=') {
        Some(">="@)
    } else if c == '&' && n == Some('&') {
        Some("&&"@)
    } else if c == '|' && n == Some('|') {
        Some("||"@)
    } else {
        None
    }
}

/// One step of the lexer, from a state whose position is on a character.
pub open spec fn lex_step(src: Seq<char>, st: LexSt) -> LexSt {
    let ch = src[st.ci];
    if ch == ' ' || ch == '\t' || ch == '\r' {
        bump(src, st)
    } else if ch == '\n' {
        lex_newline(src, st)
    } else if ch == '#' {
        skip_comment(src, st)
    } else if ch == '@' {
        lex_tag(src, st)
    } else if ch == '"' {
        lex_string(src, st)
    } else if ch == '{' || ch == '}' {
        lex_rejected(
            src,
            st,
            "E_LEX003"@,
            "bare braces are reserved; JapalityBean uses named @end closures"@,
            "@end <kind> <name>"@,
            "replace"@,
            "@end func <name>"@,
        )
    } else if ch == '-' && at(src, st.ci + 1) == Some('-') && at(src, st.ci + 2) == Some('-') {
        lex_fixed(src, st, "---"@, TokenKind::Punct)
    } else if is_ident_start(ch) {
        lex_ident(src, st)
    } else if is_digit(ch) || (ch == '-' && (at(src, st.ci + 1) matches Some(n) && is_digit(n))) {
        lex_number(src, st)
    } else if two_char_op(src, st.ci) is Some {
        lex_fixed(src, st, two_char_op(src, st.ci).unwrap(), TokenKind::Operator)
    } else if is_single_op(ch) {
        lex_single(src, st, TokenKind::Operator)
    } else if ch == '(' || ch == ')' || ch == ',' || ch == ':' {
        lex_single(src, st, TokenKind::Punct)
    } else {
        lex_rejected(
            src,
            st,
            "E_LEX001"@,
            "invalid character"@,
            "JapalityBean token"@,
            "delete"@,
            Seq::empty(),
        )
    }
}

/// Runs the lexer steps until the end of the source.
pub open spec fn lex_run(src: Seq<char>, st: LexSt) -> LexSt
    decreases src.len() - st.ci,
{
    if 0 <= st.ci < src.len() {
        let next = lex_step(src, st);
        if st.ci < next.ci <= src.len() {
            lex_run(src, next)
        } else {
            next
        }
    } else {
        st
    }
}

pub open spec fn lex_init() -> LexSt {
    LexSt { ci: 0, pos: 0, line: 1, col: 1, tokens: Seq::empty(), diags: Seq::empty() }
}

/// The tokens and diagnostics of a source text.
pub open spec fn lex_spec(src: Seq<char>) -> (Seq<TokenM>, Seq<DiagM>) {
    let st = lex_run(src, lex_init());
    (with_token(st, TokenKind::Eof, Seq::empty(), span_from(st, mark(st))).tokens, st.diags)
}

// ---------------------------------------------------------------------------
// Every token starts on a character boundary
// ---------------------------------------------------------------------------
/// The position is on a character, its byte offset is that character's, and
/// every token so far starts on a character boundary.
pub open spec fn lex_inv(src: Seq<char>, st: LexSt) -> bool {
    &&& 0 <= st.ci <= src.len()
    &&& st.pos == byte_off(src, st.ci)
    &&& forall|k: int|
        0 <= k < st.tokens.len() ==> is_boundary(src, #[trigger] st.tokens[k].span.start_byte as int)
}

proof fn lemma_bump_inv(src: Seq<char>, st: LexSt)
    requires
        lex_inv(src, st),
    ensures
        lex_inv(src, bump(src, st)),
        bump(src, st).tokens == st.tokens,
        st.ci <= bump(src, st).ci,
{
    if 0 <= st.ci < src.len() {
        lemma_byte_off_step(src, st.ci);
    }
}

proof fn lemma_bump_n_inv(src: Seq<char>, st: LexSt, n: nat)
    requires
        lex_inv(src, st),
    ensures
        lex_inv(src, bump_n(src, st, n)),
        bump_n(src, st, n).tokens == st.tokens,
    decreases n,
{
    if n > 0 {
        lemma_bump_inv(src, st);
        lemma_bump_n_inv(src, bump(src, st), (n - 1) as nat);
    }
}

proof fn lemma_skip_ident_inv(src: Seq<char>, st: LexSt)
    requires
        lex_inv(src, st),
    ensures
        lex_inv(src, skip_ident(src, st)),
        skip_ident(src, st).tokens == st.tokens,
    decreases src.len() - st.ci,
{
    if 0 <= st.ci < src.len() && is_ident_continue(src[st.ci]) {
        lemma_bump_inv(src, st);
        lemma_skip_ident_inv(src, bump(src, st));
    }
}

proof fn lemma_skip_comment_inv(src: Seq<char>, st: LexSt)
    requires
        lex_inv(src, st),
    ensures
        lex_inv(src, skip_comment(src, st)),
        skip_comment(src, st).tokens == st.tokens,
    decreases src.len() - st.ci,
{
    if 0 <= st.ci < src.len() && src[st.ci] != '\n' {
        lemma_bump_inv(src, st);
        lemma_skip_comment_inv(src, bump(src, st));
    }
}

proof fn lemma_number_loop_inv(src: Seq<char>, st: LexSt, text: Seq<char>, has_dot: bool)
    requires
        lex_inv(src, st),
    ensures
        lex_inv(src, number_loop(src, st, text, has_dot).0),
        number_loop(src, st, text, has_dot).0.tokens == st.tokens,
    decreases src.len() - st.ci,
{
    if 0 <= st.ci < src.len() && is_digit(src[st.ci]) {
        lemma_bump_inv(src, st);
        lemma_number_loop_inv(src, bump(src, st), text.push(src[st.ci]), has_dot);
    } else if 0 <= st.ci < src.len() && src[st.ci] == '.' && !has_dot {
        lemma_bump_inv(src, st);
        lemma_number_loop_inv(src, bump(src, st), text.push('.'), true);
    }
}

proof fn lemma_hex_loop_inv(src: Seq<char>, st: LexSt, hex: Seq<char>)
    requires
        lex_inv(src, st),
    ensures
        lex_inv(src, hex_loop(src, st, hex).0),
        hex_loop(src, st, hex).0.tokens == st.tokens,
    decreases src.len() - st.ci,
{
    if 0 <= st.ci < src.len() {
        lemma_bump_inv(src, st);
        if src[st.ci] != '}' {
            lemma_hex_loop_inv(src, bump(src, st), hex.push(src[st.ci]));
        }
    }
}

proof fn lemma_token_inv(src: Seq<char>, end: LexSt, kind: TokenKind, text: Seq<char>, start: (int, int, int))
    requires
        lex_inv(src, end),
        is_boundary(src, start.0),
        0 <= start.0 <= usize::MAX,
    ensures
        lex_inv(src, with_token(end, kind, text, span_from(end, start))),
{
    let r = with_token(end, kind, text, span_from(end, start));
    assert forall|k: int| 0 <= k < r.tokens.len() implies is_boundary(
        src,
        #[trigger] r.tokens[k].span.start_byte as int,
    ) by {
        if k < end.tokens.len() {
            assert(r.tokens[k] == end.tokens[k]);
        }
    }
}

proof fn lemma_string_loop_inv(src: Seq<char>, st: LexSt, text: Seq<char>, start: (int, int, int))
    requires
        lex_inv(src, st),
        is_boundary(src, start.0),
        0 <= start.0 <= usize::MAX,
    ensures
        lex_inv(src, string_loop(src, st, text, start)),
    decreases src.len() - st.ci,
{
    if 0 <= st.ci < src.len() {
        let ch = src[st.ci];
        lemma_bump_inv(src, st);
        let st1 = bump(src, st);
        if ch == '"' {
            lemma_token_inv(src, st1, TokenKind::String, text, start);
        } else if ch == '\\' {
            match at(src, st1.ci) {
                Some(e) => {
                    lemma_bump_inv(src, st1);
                    let st2 = bump(src, st1);
                    if e == 'n' {
                        lemma_string_loop_inv(src, st2, text.push('\n'), start);
                    } else if e == 't' {
                        lemma_string_loop_inv(src, st2, text.push('\t'), start);
                    } else if e == 'u' {
                        if at(src, st2.ci) == Some('{') {
                            lemma_bump_inv(src, st2);
                            let r = hex_loop(src, bump(src, st2), Seq::empty());
                            lemma_hex_loop_inv(src, bump(src, st2), Seq::empty());
                            if st.ci < r.0.ci <= src.len() {
                                lemma_string_loop_inv(src, r.0, push_decoded(text, r.1), start);
                            }
                        } else {
                            lemma_string_loop_inv(src, st2, text, start);
                        }
                    } else {
                        lemma_string_loop_inv(src, st2, text.push(e), start);
                    }
                },
                None => {},
            }
        } else if ch != '\n' {
            lemma_string_loop_inv(src, st1, text.push(ch), start);
        }
    }
}

proof fn lemma_step_inv(src: Seq<char>, st: LexSt)
    requires
        lex_inv(src, st),
        st.ci < src.len(),
        4 * src.len() + 4 < usize::MAX,
    ensures
        lex_inv(src, lex_step(src, st)),
{
    let start = mark(st);
    lemma_byte_off_bound(src, st.ci);
    assert(is_boundary(src, start.0)) by {
        assert(byte_off(src, st.ci) == start.0);
    }
    let ch = src[st.ci];
    lemma_bump_inv(src, st);
    let st1 = bump(src, st);
    if ch == ' ' || ch == '\t' || ch == '\r' {
    } else if ch == '\n' {
        lemma_token_inv(src, st1, TokenKind::Newline, seq!['\\', 'n'], start);
    } else if ch == '#' {
        lemma_skip_comment_inv(src, st);
    } else if ch == '@' {
        lemma_skip_ident_inv(src, st1);
        let end = skip_ident(src, st1);
        lemma_token_inv(src, end, TokenKind::Tag, src.subrange(st.ci, end.ci), start);
    } else if ch == '"' {
        lemma_string_loop_inv(src, st1, Seq::empty(), start);
    } else if ch == '{' || ch == '}' {
    } else if ch == '-' && at(src, st.ci + 1) == Some('-') && at(src, st.ci + 2) == Some('-') {
        reveal_strlit("---");
        lemma_bump_n_inv(src, st, 3);
        lemma_token_inv(src, bump_n(src, st, 3), TokenKind::Punct, "---"@, start);
    } else if is_ident_start(ch) {
        lemma_skip_ident_inv(src, st);
        let end = skip_ident(src, st);
        let text = src.subrange(st.ci, end.ci);
        lemma_token_inv(src, end, TokenKind::Keyword, text, start);
        lemma_token_inv(src, end, TokenKind::Ident, text, start);
    } else if is_digit(ch) || (ch == '-' && (at(src, st.ci + 1) matches Some(n) && is_digit(n))) {
        let neg = at(src, st.ci) == Some('-');
        let s1 = if neg {
            st1
        } else {
            st
        };
        let text0: Seq<char> = if neg {
            seq!['-']
        } else {
            Seq::empty()
        };
        lemma_number_loop_inv(src, s1, text0, false);
        let r = number_loop(src, s1, text0, false);
        lemma_token_inv(src, r.0, TokenKind::Float, r.1, start);
        lemma_token_inv(src, r.0, TokenKind::Int, r.1, start);
    } else if two_char_op(src, st.ci) is Some {
        let t = two_char_op(src, st.ci).unwrap();
        lemma_bump_n_inv(src, st, t.len());
        lemma_token_inv(src, bump_n(src, st, t.len()), TokenKind::Operator, t, start);
    } else if is_single_op(ch) {
        lemma_token_inv(src, st1, TokenKind::Operator, seq![ch], start);
    } else if ch == '(' || ch == ')' || ch == ',' || ch == ':' {
        lemma_token_inv(src, st1, TokenKind::Punct, seq![ch], start);
    }
}

proof fn lemma_run_inv(src: Seq<char>, st: LexSt)
    requires
        lex_inv(src, st),
        4 * src.len() + 4 < usize::MAX,
    ensures
        lex_inv(src, lex_run(src, st)),
    decreases src.len() - st.ci,
{
    if 0 <= st.ci < src.len() {
        lemma_step_inv(src, st);
        let next = lex_step(src, st);
        if st.ci < next.ci <= src.len() {
            lemma_run_inv(src, next);
        }
    }
}

/// Every token the lexer produces, the end-of-file token included, starts on
/// a character boundary of the source.
pub proof fn lemma_lex_tokens_fit(src: Seq<char>)
    requires
        4 * src.len() + 4 < usize::MAX,
    ensures
        tokens_fit(src, lex_spec(src).0),
{
    let st0 = lex_init();
    assert(byte_off(src, 0) == 0) by {
        assert(src.subrange(0, 0) =~= Seq::<char>::empty());
    }
    lemma_run_inv(src, st0);
    let st = lex_run(src, st0);
    lemma_byte_off_bound(src, st.ci);
    assert(is_boundary(src, st.pos)) by {
        assert(byte_off(src, st.ci) == st.pos);
    }
    lemma_token_inv(src, st, TokenKind::Eof, Seq::empty(), mark(st));
}

// ---------------------------------------------------------------------------
// Bare braces and unknown tags are rejected
// ---------------------------------------------------------------------------
/// Some diagnostic in `ds` has the code.
pub open spec fn has_code(ds: Seq<DiagM>, code: Seq<char>) -> bool {
    exists|k: int| 0 <= k < ds.len() && (#[trigger] ds[k]).code == code
}

/// `b` keeps every diagnostic of `a`, in its place.
pub open spec fn diags_grow(a: Seq<DiagM>, b: Seq<DiagM>) -> bool {
    &&& a.len() <= b.len()
    &&& forall|k: int| 0 <= k < a.len() ==> #[trigger] b[k] == a[k]
}

/// The index just past the identifier characters from `i` on.
pub open spec fn ident_end(src: Seq<char>, i: int) -> int
    decreases src.len() - i,
{
    if 0 <= i < src.len() && is_ident_continue(src[i]) {
        ident_end(src, i + 1)
    } else {
        i
    }
}

/// The tag that starts at an `@`: the `@` and the identifier characters
/// after it.
pub open spec fn tag_at(src: Seq<char>, j: int) -> Seq<char> {
    src.subrange(j, ident_end(src, j + 1))
}

pub open spec fn is_brace(c: char) -> bool {
    c == '{' || c == '}'
}

/// A character the lexer rejects where it stands outside string literals
/// and comments: a brace, or the `@` of an unknown tag.
pub open spec fn rejected_at(src: Seq<char>, j: int) -> bool {
    is_brace(src[j]) || (src[j] == '@' && !known_tag(tag_at(src, j)))
}

/// The code of the diagnostic for a rejected character.
pub open spec fn rejection_code(src: Seq<char>, j: int) -> Seq<char> {
    if is_brace(src[j]) {
        "E_LEX003"@
    } else {
        "E_LEX004"@
    }
}

/// The ranges `[start, end)` of the string literals and comments that the
/// lexer reads from the state on: a step that starts at `"` or `#` reads a
/// string literal or a comment.
pub open spec fn literal_spans(src: Seq<char>, st: LexSt) -> Seq<(int, int)>
    decreases src.len() - st.ci,
{
    if 0 <= st.ci < src.len() {
        let next = lex_step(src, st);
        let here: Seq<(int, int)> = if src[st.ci] == '"' || src[st.ci] == '#' {
            seq![(st.ci, next.ci)]
        } else {
            Seq::empty()
        };
        if st.ci < next.ci <= src.len() {
            here + literal_spans(src, next)
        } else {
            here
        }
    } else {
        Seq::empty()
    }
}

/// Position `j` lies in one of the ranges.
pub open spec fn in_literal(spans: Seq<(int, int)>, j: int) -> bool {
    exists|k: int| 0 <= k < spans.len() && (#[trigger] spans[k]).0 <= j < spans[k].1
}

pub proof fn lemma_has_code_grow(a: Seq<DiagM>, b: Seq<DiagM>, code: Seq<char>)
    requires
        has_code(a, code),
        diags_grow(a, b),
    ensures
        has_code(b, code),
{
    let k = choose|k: int| 0 <= k < a.len() && (#[trigger] a[k]).code == code;
    assert(b[k] == a[k]);
}

proof fn lemma_grow_trans(a: Seq<DiagM>, b: Seq<DiagM>, c: Seq<DiagM>)
    requires
        diags_grow(a, b),
        diags_grow(b, c),
    ensures
        diags_grow(a, c),
{
    assert forall|k: int| 0 <= k < a.len() implies #[trigger] c[k] == a[k] by {
        assert(c[k] == b[k]);
    }
}

proof fn lemma_skip_ident_scan(src: Seq<char>, st: LexSt)
    requires
        0 <= st.ci <= src.len(),
    ensures
        skip_ident(src, st).ci == ident_end(src, st.ci),
        st.ci <= skip_ident(src, st).ci <= src.len(),
        skip_ident(src, st).diags == st.diags,
        forall|j: int| st.ci <= j < skip_ident(src, st).ci ==> is_ident_continue(#[trigger] src[j]),
    decreases src.len() - st.ci,
{
    if 0 <= st.ci < src.len() && is_ident_continue(src[st.ci]) {
        lemma_skip_ident_scan(src, bump(src, st));
    }
}

proof fn lemma_skip_comment_scan(src: Seq<char>, st: LexSt)
    requires
        0 <= st.ci <= src.len(),
    ensures
        st.ci <= skip_comment(src, st).ci <= src.len(),
        skip_comment(src, st).diags == st.diags,
    decreases src.len() - st.ci,
{
    if 0 <= st.ci < src.len() && src[st.ci] != '\n' {
        lemma_skip_comment_scan(src, bump(src, st));
    }
}

proof fn lemma_bump_n_scan(src: Seq<char>, st: LexSt, n: nat)
    requires
        0 <= st.ci,
        st.ci + n <= src.len(),
    ensures
        bump_n(src, st, n).ci == st.ci + n,
        bump_n(src, st, n).diags == st.diags,
    decreases n,
{
    if n > 0 {
        lemma_bump_n_scan(src, bump(src, st), (n - 1) as nat);
    }
}

proof fn lemma_number_loop_scan(src: Seq<char>, st: LexSt, text: Seq<char>, has_dot: bool)
    requires
        0 <= st.ci <= src.len(),
    ensures
        st.ci <= number_loop(src, st, text, has_dot).0.ci <= src.len(),
        number_loop(src, st, text, has_dot).0.diags == st.diags,
        forall|j: int|
            st.ci <= j < number_loop(src, st, text, has_dot).0.ci ==> is_digit(#[trigger] src[j]) || src[j]
                == '.',
    decreases src.len() - st.ci,
{
    if 0 <= st.ci < src.len() && is_digit(src[st.ci]) {
        lemma_number_loop_scan(src, bump(src, st), text.push(src[st.ci]), has_dot);
    } else if 0 <= st.ci < src.len() && src[st.ci] == '.' && !has_dot {
        lemma_number_loop_scan(src, bump(src, st), text.push('.'), true);
    }
}

proof fn lemma_hex_loop_scan(src: Seq<char>, st: LexSt, hex: Seq<char>)
    requires
        0 <= st.ci <= src.len(),
    ensures
        st.ci <= hex_loop(src, st, hex).0.ci <= src.len(),
        hex_loop(src, st, hex).0.diags == st.diags,
    decreases src.len() - st.ci,
{
    if 0 <= st.ci < src.len() && src[st.ci] != '}' {
        lemma_hex_loop_scan(src, bump(src, st), hex.push(src[st.ci]));
    }
}

proof fn lemma_string_loop_scan(src: Seq<char>, st: LexSt, text: Seq<char>, start: (int, int, int))
    requires
        0 <= st.ci <= src.len(),
    ensures
        st.ci <= string_loop(src, st, text, start).ci <= src.len(),
        diags_grow(st.diags, string_loop(src, st, text, start).diags),
        errors_added(st.diags, string_loop(src, st, text, start).diags),
    decreases src.len() - st.ci,
{
    if 0 <= st.ci < src.len() {
        let ch = src[st.ci];
        let st1 = bump(src, st);
        if ch == '\\' {
            match at(src, st1.ci) {
                Some(e) => {
                    let st2 = bump(src, st1);
                    if e == 'n' {
                        lemma_string_loop_scan(src, st2, text.push('\n'), start);
                    } else if e == 't' {
                        lemma_string_loop_scan(src, st2, text.push('\t'), start);
                    } else if e == 'u' {
                        if at(src, st2.ci) == Some('{') {
                            let r = hex_loop(src, bump(src, st2), Seq::empty());
                            lemma_hex_loop_scan(src, bump(src, st2), Seq::empty());
                            if st.ci < r.0.ci <= src.len() {
                                lemma_string_loop_scan(src, r.0, push_decoded(text, r.1), start);
                            }
                        } else {
                            lemma_string_loop_scan(src, st2, text, start);
                        }
                    } else {
                        lemma_string_loop_scan(src, st2, text.push(e), start);
                    }
                },
                None => {},
            }
        } else if ch != '"' && ch != '\n' {
            lemma_string_loop_scan(src, st1, text.push(ch), start);
        }
    }
}

/// One step moves forward, keeps the diagnostics it had, reports a brace or
/// an unknown tag where it starts, and, unless it reads a string literal or
/// a comment, moves over no other brace or `@`.
proof fn lemma_step_scan(src: Seq<char>, st: LexSt)
    requires
        0 <= st.ci < src.len(),
    ensures
        st.ci < lex_step(src, st).ci <= src.len(),
        diags_grow(st.diags, lex_step(src, st).diags),
        errors_added(st.diags, lex_step(src, st).diags),
        rejected_at(src, st.ci) ==> has_code(lex_step(src, st).diags, rejection_code(src, st.ci)),
        src[st.ci] != '"' && src[st.ci] != '#' ==> forall|j: int|
            st.ci < j < lex_step(src, st).ci ==> !is_brace(#[trigger] src[j]) && src[j] != '@',
{
    let ch = src[st.ci];
    let next = lex_step(src, st);
    let st1 = bump(src, st);
    if ch == ' ' || ch == '\t' || ch == '\r' || ch == '\n' {
    } else if ch == '#' {
        lemma_skip_comment_scan(src, st1);
        assert(skip_comment(src, st) == skip_comment(src, st1));
    } else if ch == '@' {
        lemma_skip_ident_scan(src, st1);
        let end = skip_ident(src, st1);
        let text = src.subrange(st.ci, end.ci);
        assert(tag_at(src, st.ci) == text);
        if !known_tag(text) {
            reveal_strlit("E_LEX004");
            assert(next.diags == end.diags.push(next.diags.last()));
            assert(next.diags[end.diags.len() as int].code == "E_LEX004"@);
        }
    } else if ch == '"' {
        lemma_string_loop_scan(src, st1, Seq::empty(), mark(st));
    } else if is_brace(ch) {
        reveal_strlit("E_LEX003");
        assert(next.diags == st.diags.push(next.diags.last()));
        assert(next.diags[st.diags.len() as int].code == "E_LEX003"@);
    } else if ch == '-' && at(src, st.ci + 1) == Some('-') && at(src, st.ci + 2) == Some('-') {
        reveal_strlit("---");
        lemma_bump_n_scan(src, st, 3);
    } else if is_ident_start(ch) {
        lemma_skip_ident_scan(src, st);
        lemma_skip_ident_scan(src, st1);
        assert(is_ident_continue(ch));
        assert(skip_ident(src, st) == skip_ident(src, st1));
    } else if is_digit(ch) || (ch == '-' && (at(src, st.ci + 1) matches Some(n) && is_digit(n))) {
        let neg = at(src, st.ci) == Some('-');
        let s1 = if neg {
            st1
        } else {
            st
        };
        let text0: Seq<char> = if neg {
            seq!['-']
        } else {
            Seq::empty()
        };
        lemma_number_loop_scan(src, s1, text0, false);
        if !neg {
            lemma_number_loop_scan(src, st1, text0.push(src[st.ci]), false);
            assert(number_loop(src, s1, text0, false) == number_loop(src, st1, text0.push(src[st.ci]), false));
        }
    } else if two_char_op(src, st.ci) is Some {
        let t = two_char_op(src, st.ci).unwrap();
        reveal_strlit("::");
        reveal_strlit("->");
        reveal_strlit("==");
        reveal_strlit("!=");
        reveal_strlit("<=");
        reveal_strlit(">=");
        reveal_strlit("&&");
        reveal_strlit("||");
        assert(t.len() == 2);
        lemma_bump_n_scan(src, st, t.len());
    } else if is_single_op(ch) || ch == '(' || ch == ')' || ch == ',' || ch == ':' {
    } else {
        assert(next.diags == st.diags.push(next.diags.last()));
    }
}

proof fn lemma_run_grow(src: Seq<char>, st: LexSt)
    ensures
        diags_grow(st.diags, lex_run(src, st).diags),
    decreases src.len() - st.ci,
{
    if 0 <= st.ci < src.len() {
        lemma_step_scan(src, st);
        let next = lex_step(src, st);
        lemma_run_grow(src, next);
        lemma_grow_trans(st.diags, next.diags, lex_run(src, st).diags);
    }
}

proof fn lemma_run_reports(src: Seq<char>, st: LexSt, j: int)
    requires
        0 <= st.ci <= j < src.len(),
        rejected_at(src, j),
        !in_literal(literal_spans(src, st), j),
    ensures
        has_code(lex_run(src, st).diags, rejection_code(src, j)),
    decreases src.len() - st.ci,
{
    lemma_step_scan(src, st);
    let next = lex_step(src, st);
    let here: Seq<(int, int)> = if src[st.ci] == '"' || src[st.ci] == '#' {
        seq![(st.ci, next.ci)]
    } else {
        Seq::empty()
    };
    let spans = literal_spans(src, st);
    assert(spans == here + literal_spans(src, next));
    if j == st.ci {
        lemma_run_grow(src, next);
        lemma_has_code_grow(next.diags, lex_run(src, next).diags, rejection_code(src, j));
    } else if j < next.ci {
        if src[st.ci] == '"' || src[st.ci] == '#' {
            assert(spans[0] == (st.ci, next.ci));
        } else {
            assert(!is_brace(src[j]) && src[j] != '@');
        }
    } else {
        assert forall|k: int| 0 <= k < literal_spans(src, next).len() implies !(#[trigger] literal_spans(
            src,
            next,
        )[k].0 <= j < literal_spans(src, next)[k].1) by {
            assert(spans[here.len() + k] == literal_spans(src, next)[k]);
        }
        lemma_run_reports(src, next, j);
    }
}

proof fn lemma_run_errors(src: Seq<char>, st: LexSt)
    ensures
        errors_added(st.diags, lex_run(src, st).diags),
    decreases src.len() - st.ci,
{
    if 0 <= st.ci < src.len() {
        lemma_step_scan(src, st);
        let next = lex_step(src, st);
        lemma_run_errors(src, next);
        lemma_errors_added_trans(st.diags, next.diags, lex_run(src, st).diags);
    }
}

/// Every diagnostic of the lexer is an error; so a source has a lexical
/// error exactly when it has a lexical diagnostic.
pub proof fn lemma_lex_diags_are_errors(src: Seq<char>)
    ensures
        forall|k: int| 0 <= k < lex_spec(src).1.len() ==> (#[trigger] lex_spec(src).1[k]).severity
            == Severity::Error,
        any_error(lex_spec(src).1) == (lex_spec(src).1.len() > 0),
{
    lemma_run_errors(src, lex_init());
    let d = lex_spec(src).1;
    if d.len() > 0 {
        assert(d[0].severity == Severity::Error);
    }
}

/// Bare braces and unknown tags are rejected when the source is lexed: a
/// `{` or `}` outside the string literals and comments gives an `E_LEX003`
/// diagnostic, and an `@` outside them whose tag is not one of the
/// language's gives an `E_LEX004` diagnostic.
pub proof fn lemma_lex_rejects_braces_and_unknown_tags(src: Seq<char>, j: int)
    requires
        0 <= j < src.len(),
        !in_literal(literal_spans(src, lex_init()), j),
    ensures
        is_brace(src[j]) ==> has_code(lex_spec(src).1, "E_LEX003"@),
        src[j] == '@' && !known_tag(tag_at(src, j)) ==> has_code(lex_spec(src).1, "E_LEX004"@),
{
    if rejected_at(src, j) {
        lemma_run_reports(src, lex_init(), j);
    }
}

// ---------------------------------------------------------------------------
// Token spans are ordered and inside the source
// ---------------------------------------------------------------------------
/// Every token so far ends where or after it starts and no later than the
/// position, and each ends no later than the next one starts.
pub open spec fn spans_ok(st: LexSt) -> bool {
    &&& forall|k: int|
        0 <= k < st.tokens.len() ==> (#[trigger] st.tokens[k]).span.start_byte as int
            <= st.tokens[k].span.end_byte as int <= st.pos
    &&& forall|k1: int, k2: int|
        0 <= k1 < k2 < st.tokens.len() ==> (#[trigger] st.tokens[k1]).span.end_byte as int
            <= (#[trigger] st.tokens[k2]).span.start_byte as int
}

proof fn lemma_spans_keep(a: LexSt, b: LexSt)
    requires
        spans_ok(a),
        b.tokens == a.tokens,
        a.pos <= b.pos,
    ensures
        spans_ok(b),
{
}

proof fn lemma_pos_order(src: Seq<char>, a: LexSt, b: LexSt)
    requires
        lex_inv(src, a),
        lex_inv(src, b),
        a.ci <= b.ci,
    ensures
        a.pos <= b.pos <= 4 * src.len(),
{
    if a.ci < b.ci {
        lemma_byte_off_mono(src, a.ci, b.ci);
    }
    lemma_byte_off_bound(src, b.ci);
}

proof fn lemma_push_span(
    src: Seq<char>,
    end: LexSt,
    kind: TokenKind,
    text: Seq<char>,
    start: (int, int, int),
)
    requires
        spans_ok(end),
        0 <= start.0 <= end.pos <= 4 * src.len(),
        4 * src.len() + 4 < usize::MAX,
        forall|k: int| 0 <= k < end.tokens.len() ==> (#[trigger] end.tokens[k]).span.end_byte as int <= start.0,
    ensures
        spans_ok(with_token(end, kind, text, span_from(end, start))),
{
    let r = with_token(end, kind, text, span_from(end, start));
    let n = end.tokens.len() as int;
    assert(r.tokens[n].span.start_byte as int == start.0);
    assert(r.tokens[n].span.end_byte as int == end.pos);
    assert forall|k: int| 0 <= k < r.tokens.len() implies (#[trigger] r.tokens[k]).span.start_byte as int
        <= r.tokens[k].span.end_byte as int <= r.pos by {
        if k < n {
            assert(r.tokens[k] == end.tokens[k]);
        }
    }
    assert forall|k1: int, k2: int| 0 <= k1 < k2 < r.tokens.len() implies (
    #[trigger] r.tokens[k1]).span.end_byte as int <= (#[trigger] r.tokens[k2]).span.start_byte as int by {
        assert(r.tokens[k1] == end.tokens[k1]);
        if k2 < n {
            assert(r.tokens[k2] == end.tokens[k2]);
        }
    }
}

proof fn lemma_string_loop_spans(src: Seq<char>, st: LexSt, text: Seq<char>, start: (int, int, int))
    requires
        lex_inv(src, st),
        spans_ok(st),
        0 <= start.0 <= st.pos,
        4 * src.len() + 4 < usize::MAX,
        forall|k: int| 0 <= k < st.tokens.len() ==> (#[trigger] st.tokens[k]).span.end_byte as int <= start.0,
    ensures
        spans_ok(string_loop(src, st, text, start)),
    decreases src.len() - st.ci,
{
    if 0 <= st.ci < src.len() {
        let ch = src[st.ci];
        lemma_bump_inv(src, st);
        let st1 = bump(src, st);
        lemma_pos_order(src, st, st1);
        lemma_spans_keep(st, st1);
        if ch == '"' {
            lemma_push_span(src, st1, TokenKind::String, text, start);
        } else if ch == '\\' {
            match at(src, st1.ci) {
                Some(e) => {
                    lemma_bump_inv(src, st1);
                    let st2 = bump(src, st1);
                    lemma_pos_order(src, st1, st2);
                    lemma_spans_keep(st1, st2);
                    if e == 'n' {
                        lemma_string_loop_spans(src, st2, text.push('\n'), start);
                    } else if e == 't' {
                        lemma_string_loop_spans(src, st2, text.push('\t'), start);
                    } else if e == 'u' {
                        if at(src, st2.ci) == Some('{') {
                            lemma_bump_inv(src, st2);
                            let st3 = bump(src, st2);
                            lemma_pos_order(src, st2, st3);
                            lemma_spans_keep(st2, st3);
                            let r = hex_loop(src, st3, Seq::empty());
                            lemma_hex_loop_inv(src, st3, Seq::empty());
                            lemma_hex_loop_scan(src, st3, Seq::empty());
                            lemma_pos_order(src, st3, r.0);
                            lemma_spans_keep(st3, r.0);
                            if st.ci < r.0.ci <= src.len() {
                                lemma_string_loop_spans(src, r.0, push_decoded(text, r.1), start);
                            }
                        } else {
                            lemma_string_loop_spans(src, st2, text, start);
                        }
                    } else {
                        lemma_string_loop_spans(src, st2, text.push(e), start);
                    }
                },
                None => {},
            }
        } else if ch != '\n' {
            lemma_string_loop_spans(src, st1, text.push(ch), start);
        }
    }
}

proof fn lemma_step_spans(src: Seq<char>, st: LexSt)
    requires
        lex_inv(src, st),
        spans_ok(st),
        st.ci < src.len(),
        4 * src.len() + 4 < usize::MAX,
    ensures
        spans_ok(lex_step(src, st)),
{
    let start = mark(st);
    let ch = src[st.ci];
    lemma_bump_inv(src, st);
    let st1 = bump(src, st);
    lemma_pos_order(src, st, st1);
    lemma_spans_keep(st, st1);
    lemma_byte_off_bound(src, st.ci);
    if ch == ' ' || ch == '\t' || ch == '\r' {
    } else if ch == '\n' {
        lemma_push_span(src, st1, TokenKind::Newline, seq!['\\', 'n'], start);
    } else if ch == '#' {
        lemma_skip_comment_inv(src, st);
        lemma_skip_comment_scan(src, st);
        lemma_pos_order(src, st, skip_comment(src, st));
    } else if ch == '@' {
        lemma_skip_ident_inv(src, st1);
        lemma_skip_ident_scan(src, st1);
        let end = skip_ident(src, st1);
        lemma_pos_order(src, st1, end);
        lemma_spans_keep(st1, end);
        lemma_push_span(src, end, TokenKind::Tag, src.subrange(st.ci, end.ci), start);
    } else if ch == '"' {
        lemma_string_loop_spans(src, st1, Seq::empty(), start);
    } else if ch == '{' || ch == '}' {
    } else if ch == '-' && at(src, st.ci + 1) == Some('-') && at(src, st.ci + 2) == Some('-') {
        reveal_strlit("---");
        lemma_bump_n_inv(src, st, 3);
        lemma_bump_n_scan(src, st, 3);
        let end = bump_n(src, st, 3);
        lemma_pos_order(src, st, end);
        lemma_spans_keep(st, end);
        lemma_push_span(src, end, TokenKind::Punct, "---"@, start);
    } else if is_ident_start(ch) {
        lemma_skip_ident_inv(src, st);
        lemma_skip_ident_scan(src, st);
        let end = skip_ident(src, st);
        lemma_pos_order(src, st, end);
        lemma_spans_keep(st, end);
        let text = src.subrange(st.ci, end.ci);
        lemma_push_span(src, end, TokenKind::Keyword, text, start);
        lemma_push_span(src, end, TokenKind::Ident, text, start);
    } else if is_digit(ch) || (ch == '-' && (at(src, st.ci + 1) matches Some(n) && is_digit(n))) {
        let neg = at(src, st.ci) == Some('-');
        let s1 = if neg {
            st1
        } else {
            st
        };
        let text0: Seq<char> = if neg {
            seq!['-']
        } else {
            Seq::empty()
        };
        lemma_number_loop_inv(src, s1, text0, false);
        lemma_number_loop_scan(src, s1, text0, false);
        let r = number_loop(src, s1, text0, false);
        lemma_pos_order(src, st, r.0);
        lemma_spans_keep(st, r.0);
        lemma_push_span(src, r.0, TokenKind::Float, r.1, start);
        lemma_push_span(src, r.0, TokenKind::Int, r.1, start);
    } else if two_char_op(src, st.ci) is Some {
        let t = two_char_op(src, st.ci).unwrap();
        reveal_strlit("::");
        reveal_strlit("->");
        reveal_strlit("==");
        reveal_strlit("!=");
        reveal_strlit("<=");
        reveal_strlit(">=");
        reveal_strlit("&&");
        reveal_strlit("||");
        assert(t.len() == 2);
        lemma_bump_n_inv(src, st, t.len());
        lemma_bump_n_scan(src, st, t.len());
        let end = bump_n(src, st, t.len());
        lemma_pos_order(src, st, end);
        lemma_spans_keep(st, end);
        lemma_push_span(src, end, TokenKind::Operator, t, start);
    } else if is_single_op(ch) {
        lemma_push_span(src, st1, TokenKind::Operator, seq![ch], start);
    } else if ch == '(' || ch == ')' || ch == ',' || ch == ':' {
        lemma_push_span(src, st1, TokenKind::Punct, seq![ch], start);
    }
}

proof fn lemma_run_spans(src: Seq<char>, st: LexSt)
    requires
        lex_inv(src, st),
        spans_ok(st),
        4 * src.len() + 4 < usize::MAX,
    ensures
        spans_ok(lex_run(src, st)),
        lex_inv(src, lex_run(src, st)),
    decreases src.len() - st.ci,
{
    if 0 <= st.ci < src.len() {
        lemma_step_spans(src, st);
        lemma_step_inv(src, st);
        let next = lex_step(src, st);
        lemma_step_scan(src, st);
        lemma_run_spans(src, next);
    }
}

/// The tokens of a source come in order and lie inside it: each starts no
/// later than it ends, ends no later than the next one starts, and ends
/// within the source's UTF-8 bytes.
pub proof fn lemma_lex_spans_ordered(src: Seq<char>)
    requires
        4 * src.len() + 4 < usize::MAX,
    ensures
        forall|k: int|
            0 <= k < lex_spec(src).0.len() ==> (#[trigger] lex_spec(src).0[k]).span.start_byte as int
                <= lex_spec(src).0[k].span.end_byte as int <= byte_off(src, src.len() as int),
        forall|k1: int, k2: int|
            0 <= k1 < k2 < lex_spec(src).0.len() ==> (#[trigger] lex_spec(src).0[k1]).span.end_byte as int
                <= (#[trigger] lex_spec(src).0[k2]).span.start_byte as int,
{
    let st0 = lex_init();
    assert(byte_off(src, 0) == 0) by {
        assert(src.subrange(0, 0) =~= Seq::<char>::empty());
    }
    lemma_run_spans(src, st0);
    let st = lex_run(src, st0);
    lemma_run_seen_end(src, st0);
    lemma_byte_off_bound(src, st.ci);
    lemma_push_span(src, st, TokenKind::Eof, Seq::empty(), mark(st));
}

proof fn lemma_run_seen_end(src: Seq<char>, st: LexSt)
    requires
        0 <= st.ci <= src.len(),
    ensures
        lex_run(src, st).ci == src.len(),
    decreases src.len() - st.ci,
{
    if st.ci < src.len() {
        lemma_step_scan(src, st);
        lemma_run_seen_end(src, lex_step(src, st));
    }
}

// ---------------------------------------------------------------------------
// Implementation
// ---------------------------------------------------------------------------
/// Lexes a source text into tokens (ending with an end-of-file token) and
/// lexical diagnostics.
pub fn lex_source(source: &str) -> (r: (Vec<Token>, Vec<Diagnostic>))
    requires
        4 * source@.len() + 4 < usize::MAX,
    ensures
        (tokens_m(r.0@), diags_m(r.1@)) == lex_spec(source@),
{
    let src = str_chars(source);
    let mut lexer = Lexer::new(src);
    lexer.lex();
    (lexer.tokens, lexer.diags)
}

struct Lexer {
    src: Vec<char>,
    ci: usize,
    pos: usize,
    line: usize,
    col: usize,
    tokens: Vec<Token>,
    diags: Vec<Diagnostic>,
}

impl Lexer {
    spec fn st(&self) -> LexSt {
        LexSt {
            ci: self.ci as int,
            pos: self.pos as int,
            line: self.line as int,
            col: self.col as int,
            tokens: tokens_m(self.tokens@),
            diags: diags_m(self.diags@),
        }
    }

    spec fn wf(&self) -> bool {
        &&& self.ci <= self.src@.len()
        &&& self.pos <= 4 * self.ci
        &&& 1 <= self.line <= self.ci + 1
        &&& 1 <= self.col <= self.ci + 1
        &&& 4 * self.src@.len() + 4 < usize::MAX
    }

    fn new(src: Vec<char>) -> (l: Lexer)
        requires
            4 * src@.len() + 4 < usize::MAX,
        ensures
            l.wf(),
            l.src@ == src@,
            l.st() == lex_init(),
    {
        let l = Lexer { src, ci: 0, pos: 0, line: 1, col: 1, tokens: Vec::new(), diags: Vec::new() };
        assert(tokens_m(l.tokens@) =~= Seq::empty());
        assert(diags_m(l.diags@) =~= Seq::empty());
        l
    }

    fn peek(&self) -> (r: Option<char>)
        requires
            self.wf(),
        ensures
            r == at(self.src@, self.ci as int),
    {
        if self.ci < self.src.len() {
            Some(self.src[self.ci])
        } else {
            None
        }
    }

    fn peek_nth(&self, n: usize) -> (r: Option<char>)
        requires
            self.wf(),
            n <= 2,
        ensures
            r == at(self.src@, self.ci + n),
    {
        if self.ci + n < self.src.len() {
            Some(self.src[self.ci + n])
        } else {
            None
        }
    }

    fn bump(&mut self)
        requires
            old(self).wf(),
        ensures
            final(self).wf(),
            final(self).src@ == old(self).src@,
            final(self).st() == bump(old(self).src@, old(self).st()),
    {
        if self.ci < self.src.len() {
            let ch = self.src[self.ci];
            self.ci = self.ci + 1;
            self.pos = self.pos + utf8_len(ch);
            if ch == '\n' {
                self.line = self.line + 1;
                self.col = 1;
            } else {
                self.col = self.col + 1;
            }
        }
    }

    fn mark(&self) -> (m: (usize, usize, usize))
        ensures
            (m.0 as int, m.1 as int, m.2 as int) == mark(self.st()),
    {
        (self.pos, self.line, self.col)
    }

    fn span_from(&self, start: (usize, usize, usize)) -> (s: Span)
        ensures
            s == span_from(self.st(), (start.0 as int, start.1 as int, start.2 as int)),
    {
        Span {
            start_byte: start.0,
            end_byte: self.pos,
            start_line: start.1,
            start_col: start.2,
            end_line: self.line,
            end_col: self.col,
        }
    }

    fn push_token(&mut self, kind: TokenKind, lexeme: String, span: Span)
        requires
            old(self).wf(),
        ensures
            final(self).wf(),
            final(self).src@ == old(self).src@,
            final(self).st() == with_token(old(self).st(), kind, lexeme@, span),
    {
        let t = Token { kind, lexeme, span };
        proof {
            lemma_tokens_push(self.tokens@, t);
        }
        self.tokens.push(t);
    }

    fn push_diag(&mut self, d: Diagnostic)
        requires
            old(self).wf(),
        ensures
            final(self).wf(),
            final(self).src@ == old(self).src@,
            final(self).st() == with_diag(old(self).st(), diag_m(d)),
    {
        proof {
            lemma_diags_push(self.diags@, d);
        }
        self.diags.push(d);
    }

    fn lex(&mut self)
        requires
            old(self).wf(),
            old(self).st() == lex_init(),
        ensures
            final(self).wf(),
            (final(self).st().tokens, final(self).st().diags) == lex_spec(old(self).src@),
    {
        let ghost src = old(self).src@;
        while self.ci < self.src.len()
            invariant
                self.wf(),
                self.src@ == src,
                lex_run(src, self.st()) == lex_run(src, lex_init()),
            decreases src.len() - self.ci,
        {
            let ghost before = self.st();
            self.step();
            assert(lex_run(src, before) == lex_run(src, self.st()));
        }
        let start = self.mark();
        let span = self.span_from(start);
        self.push_token(TokenKind::Eof, String::new(), span);
    }

    fn step(&mut self)
        requires
            old(self).wf(),
            old(self).ci < old(self).src@.len(),
        ensures
            final(self).wf(),
            final(self).src@ == old(self).src@,
            final(self).ci > old(self).ci,
            final(self).st() == lex_step(old(self).src@, old(self).st()),
    {
        let ch = self.src[self.ci];
        if ch == ' ' || ch == '\t' || ch == '\r' {
            self.bump();
        } else if ch == '\n' {
            self.newline();
        } else if ch == '#' {
            self.comment();
        } else if ch == '@' {
            self.tag();
        } else if ch == '"' {
            self.string();
        } else if ch == '{' || ch == '}' {
            self.rejected(
                "E_LEX003",
                "bare braces are reserved; JapalityBean uses named @end closures",
                "@end <kind> <name>",
                "replace",
                "@end func <name>",
            );
        } else if ch == '-' && is_char(self.peek_nth(1), '-') && is_char(self.peek_nth(2), '-') {
            proof {
                reveal_strlit("---");
            }
            self.fixed("---", TokenKind::Punct);
        } else if ident_start(ch) {
            self.ident_or_keyword();
        } else if digit(ch) || (ch == '-' && match self.peek_nth(1) {
            Some(n) => digit(n),
            None => false,
        }) {
            self.number();
        } else {
            proof {
                reveal_strlit("::");
                reveal_strlit("->");
                reveal_strlit("==");
                reveal_strlit("!=");
                reveal_strlit("<=");
                reveal_strlit(">=");
                reveal_strlit("&&");
                reveal_strlit("||");
            }
            let n = self.peek_nth(1);
            if ch == ':' && is_char(n, ':') {
                self.fixed("::", TokenKind::Operator);
            } else if ch == '-' && is_char(n, '>') {
                self.fixed("->", TokenKind::Operator);
            } else if ch == '=' && is_char(n, '=') {
                self.fixed("==", TokenKind::Operator);
            } else if ch == '!' && is_char(n, '=') {
                self.fixed("!=", TokenKind::Operator);
            } else if ch == '<' && is_char(n, '=') {
                self.fixed("<=", TokenKind::Operator);
            } else if ch == '>' && is_char(n, '=') {
                self.fixed(">=", TokenKind::Operator);
            } else if ch == '&' && is_char(n, '&') {
                self.fixed("&&", TokenKind::Operator);
            } else if ch == '|' && is_char(n, '|') {
                self.fixed("||", TokenKind::Operator);
            } else if ch == '+' || ch == '-' || ch == '*' || ch == '/' || ch == '%' || ch == '='
                || ch == '<' || ch == '>' || ch == '!' {
                self.single(TokenKind::Operator);
            } else if ch == '(' || ch == ')' || ch == ',' || ch == ':' {
                self.single(TokenKind::Punct);
            } else {
                proof {
                    reveal_strlit("");
                    assert(""@ =~= Seq::<char>::empty());
                }
                self.rejected("E_LEX001", "invalid character", "JapalityBean token", "delete", "");
            }
        }
    }

    fn newline(&mut self)
        requires
            old(self).wf(),
            old(self).ci < old(self).src@.len(),
        ensures
            final(self).wf(),
            final(self).src@ == old(self).src@,
            final(self).ci > old(self).ci,
            final(self).st() == lex_newline(old(self).src@, old(self).st()),
    {
        let start = self.mark();
        self.bump();
        let span = self.span_from(start);
        let v: Vec<char> = vec!['\\', 'n'];
        let lexeme = chars_to_string(v.as_slice());
        assert(v@ =~= seq!['\\', 'n']);
        self.push_token(TokenKind::Newline, lexeme, span);
    }

    #[verifier::loop_isolation(false)]
    fn comment(&mut self)
        requires
            old(self).wf(),
            old(self).ci < old(self).src@.len(),
            old(self).src@[old(self).ci as int] == '#',
        ensures
            final(self).wf(),
            final(self).src@ == old(self).src@,
            final(self).ci > old(self).ci,
            final(self).st() == skip_comment(old(self).src@, old(self).st()),
    {
        let ghost src = old(self).src@;
        let ghost target = skip_comment(src, self.st());
        while self.ci < self.src.len() && self.src[self.ci] != '\n'
            invariant
                self.wf(),
                self.src@ == src,
                skip_comment(src, self.st()) == target,
                self.ci >= old(self).ci,
                self.ci == old(self).ci ==> self.src@[self.ci as int] == '#',
            decreases src.len() - self.ci,
        {
            self.bump();
        }
    }

    /// Moves past identifier characters, collecting them.
    #[verifier::loop_isolation(false)]
    fn take_ident(&mut self) -> (text: Vec<char>)
        requires
            old(self).wf(),
        ensures
            final(self).wf(),
            final(self).src@ == old(self).src@,
            final(self).st() == skip_ident(old(self).src@, old(self).st()),
            text@ == old(self).src@.subrange(old(self).ci as int, final(self).ci as int),
            final(self).ci >= old(self).ci,
            (old(self).ci < old(self).src@.len() && is_ident_continue(
                old(self).src@[old(self).ci as int],
            )) ==> final(self).ci > old(self).ci,
    {
        let ghost src = old(self).src@;
        let ghost target = skip_ident(src, self.st());
        let ghost start = self.ci;
        let mut text: Vec<char> = Vec::new();
        while self.ci < self.src.len() && ident_continue(self.src[self.ci])
            invariant
                self.wf(),
                self.src@ == src,
                skip_ident(src, self.st()) == target,
                start <= self.ci,
                text@ == src.subrange(start as int, self.ci as int),
            decreases src.len() - self.ci,
        {
            text.push(self.src[self.ci]);
            self.bump();
            assert(text@ =~= src.subrange(start as int, self.ci as int));
        }
        text
    }

    fn tag(&mut self)
        requires
            old(self).wf(),
            old(self).ci < old(self).src@.len(),
            old(self).src@[old(self).ci as int] == '@',
        ensures
            final(self).wf(),
            final(self).src@ == old(self).src@,
            final(self).ci > old(self).ci,
            final(self).st() == lex_tag(old(self).src@, old(self).st()),
    {
        let ghost src = old(self).src@;
        let start = self.mark();
        self.bump();
        let rest = self.take_ident();
        let mut text: Vec<char> = vec!['@'];
        let mut i: usize = 0;
        while i < rest.len()
            invariant
                i <= rest@.len(),
                text@ == seq!['@'] + rest@.subrange(0, i as int),
            decreases rest@.len() - i,
        {
            text.push(rest[i]);
            i = i + 1;
            assert(text@ =~= seq!['@'] + rest@.subrange(0, i as int));
        }
        assert(rest@.subrange(0, rest@.len() as int) =~= rest@);
        assert(text@ =~= src.subrange(old(self).ci as int, self.ci as int));
        let span = self.span_from(start);
        if is_known_tag(text.as_slice()) {
            let lexeme = chars_to_string(text.as_slice());
            self.push_token(TokenKind::Tag, lexeme, span);
        } else {
            let d = Diagnostic::error(
                "E_LEX004",
                Phase::Lex,
                None,
                span,
                "unknown @ tag",
                Some("@func | @loop | @condition | @intent | @in | @out | @end".to_owned()),
                Some(chars_to_string(text.as_slice())),
                fix("replace", "@condition".to_owned()),
            );
            self.push_diag(d);
        }
    }

    fn ident_or_keyword(&mut self)
        requires
            old(self).wf(),
            old(self).ci < old(self).src@.len(),
            is_ident_start(old(self).src@[old(self).ci as int]),
        ensures
            final(self).wf(),
            final(self).src@ == old(self).src@,
            final(self).ci > old(self).ci,
            final(self).st() == lex_ident(old(self).src@, old(self).st()),
    {
        let ghost src = old(self).src@;
        let start = self.mark();
        let text = self.take_ident();
        assert(text@.len() > 0 && text@[0] == src[old(self).ci as int]);
        let span = self.span_from(start);
        if is_keyword(text.as_slice()) {
            let lexeme = chars_to_string(text.as_slice());
            self.push_token(TokenKind::Keyword, lexeme, span);
        } else if text.len() > 256 {
            let head = sub_chars(text.as_slice(), 0, 256);
            let d = Diagnostic::error(
                "E_LEX005",
                Phase::Lex,
                None,
                span,
                "identifier exceeds 256 bytes",
                Some("identifier length <= 256 bytes".to_owned()),
                Some(usize_to_string(text.len())),
                fix("rename", chars_to_string(head.as_slice())),
            );
            self.push_diag(d);
        } else {
            let lexeme = chars_to_string(text.as_slice());
            self.push_token(TokenKind::Ident, lexeme, span);
        }
    }

    #[verifier::loop_isolation(false)]
    fn number(&mut self)
        requires
            old(self).wf(),
            old(self).ci < old(self).src@.len(),
            is_digit(old(self).src@[old(self).ci as int]) || (old(self).src@[old(self).ci as int]
                == '-' && (at(old(self).src@, old(self).ci + 1) matches Some(n) && is_digit(n))),
        ensures
            final(self).wf(),
            final(self).src@ == old(self).src@,
            final(self).ci > old(self).ci,
            final(self).st() == lex_number(old(self).src@, old(self).st()),
    {
        let ghost src = old(self).src@;
        let start = self.mark();
        let mut text: Vec<char> = Vec::new();
        if is_char(self.peek(), '-') {
            text.push('-');
            self.bump();
        }
        assert(text@ =~= (if at(src, old(self).ci as int) == Some('-') {
            seq!['-']
        } else {
            Seq::<char>::empty()
        }));
        let ghost target = number_loop(src, self.st(), text@, false);
        let mut has_dot = false;
        loop
            invariant
                self.wf(),
                self.src@ == src,
                number_loop(src, self.st(), text@, has_dot) == target,
                self.ci >= old(self).ci,
                self.ci == old(self).ci ==> is_digit(src[self.ci as int]),
                self.ci == old(self).ci + 1 && text@.len() == 1 && text@[0] == '-' ==> is_digit(
                    src[self.ci as int],
                ) && self.ci < src.len(),
                self.ci == old(self).ci + 1 ==> text@.len() == 1,
                self.ci == old(self).ci ==> text@.len() == 0,
            decreases src.len() - self.ci,
        {
            match self.peek() {
                Some(ch) => {
                    if digit(ch) {
                        text.push(ch);
                        self.bump();
                    } else if ch == '.' && !has_dot {
                        has_dot = true;
                        text.push(ch);
                        self.bump();
                    } else {
                        break;
                    }
                },
                None => break,
            }
        }
        let span = self.span_from(start);
        let lexeme = chars_to_string(text.as_slice());
        self.push_token(
            if has_dot {
                TokenKind::Float
            } else {
                TokenKind::Int
            },
            lexeme,
            span,
        );
    }

    #[verifier::loop_isolation(false)]
    fn hex_escape(&mut self) -> (hex: Vec<char>)
        requires
            old(self).wf(),
        ensures
            final(self).wf(),
            final(self).src@ == old(self).src@,
            final(self).ci >= old(self).ci,
            (final(self).st(), hex@) == hex_loop(old(self).src@, old(self).st(), Seq::empty()),
    {
        let ghost src = old(self).src@;
        let ghost target = hex_loop(src, self.st(), Seq::empty());
        let mut hex: Vec<char> = Vec::new();
        loop
            invariant
                self.wf(),
                self.src@ == src,
                self.ci >= old(self).ci,
                hex_loop(src, self.st(), hex@) == target,
            decreases src.len() - self.ci,
        {
            match self.peek() {
                Some(ch) => {
                    if ch == '}' {
                        self.bump();
                        return hex;
                    }
                    hex.push(ch);
                    self.bump();
                },
                None => {
                    return hex;
                },
            }
        }
    }

    fn unterminated(&mut self, start: (usize, usize, usize))
        requires
            old(self).wf(),
        ensures
            final(self).wf(),
            final(self).src@ == old(self).src@,
            final(self).ci == old(self).ci,
            final(self).st() == unterminated(
                old(self).st(),
                (start.0 as int, start.1 as int, start.2 as int),
            ),
    {
        let span = self.span_from(start);
        let d = Diagnostic::error(
            "E_LEX002",
            Phase::Lex,
            None,
            span,
            "unterminated string literal",
            Some("closing quote".to_owned()),
            Some("end of line".to_owned()),
            fix("insert", "\"".to_owned()),
        );
        self.push_diag(d);
    }

    #[verifier::loop_isolation(false)]
    fn string(&mut self)
        requires
            old(self).wf(),
            old(self).ci < old(self).src@.len(),
        ensures
            final(self).wf(),
            final(self).src@ == old(self).src@,
            final(self).ci > old(self).ci,
            final(self).st() == lex_string(old(self).src@, old(self).st()),
    {
        let ghost src = old(self).src@;
        let start = self.mark();
        let ghost gstart = (start.0 as int, start.1 as int, start.2 as int);
        self.bump();
        let ghost target = string_loop(src, self.st(), Seq::empty(), gstart);
        let mut text: Vec<char> = Vec::new();
        loop
            invariant
                self.wf(),
                self.src@ == src,
                string_loop(src, self.st(), text@, gstart) == target,
                self.ci > old(self).ci,
            decreases src.len() - self.ci,
        {
            let ghost here = self.st();
            match self.peek() {
                None => {
                    self.unterminated(start);
                    return;
                },
                Some(ch) => {
                    if ch == '"' {
                        self.bump();
                        let span = self.span_from(start);
                        let lexeme = chars_to_string(text.as_slice());
                        self.push_token(TokenKind::String, lexeme, span);
                        return;
                    } else if ch == '\\' {
                        self.bump();
                        match self.peek() {
                            Some(e) => {
                                if e == 'n' {
                                    text.push('\n');
                                    self.bump();
                                } else if e == 't' {
                                    text.push('\t');
                                    self.bump();
                                } else if e == 'u' {
                                    self.bump();
                                    if is_char(self.peek(), '{') {
                                        self.bump();
                                        let hex = self.hex_escape();
                                        match parse_hex(hex.as_slice()) {
                                            Some(v) => match char_of(v) {
                                                Some(c) => text.push(c),
                                                None => {},
                                            },
                                            None => {},
                                        }
                                    }
                                } else {
                                    text.push(e);
                                    self.bump();
                                }
                            },
                            None => {
                                self.unterminated(start);
                                return;
                            },
                        }
                    } else if ch == '\n' {
                        self.unterminated(start);
                        return;
                    } else {
                        text.push(ch);
                        self.bump();
                    }
                },
            }
        }
    }

    #[verifier::loop_isolation(false)]
    fn fixed(&mut self, text: &str, kind: TokenKind)
        requires
            old(self).wf(),
            old(self).ci < old(self).src@.len(),
            text@.len() >= 1,
        ensures
            final(self).wf(),
            final(self).src@ == old(self).src@,
            final(self).ci > old(self).ci,
            final(self).st() == lex_fixed(old(self).src@, old(self).st(), text@, kind),
    {
        let ghost src = old(self).src@;
        let start = self.mark();
        let n = str_chars(text).len();
        let mut i: usize = 0;
        while i < n
            invariant
                self.wf(),
                self.src@ == src,
                i <= n,
                n == text@.len(),
                bump_n(src, self.st(), (n - i) as nat) == bump_n(
                    src,
                    old(self).st(),
                    text@.len(),
                ),
                i >= 1 ==> self.ci > old(self).ci,
                i == 0 ==> self.ci == old(self).ci,
            decreases n - i,
        {
            self.bump();
            i = i + 1;
        }
        let span = self.span_from(start);
        self.push_token(kind, text.to_owned(), span);
    }

    fn single(&mut self, kind: TokenKind)
        requires
            old(self).wf(),
            old(self).ci < old(self).src@.len(),
        ensures
            final(self).wf(),
            final(self).src@ == old(self).src@,
            final(self).ci > old(self).ci,
            final(self).st() == lex_single(old(self).src@, old(self).st(), kind),
    {
        let start = self.mark();
        let ch = self.src[self.ci];
        self.bump();
        let span = self.span_from(start);
        let v: Vec<char> = vec![ch];
        assert(v@ =~= seq![ch]);
        self.push_token(kind, chars_to_string(v.as_slice()), span);
    }

    fn rejected(&mut self, code: &str, message: &str, expected: &str, strategy: &str, patch: &str)
        requires
            old(self).wf(),
            old(self).ci < old(self).src@.len(),
        ensures
            final(self).wf(),
            final(self).src@ == old(self).src@,
            final(self).ci > old(self).ci,
            final(self).st() == lex_rejected(
                old(self).src@,
                old(self).st(),
                code@,
                message@,
                expected@,
                strategy@,
                patch@,
            ),
    {
        let start = self.mark();
        let ch = self.src[self.ci];
        self.bump();
        let span = self.span_from(start);
        let v: Vec<char> = vec![ch];
        assert(v@ =~= seq![ch]);
        let d = Diagnostic::error(
            code,
            Phase::Lex,
            None,
            span,
            message,
            Some(expected.to_owned()),
            Some(chars_to_string(v.as_slice())),
            fix(strategy, patch.to_owned()),
        );
        self.push_diag(d);
    }
}

fn is_char(o: Option<char>, c: char) -> (r: bool)
    ensures
        r == (o == Some(c)),
{
    match o {
        Some(x) => x == c,
        None => false,
    }
}

fn is_known_tag(t: &[char]) -> (r: bool)
    ensures
        r == known_tag(t@),
{
    chars_eq_str(t, "@func") || chars_eq_str(t, "@loop") || chars_eq_str(t, "@condition")
        || chars_eq_str(t, "@intent") || chars_eq_str(t, "@in") || chars_eq_str(t, "@out")
        || chars_eq_str(t, "@end") || chars_eq_str(t, "@continue") || chars_eq_str(t, "@break")
}

fn is_keyword(t: &[char]) -> (r: bool)
    ensures
        r == keyword(t@),
{
    chars_eq_str(t, "let") || chars_eq_str(t, "set") || chars_eq_str(t, "if") || chars_eq_str(
        t,
        "else",
    ) || chars_eq_str(t, "return") || chars_eq_str(t, "in") || chars_eq_str(t, "true")
        || chars_eq_str(t, "false") || chars_eq_str(t, "as") || chars_eq_str(t, "Some")
        || chars_eq_str(t, "None") || chars_eq_str(t, "Ok") || chars_eq_str(t, "Err")
}

fn hex_digit_value(c: char) -> (r: i32)
    ensures
        r == hex_val(c),
{
    if '0' <= c && c <= '9' {
        (c as u32 - '0' as u32) as i32
    } else if 'a' <= c && c <= 'f' {
        (c as u32 - 'a' as u32 + 10) as i32
    } else if 'A' <= c && c <= 'F' {
        (c as u32 - 'A' as u32 + 10) as i32
    } else {
        -1
    }
}

proof fn lemma_hex_value_grows(s: Seq<char>, k: int)
    requires
        0 <= k <= s.len(),
        all_hex(s),
    ensures
        hex_value(s.subrange(0, k)) <= hex_value(s),
    decreases s.len() - k,
{
    if k < s.len() {
        lemma_hex_value_grows(s, k + 1);
        assert(s.subrange(0, k + 1).drop_last() =~= s.subrange(0, k));
    } else {
        assert(s.subrange(0, k) =~= s);
    }
}

/// `u32::from_str_radix(s, 16)`.
#[verifier::loop_isolation(false)]
fn parse_hex(s: &[char]) -> (r: Option<u32>)
    ensures
        r == parse_hex_u32(s@),
{
    let start: usize = if s.len() > 0 && s[0] == '+' {
        1
    } else {
        0
    };
    let ghost d = if s@.len() > 0 && s@[0] == '+' {
        s@.drop_first()
    } else {
        s@
    };
    assert(d =~= s@.subrange(start as int, s@.len() as int));
    if start == s.len() {
        return None;
    }
    let mut v: u64 = 0;
    let mut i: usize = start;
    while i < s.len()
        invariant
            start <= i <= s@.len(),
            d == s@.subrange(start as int, s@.len() as int),
            all_hex(d.subrange(0, i - start)),
            v == hex_value(d.subrange(0, i - start)),
            v <= 0xffff_ffff,
        decreases s@.len() - i,
    {
        let h = hex_digit_value(s[i]);
        assert(d[i - start] == s@[i as int]);
        if h < 0 {
            assert(!all_hex(d));
            return None;
        }
        assert(d.subrange(0, i + 1 - start).drop_last() =~= d.subrange(0, i - start));
        assert(d.subrange(0, i + 1 - start).last() == s@[i as int]);
        assert(hex_value(d.subrange(0, i + 1 - start)) == v * 16 + h);
        let nv = v * 16 + (h as u64);
        i = i + 1;
        assert(all_hex(d.subrange(0, i - start)));
        if nv > 0xffff_ffff {
            proof {
                if all_hex(d) {
                    lemma_hex_value_grows(d, i - start);
                }
                assert(d.len() > 0);
            }
            return None;
        }
        v = nv;
    }
    assert(d.subrange(0, s@.len() - start) =~= d);
    Some(v as u32)
}

/// `char::from_u32`: the character with this scalar value, if it is one.
#[verifier::external_body]
fn char_of(v: u32) -> (r: Option<char>)
    ensures
        r == char_from_u32(v),
{
    char::from_u32(v)
}

} // verus!
