//! Source lines rebuilt from tokens, and the source hash used in node
//! identifiers.
use crate::ast::Span;
use crate::lexer::{token_m, tokens_m, Token, TokenKind, TokenM};
use crate::text::{
    char_utf8_len, chars_to_string, seq_utf8_len, str_chars, sub_chars, trim, trim_chars, utf8_len,
};
use vstd::prelude::*;
use vstd::utf8::encode_utf8;

verus! {

/// A line of source that holds at least one token.
#[derive(Debug)]
pub struct Line {
    pub number: usize,
    pub start: usize,
    pub end: usize,
    pub text: String,
    pub trimmed: String,
}

pub struct LineM {
    pub number: int,
    pub start: int,
    pub end: int,
    pub text: Seq<char>,
    pub trimmed: Seq<char>,
}

pub open spec fn line_m(l: Line) -> LineM {
    LineM {
        number: l.number as int,
        start: l.start as int,
        end: l.end as int,
        text: l.text@,
        trimmed: l.trimmed@,
    }
}

pub open spec fn lines_m(v: Seq<Line>) -> Seq<LineM> {
    Seq::new(v.len(), |i: int| line_m(v[i]))
}

// ---------------------------------------------------------------------------
// The source hash
// ---------------------------------------------------------------------------
/// One FNV-1a step.
pub open spec fn fnv_step(h: u32, b: u8) -> u32 {
    (((h ^ (b as u32)) as nat * 0x0100_0193nat) % 0x1_0000_0000nat) as u32
}

/// The 32-bit FNV-1a hash of a byte sequence.
pub open spec fn fnv1a(bytes: Seq<u8>) -> u32
    decreases bytes.len(),
{
    if bytes.len() == 0 {
        0x811c_9dc5
    } else {
        fnv_step(fnv1a(bytes.drop_last()), bytes.last())
    }
}

/// The hash of a source text: FNV-1a over its UTF-8 bytes.
pub open spec fn source_hash(src: Seq<char>) -> u32 {
    fnv1a(encode_utf8(src))
}

pub fn stable_hash(src: &str) -> (h: u32)
    ensures
        h == source_hash(src@),
{
    let bytes = src.as_bytes();
    let mut h: u32 = 0x811c_9dc5;
    let mut i: usize = 0;
    while i < bytes.len()
        invariant
            i <= bytes@.len(),
            bytes@ == encode_utf8(src@),
            h == fnv1a(bytes@.subrange(0, i as int)),
        decreases bytes@.len() - i,
    {
        assert(bytes@.subrange(0, i + 1).drop_last() =~= bytes@.subrange(0, i as int));
        h = (h ^ (bytes[i] as u32)).wrapping_mul(0x0100_0193);
        i = i + 1;
    }
    assert(bytes@.subrange(0, bytes@.len() as int) =~= bytes@);
    h
}

// ---------------------------------------------------------------------------
// Byte offsets
// ---------------------------------------------------------------------------
/// The byte offset of the character with index `i`.
pub open spec fn byte_off(src: Seq<char>, i: int) -> int {
    seq_utf8_len(src.subrange(0, i)) as int
}

pub proof fn lemma_byte_off_step(src: Seq<char>, i: int)
    requires
        0 <= i < src.len(),
    ensures
        byte_off(src, i + 1) == byte_off(src, i) + char_utf8_len(src[i]),
{
    assert(src.subrange(0, i + 1).drop_last() =~= src.subrange(0, i));
}

pub proof fn lemma_byte_off_mono(src: Seq<char>, i: int, j: int)
    requires
        0 <= i < j <= src.len(),
    ensures
        byte_off(src, i) < byte_off(src, j),
    decreases j - i,
{
    lemma_byte_off_step(src, j - 1);
    if i < j - 1 {
        lemma_byte_off_mono(src, i, j - 1);
    }
}

pub proof fn lemma_byte_off_bound(src: Seq<char>, i: int)
    requires
        0 <= i <= src.len(),
    ensures
        i <= byte_off(src, i) <= 4 * i,
    decreases i,
{
    if i > 0 {
        lemma_byte_off_step(src, i - 1);
        lemma_byte_off_bound(src, i - 1);
    } else {
        assert(src.subrange(0, 0) =~= Seq::<char>::empty());
    }
}

/// Whether `b` is the byte offset of a character boundary.
pub open spec fn is_boundary(src: Seq<char>, b: int) -> bool {
    exists|i: int| 0 <= i <= src.len() && byte_off(src, i) == b
}

/// The index of the character that starts at byte `b`.
pub open spec fn char_at_byte(src: Seq<char>, b: int) -> int {
    choose|i: int| 0 <= i <= src.len() && byte_off(src, i) == b
}

/// The byte offsets of every character boundary.
fn byte_offsets(src: &[char]) -> (offs: Vec<usize>)
    requires
        4 * src@.len() + 4 < usize::MAX,
    ensures
        offs@.len() == src@.len() + 1,
        forall|i: int| 0 <= i <= src@.len() ==> offs@[i] == byte_off(src@, i),
{
    let mut offs: Vec<usize> = Vec::new();
    let mut b: usize = 0;
    let mut i: usize = 0;
    assert(src@.subrange(0, 0) =~= Seq::<char>::empty());
    while i < src.len()
        invariant
            i <= src@.len(),
            4 * src@.len() + 4 < usize::MAX,
            offs@.len() == i,
            forall|k: int| 0 <= k < i ==> offs@[k] == byte_off(src@, k),
            b == byte_off(src@, i as int),
        decreases src@.len() - i,
    {
        proof {
            lemma_byte_off_step(src@, i as int);
            lemma_byte_off_bound(src@, i as int);
        }
        offs.push(b);
        b = b + utf8_len(src[i]);
        i = i + 1;
    }
    offs.push(b);
    offs
}

/// The character index of byte offset `b`.
fn index_of_byte(offs: &Vec<usize>, srcv: &[char], b: usize) -> (i: usize)
    requires
        srcv@ == srcv@,
        offs@.len() == srcv@.len() + 1,
        forall|k: int| 0 <= k <= srcv@.len() ==> offs@[k] == byte_off(srcv@, k),
        is_boundary(srcv@, b as int),
    ensures
        i == char_at_byte(srcv@, b as int),
        i <= srcv@.len(),
        byte_off(srcv@, i as int) == b,
{
    let ghost w = choose|i: int| 0 <= i <= srcv@.len() && byte_off(srcv@, i) == b;
    let mut i: usize = 0;
    while i < offs.len()
        invariant
            i <= offs@.len(),
            offs@.len() == srcv@.len() + 1,
            forall|k: int| 0 <= k <= srcv@.len() ==> offs@[k] == byte_off(srcv@, k),
            0 <= w <= srcv@.len(),
            byte_off(srcv@, w) == b,
            w == char_at_byte(srcv@, b as int),
            i <= w,
        decreases offs@.len() - i,
    {
        if offs[i] == b {
            proof {
                if (i as int) < w {
                    lemma_byte_off_mono(srcv@, i as int, w);
                }
            }
            return i;
        }
        proof {
            if i as int == w {
            }
        }
        i = i + 1;
    }
    i
}

// ---------------------------------------------------------------------------
// Lines
// ---------------------------------------------------------------------------
/// Index of the last newline before character `i`.
pub open spec fn last_nl_before(src: Seq<char>, i: int) -> Option<int>
    decreases i,
{
    if i <= 0 {
        None
    } else if src[i - 1] == '\n' {
        Some(i - 1)
    } else {
        last_nl_before(src, i - 1)
    }
}

/// Index of the first newline at or after character `i`.
pub open spec fn first_nl_from(src: Seq<char>, i: int) -> Option<int>
    decreases src.len() - i,
{
    if i < 0 || i >= src.len() {
        None
    } else if src[i] == '\n' {
        Some(i)
    } else {
        first_nl_from(src, i + 1)
    }
}

/// Removes every trailing carriage return.
pub open spec fn trim_end_cr(s: Seq<char>) -> Seq<char>
    decreases s.len(),
{
    if s.len() > 0 && s.last() == '\r' {
        trim_end_cr(s.drop_last())
    } else {
        s
    }
}

/// The line that holds the tokens `first ..= last`.
pub open spec fn make_line(src: Seq<char>, first: TokenM, last: TokenM) -> LineM {
    let i = char_at_byte(src, first.span.start_byte as int);
    let ls = match last_nl_before(src, i) {
        Some(j) => j + 1,
        None => 0,
    };
    let le = match first_nl_from(src, i) {
        Some(k) => k,
        None => src.len() as int,
    };
    let text = trim_end_cr(src.subrange(ls, le));
    let start = byte_off(src, ls);
    let other = start + seq_utf8_len(text);
    LineM {
        number: first.span.start_line as int,
        start,
        end: if last.span.end_byte as int >= other {
            last.span.end_byte as int
        } else {
            other
        },
        text,
        trimmed: trim(text),
    }
}

pub open spec fn push_line(src: Seq<char>, cur: Seq<TokenM>, lines: Seq<LineM>) -> Seq<LineM> {
    if cur.len() == 0 {
        lines
    } else {
        lines.push(make_line(src, cur[0], cur.last()))
    }
}

/// Groups the tokens up to the end-of-file token by newline tokens.
pub open spec fn split_lines(src: Seq<char>, toks: Seq<TokenM>, k: int, cur: Seq<TokenM>, lines: Seq<LineM>) -> Seq<LineM>
    decreases toks.len() - k,
{
    if k < 0 || k >= toks.len() || toks[k].kind == TokenKind::Eof {
        push_line(src, cur, lines)
    } else if toks[k].kind == TokenKind::Newline {
        split_lines(src, toks, k + 1, Seq::empty(), push_line(src, cur, lines))
    } else {
        split_lines(src, toks, k + 1, cur.push(toks[k]), lines)
    }
}

/// The lines of a source, one for every run of tokens between newlines.
pub open spec fn lines_spec(src: Seq<char>, toks: Seq<TokenM>) -> Seq<LineM> {
    split_lines(src, toks, 0, Seq::empty(), Seq::empty())
}

/// The tokens before the first end-of-file token start on character
/// boundaries of the source.
pub open spec fn tokens_fit(src: Seq<char>, toks: Seq<TokenM>) -> bool {
    forall|k: int|
        0 <= k < toks.len() && (forall|j: int| 0 <= j <= k ==> toks[j].kind != TokenKind::Eof)
            ==> is_boundary(src, #[trigger] toks[k].span.start_byte as int)
}

fn last_nl_exec(src: &[char], i: usize) -> (r: Option<usize>)
    requires
        i <= src@.len(),
    ensures
        match r {
            Some(j) => last_nl_before(src@, i as int) == Some(j as int),
            None => last_nl_before(src@, i as int) is None,
        },
{
    let mut k = i;
    while k > 0
        invariant
            k <= i,
            i <= src@.len(),
            last_nl_before(src@, k as int) == last_nl_before(src@, i as int),
        decreases k,
    {
        if src[k - 1] == '\n' {
            return Some(k - 1);
        }
        k = k - 1;
    }
    None
}

fn first_nl_exec(src: &[char], i: usize) -> (r: Option<usize>)
    requires
        i <= src@.len(),
    ensures
        match r {
            Some(k) => first_nl_from(src@, i as int) == Some(k as int) && i <= k < src@.len(),
            None => first_nl_from(src@, i as int) is None,
        },
{
    let mut k = i;
    while k < src.len()
        invariant
            i <= k <= src@.len(),
            first_nl_from(src@, k as int) == first_nl_from(src@, i as int),
        decreases src@.len() - k,
    {
        if src[k] == '\n' {
            return Some(k);
        }
        k = k + 1;
    }
    None
}

fn trim_end_cr_exec(s: &[char]) -> (r: Vec<char>)
    ensures
        r@ == trim_end_cr(s@),
{
    let mut n = s.len();
    assert(s@.subrange(0, s@.len() as int) =~= s@);
    while n > 0 && s[n - 1] == '\r'
        invariant
            n <= s@.len(),
            trim_end_cr(s@.subrange(0, n as int)) == trim_end_cr(s@),
        decreases n,
    {
        assert(s@.subrange(0, n as int).drop_last() =~= s@.subrange(0, n - 1));
        n = n - 1;
    }
    assert(s@.subrange(0, s@.len() as int) =~= s@);
    sub_chars(s, 0, n)
}

fn seq_utf8_len_exec(s: &[char]) -> (n: usize)
    requires
        4 * s@.len() + 4 < usize::MAX,
    ensures
        n == seq_utf8_len(s@),
{
    let mut n: usize = 0;
    let mut i: usize = 0;
    while i < s.len()
        invariant
            i <= s@.len(),
            4 * s@.len() + 4 < usize::MAX,
            n == seq_utf8_len(s@.subrange(0, i as int)),
        decreases s@.len() - i,
    {
        proof {
            lemma_byte_off_step(s@, i as int);
            lemma_byte_off_bound(s@, i as int);
        }
        n = n + utf8_len(s[i]);
        i = i + 1;
    }
    assert(s@.subrange(0, s@.len() as int) =~= s@);
    n
}

fn make_line_exec(src: &[char], offs: &Vec<usize>, first: &Token, last: &Token) -> (l: Line)
    requires
        4 * src@.len() + 4 < usize::MAX,
        offs@.len() == src@.len() + 1,
        forall|k: int| 0 <= k <= src@.len() ==> offs@[k] == byte_off(src@, k),
        is_boundary(src@, first.span.start_byte as int),
    ensures
        line_m(l) == make_line(src@, token_m(*first), token_m(*last)),
{
    let i = index_of_byte(offs, src, first.span.start_byte);
    proof {
        lemma_last_nl_range(src@, i as int);
    }
    let ls: usize = match last_nl_exec(src, i) {
        Some(j) => j + 1,
        None => 0,
    };
    let le: usize = match first_nl_exec(src, i) {
        Some(k) => k,
        None => src.len(),
    };
    proof {
        match last_nl_before(src@, i as int) {
            Some(j) => {
                lemma_last_nl_range(src@, i as int);
            },
            None => {},
        }
    }
    let raw = sub_chars(src, ls, le);
    let text = trim_end_cr_exec(raw.as_slice());
    proof {
        lemma_trim_end_cr_len(raw@);
        lemma_byte_off_bound(src@, ls as int);
    }
    let start = offs[ls];
    let tl = seq_utf8_len_exec(text.as_slice());
    proof {
        lemma_utf8_le(text@);
    }
    let other = start + tl;
    let end = if last.span.end_byte >= other {
        last.span.end_byte
    } else {
        other
    };
    let trimmed = trim_chars(text.as_slice());
    Line {
        number: first.span.start_line,
        start,
        end,
        text: chars_to_string(text.as_slice()),
        trimmed: chars_to_string(trimmed.as_slice()),
    }
}

proof fn lemma_last_nl_range(src: Seq<char>, i: int)
    requires
        0 <= i <= src.len(),
    ensures
        last_nl_before(src, i) matches Some(j) ==> 0 <= j < i,
    decreases i,
{
    if i > 0 && src[i - 1] != '\n' {
        lemma_last_nl_range(src, i - 1);
    }
}

proof fn lemma_first_nl_range(src: Seq<char>, i: int)
    requires
        0 <= i,
    ensures
        first_nl_from(src, i) matches Some(k) ==> i <= k < src.len(),
    decreases src.len() - i,
{
    if i < src.len() && src[i] != '\n' {
        lemma_first_nl_range(src, i + 1);
    }
}

proof fn lemma_make_line_short(src: Seq<char>, first: TokenM, last: TokenM)
    requires
        is_boundary(src, first.span.start_byte as int),
    ensures
        make_line(src, first, last).text.len() <= src.len(),
{
    let i = char_at_byte(src, first.span.start_byte as int);
    assert(0 <= i <= src.len());
    lemma_last_nl_range(src, i);
    lemma_first_nl_range(src, i);
    let ls = match last_nl_before(src, i) {
        Some(j) => j + 1,
        None => 0,
    };
    let le = match first_nl_from(src, i) {
        Some(k) => k,
        None => src.len() as int,
    };
    lemma_trim_end_cr_len(src.subrange(ls, le));
}

proof fn lemma_split_short(
    src: Seq<char>,
    toks: Seq<TokenM>,
    k: int,
    cur: Seq<TokenM>,
    lines: Seq<LineM>,
)
    requires
        tokens_fit(src, toks),
        0 <= k <= toks.len(),
        forall|j: int| 0 <= j < k ==> toks[j].kind != TokenKind::Eof,
        forall|m: int| 0 <= m < lines.len() ==> #[trigger] lines[m].text.len() <= src.len(),
        cur.len() > 0 ==> is_boundary(src, cur[0].span.start_byte as int),
    ensures
        forall|m: int|
            0 <= m < split_lines(src, toks, k, cur, lines).len() ==> #[trigger] split_lines(
                src,
                toks,
                k,
                cur,
                lines,
            )[m].text.len() <= src.len(),
    decreases toks.len() - k,
{
    if cur.len() > 0 {
        lemma_make_line_short(src, cur[0], cur.last());
    }
    let pl = push_line(src, cur, lines);
    assert forall|m: int| 0 <= m < pl.len() implies #[trigger] pl[m].text.len() <= src.len() by {
        if m < lines.len() {
            assert(pl[m] == lines[m]);
        }
    }
    if k >= toks.len() || toks[k].kind == TokenKind::Eof {
        assert(split_lines(src, toks, k, cur, lines) == pl);
    } else if toks[k].kind == TokenKind::Newline {
        assert(split_lines(src, toks, k, cur, lines) == split_lines(src, toks, k + 1, Seq::empty(), pl));
        lemma_split_short(src, toks, k + 1, Seq::empty(), pl);
    } else {
        assert(split_lines(src, toks, k, cur, lines) == split_lines(src, toks, k + 1, cur.push(toks[k]), lines));
        if cur.len() == 0 {
            assert(forall|j: int| 0 <= j <= k ==> toks[j].kind != TokenKind::Eof);
            assert(is_boundary(src, toks[k].span.start_byte as int));
        }
        assert(cur.push(toks[k])[0] == if cur.len() == 0 { toks[k] } else { cur[0] });
        lemma_split_short(src, toks, k + 1, cur.push(toks[k]), lines);
    }
}

/// No line is longer than the source it was cut from.
pub proof fn lemma_lines_short(src: Seq<char>, toks: Seq<TokenM>)
    requires
        tokens_fit(src, toks),
    ensures
        forall|m: int|
            0 <= m < lines_spec(src, toks).len() ==> #[trigger] lines_spec(src, toks)[m].text.len()
                <= src.len(),
{
    lemma_split_short(src, toks, 0, Seq::empty(), Seq::empty());
}

proof fn lemma_trim_end_cr_len(s: Seq<char>)
    ensures
        trim_end_cr(s).len() <= s.len(),
    decreases s.len(),
{
    if s.len() > 0 && s.last() == '\r' {
        lemma_trim_end_cr_len(s.drop_last());
    }
}

proof fn lemma_utf8_le(s: Seq<char>)
    ensures
        seq_utf8_len(s) <= 4 * s.len(),
{
    lemma_byte_off_bound(s, s.len() as int);
    assert(s.subrange(0, s.len() as int) =~= s);
}

/// Rebuilds the lines of a source from its tokens.
#[verifier::loop_isolation(false)]
pub fn split_token_lines(src: &[char], tokens: &[Token]) -> (lines: Vec<Line>)
    requires
        4 * src@.len() + 4 < usize::MAX,
        tokens_fit(src@, tokens_m(tokens@)),
    ensures
        lines_m(lines@) == lines_spec(src@, tokens_m(tokens@)),
{
    let ghost toks = tokens_m(tokens@);
    let offs = byte_offsets(src);
    let mut lines: Vec<Line> = Vec::new();
    let mut first: usize = 0;
    let mut count: usize = 0;
    let mut k: usize = 0;
    assert(lines_m(lines@) =~= Seq::empty());
    assert(toks.subrange(0, 0) =~= Seq::<TokenM>::empty());
    // `first .. first + count` are the tokens of the current line
    while k < tokens.len() && tokens[k].kind != TokenKind::Eof
        invariant
            k <= tokens@.len(),
            first + count == k,
            forall|j: int| 0 <= j < k ==> tokens@[j].kind != TokenKind::Eof,
            forall|j: int| first <= j < k ==> tokens@[j].kind != TokenKind::Newline,
            split_lines(src@, toks, k as int, toks.subrange(first as int, k as int), lines_m(lines@))
                == lines_spec(src@, toks),
        decreases tokens@.len() - k,
    {
        if tokens[k].kind == TokenKind::Newline {
            if count > 0 {
                assert(toks[first as int] == token_m(tokens@[first as int]));
                assert(forall|j: int| 0 <= j <= first ==> tokens@[j].kind != TokenKind::Eof);
                assert(tokens_fit(src@, toks));
                assert(is_boundary(src@, toks[first as int].span.start_byte as int));
                let l = make_line_exec(src, &offs, &tokens[first], &tokens[k - 1]);
                assert(toks.subrange(first as int, k as int)[0] == toks[first as int]);
                assert(toks.subrange(first as int, k as int).last() == toks[k - 1]);
                let ghost before = lines@;
                lines.push(l);
                assert(lines_m(lines@) =~= lines_m(before).push(line_m(l)));
            }
            k = k + 1;
            first = k;
            count = 0;
            assert(toks.subrange(first as int, k as int) =~= Seq::<TokenM>::empty());
        } else {
            assert(toks.subrange(first as int, k + 1) =~= toks.subrange(first as int, k as int).push(
                toks[k as int],
            ));
            k = k + 1;
            count = count + 1;
        }
    }
    if count > 0 {
        assert(forall|j: int| 0 <= j <= first ==> tokens@[j].kind != TokenKind::Eof);
        assert(is_boundary(src@, toks[first as int].span.start_byte as int));
        let l = make_line_exec(src, &offs, &tokens[first], &tokens[k - 1]);
        assert(toks.subrange(first as int, k as int)[0] == toks[first as int]);
        assert(toks.subrange(first as int, k as int).last() == toks[k - 1]);
        let ghost before = lines@;
        lines.push(l);
        assert(lines_m(lines@) =~= lines_m(before).push(line_m(l)));
    }
    lines
}

} // verus!
