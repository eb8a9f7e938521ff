//! Parsing of type names and sticky bindings (`name::Type`).
use crate::ast::{type_text, StickyBinding, Type};
use crate::text::{
    chars_eq_str, chars_starts_with, chars_to_string, count_lead_ws, ends_with_char, is_ident,
    is_ident_text, is_ws, lead_ws, lemma_trim_len, trail_ws, trim_end, trim_start, split_once_pat, split_once_pat_exec, starts_with,
    str_chars, sub_chars, trim, trim_chars, whitespace, find_pat, lemma_find_pat, lemma_find_pat_first,
    matches_at_spec, is_ident_start, is_ident_continue,
};
use vstd::prelude::*;

verus! {

/// Index of the first comma outside angle brackets, scanning from `i` at
/// bracket depth `depth` (a closing bracket never takes the depth below 0).
pub open spec fn comma_from(s: Seq<char>, i: int, depth: nat) -> Option<int>
    decreases s.len() - i,
{
    if i < 0 || i >= s.len() {
        None
    } else if s[i] == '<' {
        comma_from(s, i + 1, depth + 1)
    } else if s[i] == '>' {
        comma_from(s, i + 1, if depth == 0 { 0 } else { (depth - 1) as nat })
    } else if s[i] == ',' && depth == 0 {
        Some(i)
    } else {
        comma_from(s, i + 1, depth)
    }
}

/// Splits at the first comma outside angle brackets.
pub open spec fn split_top_comma(s: Seq<char>) -> Option<(Seq<char>, Seq<char>)> {
    match comma_from(s, 0, 0) {
        Some(i) => Some((s.subrange(0, i), s.subrange(i + 1, s.len() as int))),
        None => None,
    }
}

pub proof fn lemma_comma_from_range(s: Seq<char>, i: int, depth: nat)
    ensures
        comma_from(s, i, depth) matches Some(j) ==> i <= j < s.len() && s[j] == ',',
    decreases s.len() - i,
{
    if 0 <= i < s.len() {
        if s[i] == '<' {
            lemma_comma_from_range(s, i + 1, depth + 1);
        } else if s[i] == '>' {
            lemma_comma_from_range(s, i + 1, if depth == 0 { 0 } else { (depth - 1) as nat });
        } else if !(s[i] == ',' && depth == 0) {
            lemma_comma_from_range(s, i + 1, depth);
        }
    }
}

pub fn split_top_level_comma(s: &[char]) -> (r: Option<(Vec<char>, Vec<char>)>)
    ensures
        match r {
            Some((a, b)) => split_top_comma(s@) == Some((a@, b@)),
            None => split_top_comma(s@) is None,
        },
{
    let mut depth: usize = 0;
    let mut i: usize = 0;
    while i < s.len()
        invariant
            i <= s@.len(),
            depth <= i,
            comma_from(s@, i as int, depth as nat) == comma_from(s@, 0, 0),
        decreases s@.len() - i,
    {
        let c = s[i];
        if c == '<' {
            depth = depth + 1;
        } else if c == '>' {
            if depth > 0 {
                depth = depth - 1;
            }
        } else if c == ',' && depth == 0 {
            let n = s.len();
            return Some((sub_chars(s, 0, i), sub_chars(s, i + 1, n)));
        }
        i = i + 1;
    }
    None
}

/// `parse_type`: the type named by the trimmed text, or the trimmed text of the
/// first part that names no type.
pub open spec fn parse_type_spec(src: Seq<char>) -> Result<Type, Seq<char>>
    decreases src.len(),
{
    let s = trim(src);
    proof {
        lemma_trim_len(src);
    }
    if s == "i8"@ {
        Ok(Type::I8)
    } else if s == "i16"@ {
        Ok(Type::I16)
    } else if s == "i32"@ {
        Ok(Type::I32)
    } else if s == "i64"@ {
        Ok(Type::I64)
    } else if s == "u8"@ {
        Ok(Type::U8)
    } else if s == "u16"@ {
        Ok(Type::U16)
    } else if s == "u32"@ {
        Ok(Type::U32)
    } else if s == "u64"@ {
        Ok(Type::U64)
    } else if s == "f32"@ {
        Ok(Type::F32)
    } else if s == "f64"@ {
        Ok(Type::F64)
    } else if s == "bool"@ {
        Ok(Type::Bool)
    } else if s == "string"@ {
        Ok(Type::String)
    } else if s == "unit"@ {
        Ok(Type::Unit)
    } else if starts_with(s, "Vector<"@) && ends_with_char(s, '>') && s.len() >= 8 {
        match parse_type_spec(s.subrange(7, s.len() - 1)) {
            Ok(t) => Ok(Type::Vector(Box::new(t))),
            Err(e) => Err(e),
        }
    } else if starts_with(s, "Option<"@) && ends_with_char(s, '>') && s.len() >= 8 {
        match parse_type_spec(s.subrange(7, s.len() - 1)) {
            Ok(t) => Ok(Type::Option(Box::new(t))),
            Err(e) => Err(e),
        }
    } else if starts_with(s, "Box<"@) && ends_with_char(s, '>') && s.len() >= 5 {
        match parse_type_spec(s.subrange(4, s.len() - 1)) {
            Ok(t) => Ok(Type::Boxed(Box::new(t))),
            Err(e) => Err(e),
        }
    } else if starts_with(s, "Result<"@) && ends_with_char(s, '>') && s.len() >= 8 {
        let inner = s.subrange(7, s.len() - 1);
        proof {
            lemma_comma_from_range(inner, 0, 0);
        }
        match split_top_comma(inner) {
            Some((a, b)) => match parse_type_spec(a) {
                Ok(ta) => match parse_type_spec(b) {
                    Ok(tb) => Ok(Type::Result(Box::new(ta), Box::new(tb))),
                    Err(e) => Err(e),
                },
                Err(e) => Err(e),
            },
            None => Err(s),
        }
    } else {
        Err(s)
    }
}

pub open spec fn type_result_m(r: Result<Type, String>) -> Result<Type, Seq<char>> {
    match r {
        Ok(t) => Ok(t),
        Err(e) => Err(e@),
    }
}

/// Parses a type name: the primitive names, `Vector<T>`, `Option<T>`,
/// `Box<T>` and `Result<T,E>`; an error carries the text that names no type.
pub fn parse_type(src: &str) -> (r: Result<Type, String>)
    ensures
        type_result_m(r) == parse_type_spec(src@),
{
    let v = str_chars(src);
    parse_type_chars(v.as_slice())
}

pub fn parse_type_chars(src: &[char]) -> (r: Result<Type, String>)
    ensures
        type_result_m(r) == parse_type_spec(src@),
    decreases src@.len(),
{
    proof {
        lemma_trim_len(src@);
    }
    let s = trim_chars(src);
    let ss = s.as_slice();
    if chars_eq_str(ss, "i8") {
        Ok(Type::I8)
    } else if chars_eq_str(ss, "i16") {
        Ok(Type::I16)
    } else if chars_eq_str(ss, "i32") {
        Ok(Type::I32)
    } else if chars_eq_str(ss, "i64") {
        Ok(Type::I64)
    } else if chars_eq_str(ss, "u8") {
        Ok(Type::U8)
    } else if chars_eq_str(ss, "u16") {
        Ok(Type::U16)
    } else if chars_eq_str(ss, "u32") {
        Ok(Type::U32)
    } else if chars_eq_str(ss, "u64") {
        Ok(Type::U64)
    } else if chars_eq_str(ss, "f32") {
        Ok(Type::F32)
    } else if chars_eq_str(ss, "f64") {
        Ok(Type::F64)
    } else if chars_eq_str(ss, "bool") {
        Ok(Type::Bool)
    } else if chars_eq_str(ss, "string") {
        Ok(Type::String)
    } else if chars_eq_str(ss, "unit") {
        Ok(Type::Unit)
    } else if chars_starts_with(ss, "Vector<") && ss.len() >= 8 && ss[ss.len() - 1] == '>' {
        let inner = sub_chars(ss, 7, ss.len() - 1);
        match parse_type_chars(inner.as_slice()) {
            Ok(t) => Ok(Type::Vector(Box::new(t))),
            Err(e) => Err(e),
        }
    } else if chars_starts_with(ss, "Option<") && ss.len() >= 8 && ss[ss.len() - 1] == '>' {
        let inner = sub_chars(ss, 7, ss.len() - 1);
        match parse_type_chars(inner.as_slice()) {
            Ok(t) => Ok(Type::Option(Box::new(t))),
            Err(e) => Err(e),
        }
    } else if chars_starts_with(ss, "Box<") && ss.len() >= 5 && ss[ss.len() - 1] == '>' {
        let inner = sub_chars(ss, 4, ss.len() - 1);
        match parse_type_chars(inner.as_slice()) {
            Ok(t) => Ok(Type::Boxed(Box::new(t))),
            Err(e) => Err(e),
        }
    } else if chars_starts_with(ss, "Result<") && ss.len() >= 8 && ss[ss.len() - 1] == '>' {
        let inner = sub_chars(ss, 7, ss.len() - 1);
        proof {
            lemma_comma_from_range(inner@, 0, 0);
        }
        match split_top_level_comma(inner.as_slice()) {
            Some((a, b)) => match parse_type_chars(a.as_slice()) {
                Ok(ta) => match parse_type_chars(b.as_slice()) {
                    Ok(tb) => Ok(Type::Result(Box::new(ta), Box::new(tb))),
                    Err(e) => Err(e),
                },
                Err(e) => Err(e),
            },
            None => Err(chars_to_string(ss)),
        }
    } else {
        Err(chars_to_string(ss))
    }
}

/// `parse_sticky_binding`: `name::Type` without whitespace, where `name` is
/// an identifier; an error carries the offending text.
pub open spec fn sticky_spec(src: Seq<char>) -> Result<(Seq<char>, Type), Seq<char>> {
    match split_once_pat(src, "::"@) {
        None => Err(src),
        Some((name, ty_src)) => if (exists|i: int| 0 <= i < name.len() && is_ws(name[i])) || (
        exists|i: int| 0 <= i < ty_src.len() && is_ws(ty_src[i])) {
            Err(src)
        } else if !is_ident_text(name) {
            Err(name)
        } else {
            match parse_type_spec(ty_src) {
                Ok(t) => Ok((name, t)),
                Err(e) => Err(e),
            }
        },
    }
}

pub open spec fn binding_result_m(r: Result<StickyBinding, String>) -> Result<
    (Seq<char>, Type),
    Seq<char>,
> {
    match r {
        Ok(b) => Ok((b.name@, b.ty)),
        Err(e) => Err(e@),
    }
}

fn has_ws(s: &[char]) -> (r: bool)
    ensures
        r == exists|i: int| 0 <= i < s@.len() && is_ws(s@[i]),
{
    let mut i: usize = 0;
    while i < s.len()
        invariant
            i <= s@.len(),
            forall|k: int| 0 <= k < i ==> !is_ws(s@[k]),
        decreases s@.len() - i,
    {
        if whitespace(s[i]) {
            return true;
        }
        i = i + 1;
    }
    false
}

/// Parses `name::Type`.
pub fn parse_sticky_binding(src: &str) -> (r: Result<StickyBinding, String>)
    ensures
        binding_result_m(r) == sticky_spec(src@),
{
    let v = str_chars(src);
    sticky_chars(v.as_slice())
}

pub fn sticky_chars(src: &[char]) -> (r: Result<StickyBinding, String>)
    ensures
        binding_result_m(r) == sticky_spec(src@),
{
    match split_once_pat_exec(src, "::") {
        None => Err(chars_to_string(src)),
        Some((name, ty_src)) => {
            if has_ws(name.as_slice()) || has_ws(ty_src.as_slice()) {
                return Err(chars_to_string(src));
            }
            if !is_ident(name.as_slice()) {
                return Err(chars_to_string(name.as_slice()));
            }
            match parse_type_chars(ty_src.as_slice()) {
                Ok(ty) => Ok(StickyBinding { name: chars_to_string(name.as_slice()), ty }),
                Err(e) => Err(e),
            }
        },
    }
}

// ---------------------------------------------------------------------------
// Printing a type and parsing it back
// ---------------------------------------------------------------------------
/// A type with no unknown part, at any depth: the types that have a name.
pub open spec fn type_known(t: Type) -> bool
    decreases t,
{
    match t {
        Type::Unknown => false,
        Type::Vector(inner) => type_known(*inner),
        Type::Option(inner) => type_known(*inner),
        Type::Boxed(inner) => type_known(*inner),
        Type::Result(ok, err) => type_known(*ok) && type_known(*err),
        _ => true,
    }
}

pub open spec fn no_ws(s: Seq<char>) -> bool {
    forall|i: int| 0 <= i < s.len() ==> !is_ws(#[trigger] s[i])
}

/// Neither an angle bracket nor a comma.
pub open spec fn plain_char(c: char) -> bool {
    c != '<' && c != '>' && c != ','
}

proof fn lemma_no_ws_add(a: Seq<char>, b: Seq<char>)
    requires
        no_ws(a),
        no_ws(b),
    ensures
        no_ws(a + b),
{
    assert forall|i: int| 0 <= i < (a + b).len() implies !is_ws(#[trigger] (a + b)[i]) by {
        if i < a.len() {
            assert((a + b)[i] == a[i]);
        } else {
            assert((a + b)[i] == b[i - a.len()]);
        }
    }
}

proof fn lemma_type_text_no_ws(t: Type)
    ensures
        no_ws(type_text(t)),
        type_text(t).len() > 0,
    decreases t,
{
    reveal_strlit("i8");
    reveal_strlit("i16");
    reveal_strlit("i32");
    reveal_strlit("i64");
    reveal_strlit("u8");
    reveal_strlit("u16");
    reveal_strlit("u32");
    reveal_strlit("u64");
    reveal_strlit("f32");
    reveal_strlit("f64");
    reveal_strlit("bool");
    reveal_strlit("string");
    reveal_strlit("unit");
    reveal_strlit("unknown");
    reveal_strlit("Vector<");
    reveal_strlit("Option<");
    reveal_strlit("Result<");
    reveal_strlit("Box<");
    reveal_strlit(">");
    reveal_strlit(",");
    match t {
        Type::Vector(inner) => {
            lemma_type_text_no_ws(*inner);
            lemma_no_ws_add("Vector<"@, type_text(*inner));
            lemma_no_ws_add("Vector<"@ + type_text(*inner), ">"@);
        },
        Type::Option(inner) => {
            lemma_type_text_no_ws(*inner);
            lemma_no_ws_add("Option<"@, type_text(*inner));
            lemma_no_ws_add("Option<"@ + type_text(*inner), ">"@);
        },
        Type::Boxed(inner) => {
            lemma_type_text_no_ws(*inner);
            lemma_no_ws_add("Box<"@, type_text(*inner));
            lemma_no_ws_add("Box<"@ + type_text(*inner), ">"@);
        },
        Type::Result(ok, err) => {
            lemma_type_text_no_ws(*ok);
            lemma_type_text_no_ws(*err);
            lemma_no_ws_add("Result<"@, type_text(*ok));
            lemma_no_ws_add("Result<"@ + type_text(*ok), ","@);
            lemma_no_ws_add("Result<"@ + type_text(*ok) + ","@, type_text(*err));
            lemma_no_ws_add("Result<"@ + type_text(*ok) + ","@ + type_text(*err), ">"@);
        },
        _ => {},
    }
}

proof fn lemma_trim_no_ws(s: Seq<char>)
    requires
        no_ws(s),
    ensures
        trim(s) == s,
{
    assert(lead_ws(s) == 0);
    assert(trim_start(s) =~= s);
    assert(trail_ws(s) == 0);
    assert(trim_end(s) =~= s);
}

proof fn lemma_scan_plain(s: Seq<char>, i: int, j: int, d: nat)
    requires
        0 <= i <= j <= s.len(),
        forall|k: int| i <= k < j ==> plain_char(#[trigger] s[k]),
    ensures
        comma_from(s, i, d) == comma_from(s, j, d),
    decreases j - i,
{
    if i < j {
        assert(plain_char(s[i]));
        lemma_scan_plain(s, i + 1, j, d);
    }
}

/// Scanning over the text of a type leaves the bracket depth as it was and
/// finds no comma outside its brackets.
proof fn lemma_scan_type(s: Seq<char>, i: int, d: nat, t: Type)
    requires
        0 <= i,
        i + type_text(t).len() <= s.len(),
        s.subrange(i, i + type_text(t).len()) == type_text(t),
    ensures
        comma_from(s, i, d) == comma_from(s, i + type_text(t).len(), d),
    decreases t,
{
    let x = type_text(t);
    let l = x.len() as int;
    assert forall|k: int| 0 <= k < l implies s[i + k] == #[trigger] x[k] by {
        assert(s[i + k] == s.subrange(i, i + l)[k]);
    }
    reveal_strlit("i8");
    reveal_strlit("i16");
    reveal_strlit("i32");
    reveal_strlit("i64");
    reveal_strlit("u8");
    reveal_strlit("u16");
    reveal_strlit("u32");
    reveal_strlit("u64");
    reveal_strlit("f32");
    reveal_strlit("f64");
    reveal_strlit("bool");
    reveal_strlit("string");
    reveal_strlit("unit");
    reveal_strlit("unknown");
    reveal_strlit("Vector<");
    reveal_strlit("Option<");
    reveal_strlit("Result<");
    reveal_strlit("Box<");
    reveal_strlit(">");
    reveal_strlit(",");
    match t {
        Type::Vector(inner) | Type::Option(inner) | Type::Boxed(inner) => {
            let p: int = if t is Boxed {
                3
            } else {
                6
            };
            let y = type_text(*inner);
            assert forall|k: int| i <= k < i + p implies plain_char(#[trigger] s[k]) by {
                assert(s[k] == x[k - i]);
            }
            lemma_scan_plain(s, i, i + p, d);
            assert(s[i + p] == x[p]);
            assert(x[p] == '<');
            assert(s.subrange(i + p + 1, i + p + 1 + y.len()) =~= y) by {
                assert forall|k: int| 0 <= k < y.len() implies s.subrange(i + p + 1, i + p + 1 + y.len())[k]
                    == y[k] by {
                    assert(s[i + p + 1 + k] == x[p + 1 + k]);
                }
            }
            lemma_scan_type(s, i + p + 1, d + 1, *inner);
            assert(s[i + p + 1 + y.len()] == x[p + 1 + y.len()]);
            assert(x[p + 1 + y.len()] == '>');
        },
        Type::Result(ok, err) => {
            let ya = type_text(*ok);
            let yb = type_text(*err);
            let la = ya.len() as int;
            let lb = yb.len() as int;
            assert forall|k: int| i <= k < i + 6 implies plain_char(#[trigger] s[k]) by {
                assert(s[k] == x[k - i]);
            }
            lemma_scan_plain(s, i, i + 6, d);
            assert(s[i + 6] == x[6]);
            assert(s.subrange(i + 7, i + 7 + la) =~= ya) by {
                assert forall|k: int| 0 <= k < la implies s.subrange(i + 7, i + 7 + la)[k]
                    == ya[k] by {
                    assert(s[i + 7 + k] == x[7 + k]);
                }
            }
            lemma_scan_type(s, i + 7, d + 1, *ok);
            assert(s[i + 7 + la] == x[7 + la]);
            assert(x[7 + la] == ',');
            assert(s.subrange(i + 8 + la, i + 8 + la + lb) =~= yb) by {
                assert forall|k: int| 0 <= k < lb implies s.subrange(
                    i + 8 + la,
                    i + 8 + la + lb,
                )[k] == yb[k] by {
                    assert(s[i + 8 + la + k] == x[8 + la + k]);
                }
            }
            lemma_scan_type(s, i + 8 + la, d + 1, *err);
            assert(s[i + 8 + la + lb] == x[8 + la + lb]);
            assert(x[8 + la + lb] == '>');
        },
        _ => {
            assert forall|k: int| i <= k < i + l implies plain_char(#[trigger] s[k]) by {
                assert(s[k] == x[k - i]);
            }
            lemma_scan_plain(s, i, i + l, d);
        },
    }
}

proof fn lemma_reveal_names()
    ensures
        "i8"@ == seq!['i', '8'],
        "i16"@ == seq!['i', '1', '6'],
        "i32"@ == seq!['i', '3', '2'],
        "i64"@ == seq!['i', '6', '4'],
        "u8"@ == seq!['u', '8'],
        "u16"@ == seq!['u', '1', '6'],
        "u32"@ == seq!['u', '3', '2'],
        "u64"@ == seq!['u', '6', '4'],
        "f32"@ == seq!['f', '3', '2'],
        "f64"@ == seq!['f', '6', '4'],
        "bool"@ == seq!['b', 'o', 'o', 'l'],
        "string"@ == seq!['s', 't', 'r', 'i', 'n', 'g'],
        "unit"@ == seq!['u', 'n', 'i', 't'],
        "Vector<"@ == seq!['V', 'e', 'c', 't', 'o', 'r', '<'],
        "Option<"@ == seq!['O', 'p', 't', 'i', 'o', 'n', '<'],
        "Result<"@ == seq!['R', 'e', 's', 'u', 'l', 't', '<'],
        "Box<"@ == seq!['B', 'o', 'x', '<'],
        ">"@ == seq!['>'],
        ","@ == seq![','],
{
    reveal_strlit("i8");
    reveal_strlit("i16");
    reveal_strlit("i32");
    reveal_strlit("i64");
    reveal_strlit("u8");
    reveal_strlit("u16");
    reveal_strlit("u32");
    reveal_strlit("u64");
    reveal_strlit("f32");
    reveal_strlit("f64");
    reveal_strlit("bool");
    reveal_strlit("string");
    reveal_strlit("unit");
    reveal_strlit("Vector<");
    reveal_strlit("Option<");
    reveal_strlit("Result<");
    reveal_strlit("Box<");
    reveal_strlit(">");
    reveal_strlit(",");
}

/// The text of a type with a type argument is longer than every name of a
/// primitive type.
proof fn lemma_compound_long(t: Type)
    requires
        t is Vector || t is Option || t is Boxed || t is Result,
    ensures
        type_text(t).len() >= 7,
{
    lemma_reveal_names();
    match t {
        Type::Vector(inner) => lemma_type_text_no_ws(*inner),
        Type::Option(inner) => lemma_type_text_no_ws(*inner),
        Type::Boxed(inner) => {
            lemma_type_text_no_ws(*inner);
            lemma_short_text(*inner);
        },
        Type::Result(ok, err) => {
            lemma_type_text_no_ws(*ok);
            lemma_type_text_no_ws(*err);
        },
        _ => {},
    }
}

proof fn lemma_short_text(t: Type)
    ensures
        type_text(t).len() >= 2,
    decreases t,
{
    lemma_reveal_names();
    reveal_strlit("unknown");
    match t {
        Type::Vector(inner) => {},
        Type::Option(inner) => {},
        Type::Boxed(inner) => {},
        Type::Result(ok, err) => {},
        _ => {},
    }
}

#[verifier::rlimit(40)]
proof fn lemma_round_trip_wrapped(t: Type, inner: Type)
    requires
        t == Type::Vector(Box::new(inner)) || t == Type::Option(Box::new(inner)) || t == Type::Boxed(
            Box::new(inner),
        ),
        parse_type_spec(type_text(inner)) == Ok::<Type, Seq<char>>(inner),
    ensures
        parse_type_spec(type_text(t)) == Ok::<Type, Seq<char>>(t),
{
    let x = type_text(t);
    lemma_type_text_no_ws(t);
    lemma_trim_no_ws(x);
    lemma_compound_long(t);
    lemma_reveal_names();
    let y = type_text(inner);
    if t is Vector {
        assert(x.subrange(7, x.len() - 1) =~= y);
        assert(x.subrange(0, 7) =~= "Vector<"@);
    } else if t is Option {
        assert(x.subrange(7, x.len() - 1) =~= y);
        assert(x.subrange(0, 7) =~= "Option<"@);
        assert(x[0] == 'O');
    } else {
        assert(x.subrange(4, x.len() - 1) =~= y);
        assert(x.subrange(0, 4) =~= "Box<"@);
        assert(x[0] == 'B');
    }
}

/// How a text that starts `Result<` parses: by the halves around its first
/// comma outside brackets.
proof fn lemma_parse_result_text(x: Seq<char>)
    requires
        no_ws(x),
        x.len() >= 8,
        x.subrange(0, 7) == "Result<"@,
        x[x.len() - 1] == '>',
    ensures
        parse_type_spec(x) == match split_top_comma(x.subrange(7, x.len() - 1)) {
            Some((a, b)) => match parse_type_spec(a) {
                Ok(ta) => match parse_type_spec(b) {
                    Ok(tb) => Ok(Type::Result(Box::new(ta), Box::new(tb))),
                    Err(e) => Err(e),
                },
                Err(e) => Err(e),
            },
            None => Err(x),
        },
{
    lemma_trim_no_ws(x);
    lemma_reveal_names();
    assert(x[0] == 'R');
}

proof fn lemma_round_trip_result(t: Type, a: Type, b: Type)
    requires
        t == Type::Result(Box::new(a), Box::new(b)),
        parse_type_spec(type_text(a)) == Ok::<Type, Seq<char>>(a),
        parse_type_spec(type_text(b)) == Ok::<Type, Seq<char>>(b),
    ensures
        parse_type_spec(type_text(t)) == Ok::<Type, Seq<char>>(t),
{
    let x = type_text(t);
    lemma_type_text_no_ws(t);
    lemma_compound_long(t);
    lemma_reveal_names();
    let ya = type_text(a);
    let yb = type_text(b);
    let la = ya.len() as int;
    let inner = x.subrange(7, x.len() - 1);
    assert(inner =~= ya + ","@ + yb);
    assert(x.subrange(0, 7) =~= "Result<"@);
    assert(inner.subrange(0, la) =~= ya);
    lemma_scan_type(inner, 0, 0, a);
    assert(inner[la] == ',');
    assert(comma_from(inner, la, 0) == Some(la));
    assert(inner.subrange(la + 1, inner.len() as int) =~= yb);
    assert(split_top_comma(inner) == Some((ya, yb)));
    lemma_parse_result_text(x);
}

/// Printing a type and parsing the text gives the type back, for every type
/// that has a name (no unknown part).
pub proof fn lemma_type_round_trip(t: Type)
    requires
        type_known(t),
    ensures
        parse_type_spec(type_text(t)) == Ok::<Type, Seq<char>>(t),
    decreases t,
{
    match t {
        Type::Vector(inner) => {
            lemma_type_round_trip(*inner);
            lemma_round_trip_wrapped(t, *inner);
        },
        Type::Option(inner) => {
            lemma_type_round_trip(*inner);
            lemma_round_trip_wrapped(t, *inner);
        },
        Type::Boxed(inner) => {
            lemma_type_round_trip(*inner);
            lemma_round_trip_wrapped(t, *inner);
        },
        Type::Result(ok, err) => {
            lemma_type_round_trip(*ok);
            lemma_type_round_trip(*err);
            lemma_round_trip_result(t, *ok, *err);
        },
        _ => {
            let x = type_text(t);
            lemma_type_text_no_ws(t);
            lemma_trim_no_ws(x);
            lemma_reveal_names();
        },
    }
}

/// Every type that parses has a name: no unknown part.
pub proof fn lemma_parsed_type_known(src: Seq<char>)
    ensures
        parse_type_spec(src) matches Ok(u) ==> type_known(u),
    decreases src.len(),
{
    let s = trim(src);
    lemma_trim_len(src);
    if starts_with(s, "Vector<"@) && ends_with_char(s, '>') && s.len() >= 8 {
        lemma_parsed_type_known(s.subrange(7, s.len() - 1));
    }
    if starts_with(s, "Option<"@) && ends_with_char(s, '>') && s.len() >= 8 {
        lemma_parsed_type_known(s.subrange(7, s.len() - 1));
    }
    if starts_with(s, "Box<"@) && ends_with_char(s, '>') && s.len() >= 5 {
        lemma_parsed_type_known(s.subrange(4, s.len() - 1));
    }
    if starts_with(s, "Result<"@) && ends_with_char(s, '>') && s.len() >= 8 {
        let inner = s.subrange(7, s.len() - 1);
        lemma_comma_from_range(inner, 0, 0);
        match split_top_comma(inner) {
            Some((a, b)) => {
                lemma_parsed_type_known(a);
                lemma_parsed_type_known(b);
            },
            None => {},
        }
    }
}

// ---------------------------------------------------------------------------
// Printing a sticky binding and parsing it back
// ---------------------------------------------------------------------------
/// A binding `name::Type` printed and parsed gives the name and the type
/// back, for an identifier and a type that has a name.
pub proof fn lemma_sticky_round_trip(name: Seq<char>, t: Type)
    requires
        is_ident_text(name),
        type_known(t),
    ensures
        sticky_spec(name + "::"@ + type_text(t)) == Ok::<(Seq<char>, Type), Seq<char>>((name, t)),
{
    reveal_strlit("::");
    let tt = type_text(t);
    let src = name + "::"@ + tt;
    let nl = name.len() as int;
    assert(matches_at_spec(src, nl, "::"@)) by {
        assert(src.subrange(nl, nl + 2) =~= "::"@);
    }
    assert forall|k: int| 0 <= k < nl implies !matches_at_spec(src, k, "::"@) by {
        assert(src[k] == name[k]);
        if k == 0 {
            assert(is_ident_start(name[0]));
        } else {
            assert(is_ident_continue(name[k]));
        }
        if matches_at_spec(src, k, "::"@) {
            assert(src.subrange(k, k + 2)[0] == ':');
        }
    }
    lemma_find_pat_first(src, "::"@, nl);
    assert(src.subrange(0, nl) =~= name);
    assert(src.subrange(nl + 2, src.len() as int) =~= tt);
    lemma_type_text_no_ws(t);
    assert forall|i: int| 0 <= i < name.len() implies !is_ws(#[trigger] name[i]) by {
        if i == 0 {
            assert(is_ident_start(name[0]));
        } else {
            assert(is_ident_continue(name[i]));
        }
    }
    lemma_type_round_trip(t);
}

/// What every accepted binding looks like: an identifier, `::`, and the
/// text of a type that has a name, with no whitespace anywhere.
pub proof fn lemma_sticky_accepted_shape(src: Seq<char>)
    ensures
        sticky_spec(src) matches Ok((n, u)) ==> is_ident_text(n) && no_ws(src) && starts_with(src, n + "::"@)
            && type_known(u),
{
    reveal_strlit("::");
    lemma_find_pat(src, "::"@);
    match split_once_pat(src, "::"@) {
        Some((name, ty_src)) => {
            if sticky_spec(src) is Ok {
                let i = find_pat(src, "::"@).unwrap();
                assert(src =~= name + "::"@ + ty_src);
                assert(no_ws(name));
                assert(no_ws(ty_src));
                assert(no_ws("::"@));
                lemma_no_ws_add(name, "::"@);
                lemma_no_ws_add(name + "::"@, ty_src);
                assert(src.subrange(0, (name + "::"@).len() as int) =~= name + "::"@);
                lemma_parsed_type_known(ty_src);
            }
        },
        None => {},
    }
}

} // verus!
