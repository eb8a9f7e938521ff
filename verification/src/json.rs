//! JSON text: string literals (through `serde_json`) and the compact JSON
//! renderings of diagnostics and of a program's outline.
use crate::ast::{func_m, program_m, type_text, write_type, BindingM, FuncM, NodeM, Program, Span, StickyBinding};
use crate::text::{chars_to_string, dec_text, hex_char, push_chars, push_dec, push_str, str_chars};
use vstd::prelude::*;

verus! {

/// The error type of `serde_json`.
#[verifier::external_type_specification]
#[verifier::external_body]
pub struct ExJsonError(serde_json::Error);

/// The JSON escape of one character: quote, backslash and the control
/// characters are escaped, every other character stands for itself.
pub open spec fn json_escape_char(c: char) -> Seq<char> {
    if c == '"' {
        seq!['\\', '"']
    } else if c == '\\' {
        seq!['\\', '\\']
    } else if c == '\u{8}' {
        seq!['\\', 'b']
    } else if c == '\t' {
        seq!['\\', 't']
    } else if c == '\n' {
        seq!['\\', 'n']
    } else if c == '\u{c}' {
        seq!['\\', 'f']
    } else if c == '\r' {
        seq!['\\', 'r']
    } else if (c as u32) < 0x20 {
        seq!['\\', 'u', '0', '0', hex_char(((c as u32) / 16) as int), hex_char(((c as u32) % 16) as int)]
    } else {
        seq![c]
    }
}

pub open spec fn json_escape(s: Seq<char>) -> Seq<char>
    decreases s.len(),
{
    if s.len() == 0 {
        Seq::empty()
    } else {
        json_escape(s.drop_last()) + json_escape_char(s.last())
    }
}

/// The JSON string literal of a text.
pub open spec fn json_quote(s: Seq<char>) -> Seq<char> {
    seq!['"'] + json_escape(s) + seq!['"']
}

/// No control character, and no unescaped quote, survives escaping: every
/// character of `json_escape(s)` is at least U+0020, and every quote in it
/// follows a backslash.
pub proof fn lemma_json_escape_printable(s: Seq<char>)
    ensures
        forall|i: int| 0 <= i < json_escape(s).len() ==> (#[trigger] json_escape(s)[i] as u32) >= 0x20,
        forall|i: int|
            0 <= i < json_escape(s).len() && #[trigger] json_escape(s)[i] == '"' ==> i > 0 && json_escape(s)[i - 1]
                == '\\',
    decreases s.len(),
{
    if s.len() > 0 {
        lemma_json_escape_printable(s.drop_last());
        let a = json_escape(s.drop_last());
        let b = json_escape_char(s.last());
        assert(json_escape(s) == a + b);
        let c = s.last();
        assert forall|i: int| 0 <= i < b.len() implies (#[trigger] b[i] as u32) >= 0x20 by {
            if (c as u32) < 0x20 && c != '\u{8}' && c != '\t' && c != '\n' && c != '\u{c}' && c != '\r' {
                let d1 = ((c as u32) / 16) as int;
                let d2 = ((c as u32) % 16) as int;
                assert(0 <= d1 < 2);
                assert(0 <= d2 < 16);
                assert(hex_char(d1) as u32 >= 0x30);
                assert(hex_char(d2) as u32 >= 0x30);
            }
        }
        assert forall|i: int| 0 <= i < json_escape(s).len() implies (#[trigger] json_escape(s)[i] as u32) >= 0x20 by {
            if i >= a.len() {
                assert(json_escape(s)[i] == b[i - a.len()]);
            }
        }
        assert forall|i: int|
            0 <= i < json_escape(s).len() && #[trigger] json_escape(s)[i] == '"' implies i > 0
            && json_escape(s)[i - 1] == '\\' by {
            if i >= a.len() {
                assert(json_escape(s)[i] == b[i - a.len()]);
                if c != '"' && (c as u32) < 0x20 && c != '\u{8}' && c != '\t' && c != '\n' && c != '\u{c}' && c != '\r' {
                    let d1 = ((c as u32) / 16) as int;
                    let d2 = ((c as u32) % 16) as int;
                    assert(0 <= d1 < 2);
                    assert(0 <= d2 < 16);
                }
                if c == '"' {
                    assert(i == a.len() + 1);
                    assert(json_escape(s)[i - 1] == b[0]);
                }
            }
        }
    }
}

/// `serde_json::to_string` on a string slice. It serializes the slice as a
/// JSON string: the characters between double quotes, with `"` and `\` and
/// the control characters below U+0020 escaped (`\b \t \n \f \r`, the others
/// as `\u00XX` with lower-case hex digits), into a byte buffer, which cannot
/// fail.
#[verifier::external_body]
fn json_string(s: &str) -> (r: Result<String, serde_json::Error>)
    ensures
        r is Ok,
        match r {
            Ok(t) => t@ == json_quote(s@),
            Err(_) => true,
        },
{
    serde_json::to_string(s)
}

/// Appends the JSON string literal of `s`.
pub fn write_json_string(out: &mut Vec<char>, s: &str)
    ensures
        final(out)@ == old(out)@ + json_quote(s@),
{
    match json_string(s) {
        Ok(t) => push_str(out, t.as_str()),
        Err(_) => {
            assert(false);
        },
    }
}

/// The JSON string literal of `s`, or `null`.
pub open spec fn opt_json(o: Option<Seq<char>>) -> Seq<char> {
    match o {
        Some(s) => json_quote(s),
        None => "null"@,
    }
}

pub fn write_opt_json(out: &mut Vec<char>, o: &Option<String>)
    ensures
        final(out)@ == old(out)@ + opt_json(crate::diag::opt_m(*o)),
{
    match o {
        Some(s) => write_json_string(out, s.as_str()),
        None => push_str(out, "null"),
    }
}

/// The JSON object of a source range.
pub open spec fn span_json(sp: Span) -> Seq<char> {
    "{\"start_byte\":"@ + dec_text(sp.start_byte as nat) + ",\"end_byte\":"@ + dec_text(sp.end_byte as nat)
        + ",\"start_line\":"@ + dec_text(sp.start_line as nat) + ",\"start_col\":"@ + dec_text(
        sp.start_col as nat,
    ) + ",\"end_line\":"@ + dec_text(sp.end_line as nat) + ",\"end_col\":"@ + dec_text(sp.end_col as nat)
        + "}"@
}

pub fn write_span_json(out: &mut Vec<char>, sp: Span)
    ensures
        final(out)@ == old(out)@ + span_json(sp),
{
    push_str(out, "{\"start_byte\":");
    push_dec(out, sp.start_byte as u64);
    push_str(out, ",\"end_byte\":");
    push_dec(out, sp.end_byte as u64);
    push_str(out, ",\"start_line\":");
    push_dec(out, sp.start_line as u64);
    push_str(out, ",\"start_col\":");
    push_dec(out, sp.start_col as u64);
    push_str(out, ",\"end_line\":");
    push_dec(out, sp.end_line as u64);
    push_str(out, ",\"end_col\":");
    push_dec(out, sp.end_col as u64);
    push_str(out, "}");
    assert(out@ =~= old(out)@ + span_json(sp));
}

// ---------------------------------------------------------------------------
// The outline of a program
// ---------------------------------------------------------------------------
/// `{"name":...,"type":...}` of a binding.
pub open spec fn binding_json(b: BindingM) -> Seq<char> {
    "{\"name\":"@ + json_quote(b.name) + ",\"type\":"@ + json_quote(type_text(b.ty)) + "}"@
}

/// The bindings from binding `i` on, joined with `,` onto `acc`.
pub open spec fn bindings_json(bs: Seq<BindingM>, i: int, acc: Seq<char>) -> Seq<char>
    decreases bs.len() - i,
{
    if 0 <= i < bs.len() {
        bindings_json(
            bs,
            i + 1,
            if i == 0 {
                binding_json(bs[i])
            } else {
                acc + ","@ + binding_json(bs[i])
            },
        )
    } else {
        acc
    }
}

/// The outline of one function, its keys in sorted order.
pub open spec fn func_json(f: NodeM<FuncM>) -> Seq<char> {
    "{\"body_len\":"@ + dec_text(f.kind.body.len()) + ",\"close_name\":"@ + json_quote(f.kind.close_name)
        + ",\"id\":"@ + json_quote(f.id) + ",\"inputs\":["@ + bindings_json(f.kind.inputs, 0, Seq::empty())
        + "],\"intent\":"@ + json_quote(f.kind.intent) + ",\"name\":"@ + json_quote(f.kind.name)
        + ",\"output\":"@ + binding_json(f.kind.output) + "}"@
}

/// The functions from function `i` on, joined with `,` onto `acc`.
pub open spec fn funcs_json(fs: Seq<NodeM<FuncM>>, i: int, acc: Seq<char>) -> Seq<char>
    decreases fs.len() - i,
{
    if 0 <= i < fs.len() {
        funcs_json(
            fs,
            i + 1,
            if i == 0 {
                func_json(fs[i])
            } else {
                acc + ","@ + func_json(fs[i])
            },
        )
    } else {
        acc
    }
}

/// The outline of a program: `{"functions":[...]}`.
pub open spec fn program_json_text(fs: Seq<NodeM<FuncM>>) -> Seq<char> {
    "{\"functions\":["@ + funcs_json(fs, 0, Seq::empty()) + "]}"@
}

fn write_binding_json(out: &mut Vec<char>, b: &StickyBinding)
    ensures
        final(out)@ == old(out)@ + binding_json(crate::ast::binding_m(*b)),
{
    push_str(out, "{\"name\":");
    write_json_string(out, b.name.as_str());
    push_str(out, ",\"type\":");
    let t = b.ty.to_text();
    write_json_string(out, t.as_str());
    push_str(out, "}");
    assert(out@ =~= old(out)@ + binding_json(crate::ast::binding_m(*b)));
}

/// The outline of a program as compact JSON: for every function its id,
/// name, intent, inputs, output, number of body statements and close name.
pub fn program_json(program: &Program) -> (s: String)
    ensures
        s@ == program_json_text(program_m(*program)),
{
    let ghost fm = program_m(*program);
    let mut funcs: Vec<char> = Vec::new();
    let ghost target = funcs_json(fm, 0, Seq::empty());
    let mut i: usize = 0;
    while i < program.functions.len()
        invariant
            i <= program.functions@.len(),
            fm == program_m(*program),
            i == 0 ==> funcs@ == Seq::<char>::empty(),
            funcs_json(fm, i as int, funcs@) == target,
        decreases program.functions@.len() - i,
    {
        let ghost acc = funcs@;
        let node = &program.functions[i];
        let f = &node.kind;
        let ghost before_item = if i == 0 {
            Seq::<char>::empty()
        } else {
            acc + ","@
        };
        if i > 0 {
            push_str(&mut funcs, ",");
        }
        assert(funcs@ == before_item);
        push_str(&mut funcs, "{\"body_len\":");
        push_dec(&mut funcs, f.body.len() as u64);
        push_str(&mut funcs, ",\"close_name\":");
        write_json_string(&mut funcs, f.close_name.as_str());
        push_str(&mut funcs, ",\"id\":");
        write_json_string(&mut funcs, node.id.as_str());
        push_str(&mut funcs, ",\"inputs\":[");
        let ghost bm = crate::ast::bindings_m(f.inputs@);
        let ghost h = funcs@;
        let mut ins: Vec<char> = Vec::new();
        let mut k: usize = 0;
        while k < f.inputs.len()
            invariant
                k <= f.inputs@.len(),
                bm == crate::ast::bindings_m(f.inputs@),
                k == 0 ==> ins@ == Seq::<char>::empty(),
                bindings_json(bm, k as int, ins@) == bindings_json(bm, 0, Seq::empty()),
            decreases f.inputs@.len() - k,
        {
            let ghost acc2 = ins@;
            if k > 0 {
                push_str(&mut ins, ",");
            }
            write_binding_json(&mut ins, &f.inputs[k]);
            assert(bm[k as int] == crate::ast::binding_m(f.inputs@[k as int]));
            assert(ins@ =~= (if k == 0 {
                binding_json(bm[k as int])
            } else {
                acc2 + ","@ + binding_json(bm[k as int])
            }));
            k = k + 1;
        }
        push_chars(&mut funcs, ins.as_slice());
        push_str(&mut funcs, "],\"intent\":");
        write_json_string(&mut funcs, f.intent.as_str());
        push_str(&mut funcs, ",\"name\":");
        write_json_string(&mut funcs, f.name.as_str());
        push_str(&mut funcs, ",\"output\":");
        write_binding_json(&mut funcs, &f.output);
        push_str(&mut funcs, "}");
        assert(fm[i as int] == func_m(program.functions@[i as int]));
        assert(funcs@ =~= before_item + func_json(fm[i as int]));
        i = i + 1;
    }
    let mut out: Vec<char> = Vec::new();
    push_str(&mut out, "{\"functions\":[");
    push_chars(&mut out, funcs.as_slice());
    push_str(&mut out, "]}");
    assert(out@ =~= program_json_text(fm));
    chars_to_string(out.as_slice())
}

} // verus!
