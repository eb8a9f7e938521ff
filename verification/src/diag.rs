//! Structured diagnostics: every phase reports problems as values of
//! `Diagnostic`, which carry a code, a severity, the phase, the source range and
//! a suggested fix.
use crate::ast::Span;
use crate::json::{json_quote, opt_json, span_json, write_json_string, write_opt_json, write_span_json};
use crate::text::{chars_to_string, push_chars, push_str};
use vstd::prelude::*;

verus! {

#[derive(Debug, Clone, Copy, PartialEq, Eq, Structural)]
pub enum Severity {
    Error,
    Warning,
    Info,
}

#[derive(Debug, Clone, Copy, PartialEq, Eq, Structural)]
pub enum Phase {
    Lex,
    Parse,
    Resolve,
    Type,
    Lower,
    Codegen,
}

#[derive(Debug, Clone)]
pub struct SuggestedFix {
    pub strategy: String,
    pub patch: String,
}

#[derive(Debug, Clone)]
pub struct Diagnostic {
    pub code: String,
    pub severity: Severity,
    pub phase: Phase,
    pub node_id: Option<String>,
    pub span: Span,
    pub message: String,
    pub expected: Option<String>,
    pub actual: Option<String>,
    pub suggested_fix: SuggestedFix,
}

/// The model of a diagnostic: every string replaced by its characters.
pub struct DiagM {
    pub code: Seq<char>,
    pub severity: Severity,
    pub phase: Phase,
    pub node_id: Option<Seq<char>>,
    pub span: Span,
    pub message: Seq<char>,
    pub expected: Option<Seq<char>>,
    pub actual: Option<Seq<char>>,
    pub fix_strategy: Seq<char>,
    pub fix_patch: Seq<char>,
}

pub open spec fn opt_m(o: Option<String>) -> Option<Seq<char>> {
    match o {
        Some(s) => Some(s@),
        None => None,
    }
}

pub open spec fn diag_m(d: Diagnostic) -> DiagM {
    DiagM {
        code: d.code@,
        severity: d.severity,
        phase: d.phase,
        node_id: opt_m(d.node_id),
        span: d.span,
        message: d.message@,
        expected: opt_m(d.expected),
        actual: opt_m(d.actual),
        fix_strategy: d.suggested_fix.strategy@,
        fix_patch: d.suggested_fix.patch@,
    }
}

pub open spec fn diags_m(v: Seq<Diagnostic>) -> Seq<DiagM> {
    Seq::new(v.len(), |i: int| diag_m(v[i]))
}

/// An error-severity diagnostic with the given fields.
pub open spec fn err_m(
    code: Seq<char>,
    phase: Phase,
    node_id: Option<Seq<char>>,
    span: Span,
    message: Seq<char>,
    expected: Option<Seq<char>>,
    actual: Option<Seq<char>>,
    fix_strategy: Seq<char>,
    fix_patch: Seq<char>,
) -> DiagM {
    DiagM {
        code,
        severity: Severity::Error,
        phase,
        node_id,
        span,
        message,
        expected,
        actual,
        fix_strategy,
        fix_patch,
    }
}

/// A warning-severity diagnostic with the given fields.
pub open spec fn warn_m(
    code: Seq<char>,
    phase: Phase,
    node_id: Option<Seq<char>>,
    span: Span,
    message: Seq<char>,
    expected: Option<Seq<char>>,
    actual: Option<Seq<char>>,
    fix_strategy: Seq<char>,
    fix_patch: Seq<char>,
) -> DiagM {
    DiagM { severity: Severity::Warning, ..err_m(code, phase, node_id, span, message, expected, actual, fix_strategy, fix_patch) }
}

/// Whether any diagnostic of the sequence is an error.
pub open spec fn any_error(v: Seq<DiagM>) -> bool {
    exists|i: int| 0 <= i < v.len() && v[i].severity == Severity::Error
}

/// `b` is `a` followed by errors only: every diagnostic of `a` stays in its
/// place, and every one added is an error.
pub open spec fn errors_added(a: Seq<DiagM>, b: Seq<DiagM>) -> bool {
    &&& a.len() <= b.len()
    &&& forall|k: int| 0 <= k < a.len() ==> #[trigger] b[k] == a[k]
    &&& forall|k: int| a.len() <= k < b.len() ==> (#[trigger] b[k]).severity == Severity::Error
}

pub proof fn lemma_errors_added_trans(a: Seq<DiagM>, b: Seq<DiagM>, c: Seq<DiagM>)
    requires
        errors_added(a, b),
        errors_added(b, c),
    ensures
        errors_added(a, c),
{
    assert forall|k: int| a.len() <= k < c.len() implies (#[trigger] c[k]).severity == Severity::Error by {
        if k < b.len() {
            assert(c[k] == b[k]);
        }
    }
}

pub proof fn lemma_errors_added_push(a: Seq<DiagM>, d: DiagM)
    requires
        d.severity == Severity::Error,
    ensures
        errors_added(a, a.push(d)),
{
}

/// When nothing in `b` is an error, nothing was added to `a`.
pub proof fn lemma_errors_added_none(a: Seq<DiagM>, b: Seq<DiagM>)
    requires
        errors_added(a, b),
        !any_error(b),
    ensures
        b == a,
{
    if b.len() > a.len() {
        assert(b[a.len() as int].severity == Severity::Error);
    }
    assert(b =~= a);
}

impl Diagnostic {
    pub fn error(
        code: &str,
        phase: Phase,
        node_id: Option<String>,
        span: Span,
        message: &str,
        expected: Option<String>,
        actual: Option<String>,
        fix: SuggestedFix,
    ) -> (d: Self)
        ensures
            diag_m(d) == err_m(
                code@,
                phase,
                opt_m(node_id),
                span,
                message@,
                opt_m(expected),
                opt_m(actual),
                fix.strategy@,
                fix.patch@,
            ),
    {
        Diagnostic {
            code: code.to_owned(),
            severity: Severity::Error,
            phase,
            node_id,
            span,
            message: message.to_owned(),
            expected,
            actual,
            suggested_fix: fix,
        }
    }

    pub fn warning(
        code: &str,
        phase: Phase,
        node_id: Option<String>,
        span: Span,
        message: &str,
        expected: Option<String>,
        actual: Option<String>,
        fix: SuggestedFix,
    ) -> (d: Self)
        ensures
            diag_m(d) == warn_m(
                code@,
                phase,
                opt_m(node_id),
                span,
                message@,
                opt_m(expected),
                opt_m(actual),
                fix.strategy@,
                fix.patch@,
            ),
    {
        Diagnostic {
            code: code.to_owned(),
            severity: Severity::Warning,
            phase,
            node_id,
            span,
            message: message.to_owned(),
            expected,
            actual,
            suggested_fix: fix,
        }
    }

    /// Whether any of the diagnostics is an error.
    pub fn has_errors(diags: &[Diagnostic]) -> (r: bool)
        ensures
            r == any_error(diags_m(diags@)),
    {
        let mut i: usize = 0;
        while i < diags.len()
            invariant
                i <= diags@.len(),
                forall|k: int| 0 <= k < i ==> diags@[k].severity != Severity::Error,
            decreases diags@.len() - i,
        {
            if diags[i].severity == Severity::Error {
                assert(diags_m(diags@)[i as int].severity == Severity::Error);
                return true;
            }
            i = i + 1;
        }
        false
    }
}

/// A suggested fix: a repair strategy and the text to apply.
pub fn fix(strategy: &str, patch: String) -> (f: SuggestedFix)
    ensures
        f.strategy@ == strategy@,
        f.patch@ == patch@,
{
    SuggestedFix { strategy: strategy.to_owned(), patch }
}

// ---------------------------------------------------------------------------
// JSON
// ---------------------------------------------------------------------------
pub open spec fn severity_json(s: Severity) -> Seq<char> {
    match s {
        Severity::Error => "\"error\""@,
        Severity::Warning => "\"warning\""@,
        Severity::Info => "\"info\""@,
    }
}

pub open spec fn phase_json(p: Phase) -> Seq<char> {
    match p {
        Phase::Lex => "\"lex\""@,
        Phase::Parse => "\"parse\""@,
        Phase::Resolve => "\"resolve\""@,
        Phase::Type => "\"type\""@,
        Phase::Lower => "\"lower\""@,
        Phase::Codegen => "\"codegen\""@,
    }
}

/// The compact JSON object of a diagnostic, its fields in declaration order
/// and its severity and phase in lower case.
pub open spec fn diag_json(d: DiagM) -> Seq<char> {
    diag_json_head(d) + diag_json_tail(d)
}

/// The fields of a diagnostic's JSON object up to its span.
pub open spec fn diag_json_head(d: DiagM) -> Seq<char> {
    "{\"code\":"@ + json_quote(d.code) + ",\"severity\":"@ + severity_json(d.severity) + ",\"phase\":"@
        + phase_json(d.phase) + ",\"node_id\":"@ + opt_json(d.node_id) + ",\"span\":"@ + span_json(d.span)
}

/// The fields of a diagnostic's JSON object from its message on.
pub open spec fn diag_json_tail(d: DiagM) -> Seq<char> {
    ",\"message\":"@ + json_quote(d.message) + ",\"expected\":"@ + opt_json(d.expected) + ",\"actual\":"@
        + opt_json(d.actual) + ",\"suggested_fix\":{\"strategy\":"@ + json_quote(d.fix_strategy)
        + ",\"patch\":"@ + json_quote(d.fix_patch) + "}}"@
}

/// The diagnostics from diagnostic `i` on, joined with `,` onto `acc`.
pub open spec fn diags_json(ds: Seq<DiagM>, i: int, acc: Seq<char>) -> Seq<char>
    decreases ds.len() - i,
{
    if 0 <= i < ds.len() {
        diags_json(
            ds,
            i + 1,
            if i == 0 {
                diag_json(ds[i])
            } else {
                acc + ","@ + diag_json(ds[i])
            },
        )
    } else {
        acc
    }
}

/// The JSON array of a sequence of diagnostics.
pub open spec fn batch_json(ds: Seq<DiagM>) -> Seq<char> {
    "["@ + diags_json(ds, 0, Seq::empty()) + "]"@
}

/// Texts joined with commas.
pub open spec fn comma_joined(texts: Seq<Seq<char>>) -> Seq<char>
    decreases texts.len(),
{
    if texts.len() == 0 {
        Seq::empty()
    } else if texts.len() == 1 {
        texts[0]
    } else {
        comma_joined(texts.drop_last()) + ","@ + texts.last()
    }
}

proof fn lemma_diags_json_joined(ds: Seq<DiagM>, i: int)
    requires
        0 <= i <= ds.len(),
    ensures
        diags_json(ds, i, comma_joined(Seq::new(ds.len(), |k: int| diag_json(ds[k])).take(i)))
            == comma_joined(Seq::new(ds.len(), |k: int| diag_json(ds[k]))),
    decreases ds.len() - i,
{
    let texts = Seq::new(ds.len(), |k: int| diag_json(ds[k]));
    if i < ds.len() {
        let t1 = texts.take(i + 1);
        assert(t1.drop_last() =~= texts.take(i));
        assert(t1.last() == diag_json(ds[i]));
        if i == 0 {
            assert(comma_joined(t1) == t1[0]);
        }
        lemma_diags_json_joined(ds, i + 1);
    } else {
        assert(texts.take(i) =~= texts);
    }
}

/// The JSON array of diagnostics is the JSON text of each, in order, joined
/// with commas between brackets; with no diagnostics it is `[]`.
pub proof fn lemma_batch_is_joined_objects(ds: Seq<DiagM>)
    ensures
        batch_json(ds) == "["@ + comma_joined(Seq::new(ds.len(), |k: int| diag_json(ds[k]))) + "]"@,
        ds.len() == 0 ==> batch_json(ds) == "[]"@,
{
    let texts = Seq::new(ds.len(), |k: int| diag_json(ds[k]));
    assert(texts.take(0) =~= Seq::<Seq<char>>::empty());
    lemma_diags_json_joined(ds, 0);
    if ds.len() == 0 {
        reveal_strlit("[");
        reveal_strlit("]");
        reveal_strlit("[]");
        assert("["@ + Seq::<char>::empty() + "]"@ =~= "[]"@);
    }
}

fn write_severity(out: &mut Vec<char>, sv: Severity)
    ensures
        final(out)@ == old(out)@ + severity_json(sv),
{
    match sv {
        Severity::Error => push_str(out, "\"error\""),
        Severity::Warning => push_str(out, "\"warning\""),
        Severity::Info => push_str(out, "\"info\""),
    }
}

fn write_phase(out: &mut Vec<char>, p: Phase)
    ensures
        final(out)@ == old(out)@ + phase_json(p),
{
    match p {
        Phase::Lex => push_str(out, "\"lex\""),
        Phase::Parse => push_str(out, "\"parse\""),
        Phase::Resolve => push_str(out, "\"resolve\""),
        Phase::Type => push_str(out, "\"type\""),
        Phase::Lower => push_str(out, "\"lower\""),
        Phase::Codegen => push_str(out, "\"codegen\""),
    }
}

impl Diagnostic {
    fn write_json_head(&self, out: &mut Vec<char>)
        ensures
            final(out)@ == old(out)@ + diag_json_head(diag_m(*self)),
    {
        push_str(out, "{\"code\":");
        write_json_string(out, self.code.as_str());
        push_str(out, ",\"severity\":");
        write_severity(out, self.severity);
        push_str(out, ",\"phase\":");
        write_phase(out, self.phase);
        push_str(out, ",\"node_id\":");
        write_opt_json(out, &self.node_id);
        push_str(out, ",\"span\":");
        write_span_json(out, self.span);
        assert(out@ =~= old(out)@ + diag_json_head(diag_m(*self)));
    }

    fn write_json_tail(&self, out: &mut Vec<char>)
        ensures
            final(out)@ == old(out)@ + diag_json_tail(diag_m(*self)),
    {
        push_str(out, ",\"message\":");
        write_json_string(out, self.message.as_str());
        push_str(out, ",\"expected\":");
        write_opt_json(out, &self.expected);
        push_str(out, ",\"actual\":");
        write_opt_json(out, &self.actual);
        push_str(out, ",\"suggested_fix\":{\"strategy\":");
        write_json_string(out, self.suggested_fix.strategy.as_str());
        push_str(out, ",\"patch\":");
        write_json_string(out, self.suggested_fix.patch.as_str());
        push_str(out, "}}");
        assert(out@ =~= old(out)@ + diag_json_tail(diag_m(*self)));
    }

    fn write_json(&self, out: &mut Vec<char>)
        ensures
            final(out)@ == old(out)@ + diag_json(diag_m(*self)),
    {
        self.write_json_head(out);
        self.write_json_tail(out);
        assert(out@ =~= old(out)@ + diag_json(diag_m(*self)));
    }

    /// The diagnostic as one line of compact JSON.
    pub fn to_json(&self) -> (s: String)
        ensures
            s@ == diag_json(diag_m(*self)),
    {
        let mut out: Vec<char> = Vec::new();
        self.write_json(&mut out);
        assert(out@ =~= diag_json(diag_m(*self)));
        chars_to_string(out.as_slice())
    }
}

/// The diagnostics as one JSON array.
pub fn json_batch(diags: &[Diagnostic]) -> (s: String)
    ensures
        s@ == batch_json(diags_m(diags@)),
{
    let ghost dm = diags_m(diags@);
    let mut items: Vec<char> = Vec::new();
    let mut i: usize = 0;
    while i < diags.len()
        invariant
            i <= diags@.len(),
            dm == diags_m(diags@),
            i == 0 ==> items@ == Seq::<char>::empty(),
            diags_json(dm, i as int, items@) == diags_json(dm, 0, Seq::empty()),
        decreases diags@.len() - i,
    {
        let ghost acc = items@;
        if i > 0 {
            push_str(&mut items, ",");
        }
        diags[i].write_json(&mut items);
        assert(items@ =~= (if i == 0 {
            diag_json(dm[i as int])
        } else {
            acc + ","@ + diag_json(dm[i as int])
        }));
        i = i + 1;
    }
    let mut out: Vec<char> = Vec::new();
    push_str(&mut out, "[");
    push_chars(&mut out, items.as_slice());
    push_str(&mut out, "]");
    assert(out@ =~= batch_json(dm));
    chars_to_string(out.as_slice())
}

} // verus!
