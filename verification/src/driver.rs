//! The compiler driver: the pipeline from sources to a checked program, the
//! command line, and the small decisions around them.
use crate::ast::{program_m, FuncM, NodeM, Program};
use crate::diag::{any_error, diags_m, DiagM, Diagnostic, Severity};
use crate::lexer::{lemma_lex_diags_are_errors, lemma_lex_tokens_fit, lex_source, lex_spec, tokens_m};
use crate::parser::{lemma_clean_parse_well_declared, parse_program_from_tokens, parse_spec, well_declared};
use crate::text::{
    chars_eq_str, chars_starts_with, chars_to_string, push_chars, push_str, starts_with, str_chars,
    trim_start_matches, trim_start_matches_exec,
};
use crate::typeck::{check_program, check_program_spec};
use crate::ir::{ir_program_text, lower_program_to_ir};
use crate::json::{program_json, program_json_text};
use crate::native::{emit_linux_x86_64_executable, executable_spec};
use vstd::prelude::*;

verus! {

// ---------------------------------------------------------------------------
// The pipeline
// ---------------------------------------------------------------------------
/// The syntax tree and diagnostics of one source: its lexical diagnostics,
/// and, when none of them is an error, its parse and parse diagnostics.
pub open spec fn parse_source_spec(src: Seq<char>) -> (Seq<NodeM<FuncM>>, Seq<DiagM>) {
    let lx = lex_spec(src);
    if any_error(lx.1) {
        (Seq::empty(), lx.1)
    } else {
        let p = parse_spec(src, lx.0);
        (p.0, lx.1 + p.1)
    }
}

/// Lexes and parses one source.
pub fn parse_source(source: &str) -> (r: (Program, Vec<Diagnostic>))
    requires
        4 * source@.len() + 4 < usize::MAX,
    ensures
        (program_m(r.0), diags_m(r.1@)) == parse_source_spec(source@),
{
    let (tokens, mut diags) = lex_source(source);
    if Diagnostic::has_errors(diags.as_slice()) {
        let p = Program { functions: Vec::new() };
        assert(program_m(p) =~= Seq::empty());
        return (p, diags);
    }
    proof {
        lemma_lex_tokens_fit(source@);
    }
    let (program, mut parse_diags) = parse_program_from_tokens(source, tokens.as_slice());
    let ghost d1 = diags@;
    let ghost d2 = parse_diags@;
    diags.append(&mut parse_diags);
    assert(diags_m(diags@) =~= diags_m(d1) + diags_m(d2));
    (program, diags)
}

/// Parsing a source stops at the lexer when it reports anything: with a
/// lexical diagnostic the program is empty and the diagnostics are the
/// lexer's; without one they are the parser's program and diagnostics.
pub proof fn lemma_parse_source_stages(src: Seq<char>)
    ensures
        lex_spec(src).1.len() > 0 ==> parse_source_spec(src) == (Seq::<NodeM<FuncM>>::empty(), lex_spec(src).1),
        lex_spec(src).1.len() == 0 ==> parse_source_spec(src) == parse_spec(src, lex_spec(src).0),
{
    lemma_lex_diags_are_errors(src);
    if lex_spec(src).1.len() == 0 {
        let p = parse_spec(src, lex_spec(src).0);
        assert(lex_spec(src).1 + p.1 =~= p.1);
    }
}

/// A source that lexes and parses without errors declares every function
/// completely (see `well_declared`): the required `@intent`, `@in` and
/// `@out`, sticky types on every binding, the named `@end func` closure,
/// and loop closures that name their collection.
pub proof fn lemma_clean_source_well_declared(src: Seq<char>)
    requires
        !any_error(parse_source_spec(src).1),
    ensures
        forall|k: int|
            0 <= k < parse_source_spec(src).0.len() ==> well_declared(#[trigger] parse_source_spec(src).0[k].kind),
{
    let lx = lex_spec(src);
    if !any_error(lx.1) {
        let p = parse_spec(src, lx.0);
        assert forall|i: int| 0 <= i < p.1.len() implies p.1[i].severity != Severity::Error by {
            assert((lx.1 + p.1)[lx.1.len() + i] == p.1[i]);
        }
        lemma_clean_parse_well_declared(src, lx.0);
    }
}

/// Every source fits the lexer's byte arithmetic.
pub open spec fn sources_fit(srcs: Seq<Seq<char>>) -> bool {
    forall|i: int| 0 <= i < srcs.len() ==> 4 * (#[trigger] srcs[i]).len() + 4 < usize::MAX
}

/// The functions and diagnostics of the sources from source `i` on,
/// appended to `funcs` and `diags`.
pub open spec fn sources_loop(srcs: Seq<Seq<char>>, i: int, funcs: Seq<NodeM<FuncM>>, diags: Seq<DiagM>) -> (
    Seq<NodeM<FuncM>>,
    Seq<DiagM>,
)
    decreases srcs.len() - i,
{
    if 0 <= i < srcs.len() {
        let r = parse_source_spec(srcs[i]);
        sources_loop(srcs, i + 1, funcs + r.0, diags + r.1)
    } else {
        (funcs, diags)
    }
}

/// The program of several sources in one flat namespace, and the
/// diagnostics: those of every source, then, when none of them is an
/// error, those of checking the combined program.
pub open spec fn check_sources_spec(srcs: Seq<Seq<char>>) -> (Seq<NodeM<FuncM>>, Seq<DiagM>) {
    let r = sources_loop(srcs, 0, Seq::empty(), Seq::empty());
    if any_error(r.1) {
        r
    } else {
        (r.0, r.1 + check_program_spec(r.0))
    }
}

/// The functions of the sources from source `i` on, in order.
pub open spec fn funcs_from(srcs: Seq<Seq<char>>, i: int) -> Seq<NodeM<FuncM>>
    decreases srcs.len() - i,
{
    if 0 <= i < srcs.len() {
        parse_source_spec(srcs[i]).0 + funcs_from(srcs, i + 1)
    } else {
        Seq::empty()
    }
}

/// The diagnostics of parsing the sources from source `i` on, in order.
pub open spec fn diags_from(srcs: Seq<Seq<char>>, i: int) -> Seq<DiagM>
    decreases srcs.len() - i,
{
    if 0 <= i < srcs.len() {
        parse_source_spec(srcs[i]).1 + diags_from(srcs, i + 1)
    } else {
        Seq::empty()
    }
}

proof fn lemma_sources_loop(srcs: Seq<Seq<char>>, i: int, funcs: Seq<NodeM<FuncM>>, diags: Seq<DiagM>)
    requires
        0 <= i <= srcs.len(),
    ensures
        sources_loop(srcs, i, funcs, diags) == (funcs + funcs_from(srcs, i), diags + diags_from(srcs, i)),
    decreases srcs.len() - i,
{
    if i < srcs.len() {
        let r = parse_source_spec(srcs[i]);
        lemma_sources_loop(srcs, i + 1, funcs + r.0, diags + r.1);
        assert(funcs + r.0 + funcs_from(srcs, i + 1) =~= funcs + funcs_from(srcs, i));
        assert(diags + r.1 + diags_from(srcs, i + 1) =~= diags + diags_from(srcs, i));
    } else {
        assert(funcs + funcs_from(srcs, i) =~= funcs);
        assert(diags + diags_from(srcs, i) =~= diags);
    }
}

/// The sources share one flat namespace: their program is the functions of
/// every source, in the order of the sources, and it is checked as one
/// program (so a call in one source resolves to a function of another),
/// unless some source already has an error.
pub proof fn lemma_sources_share_namespace(srcs: Seq<Seq<char>>)
    ensures
        check_sources_spec(srcs).0 == funcs_from(srcs, 0),
        check_sources_spec(srcs).1 == if any_error(diags_from(srcs, 0)) {
            diags_from(srcs, 0)
        } else {
            diags_from(srcs, 0) + check_program_spec(funcs_from(srcs, 0))
        },
{
    lemma_sources_loop(srcs, 0, Seq::empty(), Seq::empty());
    assert(Seq::<NodeM<FuncM>>::empty() + funcs_from(srcs, 0) =~= funcs_from(srcs, 0));
    assert(Seq::<DiagM>::empty() + diags_from(srcs, 0) =~= diags_from(srcs, 0));
}

pub open spec fn strings_m(v: Seq<String>) -> Seq<Seq<char>> {
    Seq::new(v.len(), |i: int| v[i]@)
}

/// Parses every source into one program and checks it when no source had
/// an error.
pub fn check_sources(sources: &[String]) -> (r: (Program, Vec<Diagnostic>))
    requires
        sources_fit(strings_m(sources@)),
    ensures
        (program_m(r.0), diags_m(r.1@)) == check_sources_spec(strings_m(sources@)),
{
    let ghost sm = strings_m(sources@);
    let mut combined = Program { functions: Vec::new() };
    let mut diags: Vec<Diagnostic> = Vec::new();
    let ghost target = sources_loop(sm, 0, Seq::empty(), Seq::empty());
    assert(program_m(combined) =~= Seq::empty());
    assert(diags_m(diags@) =~= Seq::empty());
    let mut i: usize = 0;
    while i < sources.len()
        invariant
            i <= sources@.len(),
            sm == strings_m(sources@),
            sources_fit(sm),
            sources_loop(sm, i as int, program_m(combined), diags_m(diags@)) == target,
        decreases sources@.len() - i,
    {
        assert(sm[i as int] == sources@[i as int]@);
        let (mut program, mut file_diags) = parse_source(sources[i].as_str());
        let ghost f0 = combined.functions@;
        let ghost f1 = program.functions@;
        let ghost d0 = diags@;
        let ghost d1 = file_diags@;
        combined.functions.append(&mut program.functions);
        diags.append(&mut file_diags);
        assert(program_m(combined) =~= crate::ast::funcs_m(f0) + crate::ast::funcs_m(f1));
        assert(diags_m(diags@) =~= diags_m(d0) + diags_m(d1));
        i = i + 1;
    }
    if !Diagnostic::has_errors(diags.as_slice()) {
        let mut checked = check_program(&combined);
        let ghost d0 = diags@;
        let ghost d1 = checked@;
        diags.append(&mut checked);
        assert(diags_m(diags@) =~= diags_m(d0) + diags_m(d1));
    }
    (combined, diags)
}

// ---------------------------------------------------------------------------
// Source files
// ---------------------------------------------------------------------------
/// A hidden file or directory: its name starts with a dot.
pub fn is_hidden_name(name: &str) -> (r: bool)
    ensures
        r == (name@.len() > 0 && name@[0] == '.'),
{
    let v = str_chars(name);
    v.len() > 0 && v[0] == '.'
}

/// A source file: its extension is `jb`.
pub fn is_source_file_name(name: &str) -> (r: bool)
    ensures
        r == (name@.len() > 3 && name@.subrange(name@.len() - 3, name@.len() as int) == ".jb"@),
{
    let v = str_chars(name);
    let n = v.len();
    if n <= 3 {
        return false;
    }
    let tail = crate::text::sub_chars(v.as_slice(), n - 3, n);
    chars_eq_str(tail.as_slice(), ".jb")
}

// ---------------------------------------------------------------------------
// The command line
// ---------------------------------------------------------------------------
#[derive(Debug, Clone, Copy, PartialEq, Eq, Structural)]
pub enum Command {
    Check,
    Build,
    Fmt,
}

#[derive(Debug, Clone, Copy, PartialEq, Eq, Structural)]
pub enum EmitKind {
    Ir,
    AstJson,
    Obj,
    Exe,
}

/// The parsed command line.
#[derive(Debug)]
pub struct Cli {
    pub command: Command,
    pub path: String,
    pub json: bool,
    pub json_batch: bool,
    pub emit: EmitKind,
    pub output: Option<String>,
    pub entry: String,
}

/// The state of reading the arguments.
pub struct CliSt {
    pub command: Option<Command>,
    pub path: Option<Seq<char>>,
    pub json: bool,
    pub json_batch: bool,
    pub emit: EmitKind,
    pub output: Option<Seq<char>>,
    pub entry: Seq<char>,
}

pub struct CliM {
    pub command: Command,
    pub path: Seq<char>,
    pub json: bool,
    pub json_batch: bool,
    pub emit: EmitKind,
    pub output: Option<Seq<char>>,
    pub entry: Seq<char>,
}

pub open spec fn cli_m(c: Cli) -> CliM {
    CliM {
        command: c.command,
        path: c.path@,
        json: c.json,
        json_batch: c.json_batch,
        emit: c.emit,
        output: crate::diag::opt_m(c.output),
        entry: c.entry@,
    }
}

/// The emit kind a value names.
pub open spec fn emit_of(v: Seq<char>) -> Option<EmitKind> {
    if v == "ir"@ {
        Some(EmitKind::Ir)
    } else if v == "ast-json"@ {
        Some(EmitKind::AstJson)
    } else if v == "obj"@ {
        Some(EmitKind::Obj)
    } else if v == "exe"@ {
        Some(EmitKind::Exe)
    } else {
        None
    }
}

pub open spec fn unknown_emit(v: Seq<char>) -> Seq<char> {
    "unknown emit kind: "@ + v
}

/// Reads the arguments from argument `i` on.
pub open spec fn cli_loop(args: Seq<Seq<char>>, i: int, st: CliSt) -> Result<CliSt, Seq<char>>
    decreases args.len() - i,
{
    if i < 0 || i >= args.len() {
        Ok(st)
    } else {
        let a = args[i];
        let has_value = i + 1 < args.len();
        if a == "--json"@ {
            cli_loop(args, i + 1, CliSt { json: true, ..st })
        } else if a == "--json-batch"@ {
            cli_loop(args, i + 1, CliSt { json_batch: true, ..st })
        } else if a == "check"@ {
            cli_loop(args, i + 1, CliSt { command: Some(Command::Check), ..st })
        } else if a == "build"@ {
            cli_loop(args, i + 1, CliSt { command: Some(Command::Build), ..st })
        } else if a == "fmt"@ {
            cli_loop(args, i + 1, CliSt { command: Some(Command::Fmt), ..st })
        } else if starts_with(a, "--emit="@) {
            let v = trim_start_matches(a, "--emit="@);
            match emit_of(v) {
                Some(k) => cli_loop(args, i + 1, CliSt { emit: k, ..st }),
                None => Err(unknown_emit(v)),
            }
        } else if a == "--emit"@ {
            if has_value {
                match emit_of(args[i + 1]) {
                    Some(k) => cli_loop(args, i + 2, CliSt { emit: k, ..st }),
                    None => Err(unknown_emit(args[i + 1])),
                }
            } else {
                Err("--emit requires a value"@)
            }
        } else if a == "-o"@ || a == "--output"@ {
            if has_value {
                cli_loop(args, i + 2, CliSt { output: Some(args[i + 1]), ..st })
            } else {
                Err(a + " requires a path"@)
            }
        } else if starts_with(a, "--output="@) {
            cli_loop(args, i + 1, CliSt { output: Some(trim_start_matches(a, "--output="@)), ..st })
        } else if a == "--entry"@ {
            if has_value {
                cli_loop(args, i + 2, CliSt { entry: args[i + 1], ..st })
            } else {
                Err("--entry requires a function name"@)
            }
        } else if starts_with(a, "--entry="@) {
            cli_loop(args, i + 1, CliSt { entry: trim_start_matches(a, "--entry="@), ..st })
        } else if starts_with(a, "-"@) {
            Err("unknown flag: "@ + a)
        } else {
            cli_loop(args, i + 1, CliSt { path: Some(a), ..st })
        }
    }
}

pub open spec fn cli_init() -> CliSt {
    CliSt {
        command: None,
        path: None,
        json: false,
        json_batch: false,
        emit: EmitKind::Ir,
        output: None,
        entry: "main"@,
    }
}

/// The command line of a list of arguments, or the message that rejects it.
pub open spec fn parse_cli_spec(args: Seq<Seq<char>>) -> Result<CliM, Seq<char>> {
    if args.len() == 0 {
        Err("missing subcommand"@)
    } else {
        match cli_loop(args, 0, cli_init()) {
            Err(e) => Err(e),
            Ok(st) => match st.command {
                None => Err("missing subcommand"@),
                Some(c) => match st.path {
                    None => Err("missing path"@),
                    Some(p) => Ok(
                        CliM {
                            command: c,
                            path: p,
                            json: st.json,
                            json_batch: st.json_batch,
                            emit: st.emit,
                            output: st.output,
                            entry: st.entry,
                        },
                    ),
                },
            },
        }
    }
}

fn emit_kind_of(v: &[char]) -> (r: Option<EmitKind>)
    ensures
        r == emit_of(v@),
{
    if chars_eq_str(v, "ir") {
        Some(EmitKind::Ir)
    } else if chars_eq_str(v, "ast-json") {
        Some(EmitKind::AstJson)
    } else if chars_eq_str(v, "obj") {
        Some(EmitKind::Obj)
    } else if chars_eq_str(v, "exe") {
        Some(EmitKind::Exe)
    } else {
        None
    }
}

fn text_after(a: &str, v: &[char]) -> (s: String)
    ensures
        s@ == a@ + v@,
{
    let mut m: Vec<char> = Vec::new();
    push_str(&mut m, a);
    push_chars(&mut m, v);
    chars_to_string(m.as_slice())
}

/// Reads the command line: a subcommand, a path, and the flags.
#[verifier::loop_isolation(false)]
pub fn parse_cli(args: Vec<String>) -> (r: Result<Cli, String>)
    ensures
        match parse_cli_spec(strings_m(args@)) {
            Ok(c) => r matches Ok(x) && cli_m(x) == c,
            Err(e) => r matches Err(m) && m@ == e,
        },
{
    let ghost am = strings_m(args@);
    if args.len() == 0 {
        return Err("missing subcommand".to_owned());
    }
    let mut json = false;
    let mut json_batch = false;
    let mut emit = EmitKind::Ir;
    let mut command: Option<Command> = None;
    let mut path: Option<String> = None;
    let mut output: Option<String> = None;
    let mut entry = "main".to_owned();
    let ghost target = cli_loop(am, 0, cli_init());
    let mut i: usize = 0;
    while i < args.len()
        invariant
            i <= args@.len(),
            am == strings_m(args@),
            cli_loop(
                am,
                i as int,
                CliSt {
                    command,
                    path: crate::diag::opt_m(path),
                    json,
                    json_batch,
                    emit,
                    output: crate::diag::opt_m(output),
                    entry: entry@,
                },
            ) == target,
        decreases args@.len() - i,
    {
        let a = str_chars(args[i].as_str());
        assert(am[i as int] == a@);
        let has_value = i + 1 < args.len();
        if has_value {
            assert(am[i + 1] == args@[i + 1]@);
        }
        if chars_eq_str(a.as_slice(), "--json") {
            json = true;
            i = i + 1;
        } else if chars_eq_str(a.as_slice(), "--json-batch") {
            json_batch = true;
            i = i + 1;
        } else if chars_eq_str(a.as_slice(), "check") {
            command = Some(Command::Check);
            i = i + 1;
        } else if chars_eq_str(a.as_slice(), "build") {
            command = Some(Command::Build);
            i = i + 1;
        } else if chars_eq_str(a.as_slice(), "fmt") {
            command = Some(Command::Fmt);
            i = i + 1;
        } else if chars_starts_with(a.as_slice(), "--emit=") {
            let v = trim_start_matches_exec(a.as_slice(), "--emit=");
            match emit_kind_of(v.as_slice()) {
                Some(k) => {
                    emit = k;
                    i = i + 1;
                },
                None => {
                    return Err(text_after("unknown emit kind: ", v.as_slice()));
                },
            }
        } else if chars_eq_str(a.as_slice(), "--emit") {
            if !has_value {
                return Err("--emit requires a value".to_owned());
            }
            let v = str_chars(args[i + 1].as_str());
            match emit_kind_of(v.as_slice()) {
                Some(k) => {
                    emit = k;
                    i = i + 2;
                },
                None => {
                    return Err(text_after("unknown emit kind: ", v.as_slice()));
                },
            }
        } else if chars_eq_str(a.as_slice(), "-o") || chars_eq_str(a.as_slice(), "--output") {
            if !has_value {
                let mut m: Vec<char> = Vec::new();
                push_chars(&mut m, a.as_slice());
                push_str(&mut m, " requires a path");
                return Err(chars_to_string(m.as_slice()));
            }
            output = Some(args[i + 1].clone());
            i = i + 2;
        } else if chars_starts_with(a.as_slice(), "--output=") {
            let v = trim_start_matches_exec(a.as_slice(), "--output=");
            output = Some(chars_to_string(v.as_slice()));
            i = i + 1;
        } else if chars_eq_str(a.as_slice(), "--entry") {
            if !has_value {
                return Err("--entry requires a function name".to_owned());
            }
            entry = args[i + 1].clone();
            i = i + 2;
        } else if chars_starts_with(a.as_slice(), "--entry=") {
            let v = trim_start_matches_exec(a.as_slice(), "--entry=");
            entry = chars_to_string(v.as_slice());
            i = i + 1;
        } else if chars_starts_with(a.as_slice(), "-") {
            return Err(text_after("unknown flag: ", a.as_slice()));
        } else {
            path = Some(args[i].clone());
            i = i + 1;
        }
    }
    let command = match command {
        Some(c) => c,
        None => {
            return Err("missing subcommand".to_owned());
        },
    };
    let path = match path {
        Some(p) => p,
        None => {
            return Err("missing path".to_owned());
        },
    };
    Ok(Cli { command, path, json, json_batch, emit, output, entry })
}

/// The usage line of the command.
pub fn usage() -> (s: &'static str)
    ensures
        s@ == "usage: jbc [--json|--json-batch] <check|build|fmt> <path> [--emit=ir|ast-json|obj|exe] [-o <path>] [--entry <func>]"@,
{
    "usage: jbc [--json|--json-batch] <check|build|fmt> <path> [--emit=ir|ast-json|obj|exe] [-o <path>] [--entry <func>]"
}

/// How diagnostics are reported.
#[derive(Debug, Clone, Copy, PartialEq, Eq, Structural)]
pub enum DiagReport {
    /// One JSON array.
    Batch,
    /// One JSON object per line.
    Lines,
    /// The word `ok`, when there is nothing to report.
    Quiet,
}

/// How the diagnostics of a run are reported: the JSON array when asked
/// for, else one object per line, except that a run without diagnostics
/// that asked for neither says `ok`.
pub fn diag_report(cli: &Cli, count: usize) -> (r: DiagReport)
    ensures
        r == (if cli.json_batch {
            DiagReport::Batch
        } else if cli.json {
            DiagReport::Lines
        } else if count == 0 {
            DiagReport::Quiet
        } else {
            DiagReport::Lines
        }),
{
    if cli.json_batch {
        DiagReport::Batch
    } else if cli.json {
        DiagReport::Lines
    } else if count == 0 {
        DiagReport::Quiet
    } else {
        DiagReport::Lines
    }
}

// ---------------------------------------------------------------------------
// Output paths
// ---------------------------------------------------------------------------
/// What `Path::with_extension` gives for a path and an extension.
pub uninterp spec fn path_with_extension(path: Seq<char>, ext: Seq<char>) -> Seq<char>;

/// `std::path::Path::with_extension`, rendered back as text: the path with
/// the extension of its file name set to `ext`. The result is a function of
/// the two texts alone; this contract names it and says no more of it. The
/// call panics on an extension that holds a path separator, which the
/// precondition leaves out.
#[verifier::external_body]
fn with_extension(path: &str, ext: &str) -> (r: String)
    requires
        forall|i: int| 0 <= i < ext@.len() ==> ext@[i] != '/',
    ensures
        r@ == path_with_extension(path@, ext@),
{
    std::path::Path::new(path).with_extension(ext).to_string_lossy().into_owned()
}

/// The output file of a build that writes one: the input with the extension
/// `o` for an object file, `a.out` for an executable.
pub fn default_output_path(input: &str, emit: EmitKind) -> (r: String)
    requires
        emit == EmitKind::Obj || emit == EmitKind::Exe,
    ensures
        emit == EmitKind::Obj ==> r@ == path_with_extension(input@, "o"@),
        emit == EmitKind::Exe ==> r@ == "a.out"@,
{
    match emit {
        EmitKind::Obj => {
            proof {
                reveal_strlit("o");
            }
            with_extension(input, "o")
        },
        _ => "a.out".to_owned(),
    }
}

// ---------------------------------------------------------------------------
// What a build produces
// ---------------------------------------------------------------------------
/// The artifact of a build of a checked program, and where it goes.
#[derive(Debug)]
pub enum BuildPlan {
    /// Text for standard output: the LLVM IR or the AST JSON.
    Print(String),
    /// LLVM IR to compile into an object file at `output`.
    CompileObject { ir: String, output: String },
    /// The bytes of an executable to write at `output`.
    WriteExecutable { bytes: Vec<u8>, output: String },
    /// The build cannot be made; the message says why.
    Fail(String),
}

/// The output path of a build that writes a file: the one asked for, or the
/// default for the kind of artifact.
pub open spec fn output_for(cli: CliM, default_path: Seq<char>) -> Seq<char> {
    match cli.output {
        Some(o) => o,
        None => default_path,
    }
}

/// The artifact of building a checked program as the command line asks.
pub fn plan_build(program: &Program, cli: &Cli) -> (r: BuildPlan)
    ensures
        match cli.emit {
            EmitKind::Ir => r matches BuildPlan::Print(s) && s@ == ir_program_text(program_m(*program)),
            EmitKind::AstJson => r matches BuildPlan::Print(s) && s@ == program_json_text(program_m(*program)),
            EmitKind::Obj => r matches BuildPlan::CompileObject { ir, output } && ir@ == ir_program_text(
                program_m(*program),
            ) && output@ == output_for(cli_m(*cli), path_with_extension(cli.path@, "o"@)),
            EmitKind::Exe => match executable_spec(program_m(*program), cli.entry@) {
                Ok(b) => r matches BuildPlan::WriteExecutable { bytes, output } && bytes@ == b && output@
                    == output_for(cli_m(*cli), "a.out"@),
                Err(e) => r matches BuildPlan::Fail(m) && m@ == e,
            },
        },
{
    match cli.emit {
        EmitKind::Ir => BuildPlan::Print(lower_program_to_ir(program)),
        EmitKind::AstJson => BuildPlan::Print(program_json(program)),
        EmitKind::Obj => {
            let output = match &cli.output {
                Some(o) => o.clone(),
                None => default_output_path(cli.path.as_str(), EmitKind::Obj),
            };
            BuildPlan::CompileObject { ir: lower_program_to_ir(program), output }
        },
        EmitKind::Exe => match emit_linux_x86_64_executable(program, cli.entry.as_str()) {
            Ok(bytes) => {
                let output = match &cli.output {
                    Some(o) => o.clone(),
                    None => default_output_path(cli.path.as_str(), EmitKind::Exe),
                };
                BuildPlan::WriteExecutable { bytes, output }
            },
            Err(m) => BuildPlan::Fail(m),
        },
    }
}

} // verus!
