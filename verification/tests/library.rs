use jbc::ast::{Span, Type};
use jbc::diag::{fix, json_batch, Diagnostic, Phase, Severity};
use jbc::driver::{
    check_sources, default_output_path, diag_report, parse_cli, parse_source, plan_build, usage, BuildPlan, Command, DiagReport,
    EmitKind,
};
use jbc::ir::{mangle_user_func, sanitize_name};
use jbc::lexer::{lex_source, TokenKind};
use jbc::lines::stable_hash;
use jbc::native::{align_to, emit_linux_x86_64_executable, type_slot_size, wrap_elf, CODE_OFFSET};
use jbc::parser::{parse_sticky_binding, parse_type};
use jbc::pretty::{escape_string_literal, expr_to_string};

fn args(v: &[&str]) -> Vec<String> {
    v.iter().map(|s| s.to_string()).collect()
}

fn codes(diags: &[Diagnostic]) -> Vec<String> {
    diags.iter().map(|d| d.code.clone()).collect()
}

const SEED: &str = "@func main\n@intent: Return the seed\n@in seed::i32\n@out result::i32\n---\nset result = seed\nreturn result\n@end func main\n";

// ----- lexer ---------------------------------------------------------------

#[test]
fn lexer_rejects_bare_braces() {
    let (_, diags) = lex_source("let x::i32 = 1 {\n}");
    let c = codes(&diags);
    assert_eq!(c, vec!["E_LEX003".to_string(), "E_LEX003".to_string()]);
    assert_eq!(diags[0].span.start_byte, 15);
    assert_eq!(diags[0].span.end_byte, 16);
    assert_eq!(diags[0].actual.as_deref(), Some("{"));
    assert_eq!(diags[0].severity, Severity::Error);
    assert_eq!(diags[0].phase, Phase::Lex);
}

#[test]
fn lexer_rejects_unknown_tags() {
    let (tokens, diags) = lex_source("@func main\n@foo bar\n");
    assert_eq!(codes(&diags), vec!["E_LEX004".to_string()]);
    assert_eq!(diags[0].actual.as_deref(), Some("@foo"));
    assert_eq!(tokens[0].kind, TokenKind::Tag);
    assert_eq!(tokens[0].lexeme, "@func");
    assert!(tokens.iter().all(|t| t.lexeme != "@foo"));
}

#[test]
fn lexer_braces_inside_strings_are_text() {
    let (tokens, diags) = lex_source("let s::string = \"{x}\"");
    assert!(diags.is_empty());
    assert!(tokens.iter().any(|t| t.kind == TokenKind::String && t.lexeme == "{x}"));
}

#[test]
fn lexer_tokens_and_eof() {
    let (tokens, diags) = lex_source("set x = -3.5 >= y\n");
    assert!(diags.is_empty());
    let kinds: Vec<TokenKind> = tokens.iter().map(|t| t.kind).collect();
    assert_eq!(
        kinds,
        vec![
            TokenKind::Keyword,
            TokenKind::Ident,
            TokenKind::Operator,
            TokenKind::Float,
            TokenKind::Operator,
            TokenKind::Ident,
            TokenKind::Newline,
            TokenKind::Eof,
        ]
    );
    assert_eq!(tokens[3].lexeme, "-3.5");
    assert_eq!(tokens[4].lexeme, ">=");
    assert_eq!(tokens[7].span.start_byte, 18);
}

#[test]
fn lexer_invalid_character() {
    let (_, diags) = lex_source("let x::i32 = 1;");
    assert_eq!(codes(&diags), vec!["E_LEX001".to_string()]);
}

// ----- types and bindings --------------------------------------------------

#[test]
fn parse_type_examples() {
    assert_eq!(parse_type("i32"), Ok(Type::I32));
    assert_eq!(parse_type("  string "), Ok(Type::String));
    assert_eq!(parse_type("Vector<i32>"), Ok(Type::Vector(Box::new(Type::I32))));
    assert_eq!(
        parse_type("Result<Option<u8>, string>"),
        Ok(Type::Result(Box::new(Type::Option(Box::new(Type::U8))), Box::new(Type::String)))
    );
    assert_eq!(parse_type("Box<bool>"), Ok(Type::Boxed(Box::new(Type::Bool))));
    assert_eq!(parse_type("float"), Err("float".to_string()));
    assert_eq!(parse_type("Vector<Float>"), Err("Float".to_string()));
}

#[test]
fn type_text_roundtrip_examples() {
    for text in ["i8", "u64", "f32", "unit", "Vector<Option<i64>>", "Result<i32,string>"] {
        let t = parse_type(text).unwrap();
        assert_eq!(t.to_text(), text);
    }
}

#[test]
fn sticky_binding_examples() {
    let b = parse_sticky_binding("count::u16").unwrap();
    assert_eq!(b.name, "count");
    assert_eq!(b.ty, Type::U16);
    assert!(parse_sticky_binding("count").is_err());
    assert!(parse_sticky_binding("9x::i32").is_err());
}

// ----- parser --------------------------------------------------------------

#[test]
fn missing_intent_is_rejected() {
    let src = "@func main\n@in seed::i32\n@out result::i32\n---\nreturn seed\n@end func main\n";
    let (_, diags) = parse_source(src);
    assert!(codes(&diags).contains(&"E_INTENT001".to_string()));
}

#[test]
fn missing_separator_is_rejected() {
    let src = "@func main\n@intent: x\n@in seed::i32\n@out result::i32\nreturn seed\n@end func main\n";
    let (_, diags) = parse_source(src);
    assert!(diags.iter().any(|d| d.code == "E_INTENT001" && d.expected.as_deref() == Some("---")));
}

#[test]
fn function_close_name_must_match() {
    let src = "@func main\n@intent: x\n@in seed::i32\n@out result::i32\n---\nreturn seed\n@end func other\n";
    let (program, diags) = parse_source(src);
    assert_eq!(codes(&diags), vec!["E_CLOSE001".to_string()]);
    assert_eq!(program.functions[0].kind.close_name, "other");
}

#[test]
fn clean_parse_has_complete_preamble() {
    let (program, diags) = parse_source(SEED);
    assert!(diags.is_empty());
    let f = &program.functions[0].kind;
    assert_eq!(f.name, "main");
    assert_eq!(f.intent, "Return the seed");
    assert_eq!(f.inputs.len(), 1);
    assert_eq!(f.inputs[0].name, "seed");
    assert_eq!(f.output.name, "result");
    assert_eq!(f.close_name, "main");
    assert!(program.functions[0].id.starts_with("func:"));
    assert!(program.functions[0].id.ends_with(&format!(":{:08x}", stable_hash(SEED))));
}

// ----- the checker ---------------------------------------------------------

#[test]
fn builtin_signatures_type_check() {
    let src = "@func main\n@intent: Use the built-ins\n@in seed::i32\n@out result::i32\n---\nlet a::i32 = abs_i32(seed)\nlet b::i32 = max_i32(a, 3)\nlet even::bool = is_even_i32(b)\nlet v::Vector<i32> = vector_i32_3(a, b, 1)\nlet n::i64 = vector_len_i32(v)\ndebug_i32(b)\nset result = b\nreturn result\n@end func main\n";
    let (_, diags) = check_sources(&[src.to_string()]);
    assert!(diags.is_empty(), "{:?}", codes(&diags));
}

#[test]
fn builtin_argument_type_is_checked() {
    let src = "@func main\n@intent: Misuse a built-in\n@in seed::i32\n@out result::i32\n---\nlet a::i32 = abs_i32(\"x\")\nset result = a\nreturn result\n@end func main\n";
    let (_, diags) = check_sources(&[src.to_string()]);
    assert!(codes(&diags).contains(&"E_TYPE002".to_string()));
}

#[test]
fn unknown_function_is_reported_without_its_source() {
    let caller = "@func main\n@intent: Call a helper\n@in seed::i32\n@out result::i32\n---\nset result = helper(seed)\nreturn result\n@end func main\n";
    let helper = "@func helper\n@intent: Double a value\n@in value::i32\n@out result::i32\n---\nset result = value * 2\nreturn result\n@end func helper\n";
    let (_, alone) = check_sources(&[caller.to_string()]);
    assert!(alone.iter().any(|d| d.code == "E_NAME001" && d.message == "unknown function"));
    let (program, both) = check_sources(&[caller.to_string(), helper.to_string()]);
    assert!(both.is_empty());
    let names: Vec<&str> = program.functions.iter().map(|f| f.kind.name.as_str()).collect();
    assert_eq!(names, vec!["main", "helper"]);
}

// ----- rendering -----------------------------------------------------------

#[test]
fn escape_string_literal_examples() {
    assert_eq!(escape_string_literal("a\"b\\c\nd\te"), "a\\\"b\\\\c\\nd\\te");
    assert_eq!(escape_string_literal("plain"), "plain");
}

#[test]
fn expr_to_string_of_parsed_expression() {
    let src = "@func main\n@intent: x\n@in seed::i32\n@out result::i32\n---\nset result = (seed + 2) * max_i32(seed, -1)\nreturn result\n@end func main\n";
    let (program, diags) = parse_source(src);
    assert!(diags.is_empty());
    match &program.functions[0].kind.body[0].kind {
        jbc::ast::Statement::SetVar(s) => {
            assert_eq!(expr_to_string(&s.value), "(seed + 2) * max_i32(seed, -1)");
        }
        other => panic!("unexpected statement {:?}", other),
    }
}

#[test]
fn diagnostic_json_is_exact() {
    let span = Span { start_byte: 1, end_byte: 2, start_line: 3, start_col: 4, end_line: 5, end_col: 6 };
    let d = Diagnostic::error(
        "E_TEST001",
        Phase::Parse,
        None,
        span,
        "bad \"thing\"",
        Some("x".to_string()),
        Some("\u{1}\n".to_string()),
        fix("insert", "y".to_string()),
    );
    assert_eq!(
        d.to_json(),
        "{\"code\":\"E_TEST001\",\"severity\":\"error\",\"phase\":\"parse\",\"node_id\":null,\"span\":{\"start_byte\":1,\"end_byte\":2,\"start_line\":3,\"start_col\":4,\"end_line\":5,\"end_col\":6},\"message\":\"bad \\\"thing\\\"\",\"expected\":\"x\",\"actual\":\"\\u0001\\n\",\"suggested_fix\":{\"strategy\":\"insert\",\"patch\":\"y\"}}"
    );
    assert_eq!(json_batch(&[]), "[]");
    let batch = json_batch(&[d]);
    assert!(batch.starts_with("[{\"code\":\"E_TEST001\""));
    assert!(batch.ends_with("}}]"));
}

#[test]
fn warning_is_not_an_error() {
    let span = Span { start_byte: 0, end_byte: 0, start_line: 1, start_col: 1, end_line: 1, end_col: 1 };
    let w = Diagnostic::warning("W_X", Phase::Type, None, span, "m", None, None, fix("none", String::new()));
    assert_eq!(w.severity, Severity::Warning);
    assert!(!Diagnostic::has_errors(&[w]));
}

// ----- names and hashes ----------------------------------------------------

#[test]
fn sanitize_and_mangle() {
    assert_eq!(sanitize_name("a.b c-d"), "a.b_c_d");
    assert_eq!(mangle_user_func("find-max"), "jb_find_max");
}

#[test]
fn stable_hash_is_fnv1a() {
    assert_eq!(stable_hash(""), 0x811c9dc5);
    assert_eq!(stable_hash("a"), 0xe40c292c);
}

// ----- command line --------------------------------------------------------

#[test]
fn cli_defaults_and_flags() {
    let cli = parse_cli(args(&["check", "demo.jb"])).unwrap();
    assert_eq!(cli.command, Command::Check);
    assert_eq!(cli.path, "demo.jb");
    assert!(!cli.json && !cli.json_batch);
    assert_eq!(cli.emit, EmitKind::Ir);
    assert_eq!(cli.output, None);
    assert_eq!(cli.entry, "main");

    let cli = parse_cli(args(&["--json-batch", "build", "src", "--emit=exe", "-o", "out/app", "--entry=start"])).unwrap();
    assert_eq!(cli.command, Command::Build);
    assert!(cli.json_batch);
    assert_eq!(cli.emit, EmitKind::Exe);
    assert_eq!(cli.output.as_deref(), Some("out/app"));
    assert_eq!(cli.entry, "start");

    let cli = parse_cli(args(&["build", "x.jb", "--emit", "ast-json", "--output=y.json", "--entry", "f"])).unwrap();
    assert_eq!(cli.emit, EmitKind::AstJson);
    assert_eq!(cli.output.as_deref(), Some("y.json"));
    assert_eq!(cli.entry, "f");
}

#[test]
fn cli_errors() {
    assert_eq!(parse_cli(vec![]).unwrap_err(), "missing subcommand");
    assert_eq!(parse_cli(args(&["demo.jb"])).unwrap_err(), "missing subcommand");
    assert_eq!(parse_cli(args(&["check"])).unwrap_err(), "missing path");
    assert_eq!(parse_cli(args(&["check", "x", "--verbose"])).unwrap_err(), "unknown flag: --verbose");
    assert_eq!(parse_cli(args(&["build", "x", "--emit=wasm"])).unwrap_err(), "unknown emit kind: wasm");
    assert_eq!(parse_cli(args(&["build", "x", "--emit"])).unwrap_err(), "--emit requires a value");
    assert_eq!(parse_cli(args(&["build", "x", "-o"])).unwrap_err(), "-o requires a path");
    assert_eq!(parse_cli(args(&["build", "x", "--entry"])).unwrap_err(), "--entry requires a function name");
    assert!(usage().starts_with("usage: jbc"));
}

#[test]
fn diagnostics_report_mode() {
    let plain = parse_cli(args(&["check", "x"])).unwrap();
    assert_eq!(diag_report(&plain, 0), DiagReport::Quiet);
    assert_eq!(diag_report(&plain, 2), DiagReport::Lines);
    let json = parse_cli(args(&["--json", "check", "x"])).unwrap();
    assert_eq!(diag_report(&json, 0), DiagReport::Lines);
    let batch = parse_cli(args(&["--json", "--json-batch", "check", "x"])).unwrap();
    assert_eq!(diag_report(&batch, 0), DiagReport::Batch);
}

#[test]
fn default_output_paths() {
    assert_eq!(default_output_path("dir/main.jb", EmitKind::Obj), "dir/main.o");
    assert_eq!(default_output_path("main", EmitKind::Obj), "main.o");
    assert_eq!(default_output_path("dir/main.jb", EmitKind::Exe), "a.out");
}

// ----- native backend ------------------------------------------------------

#[test]
fn elf_wrapper_layout() {
    let code = vec![0x90u8, 0xc3];
    let image = wrap_elf(code.clone());
    assert_eq!(image.len(), CODE_OFFSET + 2);
    assert_eq!(&image[0..4], &[0x7f, b'E', b'L', b'F']);
    assert_eq!(&image[24..32], &0x400078u64.to_le_bytes());
    assert_eq!(&image[96..104], &122u64.to_le_bytes());
    assert_eq!(&image[CODE_OFFSET..], &code[..]);
}

#[test]
fn frame_alignment() {
    assert_eq!(align_to(0), 0);
    assert_eq!(align_to(1), 16);
    assert_eq!(align_to(16), 16);
    assert_eq!(align_to(40), 48);
    assert_eq!(align_to(i32::MAX), i32::MAX);
    assert_eq!(type_slot_size(&Type::I32), 8);
    assert_eq!(type_slot_size(&Type::String), 24);
    assert_eq!(type_slot_size(&Type::Option(Box::new(Type::I8))), 16);
}

#[test]
fn native_executable_for_entry() {
    let (program, diags) = check_sources(&[SEED.to_string()]);
    assert!(diags.is_empty());
    let bytes = emit_linux_x86_64_executable(&program, "main").unwrap();
    assert_eq!(&bytes[0..4], &[0x7f, b'E', b'L', b'F']);
    assert!(bytes.len() > CODE_OFFSET);
    let size = u64::from_le_bytes(bytes[96..104].try_into().unwrap());
    assert_eq!(size as usize, bytes.len());
}

#[test]
fn native_executable_needs_entry() {
    let (program, _) = check_sources(&[SEED.to_string()]);
    assert_eq!(
        emit_linux_x86_64_executable(&program, "start").unwrap_err(),
        "native entrypoint function not found: start"
    );
}

// ----- build plans ---------------------------------------------------------

#[test]
fn build_plans_follow_the_emit_kind() {
    let (program, _) = check_sources(&[SEED.to_string()]);
    let ir = jbc::ir::lower_program_to_ir(&program);

    let cli = parse_cli(args(&["build", "dir/app.jb"])).unwrap();
    match plan_build(&program, &cli) {
        BuildPlan::Print(text) => assert_eq!(text, ir),
        other => panic!("unexpected plan {:?}", other),
    }

    let cli = parse_cli(args(&["build", "dir/app.jb", "--emit=ast-json"])).unwrap();
    match plan_build(&program, &cli) {
        BuildPlan::Print(text) => assert_eq!(text, jbc::json::program_json(&program)),
        other => panic!("unexpected plan {:?}", other),
    }

    let cli = parse_cli(args(&["build", "dir/app.jb", "--emit=obj"])).unwrap();
    match plan_build(&program, &cli) {
        BuildPlan::CompileObject { ir: text, output } => {
            assert_eq!(text, ir);
            assert_eq!(output, "dir/app.o");
        }
        other => panic!("unexpected plan {:?}", other),
    }

    let cli = parse_cli(args(&["build", "dir/app.jb", "--emit=exe"])).unwrap();
    match plan_build(&program, &cli) {
        BuildPlan::WriteExecutable { bytes, output } => {
            assert_eq!(bytes, emit_linux_x86_64_executable(&program, "main").unwrap());
            assert_eq!(output, "a.out");
        }
        other => panic!("unexpected plan {:?}", other),
    }

    let cli = parse_cli(args(&["build", "dir/app.jb", "--emit=exe", "-o", "bin/x", "--entry=nope"])).unwrap();
    match plan_build(&program, &cli) {
        BuildPlan::Fail(message) => assert_eq!(message, "native entrypoint function not found: nope"),
        other => panic!("unexpected plan {:?}", other),
    }
}

// ----- documented examples and rules ---------------------------------------

const CLAMP: &str = "@func clamp_i32\n@intent: Clamp an i32 into inclusive bounds\n@in x::i32\n@in low::i32\n@in high::i32\n@out result::i32\n---\nset result = x\n@condition below_low\nif (x < low) -> set result = low\n@condition above_high\nif (x > high) -> set result = high\nreturn result\n@end func clamp_i32\n";

#[test]
fn readme_clamp_example_checks_and_builds() {
    let (program, diags) = check_sources(&[CLAMP.to_string()]);
    assert!(diags.is_empty(), "{:?}", codes(&diags));
    let once = jbc::pretty::pretty_program(&program);
    let (again, d2) = parse_source(&once);
    assert!(d2.is_empty());
    assert_eq!(jbc::pretty::pretty_program(&again), once);
    let bytes = emit_linux_x86_64_executable(&program, "clamp_i32").unwrap();
    assert_eq!(&bytes[0..4], &[0x7f, b'E', b'L', b'F']);
}

#[test]
fn manual_examples_check_cleanly() {
    let add = "@func add_i32\n@intent: Add two signed 32-bit integers\n@in left::i32\n@in right::i32\n@out result::i32\n---\nset result = left + right\nreturn result\n@end func add_i32\n";
    let sum = "@func sum_positive_even\n@intent: Sum positive even numbers\n@in nums::Vector<i32>\n@out result::i32\n---\nlet total::i32 = 0\n@loop item::i32 in nums\n  @condition skip_non_positive\n  if (item <= 0) -> @continue\n  @condition skip_odd\n  if (item % 2 != 0) -> @continue\n  @condition add_value\n  if (item >= 0) -> set total = total + item\n@end loop nums\nset result = total\nreturn result\n@end func sum_positive_even\n";
    let demo = "@func vector_sum_demo\n@intent: Construct and sum a small native vector\n@in seed::i32\n@out result::i32\n---\nlet nums::Vector<i32> = vector_i32_3(seed, seed + 2, 9)\nlet total::i32 = 0\n@loop item::i32 in nums\n  @condition add_all\n  if (item >= 0) -> set total = total + item\n@end loop nums\nset result = total\nreturn result\n@end func vector_sum_demo\n";
    let commented = "# This function returns a Linux process exit code.\n@func main\n@intent: Return a Linux process exit code\n@in seed::i32\n@out result::i32\n---\nset result = seed + 7\nreturn result\n@end func main\n";
    for src in [add, sum, demo, commented] {
        let (_, diags) = check_sources(&[src.to_string()]);
        assert!(diags.is_empty(), "{:?}", codes(&diags));
    }
}

#[test]
fn manual_common_mistakes_are_reported() {
    let braces = "@func main\n@intent: x\n@in x::i32\n@out result::i32\n---\nif (x < 0) { return 0 }\n@end func main\n";
    let (_, d) = check_sources(&[braces.to_string()]);
    assert!(codes(&d).contains(&"E_LEX003".to_string()));

    let untyped = "@func main\n@intent: x\n@in x::i32\n@out result::i32\n---\nlet total = 0\nset result = x\nreturn result\n@end func main\n";
    let (_, d) = check_sources(&[untyped.to_string()]);
    assert!(codes(&d).contains(&"E_TYPE001".to_string()));

    let redeclared = "@func main\n@intent: x\n@in x::i32\n@out result::i32\n---\nlet result::i32 = x\nreturn result\n@end func main\n";
    let (_, d) = check_sources(&[redeclared.to_string()]);
    assert!(codes(&d).contains(&"E_NAME002".to_string()));

    let widening = "@func main\n@intent: x\n@in x::i32\n@out result::i64\n---\nset result = x\nreturn result\n@end func main\n";
    let (_, d) = check_sources(&[widening.to_string()]);
    assert!(codes(&d).contains(&"E_TYPE003".to_string()));

    let cast = "@func main\n@intent: x\n@in x::i32\n@out result::i64\n---\nset result = x as::<i64>\nreturn result\n@end func main\n";
    let (_, d) = check_sources(&[cast.to_string()]);
    assert!(d.is_empty(), "{:?}", codes(&d));
}

#[test]
fn duplicate_function_names_are_reported() {
    let (_, d) = check_sources(&[SEED.to_string(), SEED.to_string()]);
    let c = codes(&d);
    assert!(c.contains(&"E_MOD001".to_string()));
    assert!(c.contains(&"W_MOD001".to_string()));
}

#[test]
fn unassigned_output_and_flow_outside_loop() {
    let src = "@func main\n@intent: x\n@in x::i32\n@out result::i32\n---\n@condition stop\nif (x > 0) -> @break\n@end func main\n";
    let (_, d) = check_sources(&[src.to_string()]);
    let c = codes(&d);
    assert!(c.contains(&"E_FLOW001".to_string()));
    assert!(c.contains(&"E_INTENT003".to_string()));
}

#[test]
fn ir_defines_every_function() {
    let caller = "@func main\n@intent: Call a helper\n@in seed::i32\n@out result::i64\n---\nset result = helper(seed) as::<i64>\nreturn result\n@end func main\n";
    let helper = "@func helper\n@intent: Double a value\n@in value::i32\n@out result::i32\n---\nset result = value * 2\nreturn result\n@end func helper\n";
    let (program, diags) = check_sources(&[caller.to_string(), helper.to_string()]);
    assert!(diags.is_empty(), "{:?}", codes(&diags));
    let ir = jbc::ir::lower_program_to_ir(&program);
    assert!(ir.contains("  define internal i64 @jb_main(i32 %seed) {\n"));
    assert!(ir.contains("  define internal i32 @jb_helper(i32 %value) {\n"));
    assert!(ir.contains("call i32 @jb_helper("));
}

#[test]
fn string_escapes_decode() {
    let (tokens, diags) = lex_source("\"a\\u{41}\\u{1F600}\\n\\t\\\"x\"");
    assert!(diags.is_empty());
    assert_eq!(tokens[0].kind, TokenKind::String);
    assert_eq!(tokens[0].lexeme, "aA\u{1F600}\n\t\"x");
    let (tokens, _) = lex_source("\"\\u{D800}z\\u{+42}\"");
    assert_eq!(tokens[0].lexeme, "zB");
    let (_, diags) = lex_source("\"open\nnext");
    assert_eq!(codes(&diags), vec!["E_LEX002".to_string()]);
}

fn contains_bytes(hay: &[u8], needle: &[u8]) -> bool {
    hay.windows(needle.len()).any(|w| w == needle)
}

#[test]
fn native_backend_covers_the_documented_subset() {
    let calls = "@func twice\n@intent: Double a value\n@in value::i32\n@out result::i32\n---\nset result = value * 2\nreturn result\n@end func twice\n@func main\n@intent: Use calls and built-ins\n@in seed::i32\n@out result::i32\n---\nlet a::i32 = twice(abs_i32(seed))\nlet b::i32 = max_i32(a, 3)\n@condition even\nif (is_even_i32(b)) -> set result = b\n@condition odd\nif (!is_even_i32(b)) -> set result = b + 1\ndebug_i32(result)\nreturn result\n@end func main\n";
    let strings = "@func main\n@intent: Print a greeting\n@in seed::i32\n@out result::i32\n---\ndebug_string(\"hello from JapalityBean\\n\")\nset result = seed\nreturn result\n@end func main\n";
    let vector = "@func main\n@intent: Sum a small vector\n@in seed::i32\n@out result::i32\n---\nlet nums::Vector<i32> = vector_i32_3(seed, seed + 2, 9)\nlet total::i32 = 0\n@loop item::i32 in nums\n  @condition add_all\n  if (item >= 0) -> set total = total + item\n@end loop nums\nset result = total\nreturn result\n@end func main\n";
    for (src, entry) in [(calls, "main"), (strings, "main"), (vector, "main")] {
        let (program, diags) = check_sources(&[src.to_string()]);
        assert!(diags.is_empty(), "{:?}", codes(&diags));
        let bytes = emit_linux_x86_64_executable(&program, entry).unwrap();
        assert_eq!(&bytes[0..4], &[0x7f, b'E', b'L', b'F']);
        let size = u64::from_le_bytes(bytes[96..104].try_into().unwrap());
        assert_eq!(size as usize, bytes.len());
    }
    let (program, _) = check_sources(&[strings.to_string()]);
    let bytes = emit_linux_x86_64_executable(&program, "main").unwrap();
    assert!(contains_bytes(&bytes, b"hello from JapalityBean\n"));
}

#[test]
fn loop_closures_name_their_collection() {
    let body = |close: &str| {
        format!("@func main\n@intent: x\n@in nums::Vector<i32>\n@out result::i32\n---\nlet total::i32 = 0\n@loop item::i32 in nums\n  set total = total + item\n{close}\nset result = total\nreturn result\n@end func main\n")
    };
    let (p, d) = parse_source(&body("@end loop nums"));
    assert!(d.is_empty());
    match &p.functions[0].kind.body[1].kind {
        jbc::ast::Statement::Loop(l) => assert_eq!(l.close_name.as_deref(), Some("nums")),
        other => panic!("unexpected statement {:?}", other),
    }
    let (p, d) = parse_source(&body("@end loop"));
    assert!(d.is_empty());
    match &p.functions[0].kind.body[1].kind {
        jbc::ast::Statement::Loop(l) => assert_eq!(l.close_name, None),
        other => panic!("unexpected statement {:?}", other),
    }
    let (_, d) = parse_source(&body("@end loop items"));
    assert_eq!(codes(&d), vec!["E_CLOSE001".to_string()]);
}

#[test]
fn formatter_is_idempotent_on_documented_examples() {
    let loops = "@func find\n@intent: Loop and guard\n@in nums::Vector<i32>\n@out result::i32\n---\nlet best::i32 = 0\n@loop item::i32 in nums\n@condition keep\nif (item > best && !(item == 3)) -> set best = item\n@end loop nums\nset result = -best + 2 * (best - 1)\nreturn result\n@end func find\n";
    let text = "@func greet\n@intent: Strings and casts\n@in seed::i32\n@out result::i64\n---\ndebug_string(\"a \\\"q\\\"\\n\")\nlet o::Option<i32> = Some(seed)\nlet r::Result<i32,string> = Err(\"bad\")\nset result = seed as::<i64>\nreturn result\n@end func greet\n";
    for src in [CLAMP, SEED, loops, text] {
        let (p1, d1) = parse_source(src);
        assert!(d1.is_empty(), "{:?}", codes(&d1));
        let once = jbc::pretty::pretty_program(&p1);
        let (p2, d2) = parse_source(&once);
        assert!(d2.is_empty(), "{:?}", codes(&d2));
        assert_eq!(jbc::pretty::pretty_program(&p2), once);
    }
}

#[test]
fn sticky_binding_round_trip() {
    for (name, ty) in [("count", "u16"), ("_x9", "Result<Option<i8>,Vector<string>>"), ("v", "Box<f64>")] {
        let t = parse_type(ty).unwrap();
        let text = format!("{}::{}", name, t.to_text());
        let b = parse_sticky_binding(&text).unwrap();
        assert_eq!(b.name, name);
        assert_eq!(b.ty, t);
    }
    assert!(parse_sticky_binding("x ::i32").is_err());
    assert!(parse_sticky_binding("x::Vector<unknown>").is_err());
}

#[test]
fn escaped_strings_lex_back() {
    for s in ["plain", "q\"uote", "back\\slash", "line\nbreak\ttab", "", "{}@#"] {
        let quoted = format!("\"{}\"", escape_string_literal(s));
        let chars: Vec<char> = quoted.chars().collect();
        let toks = jbc::expr::lex_expr(&chars);
        match toks.as_slice() {
            [jbc::expr::ExprToken::Str(x)] => assert_eq!(x, s),
            other => panic!("unexpected tokens {:?}", other),
        }
    }
}

#[test]
fn align_to_rounds_negative_values_toward_zero() {
    assert_eq!(align_to(-1), 0);
    assert_eq!(align_to(-20), 0);
    assert_eq!(align_to(-40), -16);
    assert_eq!(align_to(i32::MIN), -2147483632);
}

#[test]
fn token_spans_are_ordered_within_the_source() {
    let src = "@func main\n  let s::string = \"é{\"  # note\nset x = 1 >= 2\n";
    let (tokens, diags) = lex_source(src);
    assert!(diags.is_empty());
    for t in &tokens {
        assert!(t.span.start_byte <= t.span.end_byte && t.span.end_byte <= src.len());
    }
    for w in tokens.windows(2) {
        assert!(w[0].span.end_byte <= w[1].span.start_byte);
    }
    assert_eq!(tokens.last().unwrap().span.start_byte, src.len());
}

#[test]
fn lexical_diagnostics_are_errors_and_stop_parsing() {
    let (_, lex) = lex_source("@func main }\n@nope\n\"open\n;");
    assert!(!lex.is_empty());
    assert!(lex.iter().all(|d| d.severity == Severity::Error));
    let (program, diags) = parse_source("@func main }\n");
    assert!(program.functions.is_empty());
    assert_eq!(codes(&diags), vec!["E_LEX003".to_string()]);
}

#[test]
fn json_batch_joins_diagnostic_objects() {
    let (_, diags) = lex_source("{ ;");
    assert_eq!(diags.len(), 2);
    let expected = format!("[{},{}]", diags[0].to_json(), diags[1].to_json());
    assert_eq!(json_batch(&diags), expected);
    assert_eq!(json_batch(&diags[..1]), format!("[{}]", diags[0].to_json()));
}
