use jbc::diag::Diagnostic;
use jbc::driver::{check_sources, is_hidden_name, is_source_file_name, parse_source};
use jbc::ir::lower_program_to_ir;
use jbc::json::program_json;
use jbc::pretty::pretty_program;

const FIND_MAX_EVEN: &str = "@func find_max_even\n@intent: Find the largest even number of three\n@in seed::i32\n@out result::i32\n---\nlet nums::Vector<i32> = vector_i32_3(seed, 8, 3)\nlet best::i32 = 0\n@loop item::i32 in nums\n  @condition skip_odd\n  if (item % 2 != 0) -> @continue\n  @condition keep_max\n  if (item > best) -> set best = item\n@end loop nums\nset result = best\nreturn result\n@end func find_max_even\n";

const TYPE_ERROR: &str = "@func type_error\n@intent: Bind a string to an integer\n@in seed::i32\n@out result::i32\n---\nlet value::i32 = \"text\"\nset result = seed\nreturn result\n@end func type_error\n";

fn check(source: &str) -> Vec<Diagnostic> {
    check_sources(&[source.to_string()]).1
}

#[test]
fn check_valid_example_emits_empty_json_batch() {
    let diags = check(FIND_MAX_EVEN);
    assert!(!Diagnostic::has_errors(&diags));
    assert_eq!(jbc::diag::json_batch(&diags), "[]");
}

#[test]
fn check_type_error_emits_machine_readable_diagnostic() {
    let diags = check(TYPE_ERROR);
    assert!(Diagnostic::has_errors(&diags));
    let batch = jbc::diag::json_batch(&diags);
    assert!(batch.starts_with('['));
    assert!(diags.iter().any(|d| {
        d.code == "E_TYPE002"
            && d.phase == jbc::diag::Phase::Type
            && d.expected.as_deref() == Some("i32")
            && d.actual.as_deref() == Some("string")
    }));
    assert!(batch.contains("\"code\":\"E_TYPE002\""));
    assert!(batch.contains("\"phase\":\"type\""));
    assert!(batch.contains("\"expected\":\"i32\""));
    assert!(batch.contains("\"actual\":\"string\""));
}

#[test]
fn build_ast_json_is_valid_json() {
    let (program, diags) = check_sources(&[FIND_MAX_EVEN.to_string()]);
    assert!(diags.is_empty());
    let json = program_json(&program);
    assert!(json.starts_with("{\"functions\":[{\"body_len\":5,"));
    assert!(json.contains("\"name\":\"find_max_even\""));
    assert!(json.contains("\"output\":{\"name\":\"result\",\"type\":\"i32\"}"));
    assert!(json.ends_with("}]}"));
}

#[test]
fn build_ir_emits_llvm_text_for_loop_example() {
    let (program, diags) = check_sources(&[FIND_MAX_EVEN.to_string()]);
    assert!(diags.is_empty());
    let ir = lower_program_to_ir(&program);
    assert!(ir.contains("define internal i32 @jb_find_max_even"));
    assert!(ir.contains("br label %loop.header"));
    assert!(ir.contains("icmp"));
    assert!(!ir.contains("pseudo LLVM IR"));
}

#[test]
fn formatter_is_idempotent() {
    let source = "@func main_value\n@intent: Return the seed\n@in seed::i32\n@out result::i32\n---\nlet value::i32 = seed\nset result = value\nreturn result\n@end func main_value\n";
    let (p1, d1) = parse_source(source);
    assert!(!Diagnostic::has_errors(&d1));
    let once = pretty_program(&p1);
    let (p2, d2) = parse_source(&once);
    assert!(!Diagnostic::has_errors(&d2));
    let twice = pretty_program(&p2);
    assert_eq!(once, twice);
}

#[test]
fn project_mode_ignores_hidden_appledouble_files() {
    assert!(is_hidden_name("._main.jb"));
    assert!(!is_hidden_name("main.jb"));
    assert!(is_source_file_name("main.jb"));
    assert!(!is_source_file_name("jb.toml"));
    let main = "@func main_value\n@intent: Return the seed\n@in seed::i32\n@out result::i32\n---\nset result = seed\nreturn result\n@end func main_value\n";
    let diags = check(main);
    assert_eq!(jbc::diag::json_batch(&diags), "[]");
}

#[test]
fn cast_option_and_result_constructors_type_check() {
    let source = "@func cast_demo\n@intent: Cast an integer explicitly\n@in seed::i32\n@out result::i64\n---\nlet widened::i64 = seed as::<i64>\nset result = widened\nreturn result\n@end func cast_demo\n\n@func option_demo\n@intent: Construct an optional integer\n@in seed::i32\n@out result::Option<i32>\n---\nset result = Some(seed)\nreturn result\n@end func option_demo\n\n@func none_demo\n@intent: Construct an empty optional integer\n@in seed::i32\n@out result::Option<i32>\n---\nlet marker::i32 = seed\nlet empty::Option<i32> = None\nset result = empty\nreturn result\n@end func none_demo\n\n@func result_demo\n@intent: Construct an ok result\n@in seed::i32\n@out result::Result<i32,string>\n---\nset result = Ok(seed)\nreturn result\n@end func result_demo\n";
    let diags = check(source);
    assert_eq!(jbc::diag::json_batch(&diags), "[]");
}

#[test]
fn implicit_numeric_widening_requires_cast() {
    let source = "@func widening_demo\n@intent: Reject implicit numeric widening\n@in seed::i32\n@out result::i64\n---\nlet widened::i64 = seed\nset result = widened\nreturn result\n@end func widening_demo\n";
    let diags = check(source);
    assert!(Diagnostic::has_errors(&diags));
    assert!(diags.iter().any(|d| d.code == "E_TYPE003"));
}

#[test]
fn sources_share_one_namespace() {
    let a = "@func helper\n@intent: Double a value\n@in x::i32\n@out result::i32\n---\nset result = x + x\nreturn result\n@end func helper\n";
    let b = "@func main\n@intent: Call the helper\n@in seed::i32\n@out result::i32\n---\nset result = helper(seed)\nreturn result\n@end func main\n";
    let (program, diags) = check_sources(&[a.to_string(), b.to_string()]);
    assert!(diags.is_empty());
    assert_eq!(program.functions.len(), 2);
    assert_eq!(program.functions[0].kind.name, "helper");
    assert_eq!(program.functions[1].kind.name, "main");
}

#[test]
fn parse_errors_skip_type_checking() {
    let bad = "@func broken\n@intent: Missing output\n@in seed::i32\n---\nreturn seed\n@end func broken\n";
    let diags = check(bad);
    assert!(Diagnostic::has_errors(&diags));
    assert!(diags.iter().all(|d| d.phase == jbc::diag::Phase::Parse || d.phase == jbc::diag::Phase::Lex));
}

#[test]
fn lexical_errors_stop_before_parsing() {
    let (program, diags) = parse_source("@func f {\n");
    assert!(program.functions.is_empty());
    assert!(diags.iter().any(|d| d.code == "E_LEX003"));
    assert!(diags.iter().all(|d| d.phase == jbc::diag::Phase::Lex));
}
