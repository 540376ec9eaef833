//! End-to-end tests: source text in, printed output and faults out.

use luar::parser::CompileError;
use luar::vm::{run_source, LuaError, RuntimeError};

#[test]
fn round_trip_print_hello() {
    let (output, fault) = run_source("print(\"hello\")");
    assert_eq!(output, vec!["hello".to_string()]);
    assert_eq!(fault, None);
}

#[test]
fn bare_string_call_form() {
    let (output, fault) = run_source("print \"hi\"");
    assert_eq!(output, vec!["hi".to_string()]);
    assert_eq!(fault, None);
}

#[test]
fn bare_string_single_quotes() {
    let (output, fault) = run_source("print 'q'");
    assert_eq!(output, vec!["q".to_string()]);
    assert_eq!(fault, None);
}

#[test]
fn print_integer_debug_form() {
    let (output, fault) = run_source("print(42)");
    assert_eq!(output, vec!["42".to_string()]);
    assert_eq!(fault, None);
}

#[test]
fn empty_source_runs_nothing() {
    let (output, fault) = run_source("");
    assert!(output.is_empty());
    assert_eq!(fault, None);
}

#[test]
fn whitespace_only_source() {
    let (output, fault) = run_source("  \n\t  ");
    assert!(output.is_empty());
    assert_eq!(fault, None);
}

#[test]
fn several_statements_in_order() {
    let (output, fault) = run_source("print(1) print \"two\" print(3.5)");
    assert_eq!(
        output,
        vec!["1".to_string(), "two".to_string(), "3.5".to_string()]
    );
    assert_eq!(fault, None);
}

#[test]
fn comment_discards_rest_of_line() {
    let (output, fault) = run_source("print(1) -- junk print(9)\nprint(2)");
    assert_eq!(output, vec!["1".to_string(), "2".to_string()]);
    assert_eq!(fault, None);
}

#[test]
fn comment_at_end_of_input() {
    let (output, fault) = run_source("print(3) -- tail");
    assert_eq!(output, vec!["3".to_string()]);
    assert_eq!(fault, None);
}

#[test]
fn unknown_characters_are_skipped() {
    let (output, fault) = run_source("@print(7)");
    assert_eq!(output, vec!["7".to_string()]);
    assert_eq!(fault, None);
}

#[test]
fn string_content_copied_without_escapes() {
    let (output, fault) = run_source(r#"print("a\nb")"#);
    assert_eq!(output, vec![r"a\nb".to_string()]);
    assert_eq!(fault, None);
}

#[test]
fn unicode_string_round_trip() {
    let (output, fault) = run_source("print(\"héllo\")");
    assert_eq!(output, vec!["héllo".to_string()]);
    assert_eq!(fault, None);
}

#[test]
fn print_nil_true_false() {
    let (output, fault) = run_source("print(nil) print(true) print(false)");
    assert_eq!(
        output,
        vec!["nil".to_string(), "true".to_string(), "false".to_string()]
    );
    assert_eq!(fault, None);
}

#[test]
fn print_float_keeps_literal_text() {
    let (output, fault) = run_source("print(1.5)");
    assert_eq!(output, vec!["1.5".to_string()]);
    assert_eq!(fault, None);
}

#[test]
fn unsupported_statement_start_aborts_before_any_execution() {
    let (output, fault) = run_source("42");
    assert!(output.is_empty());
    assert_eq!(fault, Some(LuaError::Compile(CompileError::UnexpectedToken)));
}

#[test]
fn bad_statement_after_good_one_executes_nothing() {
    // compilation aborts as a whole: not even the first statement runs
    let (output, fault) = run_source("print(1) 42");
    assert!(output.is_empty());
    assert_eq!(fault, Some(LuaError::Compile(CompileError::UnexpectedToken)));
}

#[test]
fn non_literal_argument_is_invalid() {
    let (output, fault) = run_source("print(foo)");
    assert!(output.is_empty());
    assert_eq!(fault, Some(LuaError::Compile(CompileError::InvalidArgument)));
}

#[test]
fn negative_literal_argument_is_invalid() {
    let (output, fault) = run_source("print(-5)");
    assert!(output.is_empty());
    assert_eq!(fault, Some(LuaError::Compile(CompileError::InvalidArgument)));
}

#[test]
fn missing_closing_parenthesis() {
    let (output, fault) = run_source("print(1 1)");
    assert!(output.is_empty());
    assert_eq!(fault, Some(LuaError::Compile(CompileError::ExpectedParRight)));
}

#[test]
fn missing_argument_form() {
    let (output, fault) = run_source("print + 1");
    assert!(output.is_empty());
    assert_eq!(fault, Some(LuaError::Compile(CompileError::ExpectedString)));
}

#[test]
fn pool_overflow_is_reported() {
    let mut src = String::new();
    for i in 0..130 {
        src.push_str(&format!("f{}(\"s{}\") ", i, i));
    }
    let (output, fault) = run_source(&src);
    assert!(output.is_empty());
    assert_eq!(
        fault,
        Some(LuaError::Compile(CompileError::TooManyConstants))
    );
}

#[test]
fn calling_an_unbound_global_faults() {
    let (output, fault) = run_source("foo(1)");
    assert!(output.is_empty());
    assert_eq!(
        fault,
        Some(LuaError::Runtime(RuntimeError::InvalidCallTarget))
    );
}

#[test]
fn partial_output_kept_up_to_runtime_fault() {
    let (output, fault) = run_source("print(1) foo(2)");
    assert_eq!(output, vec!["1".to_string()]);
    assert_eq!(
        fault,
        Some(LuaError::Runtime(RuntimeError::InvalidCallTarget))
    );
}
