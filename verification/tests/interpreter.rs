use lox_bytecode::chunk::Chunk;
use lox_bytecode::vm::{InterpretResult, VM};

fn run_source(source: &str) -> (Result<(), InterpretResult>, Vec<String>, Vec<String>) {
    let mut vm = VM::new(Chunk::new());
    let r = vm.interpret(source);
    (r, vm.output().clone(), vm.errors().clone())
}

#[test]
fn print_precedence_mul_binds_tighter() {
    let (r, out, _) = run_source("print 1 + 2 * 3;");
    assert!(r.is_ok());
    assert_eq!(out, vec!["7"]);
}

#[test]
fn print_grouping_overrides_precedence() {
    let (r, out, _) = run_source("print (1 + 2) * 3;");
    assert!(r.is_ok());
    assert_eq!(out, vec!["9"]);
}

#[test]
fn print_not_nil_equals_true() {
    let (r, out, _) = run_source("print !nil == true;");
    assert!(r.is_ok());
    assert_eq!(out, vec!["true"]);
}

#[test]
fn print_string_concatenation() {
    let (r, out, _) = run_source("print \"foo\" + \"bar\";");
    assert!(r.is_ok());
    assert_eq!(out, vec!["foobar"]);
}

#[test]
fn negate_boolean_is_runtime_error() {
    let (r, out, err) = run_source("print -true;");
    assert_eq!(r, Err(InterpretResult::RuntimeError));
    assert!(out.is_empty());
    assert_eq!(err, vec!["Operand must be a number.", "[line 1] in script."]);
}

#[test]
fn missing_operand_is_compile_error() {
    let (r, out, err) = run_source("print 1 +;");
    assert_eq!(r, Err(InterpretResult::CompileError));
    assert!(out.is_empty());
    assert_eq!(err, vec!["[line 1] Error at ';': Expected expression."]);
}

#[test]
fn division_by_zero_is_runtime_error() {
    let (r, out, err) = run_source("print 1 / 0;");
    assert_eq!(r, Err(InterpretResult::RuntimeError));
    assert!(out.is_empty());
    assert_eq!(err, vec!["Can't divide by zero.", "[line 1] in script."]);
}

#[test]
fn left_associative_subtraction() {
    let (r, out, _) = run_source("print 10 - 2 - 3;");
    assert!(r.is_ok());
    assert_eq!(out, vec!["5"]);
}

#[test]
fn left_associative_division() {
    let (r, out, _) = run_source("print 20 / 2 / 5;");
    assert!(r.is_ok());
    assert_eq!(out, vec!["2"]);
}

#[test]
fn comparison_binds_looser_than_term() {
    let (r, out, _) = run_source("print 1 + 2 < 4;");
    assert!(r.is_ok());
    assert_eq!(out, vec!["true"]);
}

#[test]
fn equality_binds_loosest() {
    let (r, out, _) = run_source("print 1 + 1 == 2;");
    assert!(r.is_ok());
    assert_eq!(out, vec!["true"]);
}

#[test]
fn negative_number_prints_with_sign() {
    let (r, out, _) = run_source("print 1 - 2;");
    assert!(r.is_ok());
    assert_eq!(out, vec!["-1"]);
}

#[test]
fn fraction_prints_plainly() {
    let (r, out, _) = run_source("print 3 / 2;");
    assert!(r.is_ok());
    assert_eq!(out, vec!["1.5"]);
}

#[test]
fn binary64_rounding_is_visible() {
    let (r, out, _) = run_source("print 0.1 + 0.2;");
    assert!(r.is_ok());
    assert_eq!(out, vec!["0.30000000000000004"]);
}

#[test]
fn large_integer_prints_without_exponent() {
    let (r, out, _) = run_source("print 100000;");
    assert!(r.is_ok());
    assert_eq!(out, vec!["100000"]);
}

#[test]
fn small_fraction_prints_without_exponent() {
    let (r, out, _) = run_source("print 0.0001;");
    assert!(r.is_ok());
    assert_eq!(out, vec!["0.0001"]);
}

#[test]
fn number_string_concatenation() {
    let (r, out, _) = run_source("print 1 + \"a\";");
    assert!(r.is_ok());
    assert_eq!(out, vec!["1a"]);
}

#[test]
fn string_number_concatenation() {
    let (r, out, _) = run_source("print \"a\" + 1;");
    assert!(r.is_ok());
    assert_eq!(out, vec!["a1"]);
}

#[test]
fn adding_booleans_is_runtime_error() {
    let (r, _, err) = run_source("print true + false;");
    assert_eq!(r, Err(InterpretResult::RuntimeError));
    assert_eq!(err[0], "Operands must be number or string.");
}

#[test]
fn ordering_strings_is_runtime_error() {
    let (r, _, err) = run_source("print \"a\" < \"b\";");
    assert_eq!(r, Err(InterpretResult::RuntimeError));
    assert_eq!(err[0], "Operands must be number or string.");
}

#[test]
fn equality_does_not_coerce_across_tags() {
    let (r, out, _) = run_source("print 1 == \"1\";");
    assert!(r.is_ok());
    assert_eq!(out, vec!["false"]);
}

#[test]
fn nil_equals_nil() {
    let (r, out, _) = run_source("print nil == nil;");
    assert!(r.is_ok());
    assert_eq!(out, vec!["true"]);
}

#[test]
fn number_equality_and_inequality() {
    let (r, out, _) = run_source("print 1 == 1; print 1 != 1;");
    assert!(r.is_ok());
    assert_eq!(out, vec!["true", "false"]);
}

#[test]
fn zero_and_empty_string_are_truthy() {
    let (r, out, _) = run_source("print !0; print !\"\";");
    assert!(r.is_ok());
    assert_eq!(out, vec!["false", "false"]);
}

#[test]
fn falsy_values_are_nil_and_false() {
    let (r, out, _) = run_source("print !nil; print !false; print !true;");
    assert!(r.is_ok());
    assert_eq!(out, vec!["true", "true", "false"]);
}

#[test]
fn double_negation_round_trips() {
    let (r, out, _) = run_source("print - -1;");
    assert!(r.is_ok());
    assert_eq!(out, vec!["1"]);
}

#[test]
fn expression_statement_prints_nothing() {
    let (r, out, _) = run_source("1 + 2;");
    assert!(r.is_ok());
    assert!(out.is_empty());
}

#[test]
fn global_variables_define_and_read() {
    let (r, out, _) = run_source("var a = 1; var b = 2; print a + b;");
    assert!(r.is_ok());
    assert_eq!(out, vec!["3"]);
}

#[test]
fn global_redefinition_replaces() {
    let (r, out, _) = run_source("var a = 1; var a = 2; print a;");
    assert!(r.is_ok());
    assert_eq!(out, vec!["2"]);
}

#[test]
fn global_without_initializer_is_nil() {
    let (r, out, _) = run_source("var a; print a;");
    assert!(r.is_ok());
    assert_eq!(out, vec!["nil"]);
}

#[test]
fn undefined_variable_is_runtime_error() {
    let (r, out, err) = run_source("print x;");
    assert_eq!(r, Err(InterpretResult::RuntimeError));
    assert!(out.is_empty());
    assert_eq!(err, vec!["Undefined variable 'x'.", "[line 1] in script."]);
}

#[test]
fn globals_persist_across_interpret_calls() {
    let mut vm = VM::new(Chunk::new());
    assert!(vm.interpret("var a = 5;").is_ok());
    assert!(vm.interpret("print a;").is_ok());
    assert_eq!(vm.output().clone(), vec!["5"]);
}

#[test]
fn comments_and_newlines_are_skipped() {
    let (r, out, _) = run_source("// nothing here\nprint 1; // trailing\n");
    assert!(r.is_ok());
    assert_eq!(out, vec!["1"]);
}

#[test]
fn runtime_error_reports_its_line() {
    let (r, _, err) = run_source("\n\nprint -nil;");
    assert_eq!(r, Err(InterpretResult::RuntimeError));
    assert_eq!(err, vec!["Operand must be a number.", "[line 3] in script."]);
}

#[test]
fn compile_error_runs_no_code() {
    let (r, out, err) = run_source("print 1; print 2 +;");
    assert_eq!(r, Err(InterpretResult::CompileError));
    assert!(out.is_empty());
    assert_eq!(err.len(), 1);
}

#[test]
fn unexpected_character_is_reported() {
    let (r, _, err) = run_source("print @;");
    assert_eq!(r, Err(InterpretResult::CompileError));
    assert_eq!(err, vec!["[line 1] Error: Unexpected character."]);
}

#[test]
fn unterminated_string_is_reported() {
    let (r, _, err) = run_source("print \"abc");
    assert_eq!(r, Err(InterpretResult::CompileError));
    assert!(err[0].contains("Unterminated string."));
}

#[test]
fn error_at_end_of_input() {
    let (r, _, err) = run_source("print 1");
    assert_eq!(r, Err(InterpretResult::CompileError));
    assert_eq!(err, vec!["[line 1] Error at end.: Expect ';' after value."]);
}

#[test]
fn panic_mode_suppresses_cascading_diagnostics() {
    let (r, _, err) = run_source("print +;");
    assert_eq!(r, Err(InterpretResult::CompileError));
    assert_eq!(err.len(), 1);
}

#[test]
fn multiline_string_counts_lines() {
    let (r, out, _) = run_source("print \"a\nb\";");
    assert!(r.is_ok());
    assert_eq!(out, vec!["a\nb"]);
}

#[test]
fn print_lone_slash_is_a_token() {
    let (r, _, err) = run_source("/");
    assert_eq!(r, Err(InterpretResult::CompileError));
    assert_eq!(err, vec!["[line 1] Error at '/': Expected expression."]);
}

#[test]
fn too_many_constants_is_a_compile_error() {
    let mut source = String::from("print 0");
    for i in 1..300 {
        source.push_str(&format!(" + {}", i));
    }
    source.push_str(";");
    let (r, out, err) = run_source(&source);
    assert_eq!(r, Err(InterpretResult::CompileError));
    assert!(out.is_empty());
    assert_eq!(err, vec!["[line 1] Error at '256': Too many constants in one chunk."]);
}

#[test]
fn unclosed_grouping_is_reported() {
    let (r, _, err) = run_source("print (1;");
    assert_eq!(r, Err(InterpretResult::CompileError));
    assert_eq!(err, vec!["[line 1] Error at ';': Expect ')' after expression."]);
}

#[test]
fn expression_statement_needs_a_semicolon() {
    let (r, _, err) = run_source("1 + 2");
    assert_eq!(r, Err(InterpretResult::CompileError));
    assert_eq!(err, vec!["[line 1] Error at end.: Expect ';' after expression."]);
}

#[test]
fn var_needs_a_name() {
    let (r, _, err) = run_source("var 1;");
    assert_eq!(r, Err(InterpretResult::CompileError));
    assert_eq!(err[0], "[line 1] Error at '1': Expect variable name.");
}

#[test]
fn var_needs_a_semicolon() {
    let (r, _, err) = run_source("var a = 1");
    assert_eq!(r, Err(InterpretResult::CompileError));
    assert_eq!(err, vec!["[line 1] Error at end.: Expect ';' after variable declaration."]);
}

#[test]
fn whitespace_only_source_succeeds() {
    let (r, out, err) = run_source("  \t\r\n// just a comment\n");
    assert!(r.is_ok());
    assert!(out.is_empty());
    assert!(err.is_empty());
}

#[test]
fn empty_source_succeeds() {
    let (r, out, err) = run_source("");
    assert!(r.is_ok());
    assert!(out.is_empty());
    assert!(err.is_empty());
}
