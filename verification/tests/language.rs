use clox::chunk::Chunk;
use clox::value::Value;
use clox::vm::{InterpretOutcome, InterpretResult, RuntimeErrorKind, VM};

fn eval(source: &str) -> InterpretOutcome {
    let mut vm = VM::new(Chunk::new());
    vm.interpret(source.as_bytes().to_vec())
}

fn eval_number(source: &str) -> f64 {
    match eval(source) {
        InterpretOutcome::Success(Value::Number(bits)) => f64::from_bits(bits),
        other => panic!("expected a number from {:?}, got {:?}", source, other),
    }
}

fn eval_bool(source: &str) -> bool {
    match eval(source) {
        InterpretOutcome::Success(Value::Boolean(b)) => b,
        other => panic!("expected a boolean from {:?}, got {:?}", source, other),
    }
}

fn runtime_fault(source: &str) -> (RuntimeErrorKind, usize) {
    match eval(source) {
        InterpretOutcome::RuntimeFailure(f) => (f.kind, f.line),
        other => panic!("expected a runtime error from {:?}, got {:?}", source, other),
    }
}

fn compile_messages(source: &str) -> Vec<Vec<u8>> {
    match eval(source) {
        InterpretOutcome::CompileFailure(diags) => {
            diags.into_iter().map(|d| d.message).collect()
        }
        other => panic!("expected a compile error from {:?}, got {:?}", source, other),
    }
}

#[test]
fn multiplication_binds_tighter_than_addition() {
    assert_eq!(eval_number("2 + 3 * 4"), 14.0);
}

#[test]
fn grouping_overrides_precedence() {
    assert_eq!(eval_number("(2 + 3) * 4"), 20.0);
}

#[test]
fn division_is_left_associative() {
    assert_eq!(eval_number("8 / 4 / 2"), 1.0);
}

#[test]
fn subtraction_is_left_associative() {
    assert_eq!(eval_number("10 - 4 - 3"), 3.0);
}

#[test]
fn combined_expression() {
    assert_eq!(eval_number("(-1 + 2) * 3 - -4"), 7.0);
}

#[test]
fn fractional_literals() {
    assert_eq!(eval_number("1.5 + 2.25"), 3.75);
}

#[test]
fn equality_is_reflexive_on_equal_numbers() {
    assert!(eval_bool("1 == 1"));
}

#[test]
fn equality_is_false_across_types() {
    assert!(!eval_bool("nil == false"));
    assert!(!eval_bool("0 == nil"));
    assert!(!eval_bool("true == 1"));
}

#[test]
fn equality_on_booleans_and_nil() {
    assert!(eval_bool("nil == nil"));
    assert!(eval_bool("true == true"));
    assert!(!eval_bool("true == false"));
    assert!(eval_bool("1 != 2"));
}

#[test]
fn only_nil_and_false_are_falsy() {
    assert!(eval_bool("!nil"));
    assert!(eval_bool("!false"));
    assert!(!eval_bool("!0"));
    assert!(!eval_bool("!true"));
    assert!(!eval_bool("!1"));
}

#[test]
fn derived_comparisons_match_their_combinator() {
    assert!(eval_bool("5 >= 5"));
    assert!(eval_bool("5 >= 4"));
    assert!(!eval_bool("4 >= 5"));
    assert!(eval_bool("4 <= 5"));
    assert!(!eval_bool("5 <= 4"));
    assert!(eval_bool("3 < 4"));
    assert!(eval_bool("4 > 3"));
}

#[test]
fn nan_comparisons_follow_the_combinator_not_ieee() {
    // 0/0 is NaN: every primitive comparison with it is false, so the
    // negation-based >= and <= come out true.
    assert!(!eval_bool("0/0 < 1"));
    assert!(!eval_bool("0/0 > 1"));
    assert!(eval_bool("0/0 >= 1"));
    assert!(eval_bool("0/0 <= 1"));
    assert!(!eval_bool("0/0 == 0/0"));
    assert!(eval_bool("0/0 != 0/0"));
}

#[test]
fn division_by_zero_is_not_an_error() {
    assert_eq!(eval_number("1 / 0"), f64::INFINITY);
    assert_eq!(eval_number("-1 / 0"), f64::NEG_INFINITY);
    assert!(eval_number("0 / 0").is_nan());
}

#[test]
fn negate_requires_a_number() {
    let (kind, line) = runtime_fault("-true");
    assert_eq!(kind, RuntimeErrorKind::OperandMustBeNumber);
    assert_eq!(kind.message(), "Operand must be a number.");
    assert_eq!(line, 1);
}

#[test]
fn arithmetic_requires_numbers() {
    let (kind, line) = runtime_fault("1 + nil");
    assert_eq!(kind, RuntimeErrorKind::OperandsMustBeNumbers);
    assert_eq!(kind.message(), "Operands must be numbers.");
    assert_eq!(line, 1);
}

#[test]
fn comparison_requires_numbers() {
    let (kind, _) = runtime_fault("true > false");
    assert_eq!(kind, RuntimeErrorKind::OperandsMustBeNumbers);
    let (kind, _) = runtime_fault("nil < 1");
    assert_eq!(kind, RuntimeErrorKind::OperandsMustBeNumbers);
}

#[test]
fn runtime_error_reports_the_offending_line() {
    let (kind, line) = runtime_fault("1 +\nnil");
    assert_eq!(kind, RuntimeErrorKind::OperandsMustBeNumbers);
    assert_eq!(line, 2);
}

#[test]
fn equality_never_raises_a_type_error() {
    assert!(!eval_bool("1 == nil"));
    assert!(!eval_bool("false == 0"));
}

#[test]
fn string_literals_are_not_yet_expressions() {
    let messages = compile_messages("\"x\"");
    assert_eq!(messages, vec![b"Expect expression.".to_vec()]);
}

#[test]
fn negating_a_string_fails_at_the_string() {
    // The string literal itself is rejected first: strings have no prefix
    // rule at this stage, so no value ever reaches NEGATE.
    let messages = compile_messages("-\"x\"");
    assert_eq!(messages, vec![b"Expect expression.".to_vec()]);
}

#[test]
fn keywords_in_expression_position_are_errors() {
    let messages = compile_messages("print");
    assert_eq!(messages, vec![b"Expect expression.".to_vec()]);
}

#[test]
fn trailing_tokens_are_a_compile_error() {
    let messages = compile_messages("1 2");
    assert_eq!(messages, vec![b"Expect end of expression.".to_vec()]);
}

#[test]
fn missing_operand_is_a_compile_error() {
    let messages = compile_messages("1 +");
    assert_eq!(messages, vec![b"Expect expression.".to_vec()]);
}

#[test]
fn unclosed_grouping_is_a_compile_error() {
    let messages = compile_messages("(1 + 2");
    assert_eq!(messages, vec![b"Expect ')' after expression.".to_vec()]);
}

#[test]
fn only_the_first_error_of_a_burst_is_reported() {
    let messages = compile_messages("+");
    assert_eq!(messages.len(), 1);
    assert_eq!(messages[0], b"Expect expression.".to_vec());
}

#[test]
fn a_full_constant_pool_still_compiles() {
    let mut source = String::from("0");
    for i in 1..256 {
        source.push_str(&format!(" + {}", i));
    }
    assert_eq!(eval_number(&source), (255 * 256 / 2) as f64);
}

#[test]
fn the_257th_constant_overflows_the_pool() {
    let mut source = String::from("0");
    for i in 1..257 {
        source.push_str(&format!(" + {}", i));
    }
    let messages = compile_messages(&source);
    assert_eq!(messages, vec![b"Too many constants in one chunk.".to_vec()]);
}

#[test]
fn status_maps_outcomes_to_the_three_results() {
    assert_eq!(eval("1 + 1").status(), InterpretResult::Success);
    assert_eq!(eval("1 +").status(), InterpretResult::CompileError);
    assert_eq!(eval("-nil").status(), InterpretResult::RuntimeError);
}

#[test]
fn compile_failure_leaves_the_machine_reusable() {
    let mut vm = VM::new(Chunk::new());
    let first = vm.interpret(b"1 +".to_vec());
    assert_eq!(first.status(), InterpretResult::CompileError);
    match vm.interpret(b"1 + 1".to_vec()) {
        InterpretOutcome::Success(Value::Number(bits)) => {
            assert_eq!(f64::from_bits(bits), 2.0);
        }
        other => panic!("unexpected outcome {:?}", other),
    }
}

#[test]
fn runtime_failure_clears_the_stack_for_the_next_run() {
    let mut vm = VM::new(Chunk::new());
    let first = vm.interpret(b"1 + nil".to_vec());
    assert_eq!(first.status(), InterpretResult::RuntimeError);
    match vm.interpret(b"2 * 21".to_vec()) {
        InterpretOutcome::Success(Value::Number(bits)) => {
            assert_eq!(f64::from_bits(bits), 42.0);
        }
        other => panic!("unexpected outcome {:?}", other),
    }
}

#[test]
fn comments_and_whitespace_are_skipped() {
    assert_eq!(eval_number("// nothing to see\n  1 + \t 2 // trailing\n"), 3.0);
}

#[test]
fn empty_source_is_a_compile_error() {
    match eval("") {
        InterpretOutcome::CompileFailure(diags) => {
            assert_eq!(diags.len(), 1);
            assert_eq!(diags[0].message, b"Expect expression.".to_vec());
            assert_eq!(diags[0].line, 1);
            assert_eq!(diags[0].context, clox::compiler::ErrorContext::AtEnd);
        }
        other => panic!("unexpected outcome {:?}", other),
    }
}

#[test]
fn whitespace_only_source_is_a_compile_error() {
    assert_eq!(eval("  \t\n// just a comment\n").status(), InterpretResult::CompileError);
}

#[test]
fn diagnostics_point_at_the_offending_lexeme() {
    match eval("1 2") {
        InterpretOutcome::CompileFailure(diags) => {
            assert_eq!(diags.len(), 1);
            assert_eq!(diags[0].context, clox::compiler::ErrorContext::AtLexeme(b"2".to_vec()));
            assert_eq!(diags[0].line, 1);
        }
        other => panic!("unexpected outcome {:?}", other),
    }
}

#[test]
fn scanner_errors_surface_as_bare_diagnostics() {
    match eval("@") {
        InterpretOutcome::CompileFailure(diags) => {
            assert_eq!(diags[0].context, clox::compiler::ErrorContext::Bare);
            assert_eq!(diags[0].message, b"Unexpected character.".to_vec());
        }
        other => panic!("unexpected outcome {:?}", other),
    }
}

#[test]
fn unterminated_string_surfaces_its_message() {
    match eval("\"oops") {
        InterpretOutcome::CompileFailure(diags) => {
            assert_eq!(diags[0].message, b"Unterminated string.".to_vec());
        }
        other => panic!("unexpected outcome {:?}", other),
    }
}

#[test]
fn nested_grouping_evaluates() {
    assert_eq!(eval_number("((((1))))"), 1.0);
    assert_eq!(eval_number("-(2 + 3)"), -5.0);
    assert_eq!(eval_number("--5"), 5.0);
}

#[test]
fn deep_unary_chains_evaluate() {
    assert!(eval_bool("!!true"));
    assert!(!eval_bool("!!!true"));
    assert!(eval_bool("!(1 == 2)"));
}

#[test]
fn diagnostics_carry_the_offending_line() {
    match eval("1\n2") {
        InterpretOutcome::CompileFailure(diags) => {
            assert_eq!(diags.len(), 1);
            assert_eq!(diags[0].message, b"Expect end of expression.".to_vec());
            assert_eq!(diags[0].line, 2);
        }
        other => panic!("unexpected outcome {:?}", other),
    }
}

#[test]
fn a_failing_compile_reports_exactly_one_diagnostic() {
    for source in ["+", "(", "1 +", "(1 + 2", "\"x\"", "@ @ @", "1 2 3"] {
        match eval(source) {
            InterpretOutcome::CompileFailure(diags) => assert_eq!(diags.len(), 1),
            other => panic!("unexpected outcome for {:?}: {:?}", source, other),
        }
    }
}
