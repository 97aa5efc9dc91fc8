use nenc::compile;
use nenc::ir::CompileError;
use nenc::CompilerOptions;

fn compile_src(source: &str) -> Result<Vec<u8>, CompileError> {
    compile(source, CompilerOptions {})
}

#[test]
fn forward_reference_compiles_and_runs() {
    let bytes = compile_src("func main() { helper(); } func helper() { print(\"hi\"); }")
        .expect("forward reference must compile");
    let (output, fault) = nenc::interpreter::interpret(&bytes);
    assert!(fault.is_none());
    assert_eq!(output, "hi");
}

#[test]
fn undefined_call_fails_compilation() {
    let result = compile_src("func main() { missing(); }");
    match result {
        Err(CompileError::UndefinedFunctions(names)) => {
            assert_eq!(names.len(), 1);
            assert_eq!(names[0], "missing");
        },
        other => panic!("expected undefined-function failure, got {:?}", other),
    }
}

#[test]
fn undefined_calls_are_batched_in_first_mention_order() {
    let result = compile_src("func main() { second(first()); }");
    match result {
        Err(CompileError::UndefinedFunctions(names)) => {
            assert_eq!(names.len(), 2);
            assert_eq!(names[0], "first");
            assert_eq!(names[1], "second");
        },
        other => panic!("expected two undefined functions, got {:?}", other),
    }
}

#[test]
fn redefinition_is_rejected() {
    let result = compile_src("func main() {} func main() {}");
    match result {
        Err(CompileError::FunctionRedefined(name)) => assert_eq!(name, "main"),
        other => panic!("expected redefinition failure, got {:?}", other),
    }
}

#[test]
fn shadowing_a_builtin_is_rejected() {
    let result = compile_src("func print() {} func main() {}");
    match result {
        Err(CompileError::BuiltInRedefined(name)) => assert_eq!(name, "print"),
        other => panic!("expected built-in shadowing failure, got {:?}", other),
    }
}

#[test]
fn missing_main_is_rejected() {
    let result = compile_src("func helper() {}");
    assert!(matches!(result, Err(CompileError::NoMainFunction)));
}

#[test]
fn empty_program_has_no_main() {
    let result = compile_src("");
    assert!(matches!(result, Err(CompileError::NoMainFunction)));
}

#[test]
fn parse_fault_is_reported() {
    let result = compile_src("func main( {");
    assert!(matches!(result, Err(CompileError::Parse(_))));
}

#[test]
fn unknown_character_is_reported() {
    let result = compile_src("func main() { # }");
    assert!(matches!(result, Err(CompileError::Parse(_))));
}

#[test]
fn exact_bytes_of_a_small_program() {
    let bytes = compile_src("func main() { print(\"x\"); }").expect("must compile");
    let mut expected: Vec<u8> = Vec::new();
    // magic and total body length
    expected.extend_from_slice(&[0x4E, 0x45, 0x4E, 0x43, 0x00, 0x00, 0x00, 0x22]);
    // record for the seeded built-in `print`: one Write opcode
    expected.extend_from_slice(&[0x00, 0x05]);
    expected.extend_from_slice(b"print");
    expected.extend_from_slice(&[0x00, 0x00, 0x00, 0x01, 0x12]);
    // record for `main`: PushString "x", then Call "print"
    expected.extend_from_slice(&[0x00, 0x04]);
    expected.extend_from_slice(b"main");
    expected.extend_from_slice(&[0x00, 0x00, 0x00, 0x0C]);
    expected.extend_from_slice(&[0xE1, 0x00, 0x01]);
    expected.extend_from_slice(b"x");
    expected.extend_from_slice(&[0xA1, 0x00, 0x05]);
    expected.extend_from_slice(b"print");
    assert_eq!(bytes, expected);
}

#[test]
fn compilation_is_deterministic() {
    let source = "func main() { greet(); greet(); } func greet() { print(\"hey\"); }";
    let first = compile_src(source).expect("must compile");
    let second = compile_src(source).expect("must compile");
    assert_eq!(first, second);
}

#[test]
fn arguments_are_lowered_before_the_call() {
    // The argument is pushed and `wrap`'s empty body leaves it for `print`.
    let bytes = compile_src("func main() { print(wrap(\"a\")); } func wrap() {}")
        .expect("must compile");
    let (output, fault) = nenc::interpreter::interpret(&bytes);
    assert!(fault.is_none());
    assert_eq!(output, "a");
}

#[test]
fn impure_marker_is_accepted() {
    let bytes = compile_src("impure func main() { print(\"io\"); }").expect("must compile");
    let (output, fault) = nenc::interpreter::interpret(&bytes);
    assert!(fault.is_none());
    assert_eq!(output, "io");
}

#[test]
fn overlong_string_operand_is_rejected() {
    let long = "a".repeat(0x10000);
    let source = format!("func main() {{ print(\"{}\"); }}", long);
    let result = compile_src(&source);
    match result {
        Err(CompileError::StringTooLong(name)) => assert_eq!(name, "main"),
        other => panic!("expected string-too-long failure, got {:?}", other.map(|_| ())),
    }
}

#[test]
fn overlong_function_name_is_rejected() {
    let long = "f".repeat(0x10000);
    let source = format!("func main() {{ {}(); }} func {}() {{}}", long, long);
    let result = compile_src(&source);
    match result {
        Err(CompileError::NameTooLong(name)) => assert_eq!(name.len(), 0x10000),
        other => panic!("expected name-too-long failure, got {:?}", other.map(|_| ())),
    }
}
