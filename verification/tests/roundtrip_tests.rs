use nenc::compile;
use nenc::interpreter::interpret;
use nenc::CompilerOptions;

fn run_source(source: &str) -> String {
    let bytes = compile(source, CompilerOptions {}).expect("must compile");
    let (output, fault) = interpret(&bytes);
    assert!(fault.is_none(), "unexpected fault: {:?}", fault);
    output
}

#[test]
fn one_literal_round_trips() {
    assert_eq!(run_source("func main() { print(\"hello\"); }"), "hello");
}

#[test]
fn several_statements_emit_in_order() {
    let source = "func main() { print(\"a\"); print(\"b\"); print(\"c\"); }";
    assert_eq!(run_source(source), "abc");
}

#[test]
fn calls_nest_through_several_functions() {
    let source = "func main() { one(); two(); } \
                  func one() { print(\"1\"); } \
                  func two() { one(); print(\"2\"); }";
    assert_eq!(run_source(source), "112");
}

#[test]
fn newlines_come_only_from_explicit_literals() {
    let source = "func main() { print(\"a\"); print(\"\n\"); print(\"b\"); }";
    assert_eq!(run_source(source), "a\nb");
}

#[test]
fn empty_string_literal_emits_nothing() {
    assert_eq!(run_source("func main() { print(\"\"); }"), "");
}

#[test]
fn text_outside_ascii_round_trips() {
    assert_eq!(run_source("func main() { print(\"gr\u{00FC}n \u{2713}\"); }"), "gr\u{00FC}n \u{2713}");
}

#[test]
fn shared_stack_spans_source_level_calls() {
    // `take` pops what `main` pushed as an argument to it.
    let source = "func main() { take(\"gift\"); } func take() { print(\"got \"); }";
    // take's body ignores the pushed value: "gift" stays on the stack and
    // only "got " is emitted.
    assert_eq!(run_source(source), "got ");
}
