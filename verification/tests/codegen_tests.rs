use nenc::builtin::get_bytecode_of_function;
use nenc::codegen::{instruction_opcode, instruction_operand, ir_bytecode};
use nenc::ir::{CompileError, Instruction, Namespace, ScopeElement, IR};
use nenc::wire::{push_u16_be, push_u32_be, u16_from_be, u32_from_be};

#[test]
fn opcodes_match_the_format_table() {
    assert_eq!(instruction_opcode(Instruction::Write), 0x12);
    assert_eq!(instruction_opcode(Instruction::Call(String::from("f"))), 0xA1);
    assert_eq!(instruction_opcode(Instruction::PushString(String::from("s"))), 0xE1);
}

#[test]
fn operands_carry_a_big_endian_length_and_the_text() {
    let operand = instruction_operand(Instruction::PushString(String::from("ab")));
    assert_eq!(operand, vec![0x00, 0x02, 0x61, 0x62]);
    let call = instruction_operand(Instruction::Call(String::from("print")));
    assert_eq!(call, vec![0x00, 0x05, 0x70, 0x72, 0x69, 0x6E, 0x74]);
    let none = instruction_operand(Instruction::Write);
    assert!(none.is_empty());
}

#[test]
fn builtin_templates_are_fixed() {
    assert_eq!(get_bytecode_of_function(String::from("print")), Some(vec![0x12]));
    assert_eq!(
        get_bytecode_of_function(String::from("println")),
        Some(vec![0x12, 0xE1, 0x00, 0x01, 0x0A, 0x12])
    );
    assert_eq!(get_bytecode_of_function(String::from("width")), None);
}

#[test]
fn big_endian_fields_round_trip() {
    let mut out: Vec<u8> = Vec::new();
    push_u16_be(&mut out, 0xABCD);
    assert_eq!(out, vec![0xAB, 0xCD]);
    assert_eq!(u16_from_be(0xAB, 0xCD), 0xABCD);
    let mut wide: Vec<u8> = Vec::new();
    push_u32_be(&mut wide, 0x01020304);
    assert_eq!(wide, vec![0x01, 0x02, 0x03, 0x04]);
    assert_eq!(u32_from_be(0x01, 0x02, 0x03, 0x04), 0x01020304);
}

#[test]
fn namespace_keeps_insertion_order_and_replaces_in_place() {
    let mut ns = Namespace::new();
    ns.insert(String::from("a"), ScopeElement::PlaceholderFunction);
    ns.insert(String::from("b"), ScopeElement::BuiltInFunction);
    ns.insert(String::from("a"), ScopeElement::Function(Vec::new()));
    assert_eq!(ns.len(), 2);
    let (first_name, first_element) = ns.entry_at(0);
    assert_eq!(first_name, "a");
    assert!(matches!(first_element, ScopeElement::Function(_)));
    let (second_name, second_element) = ns.entry_at(1);
    assert_eq!(second_name, "b");
    assert!(matches!(second_element, ScopeElement::BuiltInFunction));
    assert!(matches!(ns.get(&String::from("a")), Some(ScopeElement::Function(_))));
    assert!(ns.get(&String::from("c")).is_none());
}

#[test]
fn encoder_renders_records_in_namespace_order() {
    let mut ns = Namespace::new();
    ns.insert(String::from("print"), ScopeElement::BuiltInFunction);
    ns.insert(
        String::from("main"),
        ScopeElement::Function(vec![
            Instruction::PushString(String::from("x")),
            Instruction::Call(String::from("print")),
        ]),
    );
    let ir = IR { scope: vec![ns] };
    let bytes = ir_bytecode(ir).expect("must encode");
    let mut expected: Vec<u8> = vec![0x4E, 0x45, 0x4E, 0x43, 0x00, 0x00, 0x00, 0x22];
    expected.extend_from_slice(&[0x00, 0x05]);
    expected.extend_from_slice(b"print");
    expected.extend_from_slice(&[0x00, 0x00, 0x00, 0x01, 0x12]);
    expected.extend_from_slice(&[0x00, 0x04]);
    expected.extend_from_slice(b"main");
    expected.extend_from_slice(&[0x00, 0x00, 0x00, 0x0C]);
    expected.extend_from_slice(&[0xE1, 0x00, 0x01]);
    expected.extend_from_slice(b"x");
    expected.extend_from_slice(&[0xA1, 0x00, 0x05]);
    expected.extend_from_slice(b"print");
    assert_eq!(bytes, expected);
}

#[test]
fn encoder_requires_main() {
    let mut ns = Namespace::new();
    ns.insert(String::from("helper"), ScopeElement::Function(Vec::new()));
    let ir = IR { scope: vec![ns] };
    assert!(matches!(ir_bytecode(ir), Err(CompileError::NoMainFunction)));
}

#[test]
fn encoder_rejects_an_overlong_name() {
    let long = "n".repeat(0x10000);
    let mut ns = Namespace::new();
    ns.insert(String::from("main"), ScopeElement::Function(Vec::new()));
    ns.insert(long.clone(), ScopeElement::Function(Vec::new()));
    let ir = IR { scope: vec![ns] };
    match ir_bytecode(ir) {
        Err(CompileError::NameTooLong(name)) => assert_eq!(name, long),
        other => panic!("expected name-too-long, got {:?}", other.map(|_| ())),
    }
}

#[test]
fn encoder_rejects_an_overlong_operand() {
    let long = "s".repeat(0x10000);
    let mut ns = Namespace::new();
    ns.insert(
        String::from("main"),
        ScopeElement::Function(vec![Instruction::PushString(long)]),
    );
    let ir = IR { scope: vec![ns] };
    match ir_bytecode(ir) {
        Err(CompileError::StringTooLong(name)) => assert_eq!(name, "main"),
        other => panic!("expected string-too-long, got {:?}", other.map(|_| ())),
    }
}

#[test]
fn build_resolves_forward_references_to_functions() {
    let mut parser = nenc::parser::Parser::new("func main() { later(); } func later() {}");
    let program = parser.parse_program().expect("must parse");
    let ir = IR::from_program(program).expect("must build");
    assert_eq!(ir.scope.len(), 1);
    let ns = &ir.scope[0];
    assert!(matches!(ns.get(&String::from("print")), Some(ScopeElement::BuiltInFunction)));
    assert!(matches!(ns.get(&String::from("main")), Some(ScopeElement::Function(_))));
    assert!(matches!(ns.get(&String::from("later")), Some(ScopeElement::Function(_))));
}
