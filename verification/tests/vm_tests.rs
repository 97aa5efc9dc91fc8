use nenc::interpreter::{interpret, VmError};

fn record(name: &str, body: &[u8]) -> Vec<u8> {
    let mut out: Vec<u8> = Vec::new();
    let name_bytes = name.as_bytes();
    out.extend_from_slice(&(name_bytes.len() as u16).to_be_bytes());
    out.extend_from_slice(name_bytes);
    out.extend_from_slice(&(body.len() as u32).to_be_bytes());
    out.extend_from_slice(body);
    out
}

fn file_of(records: &[Vec<u8>]) -> Vec<u8> {
    let mut body: Vec<u8> = Vec::new();
    for r in records {
        body.extend_from_slice(r);
    }
    let mut out: Vec<u8> = vec![0x4E, 0x45, 0x4E, 0x43];
    out.extend_from_slice(&(body.len() as u32).to_be_bytes());
    out.extend_from_slice(&body);
    out
}

#[test]
fn wrong_magic_fails_immediately() {
    let buffer = [0x00u8, 0x45, 0x4E, 0x43, 0x00, 0x00, 0x00, 0x00];
    let (output, fault) = interpret(&buffer);
    assert_eq!(output, "");
    assert!(matches!(fault, Some(VmError::InvalidMagic)));
}

#[test]
fn short_buffer_is_invalid() {
    let (_, fault) = interpret(&[0x4E, 0x45]);
    assert!(matches!(fault, Some(VmError::InvalidFile)));
}

#[test]
fn missing_body_length_is_reported() {
    let (_, fault) = interpret(&[0x4E, 0x45, 0x4E, 0x43, 0x00, 0x00]);
    assert!(matches!(fault, Some(VmError::MissingBodyLength)));
}

#[test]
fn stack_underflow_on_bare_write() {
    // main's whole body is one Write with nothing pushed before it.
    let buffer = file_of(&[record("main", &[0x12])]);
    let (output, fault) = interpret(&buffer);
    assert_eq!(output, "");
    assert!(matches!(fault, Some(VmError::StackUnderflow)));
}

#[test]
fn callee_consumes_callers_value() {
    // main pushes "v" and calls b; b's body is one Write.
    let mut main_body: Vec<u8> = vec![0xE1, 0x00, 0x01];
    main_body.extend_from_slice(b"v");
    main_body.extend_from_slice(&[0xA1, 0x00, 0x01]);
    main_body.extend_from_slice(b"b");
    let buffer = file_of(&[record("main", &main_body), record("b", &[0x12])]);
    let (output, fault) = interpret(&buffer);
    assert!(fault.is_none());
    assert_eq!(output, "v");
}

#[test]
fn hand_assembled_println_template_behaves_like_println() {
    // Push "x", then the literal template bytes 12 E1 00 01 0A 12:
    // Write, PushString "\n", Write — must emit x then a newline.
    let mut body: Vec<u8> = vec![0xE1, 0x00, 0x01];
    body.extend_from_slice(b"x");
    body.extend_from_slice(&[0x12, 0xE1, 0x00, 0x01, 0x0A, 0x12]);
    let buffer = file_of(&[record("main", &body)]);
    let (output, fault) = interpret(&buffer);
    assert!(fault.is_none());
    assert_eq!(output, "x\n");
}

#[test]
fn unrecognized_opcode_is_reported() {
    let buffer = file_of(&[record("main", &[0xFF])]);
    let (_, fault) = interpret(&buffer);
    assert!(matches!(fault, Some(VmError::UnrecognizedOpcode(0xFF))));
}

#[test]
fn truncated_record_is_corruption() {
    // The record claims a longer body than the buffer holds.
    let mut buffer = vec![0x4E, 0x45, 0x4E, 0x43, 0x00, 0x00, 0x00, 0x07];
    buffer.extend_from_slice(&[0x00, 0x01]);
    buffer.extend_from_slice(b"m");
    buffer.extend_from_slice(&[0x00, 0x00, 0x00, 0x09]);
    let (_, fault) = interpret(&buffer);
    assert!(matches!(fault, Some(VmError::TruncatedFunction)));
}

#[test]
fn operand_past_stream_end_is_reported() {
    // PushString claims two bytes of text but only one follows.
    let buffer = file_of(&[record("main", &[0xE1, 0x00, 0x02, 0x61])]);
    let (_, fault) = interpret(&buffer);
    assert!(matches!(fault, Some(VmError::StringOutOfBounds)));
}

#[test]
fn invalid_utf8_operand_is_reported() {
    let buffer = file_of(&[record("main", &[0xE1, 0x00, 0x01, 0xFF])]);
    let (_, fault) = interpret(&buffer);
    assert!(matches!(fault, Some(VmError::InvalidUtf8)));
}

#[test]
fn missing_main_is_reported() {
    let buffer = file_of(&[record("helper", &[0x12])]);
    let (_, fault) = interpret(&buffer);
    assert!(matches!(fault, Some(VmError::NoMainFunction)));
}

#[test]
fn call_of_unknown_function_is_reported() {
    let mut body: Vec<u8> = vec![0xA1, 0x00, 0x05];
    body.extend_from_slice(b"ghost");
    let buffer = file_of(&[record("main", &body)]);
    let (_, fault) = interpret(&buffer);
    match fault {
        Some(VmError::FunctionNotFound(name)) => assert_eq!(name, "ghost"),
        other => panic!("expected function-not-found, got {:?}", other),
    }
}

#[test]
fn later_record_with_same_name_wins() {
    let mut first_body: Vec<u8> = vec![0xE1, 0x00, 0x01];
    first_body.extend_from_slice(b"a");
    first_body.push(0x12);
    let mut second_body: Vec<u8> = vec![0xE1, 0x00, 0x01];
    second_body.extend_from_slice(b"b");
    second_body.push(0x12);
    let buffer = file_of(&[record("main", &first_body), record("main", &second_body)]);
    let (output, fault) = interpret(&buffer);
    assert!(fault.is_none());
    assert_eq!(output, "b");
}

#[test]
fn output_before_a_fault_is_kept() {
    // Push "a", write it, then an underflowing Write.
    let mut body: Vec<u8> = vec![0xE1, 0x00, 0x01];
    body.extend_from_slice(b"a");
    body.extend_from_slice(&[0x12, 0x12]);
    let buffer = file_of(&[record("main", &body)]);
    let (output, fault) = interpret(&buffer);
    assert_eq!(output, "a");
    assert!(matches!(fault, Some(VmError::StackUnderflow)));
}

#[test]
fn unbounded_recursion_exhausts_call_depth() {
    let mut body: Vec<u8> = vec![0xA1, 0x00, 0x04];
    body.extend_from_slice(b"main");
    let buffer = file_of(&[record("main", &body)]);
    let (_, fault) = interpret(&buffer);
    assert!(matches!(fault, Some(VmError::CallDepthExceeded)));
}

#[test]
fn empty_main_emits_nothing() {
    let buffer = file_of(&[record("main", &[])]);
    let (output, fault) = interpret(&buffer);
    assert!(fault.is_none());
    assert_eq!(output, "");
}

#[test]
fn declared_body_length_is_informational() {
    // The header's body length is read but records run to the buffer's end.
    let mut buffer = file_of(&[record("main", &[])]);
    buffer[7] = 0x63;
    let (output, fault) = interpret(&buffer);
    assert!(fault.is_none());
    assert_eq!(output, "");
}
