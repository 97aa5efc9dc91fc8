//! The bytecode encoder: turns a resolved namespace into the binary blob
//! the virtual machine loads — the magic header, a 32-bit body length, and
//! one length-prefixed record per function.

use vstd::prelude::*;
use vstd::string::StrSliceExecFns;
use vstd::utf8::encode_utf8;

use crate::builtin::{get_bytecode_of_function, spec_builtin_template};
use crate::ir::{CompileError, CompileErrorView, Instruction, InstructionView, NamespaceView,
    ScopeElement, ScopeElementView, IR};
use crate::wire::{push_u32_be, push_u16_be, spec_magic, spec_u16_be, spec_u32_be, MAGIC_0,
    MAGIC_1, MAGIC_2, MAGIC_3, OPCODE_CALL, OPCODE_PUSH_STRING, OPCODE_WRITE};

verus! {

/// The opcode byte of an instruction.
pub open spec fn spec_instruction_opcode(i: InstructionView) -> u8 {
    match i {
        InstructionView::Write => OPCODE_WRITE,
        InstructionView::Call(_) => OPCODE_CALL,
        InstructionView::PushString(_) => OPCODE_PUSH_STRING,
    }
}

/// The operand bytes of an instruction: a 16-bit length and the UTF-8 bytes
/// of the text for `Call` and `PushString`, nothing for `Write`.
pub open spec fn spec_instruction_operand(i: InstructionView) -> Seq<u8> {
    match i {
        InstructionView::PushString(s) => spec_u16_be(encode_utf8(s).len() as u16) + encode_utf8(s),
        InstructionView::Call(s) => spec_u16_be(encode_utf8(s).len() as u16) + encode_utf8(s),
        InstructionView::Write => Seq::empty(),
    }
}

/// Whether the instruction's operand fits its 16-bit length field.
pub open spec fn spec_operand_fits(i: InstructionView) -> bool {
    match i {
        InstructionView::PushString(s) => encode_utf8(s).len() <= 0xFFFF,
        InstructionView::Call(s) => encode_utf8(s).len() <= 0xFFFF,
        InstructionView::Write => true,
    }
}

/// One encoded instruction: its opcode byte, then its operand bytes.
pub open spec fn spec_encode_instruction(i: InstructionView) -> Seq<u8> {
    seq![spec_instruction_opcode(i)] + spec_instruction_operand(i)
}

/// A function's encoded opcode stream, or the fault met first: an operand
/// that does not fit its length field is reported against the named
/// function.
pub open spec fn spec_encode_body_checked(name: Seq<char>, insns: Seq<InstructionView>) -> Result<
    Seq<u8>,
    CompileErrorView,
>
    decreases insns.len(),
{
    if insns.len() == 0 {
        Ok(Seq::empty())
    } else if !spec_operand_fits(insns[0]) {
        Err(CompileErrorView::StringTooLong(name))
    } else {
        match spec_encode_body_checked(name, insns.drop_first()) {
            Err(e) => Err(e),
            Ok(rest) => Ok(spec_encode_instruction(insns[0]) + rest),
        }
    }
}

/// One function record: 16-bit name length, UTF-8 name bytes, 32-bit body
/// length, body bytes.
pub open spec fn spec_encode_record(name: Seq<char>, body: Seq<u8>) -> Seq<u8> {
    spec_u16_be(encode_utf8(name).len() as u16) + encode_utf8(name) + spec_u32_be(
        body.len() as u32,
    ) + body
}

/// True when the entry can reach the encoder: its name resolves to a
/// finished function or to a built-in with a registered template.
pub open spec fn spec_entry_resolved(entry: (Seq<char>, ScopeElementView)) -> bool {
    match entry.1 {
        ScopeElementView::Function(_) => true,
        ScopeElementView::BuiltInFunction => spec_builtin_template(entry.0) is Some,
        ScopeElementView::PlaceholderFunction => false,
        ScopeElementView::Variable => false,
    }
}

/// True when every entry of the namespace can reach the encoder.
/// Placeholders and variables must not survive to encoding.
pub open spec fn spec_namespace_resolved(ns: NamespaceView) -> bool {
    forall|j: int| 0 <= j < ns.len() ==> #[trigger] spec_entry_resolved(ns[j])
}

/// One entry's record bytes, or the fault met first: a name or operand
/// over its length field, or a body over its 32-bit length field.
pub open spec fn spec_encode_entry_checked(entry: (Seq<char>, ScopeElementView)) -> Result<
    Seq<u8>,
    CompileErrorView,
> {
    if encode_utf8(entry.0).len() > 0xFFFF {
        Err(CompileErrorView::NameTooLong(entry.0))
    } else {
        match entry.1 {
            ScopeElementView::Function(insns) => match spec_encode_body_checked(entry.0, insns) {
                Err(e) => Err(e),
                Ok(body) => if body.len() > 0xFFFFFFFF {
                    Err(CompileErrorView::BodyTooLarge(entry.0))
                } else {
                    Ok(spec_encode_record(entry.0, body))
                },
            },
            ScopeElementView::BuiltInFunction => Ok(
                spec_encode_record(entry.0, spec_builtin_template(entry.0).unwrap()),
            ),
            ScopeElementView::PlaceholderFunction => arbitrary(),
            ScopeElementView::Variable => arbitrary(),
        }
    }
}

/// The records of all entries back to back, in namespace order, or the
/// first fault.
pub open spec fn spec_encode_entries(ns: NamespaceView) -> Result<Seq<u8>, CompileErrorView>
    decreases ns.len(),
{
    if ns.len() == 0 {
        Ok(Seq::empty())
    } else {
        match spec_encode_entry_checked(ns[0]) {
            Err(e) => Err(e),
            Ok(record) => match spec_encode_entries(ns.drop_first()) {
                Err(e) => Err(e),
                Ok(rest) => Ok(record + rest),
            },
        }
    }
}

/// The whole compiled file for a resolved namespace: the magic bytes, the
/// 32-bit body length, and the function records — or the first fault, with
/// a missing `main` reported before anything is encoded.
pub open spec fn spec_ir_bytecode(ns: NamespaceView) -> Result<Seq<u8>, CompileErrorView> {
    if crate::table::spec_lookup(ns, "main"@) is None {
        Err(CompileErrorView::NoMainFunction)
    } else {
        match spec_encode_entries(ns) {
            Err(e) => Err(e),
            Ok(body) => if body.len() > 0xFFFFFFFF {
                Err(CompileErrorView::ProgramTooLarge)
            } else {
                Ok(spec_magic() + spec_u32_be(body.len() as u32) + body)
            },
        }
    }
}

/// The mathematical value of an encoding step's outcome.
pub open spec fn spec_bytes_result(r: Result<Vec<u8>, CompileError>) -> Result<
    Seq<u8>,
    CompileErrorView,
> {
    match r {
        Ok(v) => Ok(v@),
        Err(e) => Err(e.deep_view()),
    }
}

/// Entry encoding restarted mid-way: the bytes emitted so far and the
/// entries still to encode.
pub open spec fn spec_entries_resume(acc: Seq<u8>, rest: NamespaceView) -> Result<
    Seq<u8>,
    CompileErrorView,
> {
    match spec_encode_entries(rest) {
        Err(e) => Err(e),
        Ok(bytes) => Ok(acc + bytes),
    }
}

/// Body encoding restarted mid-way.
pub open spec fn spec_body_resume(acc: Seq<u8>, name: Seq<char>, rest: Seq<InstructionView>) -> Result<
    Seq<u8>,
    CompileErrorView,
> {
    match spec_encode_body_checked(name, rest) {
        Err(e) => Err(e),
        Ok(bytes) => Ok(acc + bytes),
    }
}

/// The opcode byte identifying the instruction, per the format's table.
pub fn instruction_opcode(instruction: Instruction) -> (r: u8)
    ensures
        r == spec_instruction_opcode(instruction.deep_view()),
{
    match instruction {
        Instruction::Write => OPCODE_WRITE,
        Instruction::Call(_) => OPCODE_CALL,
        Instruction::PushString(_) => OPCODE_PUSH_STRING,
    }
}

/// The operand bytes following the instruction's opcode: a 16-bit length
/// and the text's UTF-8 bytes for `Call` and `PushString`, nothing for
/// `Write`.
pub fn instruction_operand(instruction: Instruction) -> (r: Vec<u8>)
    requires
        spec_operand_fits(instruction.deep_view()),
    ensures
        r@ == spec_instruction_operand(instruction.deep_view()),
{
    match instruction {
        Instruction::PushString(string) => operand_of_text(string),
        Instruction::Call(string) => operand_of_text(string),
        Instruction::Write => Vec::<u8>::new(),
    }
}

/// The 16-bit length and UTF-8 bytes of one operand text.
fn operand_of_text(string: String) -> (r: Vec<u8>)
    requires
        encode_utf8(string@).len() <= 0xFFFF,
    ensures
        r@ == spec_u16_be(encode_utf8(string@).len() as u16) + encode_utf8(string@),
{
    let mut bytes = string.as_str().as_bytes_vec();
    let mut out = Vec::<u8>::new();
    let text_len = bytes.len();
    push_u16_be(&mut out, text_len as u16);
    out.append(&mut bytes);
    proof {
        assert(out@ =~= spec_u16_be(encode_utf8(string@).len() as u16) + encode_utf8(string@));
    }
    out
}

/// Encodes a resolved namespace into the compiled file: checks that `main`
/// is defined, encodes each entry's record in namespace order, and prefixes
/// the magic bytes and the total body length. [`spec_ir_bytecode`] says the
/// outcome, byte for byte.
pub fn ir_bytecode(ir: IR) -> (r: Result<Vec<u8>, CompileError>)
    requires
        ir@.len() == 1,
        spec_namespace_resolved(ir@[0]),
    ensures
        spec_bytes_result(r) == spec_ir_bytecode(ir@[0]),
{
    let ghost nsv = ir@[0];
    let namespace = &ir.scope[0];
    if namespace.get(&"main".to_owned()).is_none() {
        return Err(CompileError::NoMainFunction);
    }
    let mut bytecode = Vec::<u8>::new();
    proof {
        assert(nsv.skip(0) =~= nsv);
        assert(bytecode@ + spec_encode_entries(nsv)->Ok_0 =~= spec_encode_entries(nsv)->Ok_0);
    }
    let entry_count = namespace.len();
    let mut k: usize = 0;
    while k < entry_count
        invariant
            k <= nsv.len(),
            entry_count == nsv.len(),
            nsv == ir@[0],
            ir@.len() == 1,
            namespace == &ir.scope[0],
            namespace@ == nsv,
            spec_namespace_resolved(nsv),
            crate::table::spec_lookup(nsv, "main"@) is Some,
            spec_encode_entries(nsv) == spec_entries_resume(bytecode@, nsv.skip(k as int)),
        decreases entry_count - k,
    {
        proof {
            assert(nsv.skip(k as int)[0] == nsv[k as int]);
            assert(nsv.skip(k as int).drop_first() =~= nsv.skip(k as int + 1));
        }
        let ghost acc = bytecode@;
        let entry = namespace.entry_at(k);
        let name = entry.0;
        proof {
            assert(spec_entry_resolved(nsv[k as int]));
        }
        let mut name_bytes = name.as_str().as_bytes_vec();
        if name_bytes.len() > 0xFFFF {
            proof {
                assert(spec_encode_entry_checked(nsv[k as int])
                    == Err::<Seq<u8>, CompileErrorView>(CompileErrorView::NameTooLong(name@)));
                assert(spec_encode_entries(nsv.skip(k as int))
                    == Err::<Seq<u8>, CompileErrorView>(CompileErrorView::NameTooLong(name@)));
            }
            return Err(CompileError::NameTooLong(name.clone()));
        }
        let record_body: Vec<u8> = match entry.1 {
            ScopeElement::Function(f) => {
                let ghost insnsv = f.deep_view();
                let mut body = Vec::<u8>::new();
                proof {
                    assert(insnsv.skip(0) =~= insnsv);
                    assert(body@ + spec_encode_body_checked(name@, insnsv)->Ok_0
                        =~= spec_encode_body_checked(name@, insnsv)->Ok_0);
                }
                let mut j: usize = 0;
                while j < f.len()
                    invariant
                        j <= insnsv.len(),
                        insnsv == f.deep_view(),
                        insnsv.len() == f@.len(),
                        nsv == ir@[0],
                        k < nsv.len(),
                        nsv[k as int].0 == name@,
                        nsv[k as int].1 == ScopeElementView::Function(insnsv),
                        encode_utf8(name@).len() <= 0xFFFF,
                        crate::table::spec_lookup(nsv, "main"@) is Some,
                        spec_encode_entries(nsv) == spec_entries_resume(
                            bytecode@,
                            nsv.skip(k as int),
                        ),
                        nsv.skip(k as int)[0] == nsv[k as int],
                        spec_encode_body_checked(name@, insnsv) == spec_body_resume(
                            body@,
                            name@,
                            insnsv.skip(j as int),
                        ),
                    decreases f@.len() - j,
                {
                    proof {
                        assert(insnsv.skip(j as int)[0] == insnsv[j as int]);
                        assert(insnsv.skip(j as int).drop_first() =~= insnsv.skip(j as int + 1));
                    }
                    let ghost body_acc = body@;
                    let instr = f[j].clone();
                    let fits = match &instr {
                        Instruction::PushString(s) => {
                            let b = s.as_str().as_bytes_vec();
                            b.len() <= 0xFFFF
                        },
                        Instruction::Call(s) => {
                            let b = s.as_str().as_bytes_vec();
                            b.len() <= 0xFFFF
                        },
                        Instruction::Write => true,
                    };
                    if !fits {
                        proof {
                            assert(!spec_operand_fits(insnsv[j as int]));
                            assert(spec_encode_body_checked(name@, insnsv.skip(j as int))
                                == Err::<Seq<u8>, CompileErrorView>(
                                CompileErrorView::StringTooLong(name@),
                            ));
                            assert(spec_encode_body_checked(name@, insnsv)
                                == Err::<Seq<u8>, CompileErrorView>(
                                CompileErrorView::StringTooLong(name@),
                            ));
                            assert(spec_encode_entry_checked(nsv[k as int])
                                == Err::<Seq<u8>, CompileErrorView>(
                                CompileErrorView::StringTooLong(name@),
                            ));
                            assert(spec_encode_entries(nsv.skip(k as int))
                                == Err::<Seq<u8>, CompileErrorView>(
                                CompileErrorView::StringTooLong(name@),
                            ));
                        }
                        return Err(CompileError::StringTooLong(name.clone()));
                    }
                    let opcode = instruction_opcode(instr.clone());
                    body.push(opcode);
                    let mut operand = instruction_operand(instr);
                    body.append(&mut operand);
                    proof {
                        assert(body@ =~= body_acc + spec_encode_instruction(insnsv[j as int]));
                        assert(body_acc + spec_encode_instruction(insnsv[j as int])
                            + spec_encode_body_checked(name@, insnsv.skip(j as int + 1))->Ok_0
                            =~= body_acc + (spec_encode_instruction(insnsv[j as int])
                            + spec_encode_body_checked(name@, insnsv.skip(j as int + 1))->Ok_0));
                    }
                    j += 1;
                }
                proof {
                    assert(insnsv.skip(f@.len() as int) =~= Seq::<InstructionView>::empty());
                    assert(body@ + Seq::<u8>::empty() =~= body@);
                }
                if body.len() > 0xFFFFFFFF {
                    proof {
                        assert(spec_encode_entry_checked(nsv[k as int])
                            == Err::<Seq<u8>, CompileErrorView>(
                            CompileErrorView::BodyTooLarge(name@),
                        ));
                        assert(spec_encode_entries(nsv.skip(k as int))
                            == Err::<Seq<u8>, CompileErrorView>(
                            CompileErrorView::BodyTooLarge(name@),
                        ));
                    }
                    return Err(CompileError::BodyTooLarge(name.clone()));
                }
                body
            },
            ScopeElement::BuiltInFunction => {
                match get_bytecode_of_function(name.clone()) {
                    Some(template) => template,
                    None => {
                        proof {
                            assert(false);
                        }
                        Vec::<u8>::new()
                    },
                }
            },
            ScopeElement::PlaceholderFunction => {
                proof {
                    assert(false);
                }
                Vec::<u8>::new()
            },
            ScopeElement::Variable => {
                proof {
                    assert(false);
                }
                Vec::<u8>::new()
            },
        };
        let mut record = Vec::<u8>::new();
        let name_len = name_bytes.len();
        push_u16_be(&mut record, name_len as u16);
        record.append(&mut name_bytes);
        let body_len = record_body.len();
        let mut record_body = record_body;
        push_u32_be(&mut record, body_len as u32);
        record.append(&mut record_body);
        proof {
            assert(record@ =~= spec_encode_record(
                name@,
                spec_encode_entry_body(nsv[k as int]),
            ));
            assert(spec_encode_entry_checked(nsv[k as int]) == Ok::<Seq<u8>, CompileErrorView>(
                record@,
            ));
        }
        bytecode.append(&mut record);
        proof {
            assert(bytecode@ =~= acc + spec_encode_entry_checked(nsv[k as int])->Ok_0);
            assert(acc + spec_encode_entry_checked(nsv[k as int])->Ok_0
                + spec_encode_entries(nsv.skip(k as int + 1))->Ok_0
                =~= acc + (spec_encode_entry_checked(nsv[k as int])->Ok_0
                + spec_encode_entries(nsv.skip(k as int + 1))->Ok_0));
        }
        k += 1;
    }
    proof {
        assert(nsv.skip(entry_count as int) =~= NamespaceView::empty());
        assert(bytecode@ + Seq::<u8>::empty() =~= bytecode@);
    }
    if bytecode.len() > 0xFFFFFFFF {
        return Err(CompileError::ProgramTooLarge);
    }
    let mut full = Vec::<u8>::new();
    full.push(MAGIC_0);
    full.push(MAGIC_1);
    full.push(MAGIC_2);
    full.push(MAGIC_3);
    let total_len = bytecode.len();
    push_u32_be(&mut full, total_len as u32);
    full.append(&mut bytecode);
    proof {
        assert(full@ =~= spec_magic() + spec_u32_be(total_len as u32) + spec_encode_entries(
            nsv,
        )->Ok_0);
    }
    Ok(full)
}

/// The body bytes an encodable entry contributes, used to read the record
/// layout off [`spec_encode_entry_checked`].
pub open spec fn spec_encode_entry_body(entry: (Seq<char>, ScopeElementView)) -> Seq<u8> {
    match entry.1 {
        ScopeElementView::Function(insns) => spec_encode_body_checked(entry.0, insns)->Ok_0,
        ScopeElementView::BuiltInFunction => spec_builtin_template(entry.0).unwrap(),
        ScopeElementView::PlaceholderFunction => arbitrary(),
        ScopeElementView::Variable => arbitrary(),
    }
}

} // verus!
