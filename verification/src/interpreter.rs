//! The virtual machine: decodes a compiled file into a function table and
//! executes `main` on one evaluation stack shared by every call — a callee
//! consumes whatever values its caller pushed. Output is collected as text
//! and handed back with the outcome.

use vstd::prelude::*;
use vstd::slice::slice_subrange;
use vstd::string::StrSliceExecFns;
use vstd::string::StringExecFns;
use vstd::utf8::{decode_utf8, valid_utf8};

use crate::ir::{Instruction, InstructionView};
use crate::strings::utf8_to_str;
use crate::table::{spec_insert, spec_lookup};
use crate::wire::{spec_magic, spec_u16_from_be, spec_u32_from_be, u16_from_be, u32_from_be,
    MAGIC_0, MAGIC_1, MAGIC_2, MAGIC_3, OPCODE_CALL, OPCODE_PUSH_STRING, OPCODE_WRITE};

verus! {

/// How many nested calls the interpreter allows before it reports the
/// recursion as resource exhaustion instead of overflowing the native
/// stack.
pub const CALL_DEPTH_LIMIT: u64 = 10000;

/// A fault met while loading or running a compiled file. Each one is fatal:
/// the surrounding command reports it and exits non-zero.
#[derive(Debug)]
pub enum VmError {
    /// The buffer is too short to hold the four magic bytes.
    InvalidFile,
    /// The first four bytes are not the magic.
    InvalidMagic,
    /// The buffer ends before the 32-bit body length.
    MissingBodyLength,
    /// A function record's length field reads past the end of the buffer.
    TruncatedFunction,
    /// A name or string operand holds bytes that are not UTF-8.
    InvalidUtf8,
    /// A string operand's length field reads past the end of the stream.
    StringOutOfBounds,
    /// An opcode byte that names no instruction.
    UnrecognizedOpcode(u8),
    /// The loaded table holds no `main` function.
    NoMainFunction,
    /// A call of a name the table does not hold.
    FunctionNotFound(String),
    /// `Write` with nothing on the evaluation stack.
    StackUnderflow,
    /// Calls nested deeper than [`CALL_DEPTH_LIMIT`].
    CallDepthExceeded,
}

/// The mathematical value of a [`VmError`].
pub enum VmErrorView {
    InvalidFile,
    InvalidMagic,
    MissingBodyLength,
    TruncatedFunction,
    InvalidUtf8,
    StringOutOfBounds,
    UnrecognizedOpcode(u8),
    NoMainFunction,
    FunctionNotFound(Seq<char>),
    StackUnderflow,
    CallDepthExceeded,
}

impl DeepView for VmError {
    type V = VmErrorView;

    open spec fn deep_view(&self) -> VmErrorView {
        match self {
            VmError::InvalidFile => VmErrorView::InvalidFile,
            VmError::InvalidMagic => VmErrorView::InvalidMagic,
            VmError::MissingBodyLength => VmErrorView::MissingBodyLength,
            VmError::TruncatedFunction => VmErrorView::TruncatedFunction,
            VmError::InvalidUtf8 => VmErrorView::InvalidUtf8,
            VmError::StringOutOfBounds => VmErrorView::StringOutOfBounds,
            VmError::UnrecognizedOpcode(op) => VmErrorView::UnrecognizedOpcode(*op),
            VmError::NoMainFunction => VmErrorView::NoMainFunction,
            VmError::FunctionNotFound(n) => VmErrorView::FunctionNotFound(n@),
            VmError::StackUnderflow => VmErrorView::StackUnderflow,
            VmError::CallDepthExceeded => VmErrorView::CallDepthExceeded,
        }
    }
}

/// One value on the evaluation stack. Only strings exist today.
#[derive(Debug)]
pub enum StackElement {
    String(String),
}

impl DeepView for StackElement {
    type V = Seq<char>;

    open spec fn deep_view(&self) -> Seq<char> {
        match self {
            StackElement::String(s) => s@,
        }
    }
}

/// The mathematical value of the loaded function table: name and decoded
/// instruction list per record, in load order.
pub type TableView = Seq<(Seq<char>, Seq<InstructionView>)>;

/// The mathematical state of a running interpreter: the shared evaluation
/// stack and the text emitted so far.
pub struct VmStateView {
    pub stack: Seq<Seq<char>>,
    pub output: Seq<char>,
}

/// The instruction an opcode byte names, its operand still empty.
pub open spec fn spec_instruction_from_opcode(opcode: u8) -> Option<InstructionView> {
    if opcode == OPCODE_WRITE {
        Some(InstructionView::Write)
    } else if opcode == OPCODE_CALL {
        Some(InstructionView::Call(Seq::empty()))
    } else if opcode == OPCODE_PUSH_STRING {
        Some(InstructionView::PushString(Seq::empty()))
    } else {
        None
    }
}

/// Reading one length-prefixed string from the front of the stream: the
/// decoded text and how many bytes it occupied, or the fault — a length
/// field past the end of the stream, or bytes that are not UTF-8.
pub open spec fn spec_read_string(code: Seq<u8>) -> Result<(Seq<char>, int), VmErrorView> {
    if code.len() < 2 {
        Err(VmErrorView::StringOutOfBounds)
    } else {
        let n = spec_u16_from_be(code[0], code[1]) as int;
        if code.len() < 2 + n {
            Err(VmErrorView::StringOutOfBounds)
        } else if !valid_utf8(code.subrange(2, 2 + n)) {
            Err(VmErrorView::InvalidUtf8)
        } else {
            Ok((decode_utf8(code.subrange(2, 2 + n)), 2 + n))
        }
    }
}

/// Decoding a whole opcode stream greedily, one instruction at a time:
/// `Write` stands alone; `Call` and `PushString` carry one length-prefixed
/// string; any other opcode byte is a fault.
pub open spec fn spec_parse_instructions(code: Seq<u8>) -> Result<Seq<InstructionView>, VmErrorView>
    decreases code.len(),
{
    if code.len() == 0 {
        Ok(Seq::empty())
    } else {
        let op = code[0];
        if op == OPCODE_WRITE {
            match spec_parse_instructions(code.drop_first()) {
                Err(e) => Err(e),
                Ok(rest) => Ok(seq![InstructionView::Write] + rest),
            }
        } else if op == OPCODE_CALL || op == OPCODE_PUSH_STRING {
            match spec_read_string(code.drop_first()) {
                Err(e) => Err(e),
                Ok(p) => match spec_parse_instructions(code.drop_first().skip(p.1)) {
                    Err(e) => Err(e),
                    Ok(rest) => if op == OPCODE_CALL {
                        Ok(seq![InstructionView::Call(p.0)] + rest)
                    } else {
                        Ok(seq![InstructionView::PushString(p.0)] + rest)
                    },
                },
            }
        } else {
            Err(VmErrorView::UnrecognizedOpcode(op))
        }
    }
}

/// Instruction decoding restarted mid-way: the instructions decoded so far
/// and the bytes still to decode.
pub open spec fn spec_parse_resume(acc: Seq<InstructionView>, rest: Seq<u8>) -> Result<
    Seq<InstructionView>,
    VmErrorView,
> {
    match spec_parse_instructions(rest) {
        Err(e) => Err(e),
        Ok(insns) => Ok(acc + insns),
    }
}

/// The instruction an opcode byte names, with an empty operand to be
/// filled by the decoder.
fn instruction_from_opcode(opcode: u8) -> (r: Option<Instruction>)
    ensures
        match spec_instruction_from_opcode(opcode) {
            Some(i) => r matches Some(instr) && instr.deep_view() == i,
            None => r is None,
        },
{
    if opcode == OPCODE_WRITE {
        Some(Instruction::Write)
    } else if opcode == OPCODE_CALL {
        Some(Instruction::Call(String::new()))
    } else if opcode == OPCODE_PUSH_STRING {
        Some(Instruction::PushString(String::new()))
    } else {
        None
    }
}

/// Reads one length-prefixed string at `*idx`, advancing `*idx` past it,
/// exactly as [`spec_read_string`] says of the stream from `*idx` on.
fn get_byte_string_from_idx(code: &[u8], idx: &mut usize) -> (r: Result<String, VmError>)
    requires
        *old(idx) <= code@.len(),
    ensures
        r matches Ok(s) ==> spec_read_string(code@.skip(*old(idx) as int)) matches Ok(p) && p.0
            == s@ && *final(idx) == *old(idx) + p.1 && *final(idx) <= code@.len(),
        r matches Err(e) ==> spec_read_string(code@.skip(*old(idx) as int)) == Err::<
            (Seq<char>, int),
            VmErrorView,
        >(e.deep_view()) && *final(idx) == *old(idx),
{
    let start = *idx;
    let ghost tail = code@.skip(start as int);
    let remaining = code.len() - start;
    if remaining < 2 {
        return Err(VmError::StringOutOfBounds);
    }
    proof {
        assert(tail[0] == code@[start as int]);
        assert(tail[1] == code@[start as int + 1]);
    }
    let string_len = u16_from_be(code[start], code[start + 1]) as usize;
    if remaining - 2 < string_len {
        return Err(VmError::StringOutOfBounds);
    }
    let sub = slice_subrange(code, start + 2, start + 2 + string_len);
    proof {
        assert(sub@ =~= tail.subrange(2, 2 + string_len as int));
    }
    match utf8_to_str(sub) {
        None => Err(VmError::InvalidUtf8),
        Some(text) => {
            let owned = text.to_owned();
            *idx = start + 2 + string_len;
            Ok(owned)
        },
    }
}

/// Decodes a whole opcode stream into instructions, exactly as
/// [`spec_parse_instructions`] says.
fn parse_instructions(instructions: &[u8]) -> (r: Result<Vec<Instruction>, VmError>)
    ensures
        r matches Ok(v) ==> spec_parse_instructions(instructions@) == Ok::<
            Seq<InstructionView>,
            VmErrorView,
        >(v.deep_view()),
        r matches Err(e) ==> spec_parse_instructions(instructions@) == Err::<
            Seq<InstructionView>,
            VmErrorView,
        >(e.deep_view()),
{
    let mut instructions_vec = Vec::<Instruction>::new();
    let mut idx: usize = 0;
    proof {
        assert(instructions@.skip(0) =~= instructions@);
        assert(instructions_vec.deep_view() =~= Seq::<InstructionView>::empty());
        assert(spec_parse_resume(Seq::empty(), instructions@) == spec_parse_instructions(
            instructions@,
        )) by {
            if spec_parse_instructions(instructions@) is Ok {
                assert(Seq::<InstructionView>::empty() + spec_parse_instructions(
                    instructions@,
                )->Ok_0 =~= spec_parse_instructions(instructions@)->Ok_0);
            }
        }
    }
    while idx < instructions.len()
        invariant
            idx <= instructions@.len(),
            spec_parse_instructions(instructions@) == spec_parse_resume(
                instructions_vec.deep_view(),
                instructions@.skip(idx as int),
            ),
        decreases instructions@.len() - idx,
    {
        let ghost tail = instructions@.skip(idx as int);
        let ghost acc = instructions_vec.deep_view();
        proof {
            assert(tail[0] == instructions@[idx as int]);
            assert(tail.drop_first() =~= instructions@.skip(idx as int + 1));
        }
        let opcode = instructions[idx];
        idx += 1;
        match instruction_from_opcode(opcode) {
            Some(Instruction::Write) => {
                instructions_vec.push(Instruction::Write);
                proof {
                    assert(instructions_vec.deep_view() =~= acc.push(InstructionView::Write));
                    if spec_parse_instructions(tail.drop_first()) is Ok {
                        assert(acc.push(InstructionView::Write) + spec_parse_instructions(
                            tail.drop_first(),
                        )->Ok_0 =~= acc + (seq![InstructionView::Write]
                            + spec_parse_instructions(tail.drop_first())->Ok_0));
                    }
                }
            },
            Some(Instruction::Call(_)) => {
                match get_byte_string_from_idx(instructions, &mut idx) {
                    Err(e) => {
                        return Err(e);
                    },
                    Ok(text) => {
                        let ghost consumed = spec_read_string(tail.drop_first())->Ok_0.1;
                        proof {
                            assert(tail.drop_first().skip(consumed) =~= instructions@.skip(
                                idx as int,
                            ));
                        }
                        instructions_vec.push(Instruction::Call(text));
                        proof {
                            let ghost textv = spec_read_string(tail.drop_first())->Ok_0.0;
                            assert(instructions_vec.deep_view() =~= acc.push(
                                InstructionView::Call(textv),
                            ));
                            if spec_parse_instructions(tail.drop_first().skip(consumed)) is Ok {
                                assert(acc.push(InstructionView::Call(textv))
                                    + spec_parse_instructions(tail.drop_first().skip(consumed))->Ok_0
                                    =~= acc + (seq![InstructionView::Call(textv)]
                                    + spec_parse_instructions(
                                    tail.drop_first().skip(consumed),
                                )->Ok_0));
                            }
                        }
                    },
                }
            },
            Some(Instruction::PushString(_)) => {
                match get_byte_string_from_idx(instructions, &mut idx) {
                    Err(e) => {
                        return Err(e);
                    },
                    Ok(text) => {
                        let ghost consumed = spec_read_string(tail.drop_first())->Ok_0.1;
                        proof {
                            assert(tail.drop_first().skip(consumed) =~= instructions@.skip(
                                idx as int,
                            ));
                        }
                        instructions_vec.push(Instruction::PushString(text));
                        proof {
                            let ghost textv = spec_read_string(tail.drop_first())->Ok_0.0;
                            assert(instructions_vec.deep_view() =~= acc.push(
                                InstructionView::PushString(textv),
                            ));
                            if spec_parse_instructions(tail.drop_first().skip(consumed)) is Ok {
                                assert(acc.push(InstructionView::PushString(textv))
                                    + spec_parse_instructions(tail.drop_first().skip(consumed))->Ok_0
                                    =~= acc + (seq![InstructionView::PushString(textv)]
                                    + spec_parse_instructions(
                                    tail.drop_first().skip(consumed),
                                )->Ok_0));
                            }
                        }
                    },
                }
            },
            None => {
                return Err(VmError::UnrecognizedOpcode(opcode));
            },
        }
    }
    proof {
        assert(instructions@.skip(instructions@.len() as int) =~= Seq::<u8>::empty());
        assert(instructions_vec.deep_view() + Seq::<InstructionView>::empty()
            =~= instructions_vec.deep_view());
    }
    Ok(instructions_vec)
}

/// What one instruction does: `PushString` pushes its text; `Write` pops
/// the top string and appends it to the output, or faults on an empty
/// stack; `Call` runs the named function on the same stack.
pub open spec fn spec_run_one(
    table: TableView,
    i: InstructionView,
    state: VmStateView,
    fuel: nat,
) -> (Result<(), VmErrorView>, VmStateView)
    decreases fuel, 1nat, 0nat,
{
    match i {
        InstructionView::PushString(s) => (
            Ok(()),
            VmStateView { stack: state.stack.push(s), ..state },
        ),
        InstructionView::Write => if state.stack.len() == 0 {
            (Err(VmErrorView::StackUnderflow), state)
        } else {
            (
                Ok(()),
                VmStateView {
                    stack: state.stack.drop_last(),
                    output: state.output + state.stack.last(),
                },
            )
        },
        InstructionView::Call(name) => spec_run_call(table, name, state, fuel),
    }
}

/// What calling a name does: a missing name or exhausted call depth
/// faults; otherwise the function's instructions run in order on the
/// shared stack.
pub open spec fn spec_run_call(
    table: TableView,
    name: Seq<char>,
    state: VmStateView,
    fuel: nat,
) -> (Result<(), VmErrorView>, VmStateView)
    decreases fuel, 0nat, 0nat,
{
    if fuel == 0 {
        (Err(VmErrorView::CallDepthExceeded), state)
    } else {
        match spec_lookup(table, name) {
            None => (Err(VmErrorView::FunctionNotFound(name)), state),
            Some(insns) => spec_run_insns(table, insns, state, (fuel - 1) as nat),
        }
    }
}

/// Running a list of instructions in order, stopping at the first fault
/// with the state reached so far.
pub open spec fn spec_run_insns(
    table: TableView,
    insns: Seq<InstructionView>,
    state: VmStateView,
    fuel: nat,
) -> (Result<(), VmErrorView>, VmStateView)
    decreases fuel, 2nat, insns.len(),
{
    if insns.len() == 0 {
        (Ok(()), state)
    } else {
        let one = spec_run_one(table, insns[0], state, fuel);
        match one.0 {
            Err(e) => (Err(e), one.1),
            Ok(_) => spec_run_insns(table, insns.drop_first(), one.1, fuel),
        }
    }
}

/// Loading the function records one after the other until the input is
/// exhausted: each record inserts its decoded instruction list under its
/// name; any length field past the buffer end is corruption.
pub open spec fn spec_load_records(bytes: Seq<u8>, acc: TableView) -> Result<
    TableView,
    VmErrorView,
>
    decreases bytes.len(),
{
    if bytes.len() == 0 {
        Ok(acc)
    } else if bytes.len() < 2 {
        Err(VmErrorView::TruncatedFunction)
    } else {
        let name_len = spec_u16_from_be(bytes[0], bytes[1]) as int;
        if bytes.len() < 2 + name_len {
            Err(VmErrorView::TruncatedFunction)
        } else {
            let name_bytes = bytes.subrange(2, 2 + name_len);
            if !valid_utf8(name_bytes) {
                Err(VmErrorView::InvalidUtf8)
            } else {
                let after = bytes.skip(2 + name_len);
                if after.len() < 4 {
                    Err(VmErrorView::TruncatedFunction)
                } else {
                    let body_len = spec_u32_from_be(after[0], after[1], after[2], after[3]) as int;
                    if after.len() < 4 + body_len {
                        Err(VmErrorView::TruncatedFunction)
                    } else {
                        match spec_parse_instructions(after.subrange(4, 4 + body_len)) {
                            Err(e) => Err(e),
                            Ok(insns) => spec_load_records(
                                after.skip(4 + body_len),
                                spec_insert(acc, decode_utf8(name_bytes), insns),
                            ),
                        }
                    }
                }
            }
        }
    }
}

/// Loading a whole compiled file onto an existing table: the magic bytes
/// are checked first, the declared body length is read but the records run
/// to the end of the buffer.
pub open spec fn spec_load(bytes: Seq<u8>, acc: TableView) -> Result<TableView, VmErrorView> {
    if bytes.len() < 4 {
        Err(VmErrorView::InvalidFile)
    } else if bytes.subrange(0, 4) != spec_magic() {
        Err(VmErrorView::InvalidMagic)
    } else if bytes.len() < 8 {
        Err(VmErrorView::MissingBodyLength)
    } else {
        spec_load_records(bytes.skip(8), acc)
    }
}

/// The machine before the first instruction: empty stack, empty output.
pub open spec fn spec_init_state() -> VmStateView {
    VmStateView { stack: Seq::empty(), output: Seq::empty() }
}

/// What executing a whole buffer yields: the output text and the fault, if
/// any — loading faults and a missing `main` leave the output empty; a
/// running fault keeps the output emitted before it.
pub open spec fn spec_interpret(bytes: Seq<u8>, fuel: nat) -> (Seq<char>, Option<VmErrorView>) {
    match spec_load(bytes, Seq::empty()) {
        Err(e) => (Seq::empty(), Some(e)),
        Ok(table) => if spec_lookup(table, "main"@) is None {
            (Seq::empty(), Some(VmErrorView::NoMainFunction))
        } else {
            let r = spec_run_call(table, "main"@, spec_init_state(), fuel);
            (
                r.1.output,
                match r.0 {
                    Ok(_) => None::<VmErrorView>,
                    Err(e) => Some(e),
                },
            )
        },
    }
}

/// The mathematical value of an execution step's outcome.
pub open spec fn spec_vm_result(r: Result<(), VmError>) -> Result<(), VmErrorView> {
    match r {
        Ok(_) => Ok(()),
        Err(e) => Err(e.deep_view()),
    }
}

/// The mathematical value of an optional fault.
pub open spec fn spec_vm_error_option(r: Option<VmError>) -> Option<VmErrorView> {
    match r {
        None => None,
        Some(e) => Some(e.deep_view()),
    }
}

/// A deep copy of an instruction list.
fn clone_instructions(insns: &Vec<Instruction>) -> (r: Vec<Instruction>)
    ensures
        r.deep_view() == insns.deep_view(),
{
    let copy = insns.clone();
    proof {
        assert forall|i: int| 0 <= i < insns.len() implies copy.deep_view()[i]
            == insns.deep_view()[i] by {
            assert(vstd::pervasive::cloned::<Instruction>(insns[i], copy[i]));
        }
        assert(copy.deep_view() =~= insns.deep_view());
    }
    copy
}

/// The virtual machine: the shared evaluation stack, the loaded function
/// table, and the output text collected so far.
#[derive(Debug)]
struct Interpreter {
    stack: Vec<StackElement>,
    scope: Vec<(String, Vec<Instruction>)>,
    output: String,
}

impl Interpreter {
    /// The loaded function table as a mathematical value.
    spec fn table(&self) -> TableView {
        self.scope.deep_view()
    }

    /// The running state as a mathematical value.
    spec fn state(&self) -> VmStateView {
        VmStateView { stack: self.stack.deep_view(), output: self.output@ }
    }

    /// A fresh machine: nothing loaded, nothing on the stack, no output.
    fn new() -> (r: Interpreter)
        ensures
            r.table() == Seq::<(Seq<char>, Seq<InstructionView>)>::empty(),
            r.state() == spec_init_state(),
    {
        let r = Interpreter {
            stack: Vec::<StackElement>::new(),
            scope: Vec::<(String, Vec<Instruction>)>::new(),
            output: String::new(),
        };
        proof {
            assert(r.table() =~= Seq::<(Seq<char>, Seq<InstructionView>)>::empty());
            assert(r.state().stack =~= Seq::<Seq<char>>::empty());
            assert(r.state().output =~= Seq::<char>::empty());
        }
        r
    }

    /// The instruction list loaded under the name, if any.
    fn find_function(&self, name: &String) -> (r: Option<&Vec<Instruction>>)
        ensures
            match r {
                Some(f) => spec_lookup(self.table(), name@) == Some(f.deep_view()),
                None => spec_lookup(self.table(), name@) is None,
            },
    {
        let ghost entries = self.table();
        let mut i: usize = 0;
        while i < self.scope.len()
            invariant
                i <= entries.len(),
                entries == self.table(),
                forall|j: int| 0 <= j < i ==> entries[j].0 != name@,
            decreases entries.len() - i,
        {
            if self.scope[i].0.eq(name) {
                proof {
                    crate::table::lemma_lookup_skip(entries, name@, i as int);
                    assert(entries.skip(i as int)[0] == entries[i as int]);
                }
                return Some(&self.scope[i].1);
            }
            i += 1;
        }
        proof {
            crate::table::lemma_lookup_skip(entries, name@, i as int);
            assert(entries.skip(i as int) =~= Seq::<(Seq<char>, Seq<InstructionView>)>::empty());
        }
        None
    }

    /// Binds the name to the instruction list, replacing any earlier
    /// record with the same name.
    fn insert_function(&mut self, name: String, body: Vec<Instruction>)
        ensures
            final(self).table() == spec_insert(old(self).table(), name@, body.deep_view()),
            final(self).stack == old(self).stack,
            final(self).output == old(self).output,
    {
        let ghost entries = self.table();
        let mut i: usize = 0;
        while i < self.scope.len()
            invariant
                i <= entries.len(),
                entries == self.table(),
                entries == old(self).table(),
                self.stack == old(self).stack,
                self.output == old(self).output,
                forall|j: int| 0 <= j < i ==> entries[j].0 != name@,
            decreases entries.len() - i,
        {
            if self.scope[i].0.eq(&name) {
                proof {
                    assert(entries[i as int].0 == name@);
                    crate::table::lemma_insert_update(entries, name@, body.deep_view(), i as int);
                }
                let ghost prevec = self.scope@;
                self.scope[i] = (name, body);
                proof {
                    assert(self.scope@[i as int].deep_view() == (name@, body.deep_view()));
                    assert forall|j: int| 0 <= j < self.scope@.len() implies self.table()[j]
                        == entries.update(i as int, (name@, body.deep_view()))[j] by {
                        if j != i {
                            assert(self.scope@[j] == prevec[j]);
                            assert(entries[j] == prevec[j].deep_view());
                        }
                    }
                    assert(self.table() =~= entries.update(i as int, (name@, body.deep_view())));
                    assert(self.table() =~= spec_insert(entries, name@, body.deep_view()));
                }
                return ;
            }
            i += 1;
        }
        proof {
            crate::table::lemma_insert_append(entries, name@, body.deep_view());
        }
        let ghost prevec = self.scope@;
        self.scope.push((name, body));
        proof {
            assert forall|j: int| 0 <= j < self.scope@.len() implies self.table()[j]
                == entries.push((name@, body.deep_view()))[j] by {
                if j < entries.len() {
                    assert(self.scope@[j] == prevec[j]);
                    assert(entries[j] == prevec[j].deep_view());
                }
            }
            assert(self.table() =~= entries.push((name@, body.deep_view())));
            assert(self.table() =~= spec_insert(entries, name@, body.deep_view()));
        }
    }

    /// Decodes the whole buffer into the function table, as [`spec_load`]
    /// says: magic first, then records until the buffer ends.
    fn interpret_code(&mut self, bytes: &[u8]) -> (r: Result<(), VmError>)
        ensures
            final(self).stack == old(self).stack,
            final(self).output == old(self).output,
            r matches Ok(_) ==> spec_load(bytes@, old(self).table()) == Ok::<
                TableView,
                VmErrorView,
            >(final(self).table()),
            r matches Err(e) ==> spec_load(bytes@, old(self).table()) == Err::<
                TableView,
                VmErrorView,
            >(e.deep_view()),
    {
        if bytes.len() < 4 {
            return Err(VmError::InvalidFile);
        }
        let magic_ok = bytes[0] == MAGIC_0 && bytes[1] == MAGIC_1 && bytes[2] == MAGIC_2
            && bytes[3] == MAGIC_3;
        proof {
            assert(bytes@.subrange(0, 4) =~= seq![bytes@[0], bytes@[1], bytes@[2], bytes@[3]]);
            assert(spec_magic()[0] == MAGIC_0 && spec_magic()[1] == MAGIC_1 && spec_magic()[2]
                == MAGIC_2 && spec_magic()[3] == MAGIC_3);
        }
        if !magic_ok {
            proof {
                assert(bytes@.subrange(0, 4) != spec_magic());
            }
            return Err(VmError::InvalidMagic);
        }
        proof {
            assert(bytes@.subrange(0, 4) =~= spec_magic());
        }
        if bytes.len() < 8 {
            return Err(VmError::MissingBodyLength);
        }
        let _body_len = u32_from_be(bytes[4], bytes[5], bytes[6], bytes[7]);
        let ghost acc0 = self.table();
        let mut idx: usize = 8;
        while idx < bytes.len()
            invariant
                8 <= idx <= bytes@.len(),
                bytes@.len() >= 8,
                bytes@.subrange(0, 4) == spec_magic(),
                self.stack == old(self).stack,
                self.output == old(self).output,
                acc0 == old(self).table(),
                spec_load_records(bytes@.skip(8), acc0) == spec_load_records(
                    bytes@.skip(idx as int),
                    self.table(),
                ),
            decreases bytes@.len() - idx,
        {
            let ghost tail = bytes@.skip(idx as int);
            let ghost table_pre = self.table();
            let remaining = bytes.len() - idx;
            proof {
                assert(tail.len() == remaining);
            }
            if remaining < 2 {
                return Err(VmError::TruncatedFunction);
            }
            proof {
                assert(tail[0] == bytes@[idx as int]);
                assert(tail[1] == bytes@[idx as int + 1]);
            }
            let name_len = u16_from_be(bytes[idx], bytes[idx + 1]) as usize;
            if remaining - 2 < name_len {
                return Err(VmError::TruncatedFunction);
            }
            let name_slice = slice_subrange(bytes, idx + 2, idx + 2 + name_len);
            proof {
                assert(name_slice@ =~= tail.subrange(2, 2 + name_len as int));
            }
            let function_name = match utf8_to_str(name_slice) {
                None => {
                    return Err(VmError::InvalidUtf8);
                },
                Some(s) => s.to_owned(),
            };
            let ghost namev = function_name@;
            let after_name_idx = idx + 2 + name_len;
            let ghost after = tail.skip(2 + name_len as int);
            proof {
                assert(after =~= bytes@.skip(after_name_idx as int));
            }
            let rem2 = bytes.len() - after_name_idx;
            proof {
                assert(after.len() == rem2);
            }
            if rem2 < 4 {
                return Err(VmError::TruncatedFunction);
            }
            proof {
                assert(after[0] == bytes@[after_name_idx as int]);
                assert(after[1] == bytes@[after_name_idx as int + 1]);
                assert(after[2] == bytes@[after_name_idx as int + 2]);
                assert(after[3] == bytes@[after_name_idx as int + 3]);
            }
            let function_body_length = u32_from_be(
                bytes[after_name_idx],
                bytes[after_name_idx + 1],
                bytes[after_name_idx + 2],
                bytes[after_name_idx + 3],
            ) as usize;
            if rem2 - 4 < function_body_length {
                return Err(VmError::TruncatedFunction);
            }
            let body_start = after_name_idx + 4;
            let body_slice = slice_subrange(bytes, body_start, body_start + function_body_length);
            proof {
                assert(body_slice@ =~= after.subrange(4, 4 + function_body_length as int));
            }
            let function_body = match parse_instructions(body_slice) {
                Err(e) => {
                    return Err(e);
                },
                Ok(v) => v,
            };
            let ghost bodyv = function_body.deep_view();
            self.insert_function(function_name, function_body);
            idx = body_start + function_body_length;
            proof {
                assert(after.skip(4 + function_body_length as int) =~= bytes@.skip(idx as int));
                assert(self.table() == spec_insert(table_pre, namev, bodyv));
            }
        }
        proof {
            assert(bytes@.skip(bytes@.len() as int) =~= Seq::<u8>::empty());
        }
        Ok(())
    }

    /// Runs one instruction, as [`spec_run_one`] says, on the shared stack.
    fn run_instruction(&mut self, instruction: &Instruction, fuel: u64) -> (r: Result<(), VmError>)
        ensures
            final(self).scope == old(self).scope,
            final(self).state() == spec_run_one(
                old(self).table(),
                instruction.deep_view(),
                old(self).state(),
                fuel as nat,
            ).1,
            spec_vm_result(r) == spec_run_one(
                old(self).table(),
                instruction.deep_view(),
                old(self).state(),
                fuel as nat,
            ).0,
        decreases fuel, 1int,
    {
        match instruction {
            Instruction::Call(s) => self.run(s, fuel),
            Instruction::PushString(s) => {
                self.stack.push(StackElement::String(s.clone()));
                proof {
                    assert(self.state().stack =~= old(self).state().stack.push(s@));
                }
                Ok(())
            },
            Instruction::Write => {
                match self.stack.pop() {
                    Some(element) => {
                        match element {
                            StackElement::String(s) => {
                                self.output.append(s.as_str());
                                proof {
                                    assert(self.state().stack =~= old(
                                        self,
                                    ).state().stack.drop_last());
                                    assert(old(self).state().stack.last() == s@);
                                }
                                Ok(())
                            },
                        }
                    },
                    None => Err(VmError::StackUnderflow),
                }
            },
        }
    }

    /// Runs the named function to completion, as [`spec_run_call`] says:
    /// its instructions execute in order on the shared stack, and nested
    /// calls draw down the remaining depth.
    fn run(&mut self, function: &String, fuel: u64) -> (r: Result<(), VmError>)
        ensures
            final(self).scope == old(self).scope,
            final(self).state() == spec_run_call(
                old(self).table(),
                function@,
                old(self).state(),
                fuel as nat,
            ).1,
            spec_vm_result(r) == spec_run_call(
                old(self).table(),
                function@,
                old(self).state(),
                fuel as nat,
            ).0,
        decreases fuel, 0int,
    {
        if fuel == 0 {
            return Err(VmError::CallDepthExceeded);
        }
        let instructions = match self.find_function(function) {
            None => {
                return Err(VmError::FunctionNotFound(function.clone()));
            },
            Some(f) => clone_instructions(f),
        };
        let inner = fuel - 1;
        let ghost tbl = self.table();
        let ghost insnsv = instructions.deep_view();
        let ghost state0 = self.state();
        proof {
            assert(insnsv.skip(0) =~= insnsv);
        }
        let mut i: usize = 0;
        while i < instructions.len()
            invariant
                i <= insnsv.len(),
                fuel >= 1,
                inner == fuel - 1,
                tbl == old(self).table(),
                state0 == old(self).state(),
                self.scope == old(self).scope,
                insnsv == instructions.deep_view(),
                spec_lookup(tbl, function@) == Some(insnsv),
                spec_run_insns(tbl, insnsv, state0, inner as nat) == spec_run_insns(
                    tbl,
                    insnsv.skip(i as int),
                    self.state(),
                    inner as nat,
                ),
            decreases insnsv.len() - i,
        {
            proof {
                assert(insnsv.skip(i as int)[0] == insnsv[i as int]);
                assert(insnsv.skip(i as int).drop_first() =~= insnsv.skip(i as int + 1));
            }
            match self.run_instruction(&instructions[i], inner) {
                Ok(_) => {},
                Err(e) => {
                    return Err(e);
                },
            }
            i += 1;
        }
        proof {
            assert(insnsv.skip(insnsv.len() as int) =~= Seq::<InstructionView>::empty());
        }
        Ok(())
    }
}

/// A function whose whole body is one `Write`, called with nothing on the
/// stack, faults with a stack underflow — it is no silent no-op — and
/// leaves the state untouched.
pub proof fn lemma_write_underflow(
    table: TableView,
    name: Seq<char>,
    state: VmStateView,
    fuel: nat,
)
    requires
        spec_lookup(table, name) == Some(seq![InstructionView::Write]),
        state.stack.len() == 0,
        fuel >= 1,
    ensures
        spec_run_call(table, name, state, fuel) == (
            Err::<(), VmErrorView>(VmErrorView::StackUnderflow),
            state,
        ),
{
    let insns = seq![InstructionView::Write];
    assert(spec_run_one(table, insns[0], state, (fuel - 1) as nat) == (
        Err::<(), VmErrorView>(VmErrorView::StackUnderflow),
        state,
    ));
}

/// Shared-stack call semantics: a function that pushes a value and then
/// calls another whose body is one `Write` emits exactly that value — the
/// callee consumes what its caller pushed, with no parameter passing.
pub proof fn lemma_shared_stack(
    table: TableView,
    caller: Seq<char>,
    callee: Seq<char>,
    value: Seq<char>,
    state: VmStateView,
    fuel: nat,
)
    requires
        spec_lookup(table, caller) == Some(
            seq![InstructionView::PushString(value), InstructionView::Call(callee)],
        ),
        spec_lookup(table, callee) == Some(seq![InstructionView::Write]),
        fuel >= 2,
    ensures
        spec_run_call(table, caller, state, fuel) == (
            Ok::<(), VmErrorView>(()),
            VmStateView { stack: state.stack, output: state.output + value },
        ),
{
    let insns = seq![InstructionView::PushString(value), InstructionView::Call(callee)];
    let g = (fuel - 1) as nat;
    let pushed = VmStateView { stack: state.stack.push(value), ..state };
    assert(spec_run_one(table, insns[0], state, g) == (Ok::<(), VmErrorView>(()), pushed));
    assert(insns.drop_first() =~= seq![InstructionView::Call(callee)]);
    let h = (g - 1) as nat;
    let callee_insns = seq![InstructionView::Write];
    assert(pushed.stack.len() > 0);
    assert(pushed.stack.last() == value);
    assert(pushed.stack.drop_last() =~= state.stack);
    let written = VmStateView { stack: state.stack, output: state.output + value };
    assert(spec_run_one(table, callee_insns[0], pushed, h) == (
        Ok::<(), VmErrorView>(()),
        written,
    ));
    assert(callee_insns.drop_first() =~= Seq::<InstructionView>::empty());
    assert(spec_run_insns(table, Seq::<InstructionView>::empty(), written, h) == (
        Ok::<(), VmErrorView>(()),
        written,
    ));
    assert(spec_run_insns(table, callee_insns, pushed, h) == (Ok::<(), VmErrorView>(()), written));
    assert(spec_run_call(table, callee, pushed, g) == (Ok::<(), VmErrorView>(()), written));
    assert(insns.drop_first().drop_first() =~= Seq::<InstructionView>::empty());
    assert(spec_run_insns(table, Seq::<InstructionView>::empty(), written, g) == (
        Ok::<(), VmErrorView>(()),
        written,
    ));
    assert(spec_run_one(table, insns.drop_first()[0], pushed, g) == spec_run_call(
        table,
        callee,
        pushed,
        g,
    ));
    assert(spec_run_insns(table, insns.drop_first(), pushed, g) == (
        Ok::<(), VmErrorView>(()),
        written,
    ));
    assert(spec_run_insns(table, insns, state, g) == (Ok::<(), VmErrorView>(()), written));
}

/// Executes a whole compiled buffer: loads the function table, requires a
/// `main` entry, and runs it on an empty stack, yielding the output text
/// emitted so far and the fault, if any, as [`spec_interpret`] says. A
/// buffer whose first four bytes are not the magic is rejected before
/// anything is decoded.
pub fn interpret(bytes: &[u8]) -> (r: (String, Option<VmError>))
    ensures
        r.0@ == spec_interpret(bytes@, CALL_DEPTH_LIMIT as nat).0,
        spec_vm_error_option(r.1) == spec_interpret(bytes@, CALL_DEPTH_LIMIT as nat).1,
        bytes@.len() >= 4 && bytes@.subrange(0, 4) != spec_magic() ==> (r.1 matches Some(e)
            && e.deep_view() == VmErrorView::InvalidMagic),
{
    let mut interpreter = Interpreter::new();
    match interpreter.interpret_code(bytes) {
        Err(e) => {
            return (String::new(), Some(e));
        },
        Ok(_) => {},
    }
    let main_name = "main".to_owned();
    if interpreter.find_function(&main_name).is_none() {
        return (String::new(), Some(VmError::NoMainFunction));
    }
    let outcome = interpreter.run(&main_name, CALL_DEPTH_LIMIT);
    match outcome {
        Ok(_) => (interpreter.output, None),
        Err(e) => (interpreter.output, Some(e)),
    }
}

} // verus!
