//! Laws tying the pipeline's stages together: decoding a compiled file
//! recovers exactly the function table the encoder was given, so a program
//! runs from its compiled form as the namespace it was built from says.

use vstd::prelude::*;
use vstd::utf8::{decode_utf8, encode_utf8, encode_utf8_decode_utf8, encode_utf8_valid_utf8};

use crate::builtin::spec_builtin_template;
use crate::codegen::{spec_encode_body_checked, spec_encode_entries, spec_encode_entry_body,
    spec_encode_entry_checked, spec_encode_instruction, spec_encode_record, spec_entry_resolved,
    spec_instruction_opcode,
    spec_instruction_operand, spec_ir_bytecode, spec_namespace_resolved, spec_operand_fits};
use crate::interpreter::{spec_init_state, spec_load, spec_load_records, spec_parse_instructions,
    spec_read_string, TableView, VmErrorView};
use crate::ir::{lemma_build_nodes_ok, lemma_handle_arguments_ok, lemma_handle_body_ok,
    lemma_handle_expression_ok, lemma_handle_node_ok, spec_add_to_scope, spec_build_nodes,
    spec_from_program, spec_handle_arguments, spec_handle_body, spec_handle_expression,
    spec_handle_node, spec_handle_statement, spec_initial_scope, spec_placeholder_names,
    spec_scope_lookup, spec_scopes_ok, CompileErrorView, InstructionView, NamespaceView,
    ScopeElementView, ScopeView};
use crate::lexer::LexerModel;
use crate::parser::{spec_parse_program, ExprView, NodeView, StatementView};
use crate::table::{lemma_insert_append, spec_insert, spec_lookup, spec_unique_keys};
use crate::wire::{lemma_u16_be_round_trip, lemma_u32_be_round_trip, spec_magic, spec_u16_be,
    spec_u32_be, OPCODE_CALL, OPCODE_PUSH_STRING, OPCODE_WRITE};

verus! {

/// The newline's UTF-8 encoding is its single ASCII byte.
pub proof fn lemma_newline_utf8()
    ensures
        encode_utf8(seq!['\n']) == seq![0x0Au8],
{
    let s = seq!['\n'];
    assert('\n' as u32 == 10);
    assert((10u32 & 0x7F) == 10) by (bit_vector);
    assert(vstd::utf8::encode_scalar(10) =~= seq![0x0Au8]);
    assert(s.drop_first() =~= Seq::<char>::empty());
    assert(encode_utf8(s) =~= vstd::utf8::encode_scalar(s[0] as u32) + encode_utf8(
        s.drop_first(),
    ));
    assert(encode_utf8(s) =~= seq![0x0Au8]);
}

/// The instruction lists the built-in templates decode to.
pub open spec fn spec_builtin_instructions(name: Seq<char>) -> Seq<InstructionView> {
    if name == "print"@ {
        seq![InstructionView::Write]
    } else {
        seq![
            InstructionView::Write,
            InstructionView::PushString(seq!['\n']),
            InstructionView::Write,
        ]
    }
}

/// Reading a length-prefixed string off the front of a stream that starts
/// with one recovers exactly the encoded text and its extent.
pub proof fn lemma_read_string_of_operand(s: Seq<char>, rest: Seq<u8>)
    requires
        encode_utf8(s).len() <= 0xFFFF,
    ensures
        spec_read_string(spec_u16_be(encode_utf8(s).len() as u16) + encode_utf8(s) + rest) == Ok::<
            (Seq<char>, int),
            VmErrorView,
        >((s, 2 + encode_utf8(s).len() as int)),
{
    broadcast use encode_utf8_valid_utf8, encode_utf8_decode_utf8;

    let text = encode_utf8(s);
    let elen = text.len() as u16;
    let code = spec_u16_be(elen) + text + rest;
    lemma_u16_be_round_trip(elen);
    assert(code[0] == spec_u16_be(elen)[0]);
    assert(code[1] == spec_u16_be(elen)[1]);
    assert(code.len() >= 2 + text.len());
    assert(code.subrange(2, 2 + text.len() as int) =~= text);
}

/// Decoding an encoded opcode stream recovers exactly the instructions
/// that were encoded.
#[verifier::rlimit(100)]
pub proof fn lemma_encode_body_parses(name: Seq<char>, insns: Seq<InstructionView>)
    requires
        spec_encode_body_checked(name, insns) is Ok,
    ensures
        spec_parse_instructions(spec_encode_body_checked(name, insns)->Ok_0) == Ok::<
            Seq<InstructionView>,
            VmErrorView,
        >(insns),
    decreases insns.len(),
{
    if insns.len() == 0 {
        assert(spec_encode_body_checked(name, insns)->Ok_0 =~= Seq::<u8>::empty());
        assert(insns =~= Seq::<InstructionView>::empty());
    } else {
        lemma_encode_body_parses(name, insns.drop_first());
        let first = insns[0];
        let rest = spec_encode_body_checked(name, insns.drop_first())->Ok_0;
        let bytes = spec_encode_body_checked(name, insns)->Ok_0;
        assert(bytes =~= spec_encode_instruction(first) + rest);
        assert(spec_encode_instruction(first) == seq![spec_instruction_opcode(first)]
            + spec_instruction_operand(first));
        match first {
            InstructionView::Write => {
                assert(bytes[0] == OPCODE_WRITE);
                assert(bytes.drop_first() =~= rest);
                assert(spec_parse_instructions(bytes) == Ok::<Seq<InstructionView>, VmErrorView>(
                    seq![InstructionView::Write] + insns.drop_first(),
                ));
                assert(seq![InstructionView::Write] + insns.drop_first() =~= insns);
            },
            InstructionView::Call(s) => {
                assert(bytes[0] == OPCODE_CALL);
                assert(spec_operand_fits(first));
                lemma_read_string_of_operand(s, rest);
                assert(bytes.drop_first() =~= spec_u16_be(encode_utf8(s).len() as u16)
                    + encode_utf8(s) + rest);
                assert(bytes.drop_first().skip(2 + encode_utf8(s).len() as int) =~= rest);
                assert(spec_read_string(bytes.drop_first()) == Ok::<(Seq<char>, int), VmErrorView>(
                    (s, 2 + encode_utf8(s).len() as int),
                ));
                assert(spec_parse_instructions(bytes) == Ok::<Seq<InstructionView>, VmErrorView>(
                    seq![InstructionView::Call(s)] + insns.drop_first(),
                ));
                assert(seq![InstructionView::Call(s)] + insns.drop_first() =~= insns);
            },
            InstructionView::PushString(s) => {
                assert(bytes[0] == OPCODE_PUSH_STRING);
                assert(spec_operand_fits(first));
                lemma_read_string_of_operand(s, rest);
                assert(bytes.drop_first() =~= spec_u16_be(encode_utf8(s).len() as u16)
                    + encode_utf8(s) + rest);
                assert(bytes.drop_first().skip(2 + encode_utf8(s).len() as int) =~= rest);
                assert(spec_read_string(bytes.drop_first()) == Ok::<(Seq<char>, int), VmErrorView>(
                    (s, 2 + encode_utf8(s).len() as int),
                ));
                assert(spec_parse_instructions(bytes) == Ok::<Seq<InstructionView>, VmErrorView>(
                    seq![InstructionView::PushString(s)] + insns.drop_first(),
                ));
                assert(seq![InstructionView::PushString(s)] + insns.drop_first() =~= insns);
            },
        }
    }
}

/// Decoding a built-in's fixed template recovers its instruction list:
/// `print` is one `Write`; `println` writes, pushes a newline, and writes.
pub proof fn lemma_builtin_template_decodes(name: Seq<char>)
    requires
        spec_builtin_template(name) is Some,
    ensures
        spec_parse_instructions(spec_builtin_template(name)->0) == Ok::<
            Seq<InstructionView>,
            VmErrorView,
        >(spec_builtin_instructions(name)),
{
    broadcast use encode_utf8_valid_utf8, encode_utf8_decode_utf8;

    if name == "print"@ {
        let t = seq![OPCODE_WRITE];
        assert(spec_builtin_template(name)->0 == t);
        assert(t.drop_first() =~= Seq::<u8>::empty());
        assert(seq![InstructionView::Write] + Seq::<InstructionView>::empty() =~= seq![
            InstructionView::Write,
        ]);
    } else {
        let t = seq![OPCODE_WRITE, OPCODE_PUSH_STRING, 0x00u8, 0x01u8, 0x0Au8, OPCODE_WRITE];
        assert(spec_builtin_template(name)->0 == t);
        lemma_newline_utf8();
        let nl = encode_utf8(seq!['\n']);
        assert(nl.len() == 1);
        let after_first = t.drop_first();
        assert(after_first =~= seq![OPCODE_PUSH_STRING, 0x00u8, 0x01u8, 0x0Au8, OPCODE_WRITE]);
        assert(after_first[0] == OPCODE_PUSH_STRING);
        let operand_stream = after_first.drop_first();
        assert(operand_stream =~= seq![0x00u8, 0x01u8, 0x0Au8, OPCODE_WRITE]);
        assert(operand_stream =~= spec_u16_be(1u16) + nl + seq![OPCODE_WRITE]);
        lemma_read_string_of_operand(seq!['\n'], seq![OPCODE_WRITE]);
        assert(spec_read_string(operand_stream) == Ok::<(Seq<char>, int), VmErrorView>(
            (seq!['\n'], 3),
        ));
        let tail = operand_stream.skip(3);
        assert(tail =~= seq![OPCODE_WRITE]);
        assert(tail.drop_first() =~= Seq::<u8>::empty());
        assert(spec_parse_instructions(Seq::<u8>::empty()) == Ok::<
            Seq<InstructionView>,
            VmErrorView,
        >(Seq::empty()));
        assert(spec_parse_instructions(tail) == Ok::<Seq<InstructionView>, VmErrorView>(
            seq![InstructionView::Write] + Seq::<InstructionView>::empty(),
        ));
        assert(seq![InstructionView::Write] + Seq::<InstructionView>::empty() =~= seq![
            InstructionView::Write,
        ]);
        assert(spec_parse_instructions(after_first) == Ok::<Seq<InstructionView>, VmErrorView>(
            seq![InstructionView::PushString(seq!['\n'])] + seq![InstructionView::Write],
        ));
        assert(seq![InstructionView::PushString(seq!['\n'])] + seq![InstructionView::Write] =~= seq![
            InstructionView::PushString(seq!['\n']),
            InstructionView::Write,
        ]);
        assert(spec_parse_instructions(t) == Ok::<Seq<InstructionView>, VmErrorView>(
            seq![InstructionView::Write] + seq![
                InstructionView::PushString(seq!['\n']),
                InstructionView::Write,
            ],
        ));
        assert(seq![InstructionView::Write] + seq![
            InstructionView::PushString(seq!['\n']),
            InstructionView::Write,
        ] =~= spec_builtin_instructions(name));
    }
}

/// The instruction list an encodable entry's record decodes to.
pub open spec fn spec_entry_instructions(entry: (Seq<char>, ScopeElementView)) -> Seq<
    InstructionView,
> {
    match entry.1 {
        ScopeElementView::Function(insns) => insns,
        ScopeElementView::BuiltInFunction => spec_builtin_instructions(entry.0),
        _ => arbitrary(),
    }
}

/// The function table a resolved namespace stands for: each entry's name
/// paired with the instructions its record decodes to, in namespace order.
pub open spec fn spec_table_of(ns: NamespaceView) -> TableView {
    Seq::new(ns.len(), |i: int| (ns[i].0, spec_entry_instructions(ns[i])))
}

/// Loading the records a resolved namespace encodes to extends the table
/// by exactly the table that namespace stands for.
#[verifier::rlimit(100)]
pub proof fn lemma_load_encoded_records(ns: NamespaceView, acc: TableView)
    requires
        spec_namespace_resolved(ns),
        spec_unique_keys(ns),
        spec_encode_entries(ns) is Ok,
        forall|i: int, j: int| #![trigger acc[i], ns[j]]
            0 <= i < acc.len() && 0 <= j < ns.len() ==> acc[i].0 != ns[j].0,
    ensures
        spec_load_records(spec_encode_entries(ns)->Ok_0, acc) == Ok::<TableView, VmErrorView>(
            acc + spec_table_of(ns),
        ),
    decreases ns.len(),
{
    broadcast use encode_utf8_valid_utf8, encode_utf8_decode_utf8;

    if ns.len() == 0 {
        assert(spec_encode_entries(ns)->Ok_0 =~= Seq::<u8>::empty());
        assert(acc + spec_table_of(ns) =~= acc);
    } else {
        let entry = ns[0];
        let name = entry.0;
        assert(spec_entry_resolved(entry));
        let record = spec_encode_entry_checked(entry)->Ok_0;
        let rest = spec_encode_entries(ns.drop_first())->Ok_0;
        let bytes = spec_encode_entries(ns)->Ok_0;
        assert(bytes =~= record + rest);
        let body = spec_encode_entry_body(entry);
        let insns = spec_entry_instructions(entry);
        assert(record == spec_encode_record(name, body) && spec_parse_instructions(body) == Ok::<
            Seq<InstructionView>,
            VmErrorView,
        >(insns) && body.len() <= 0xFFFFFFFF) by {
            match entry.1 {
                ScopeElementView::Function(f) => {
                    lemma_encode_body_parses(name, f);
                },
                ScopeElementView::BuiltInFunction => {
                    lemma_builtin_template_decodes(name);
                    assert(spec_builtin_template(name)->0.len() <= 6);
                },
                _ => {
                    assert(false);
                },
            }
        }
        let text = encode_utf8(name);
        let elen = text.len() as u16;
        assert(text.len() <= 0xFFFF);
        lemma_u16_be_round_trip(elen);
        lemma_u32_be_round_trip(body.len() as u32);
        assert(record =~= spec_u16_be(elen) + text + spec_u32_be(body.len() as u32) + body);
        assert(bytes[0] == spec_u16_be(elen)[0]);
        assert(bytes[1] == spec_u16_be(elen)[1]);
        assert(bytes.len() >= 2 + text.len());
        assert(bytes.subrange(2, 2 + text.len() as int) =~= text);
        let after = bytes.skip(2 + text.len() as int);
        assert(after =~= spec_u32_be(body.len() as u32) + body + rest);
        assert(after[0] == spec_u32_be(body.len() as u32)[0]);
        assert(after[1] == spec_u32_be(body.len() as u32)[1]);
        assert(after[2] == spec_u32_be(body.len() as u32)[2]);
        assert(after[3] == spec_u32_be(body.len() as u32)[3]);
        assert(after.len() >= 4 + body.len());
        assert(after.subrange(4, 4 + body.len() as int) =~= body);
        assert(decode_utf8(text) == name);
        lemma_insert_append(acc, name, insns);
        let acc2 = acc.push((name, insns));
        assert(after.skip(4 + body.len() as int) =~= rest);
        assert(spec_namespace_resolved(ns.drop_first()) && spec_unique_keys(ns.drop_first())) by {
            assert forall|i: int| 0 <= i < ns.drop_first().len() implies spec_entry_resolved(
                #[trigger] ns.drop_first()[i],
            ) by {
                assert(ns.drop_first()[i] == ns[i + 1]);
                assert(spec_entry_resolved(ns[i + 1]));
            }
            assert forall|i: int, j: int|
                #![trigger ns.drop_first()[i], ns.drop_first()[j]]
                0 <= i < j < ns.drop_first().len() implies ns.drop_first()[i].0
                != ns.drop_first()[j].0 by {
                assert(ns.drop_first()[i] == ns[i + 1]);
                assert(ns.drop_first()[j] == ns[j + 1]);
            }
        }
        assert(forall|i: int, j: int| #![trigger acc2[i], ns.drop_first()[j]]
            0 <= i < acc2.len() && 0 <= j < ns.drop_first().len() ==> acc2[i].0 != ns.drop_first()[j].0) by {
            assert forall|i: int, j: int| #![trigger acc2[i], ns.drop_first()[j]]
                0 <= i < acc2.len() && 0 <= j < ns.drop_first().len() implies acc2[i].0
                != ns.drop_first()[j].0 by {
                assert(ns.drop_first()[j] == ns[j + 1]);
                if i < acc.len() {
                    assert(acc2[i] == acc[i]);
                } else {
                    assert(acc2[i] == (name, insns));
                }
            }
        }
        lemma_load_encoded_records(ns.drop_first(), acc2);
        assert(spec_load_records(rest, acc2) == Ok::<TableView, VmErrorView>(
            acc2 + spec_table_of(ns.drop_first()),
        ));
        assert(spec_load_records(bytes, acc) == spec_load_records(rest, acc2));
        assert(acc2 + spec_table_of(ns.drop_first()) =~= acc + spec_table_of(ns)) by {
            assert(spec_table_of(ns)[0] == (name, insns));
            assert forall|k: int| 0 <= k < spec_table_of(ns.drop_first()).len() implies spec_table_of(
                ns.drop_first(),
            )[k] == spec_table_of(ns)[k + 1] by {
                assert(ns.drop_first()[k] == ns[k + 1]);
            }
        }
    }
}

/// Round-trip: loading the compiled file a resolved namespace encodes to
/// yields exactly the function table that namespace stands for — so
/// executing any function from the loaded table is, by the run semantics,
/// the same as executing it from the namespace's own table.
pub proof fn lemma_encode_then_load(ns: NamespaceView)
    requires
        spec_namespace_resolved(ns),
        spec_unique_keys(ns),
        spec_ir_bytecode(ns) is Ok,
    ensures
        spec_load(spec_ir_bytecode(ns)->Ok_0, Seq::empty()) == Ok::<TableView, VmErrorView>(
            spec_table_of(ns),
        ),
{
    let body = spec_encode_entries(ns)->Ok_0;
    let bytes = spec_ir_bytecode(ns)->Ok_0;
    assert(bytes =~= spec_magic() + spec_u32_be(body.len() as u32) + body);
    assert(bytes.len() >= 8);
    assert(bytes.subrange(0, 4) =~= spec_magic());
    assert(bytes.skip(8) =~= body);
    lemma_load_encoded_records(ns, Seq::empty());
    assert(Seq::<(Seq<char>, Seq<InstructionView>)>::empty() + spec_table_of(ns) =~= spec_table_of(
        ns,
    ));
}

/// Looking a name up in the table a namespace stands for finds exactly
/// what the namespace binds it to, decoded.
pub proof fn lemma_table_of_lookup(ns: NamespaceView, name: Seq<char>)
    ensures
        spec_lookup(spec_table_of(ns), name) == match spec_lookup(ns, name) {
            Some(element) => Some(spec_entry_instructions((name, element))),
            None => None::<Seq<InstructionView>>,
        },
    decreases ns.len(),
{
    if ns.len() > 0 {
        lemma_table_of_lookup(ns.drop_first(), name);
        assert(spec_table_of(ns)[0] == (ns[0].0, spec_entry_instructions(ns[0])));
        assert(spec_table_of(ns).drop_first() =~= spec_table_of(ns.drop_first())) by {
            assert forall|k: int|
                0 <= k < spec_table_of(ns.drop_first()).len() implies spec_table_of(
                ns.drop_first(),
            )[k] == spec_table_of(ns)[k + 1] by {
                assert(ns.drop_first()[k] == ns[k + 1]);
            }
        }
    }
}

/// The namespace a source text compiles to, when compilation succeeds.
pub open spec fn spec_compiled_namespace(source: Seq<char>) -> NamespaceView {
    let start = LexerModel { input: source, index: 0, line: 0, column: 0 };
    let nodes = spec_parse_program(start).0->Ok_0;
    spec_from_program(nodes)->Ok_0[0]
}

/// Round-trip, end to end: when a source text compiles, interpreting the
/// compiled bytes is running `main` on the function table its namespace
/// stands for — compiled programs execute exactly as the resolved
/// namespace says, for any call depth.
pub proof fn lemma_compile_then_interpret(source: Seq<char>, fuel: nat)
    requires
        crate::spec_compile(source) is Ok,
    ensures
        ({
            let table = spec_table_of(spec_compiled_namespace(source));
            let run = crate::interpreter::spec_run_call(
                table,
                "main"@,
                spec_init_state(),
                fuel,
            );
            crate::interpreter::spec_interpret(crate::spec_compile(source)->Ok_0, fuel) == (
                run.1.output,
                match run.0 {
                    Ok(_) => None::<VmErrorView>,
                    Err(e) => Some(e),
                },
            )
        }),
{
    let start = LexerModel { input: source, index: 0, line: 0, column: 0 };
    let parsed = spec_parse_program(start);
    let nodes = parsed.0->Ok_0;
    crate::ir::lemma_from_program_ok(nodes);
    let scopes = spec_from_program(nodes)->Ok_0;
    let ns = scopes[0];
    assert(ns == spec_compiled_namespace(source));
    assert(spec_namespace_resolved(ns)) by {
        assert(spec_builtin_template("print"@) is Some);
        assert forall|i: int| 0 <= i < ns.len() implies spec_entry_resolved(ns[i]) by {
            assert(crate::ir::spec_ns_entry_ok(ns[i]));
            assert(!(ns[i].1 is PlaceholderFunction));
        }
    }
    lemma_encode_then_load(ns);
    let bytes = spec_ir_bytecode(ns)->Ok_0;
    assert(crate::spec_compile(source)->Ok_0 == bytes);
    lemma_table_of_lookup(ns, "main"@);
    assert(spec_lookup(ns, "main"@) is Some);
}

/// Whether the expression calls the name anywhere inside itself.
pub open spec fn spec_expr_calls(e: ExprView, name: Seq<char>) -> bool
    decreases e,
{
    match e {
        ExprView::StringLiteral(_) => false,
        ExprView::FunctionCall { name: called, arguments } => called == name || spec_exprs_call(
            arguments,
            name,
        ),
    }
}

/// Whether any expression of the sequence calls the name.
pub open spec fn spec_exprs_call(es: Seq<ExprView>, name: Seq<char>) -> bool
    decreases es,
{
    if es.len() == 0 {
        false
    } else {
        spec_expr_calls(es[0], name) || spec_exprs_call(es.drop_first(), name)
    }
}

/// Whether any statement of the sequence calls the name.
pub open spec fn spec_stmts_call(ss: Seq<StatementView>, name: Seq<char>) -> bool
    decreases ss.len(),
{
    if ss.len() == 0 {
        false
    } else {
        (match ss[0] {
            StatementView::Expr(e) => spec_expr_calls(e, name),
        }) || spec_stmts_call(ss.drop_first(), name)
    }
}

/// Whether the definition's body calls the name.
pub open spec fn spec_node_calls(n: NodeView, name: Seq<char>) -> bool {
    match n {
        NodeView::FunctionDefinition { name: _, contents, impure: _ } => spec_stmts_call(
            contents,
            name,
        ),
    }
}

/// The name a definition defines.
pub open spec fn spec_node_name(n: NodeView) -> Seq<char> {
    match n {
        NodeView::FunctionDefinition { name, contents: _, impure: _ } => name,
    }
}

/// Whether any definition of the program calls the name.
pub open spec fn spec_program_calls(nodes: Seq<NodeView>, name: Seq<char>) -> bool {
    exists|i: int| 0 <= i < nodes.len() && spec_node_calls(#[trigger] nodes[i], name)
}

/// Whether any definition of the program defines the name.
pub open spec fn spec_program_defines(nodes: Seq<NodeView>, name: Seq<char>) -> bool {
    exists|i: int| 0 <= i < nodes.len() && spec_node_name(#[trigger] nodes[i]) == name
}

/// Every function or built-in entry is the seeded built-in or carries a
/// name the program defines.
pub open spec fn spec_defined_only(ns: NamespaceView, program: Seq<NodeView>) -> bool {
    forall|i: int|
        0 <= i < ns.len() ==> ((#[trigger] ns[i].1 is Function || ns[i].1 is BuiltInFunction)
            ==> (ns[i].0 == "print"@ || spec_program_defines(program, ns[i].0)))
}

/// On a one-level scope stack, stack lookup is namespace lookup.
proof fn lemma_scope_lookup_single(scopes: ScopeView, name: Seq<char>)
    requires
        scopes.len() == 1,
    ensures
        spec_scope_lookup(scopes, name) is Some <==> spec_lookup(scopes[0], name) is Some,
{
    assert(scopes.drop_first() =~= Seq::<NamespaceView>::empty());
    assert(spec_scope_lookup(scopes.drop_first(), name) is None);
}

/// Binding one more name keeps every present name present.
proof fn lemma_add_preserves_presence(
    scopes: ScopeView,
    bound: Seq<char>,
    element: ScopeElementView,
    name: Seq<char>,
)
    requires
        scopes.len() == 1,
        spec_lookup(scopes[0], name) is Some,
    ensures
        spec_lookup(spec_add_to_scope(scopes, bound, element)[0], name) is Some,
{
    crate::table::lemma_lookup_insert(scopes[0], bound, element, name);
    assert(spec_add_to_scope(scopes, bound, element)[0] == spec_insert(scopes[0], bound, element));
}

/// Lowering an expression keeps every present name present.
proof fn lemma_expr_preserves_presence(scopes: ScopeView, e: ExprView, name: Seq<char>)
    requires
        spec_scopes_ok(scopes),
        spec_lookup(scopes[0], name) is Some,
    ensures
        spec_lookup(spec_handle_expression(scopes, e).1[0], name) is Some,
    decreases e,
{
    match e {
        ExprView::StringLiteral(_) => {},
        ExprView::FunctionCall { name: called, arguments } => {
            lemma_args_preserve_presence(scopes, arguments, name);
            lemma_handle_arguments_ok(scopes, arguments);
            let args = spec_handle_arguments(scopes, arguments);
            match args.0 {
                Err(_) => {},
                Ok(_) => {
                    match spec_scope_lookup(args.1, called) {
                        Some(_) => {},
                        None => {
                            lemma_add_preserves_presence(
                                args.1,
                                called,
                                ScopeElementView::PlaceholderFunction,
                                name,
                            );
                        },
                    }
                },
            }
        },
    }
}

/// Lowering an argument list keeps every present name present.
proof fn lemma_args_preserve_presence(scopes: ScopeView, es: Seq<ExprView>, name: Seq<char>)
    requires
        spec_scopes_ok(scopes),
        spec_lookup(scopes[0], name) is Some,
    ensures
        spec_lookup(spec_handle_arguments(scopes, es).1[0], name) is Some,
    decreases es,
{
    if es.len() > 0 {
        lemma_expr_preserves_presence(scopes, es[0], name);
        lemma_handle_expression_ok(scopes, es[0]);
        let first = spec_handle_expression(scopes, es[0]);
        match first.0 {
            Err(_) => {},
            Ok(_) => {
                lemma_args_preserve_presence(first.1, es.drop_first(), name);
            },
        }
    }
}

/// Lowering a body keeps every present name present.
proof fn lemma_body_preserves_presence(scopes: ScopeView, ss: Seq<StatementView>, name: Seq<char>)
    requires
        spec_scopes_ok(scopes),
        spec_lookup(scopes[0], name) is Some,
    ensures
        spec_lookup(spec_handle_body(scopes, ss).1[0], name) is Some,
    decreases ss.len(),
{
    if ss.len() > 0 {
        match ss[0] {
            StatementView::Expr(e) => {
                lemma_expr_preserves_presence(scopes, e, name);
                lemma_handle_expression_ok(scopes, e);
            },
        }
        let first = spec_handle_statement(scopes, ss[0]);
        match first.0 {
            Err(_) => {},
            Ok(_) => {
                lemma_body_preserves_presence(first.1, ss.drop_first(), name);
            },
        }
    }
}

/// Processing a definition keeps every present name present.
proof fn lemma_node_preserves_presence(scopes: ScopeView, node: NodeView, name: Seq<char>)
    requires
        spec_scopes_ok(scopes),
        spec_lookup(scopes[0], name) is Some,
    ensures
        spec_lookup(spec_handle_node(scopes, node).1[0], name) is Some,
{
    match node {
        NodeView::FunctionDefinition { name: defined, contents, impure: _ } => {
            match spec_scope_lookup(scopes, defined) {
                Some((_, ScopeElementView::Function(_))) => {},
                Some((_, ScopeElementView::BuiltInFunction)) => {},
                Some((_, ScopeElementView::Variable)) => {},
                _ => {
                    lemma_body_preserves_presence(scopes, contents, name);
                    lemma_handle_body_ok(scopes, contents);
                    let body = spec_handle_body(scopes, contents);
                    match body.0 {
                        Err(_) => {},
                        Ok(insns) => {
                            lemma_add_preserves_presence(
                                body.1,
                                defined,
                                ScopeElementView::Function(insns),
                                name,
                            );
                        },
                    }
                },
            }
        },
    }
}

/// A called name ends up in scope when the expression lowers cleanly.
proof fn lemma_expr_call_recorded(scopes: ScopeView, e: ExprView, name: Seq<char>)
    requires
        spec_scopes_ok(scopes),
        spec_handle_expression(scopes, e).0 is Ok,
        spec_expr_calls(e, name),
    ensures
        spec_lookup(spec_handle_expression(scopes, e).1[0], name) is Some,
    decreases e,
{
    match e {
        ExprView::StringLiteral(_) => {},
        ExprView::FunctionCall { name: called, arguments } => {
            lemma_handle_arguments_ok(scopes, arguments);
            let args = spec_handle_arguments(scopes, arguments);
            match args.0 {
                Err(_) => {},
                Ok(_) => {
                    if called == name {
                        lemma_scope_lookup_single(args.1, name);
                        match spec_scope_lookup(args.1, called) {
                            Some(_) => {},
                            None => {
                                crate::table::lemma_lookup_insert(
                                    args.1[0],
                                    called,
                                    ScopeElementView::PlaceholderFunction,
                                    name,
                                );
                                assert(spec_add_to_scope(
                                    args.1,
                                    called,
                                    ScopeElementView::PlaceholderFunction,
                                )[0] == spec_insert(
                                    args.1[0],
                                    called,
                                    ScopeElementView::PlaceholderFunction,
                                ));
                            },
                        }
                    } else {
                        lemma_args_call_recorded(scopes, arguments, name);
                        match spec_scope_lookup(args.1, called) {
                            Some(_) => {},
                            None => {
                                lemma_add_preserves_presence(
                                    args.1,
                                    called,
                                    ScopeElementView::PlaceholderFunction,
                                    name,
                                );
                            },
                        }
                    }
                },
            }
        },
    }
}

/// A name called in an argument list ends up in scope when it lowers
/// cleanly.
proof fn lemma_args_call_recorded(scopes: ScopeView, es: Seq<ExprView>, name: Seq<char>)
    requires
        spec_scopes_ok(scopes),
        spec_handle_arguments(scopes, es).0 is Ok,
        spec_exprs_call(es, name),
    ensures
        spec_lookup(spec_handle_arguments(scopes, es).1[0], name) is Some,
    decreases es,
{
    if es.len() > 0 {
        lemma_handle_expression_ok(scopes, es[0]);
        let first = spec_handle_expression(scopes, es[0]);
        if spec_expr_calls(es[0], name) {
            lemma_expr_call_recorded(scopes, es[0], name);
            lemma_args_preserve_presence(first.1, es.drop_first(), name);
        } else {
            lemma_args_call_recorded(first.1, es.drop_first(), name);
        }
    }
}

/// A name called in a body ends up in scope when the body lowers cleanly.
proof fn lemma_body_call_recorded(scopes: ScopeView, ss: Seq<StatementView>, name: Seq<char>)
    requires
        spec_scopes_ok(scopes),
        spec_handle_body(scopes, ss).0 is Ok,
        spec_stmts_call(ss, name),
    ensures
        spec_lookup(spec_handle_body(scopes, ss).1[0], name) is Some,
    decreases ss.len(),
{
    if ss.len() > 0 {
        match ss[0] {
            StatementView::Expr(e) => {
                lemma_handle_expression_ok(scopes, e);
                let first = spec_handle_statement(scopes, ss[0]);
                if spec_expr_calls(e, name) {
                    lemma_expr_call_recorded(scopes, e, name);
                    lemma_body_preserves_presence(first.1, ss.drop_first(), name);
                } else {
                    lemma_body_call_recorded(first.1, ss.drop_first(), name);
                }
            },
        }
    }
}

/// A name called in a definition's body ends up in scope when the
/// definition is processed cleanly.
proof fn lemma_node_call_recorded(scopes: ScopeView, node: NodeView, name: Seq<char>)
    requires
        spec_scopes_ok(scopes),
        spec_handle_node(scopes, node).0 is Ok,
        spec_node_calls(node, name),
    ensures
        spec_lookup(spec_handle_node(scopes, node).1[0], name) is Some,
{
    match node {
        NodeView::FunctionDefinition { name: defined, contents, impure: _ } => {
            match spec_scope_lookup(scopes, defined) {
                Some((_, ScopeElementView::Function(_))) => {},
                Some((_, ScopeElementView::BuiltInFunction)) => {},
                Some((_, ScopeElementView::Variable)) => {},
                _ => {
                    lemma_body_call_recorded(scopes, contents, name);
                    lemma_handle_body_ok(scopes, contents);
                    let body = spec_handle_body(scopes, contents);
                    match body.0 {
                        Err(_) => {},
                        Ok(insns) => {
                            lemma_add_preserves_presence(
                                body.1,
                                defined,
                                ScopeElementView::Function(insns),
                                name,
                            );
                        },
                    }
                },
            }
        },
    }
}

/// Binding an entry that respects the program's definitions keeps the
/// namespace respecting them.
proof fn lemma_insert_defined_only(
    ns: NamespaceView,
    program: Seq<NodeView>,
    bound: Seq<char>,
    element: ScopeElementView,
)
    requires
        spec_defined_only(ns, program),
        (element is Function || element is BuiltInFunction) ==> (bound == "print"@
            || spec_program_defines(program, bound)),
    ensures
        spec_defined_only(spec_insert(ns, bound, element), program),
    decreases ns.len(),
{
    let inserted = spec_insert(ns, bound, element);
    if ns.len() == 0 {
        assert(inserted[0] == (bound, element));
    } else if ns[0].0 == bound {
        assert forall|i: int|
            0 <= i < inserted.len() && ((#[trigger] inserted[i].1 is Function || inserted[i].1
                is BuiltInFunction)) implies (inserted[i].0 == "print"@ || spec_program_defines(
            program,
            inserted[i].0,
        )) by {
            if i == 0 {
                assert(inserted[0] == (bound, element));
            } else {
                assert(inserted[i] == ns[i]);
                assert(ns[i].1 is Function || ns[i].1 is BuiltInFunction);
            }
        }
    } else {
        assert(spec_defined_only(ns.drop_first(), program)) by {
            assert forall|i: int|
                0 <= i < ns.drop_first().len() && ((#[trigger] ns.drop_first()[i].1 is Function
                    || ns.drop_first()[i].1 is BuiltInFunction)) implies (ns.drop_first()[i].0
                == "print"@ || spec_program_defines(program, ns.drop_first()[i].0)) by {
                assert(ns.drop_first()[i] == ns[i + 1]);
                assert(ns[i + 1].1 is Function || ns[i + 1].1 is BuiltInFunction);
            }
        }
        lemma_insert_defined_only(ns.drop_first(), program, bound, element);
        assert forall|i: int|
            0 <= i < inserted.len() && ((#[trigger] inserted[i].1 is Function || inserted[i].1
                is BuiltInFunction)) implies (inserted[i].0 == "print"@ || spec_program_defines(
            program,
            inserted[i].0,
        )) by {
            if i == 0 {
                assert(inserted[0] == ns[0]);
                assert(ns[0].1 is Function || ns[0].1 is BuiltInFunction);
            } else {
                let sub = spec_insert(ns.drop_first(), bound, element);
                assert(inserted[i] == sub[i - 1]);
            }
        }
    }
}

/// Lowering an expression only ever adds placeholders, keeping the
/// namespace respecting the program's definitions.
proof fn lemma_expr_defined_only(scopes: ScopeView, e: ExprView, program: Seq<NodeView>)
    requires
        spec_scopes_ok(scopes),
        spec_defined_only(scopes[0], program),
    ensures
        spec_defined_only(spec_handle_expression(scopes, e).1[0], program),
    decreases e,
{
    match e {
        ExprView::StringLiteral(_) => {},
        ExprView::FunctionCall { name: called, arguments } => {
            lemma_args_defined_only(scopes, arguments, program);
            lemma_handle_arguments_ok(scopes, arguments);
            let args = spec_handle_arguments(scopes, arguments);
            match args.0 {
                Err(_) => {},
                Ok(_) => {
                    match spec_scope_lookup(args.1, called) {
                        Some(_) => {},
                        None => {
                            lemma_insert_defined_only(
                                args.1[0],
                                program,
                                called,
                                ScopeElementView::PlaceholderFunction,
                            );
                            assert(spec_add_to_scope(
                                args.1,
                                called,
                                ScopeElementView::PlaceholderFunction,
                            )[0] == spec_insert(
                                args.1[0],
                                called,
                                ScopeElementView::PlaceholderFunction,
                            ));
                        },
                    }
                },
            }
        },
    }
}

/// Lowering an argument list keeps the namespace respecting the program's
/// definitions.
proof fn lemma_args_defined_only(scopes: ScopeView, es: Seq<ExprView>, program: Seq<NodeView>)
    requires
        spec_scopes_ok(scopes),
        spec_defined_only(scopes[0], program),
    ensures
        spec_defined_only(spec_handle_arguments(scopes, es).1[0], program),
    decreases es,
{
    if es.len() > 0 {
        lemma_expr_defined_only(scopes, es[0], program);
        lemma_handle_expression_ok(scopes, es[0]);
        let first = spec_handle_expression(scopes, es[0]);
        match first.0 {
            Err(_) => {},
            Ok(_) => {
                lemma_args_defined_only(first.1, es.drop_first(), program);
            },
        }
    }
}

/// Lowering a body keeps the namespace respecting the program's
/// definitions.
proof fn lemma_body_defined_only(scopes: ScopeView, ss: Seq<StatementView>, program: Seq<NodeView>)
    requires
        spec_scopes_ok(scopes),
        spec_defined_only(scopes[0], program),
    ensures
        spec_defined_only(spec_handle_body(scopes, ss).1[0], program),
    decreases ss.len(),
{
    if ss.len() > 0 {
        match ss[0] {
            StatementView::Expr(e) => {
                lemma_expr_defined_only(scopes, e, program);
                lemma_handle_expression_ok(scopes, e);
            },
        }
        let first = spec_handle_statement(scopes, ss[0]);
        match first.0 {
            Err(_) => {},
            Ok(_) => {
                lemma_body_defined_only(first.1, ss.drop_first(), program);
            },
        }
    }
}

/// Processing a definition the program contains keeps the namespace
/// respecting the program's definitions.
proof fn lemma_node_defined_only(scopes: ScopeView, node: NodeView, program: Seq<NodeView>)
    requires
        spec_scopes_ok(scopes),
        spec_defined_only(scopes[0], program),
        spec_program_defines(program, spec_node_name(node)),
    ensures
        spec_defined_only(spec_handle_node(scopes, node).1[0], program),
{
    match node {
        NodeView::FunctionDefinition { name: defined, contents, impure: _ } => {
            match spec_scope_lookup(scopes, defined) {
                Some((_, ScopeElementView::Function(_))) => {},
                Some((_, ScopeElementView::BuiltInFunction)) => {},
                Some((_, ScopeElementView::Variable)) => {},
                _ => {
                    lemma_body_defined_only(scopes, contents, program);
                    lemma_handle_body_ok(scopes, contents);
                    let body = spec_handle_body(scopes, contents);
                    match body.0 {
                        Err(_) => {},
                        Ok(insns) => {
                            lemma_insert_defined_only(
                                body.1[0],
                                program,
                                defined,
                                ScopeElementView::Function(insns),
                            );
                            assert(spec_add_to_scope(
                                body.1,
                                defined,
                                ScopeElementView::Function(insns),
                            )[0] == spec_insert(
                                body.1[0],
                                defined,
                                ScopeElementView::Function(insns),
                            ));
                        },
                    }
                },
            }
        },
    }
}

/// Whether any definition in the sequence calls the name.
pub open spec fn spec_nodes_call(nodes: Seq<NodeView>, name: Seq<char>) -> bool {
    exists|i: int| 0 <= i < nodes.len() && spec_node_calls(#[trigger] nodes[i], name)
}

/// Building a clean suffix of the program records every name it calls and
/// keeps the namespace respecting the program's definitions.
proof fn lemma_build_nodes_facts(
    scopes: ScopeView,
    nodes: Seq<NodeView>,
    program: Seq<NodeView>,
    name: Seq<char>,
)
    requires
        spec_scopes_ok(scopes),
        spec_defined_only(scopes[0], program),
        forall|i: int|
            0 <= i < nodes.len() ==> spec_program_defines(program, spec_node_name(#[trigger] nodes[i])),
        spec_build_nodes(scopes, nodes).0 is Ok,
        spec_nodes_call(nodes, name) || spec_lookup(scopes[0], name) is Some,
    ensures
        spec_lookup(spec_build_nodes(scopes, nodes).1[0], name) is Some,
    decreases nodes.len(),
{
    if nodes.len() == 0 {
    } else {
        let first = spec_handle_node(scopes, nodes[0]);
        lemma_handle_node_ok(scopes, nodes[0]);
        lemma_node_defined_only(scopes, nodes[0], program);
        assert(forall|i: int|
            0 <= i < nodes.drop_first().len() ==> spec_program_defines(
                program,
                spec_node_name(#[trigger] nodes.drop_first()[i]),
            )) by {
            assert forall|i: int|
                0 <= i < nodes.drop_first().len() implies spec_program_defines(
                program,
                spec_node_name(#[trigger] nodes.drop_first()[i]),
            ) by {
                assert(nodes.drop_first()[i] == nodes[i + 1]);
                assert(spec_program_defines(program, spec_node_name(nodes[i + 1])));
            }
        }
        if spec_node_calls(nodes[0], name) {
            lemma_node_call_recorded(scopes, nodes[0], name);
            lemma_build_nodes_facts(first.1, nodes.drop_first(), program, name);
        } else if spec_lookup(scopes[0], name) is Some {
            lemma_node_preserves_presence(scopes, nodes[0], name);
            lemma_build_nodes_facts(first.1, nodes.drop_first(), program, name);
        } else {
            let i = choose|i: int| 0 <= i < nodes.len() && spec_node_calls(#[trigger] nodes[i], name);
            assert(i > 0);
            assert(nodes.drop_first()[i - 1] == nodes[i]);
            assert(spec_nodes_call(nodes.drop_first(), name));
            lemma_build_nodes_facts(first.1, nodes.drop_first(), program, name);
        }
    }
}

/// Building a clean program keeps the namespace respecting its
/// definitions.
proof fn lemma_build_nodes_defined_only(
    scopes: ScopeView,
    nodes: Seq<NodeView>,
    program: Seq<NodeView>,
)
    requires
        spec_scopes_ok(scopes),
        spec_defined_only(scopes[0], program),
        forall|i: int|
            0 <= i < nodes.len() ==> spec_program_defines(program, spec_node_name(#[trigger] nodes[i])),
    ensures
        spec_defined_only(spec_build_nodes(scopes, nodes).1[0], program),
    decreases nodes.len(),
{
    if nodes.len() > 0 {
        let first = spec_handle_node(scopes, nodes[0]);
        lemma_handle_node_ok(scopes, nodes[0]);
        lemma_node_defined_only(scopes, nodes[0], program);
        match first.0 {
            Err(_) => {},
            Ok(_) => {
                assert(forall|i: int|
                    0 <= i < nodes.drop_first().len() ==> spec_program_defines(
                        program,
                        spec_node_name(#[trigger] nodes.drop_first()[i]),
                    )) by {
                    assert forall|i: int|
                        0 <= i < nodes.drop_first().len() implies spec_program_defines(
                        program,
                        spec_node_name(#[trigger] nodes.drop_first()[i]),
                    ) by {
                        assert(nodes.drop_first()[i] == nodes[i + 1]);
                        assert(spec_program_defines(program, spec_node_name(nodes[i + 1])));
                    }
                }
                lemma_build_nodes_defined_only(first.1, nodes.drop_first(), program);
            },
        }
    }
}

/// On a one-level scope stack, stack lookup returns namespace lookup's
/// value at level zero.
proof fn lemma_scope_lookup_value(scopes: ScopeView, name: Seq<char>)
    requires
        scopes.len() == 1,
    ensures
        spec_scope_lookup(scopes, name) == (match spec_lookup(scopes[0], name) {
            Some(v) => Some((0int, v)),
            None => None::<(int, ScopeElementView)>,
        }),
{
    assert(scopes.drop_first() =~= Seq::<NamespaceView>::empty());
    assert(spec_scope_lookup(scopes.drop_first(), name) is None);
}

/// In a namespace in shape, no name resolves to the reserved variable tag,
/// so lowering an expression never faults.
proof fn lemma_expr_never_errs(scopes: ScopeView, e: ExprView)
    requires
        spec_scopes_ok(scopes),
    ensures
        spec_handle_expression(scopes, e).0 is Ok,
    decreases e,
{
    match e {
        ExprView::StringLiteral(_) => {},
        ExprView::FunctionCall { name: called, arguments } => {
            lemma_args_never_err(scopes, arguments);
            lemma_handle_arguments_ok(scopes, arguments);
            let args = spec_handle_arguments(scopes, arguments);
            lemma_scope_lookup_value(args.1, called);
            match spec_lookup(args.1[0], called) {
                Some(_) => {
                    crate::table::lemma_lookup_entry(args.1[0], called);
                    let k = choose|k: int|
                        0 <= k < args.1[0].len() && args.1[0][k] == (
                            called,
                            spec_lookup(args.1[0], called)->0,
                        );
                    assert(crate::ir::spec_ns_entry_ok(args.1[0][k]));
                },
                None => {},
            }
        },
    }
}

/// Lowering an argument list never faults in a namespace in shape.
proof fn lemma_args_never_err(scopes: ScopeView, es: Seq<ExprView>)
    requires
        spec_scopes_ok(scopes),
    ensures
        spec_handle_arguments(scopes, es).0 is Ok,
    decreases es,
{
    if es.len() > 0 {
        lemma_expr_never_errs(scopes, es[0]);
        lemma_handle_expression_ok(scopes, es[0]);
        lemma_args_never_err(spec_handle_expression(scopes, es[0]).1, es.drop_first());
    }
}

/// Lowering a body never faults in a namespace in shape.
proof fn lemma_body_never_errs(scopes: ScopeView, ss: Seq<StatementView>)
    requires
        spec_scopes_ok(scopes),
    ensures
        spec_handle_body(scopes, ss).0 is Ok,
    decreases ss.len(),
{
    if ss.len() > 0 {
        match ss[0] {
            StatementView::Expr(e) => {
                lemma_expr_never_errs(scopes, e);
                lemma_handle_expression_ok(scopes, e);
            },
        }
        lemma_body_never_errs(spec_handle_statement(scopes, ss[0]).1, ss.drop_first());
    }
}

/// Lowering an expression adds placeholders only under absent names, so
/// every present name keeps exactly its binding.
proof fn lemma_expr_preserves_lookup(scopes: ScopeView, e: ExprView, name: Seq<char>)
    requires
        spec_scopes_ok(scopes),
        spec_lookup(scopes[0], name) is Some,
    ensures
        spec_lookup(spec_handle_expression(scopes, e).1[0], name) == spec_lookup(
            scopes[0],
            name,
        ),
    decreases e,
{
    match e {
        ExprView::StringLiteral(_) => {},
        ExprView::FunctionCall { name: called, arguments } => {
            lemma_args_preserve_lookup(scopes, arguments, name);
            lemma_handle_arguments_ok(scopes, arguments);
            let args = spec_handle_arguments(scopes, arguments);
            match args.0 {
                Err(_) => {},
                Ok(_) => {
                    lemma_scope_lookup_value(args.1, called);
                    match spec_scope_lookup(args.1, called) {
                        Some(_) => {},
                        None => {
                            crate::table::lemma_lookup_insert(
                                args.1[0],
                                called,
                                ScopeElementView::PlaceholderFunction,
                                name,
                            );
                            assert(spec_add_to_scope(
                                args.1,
                                called,
                                ScopeElementView::PlaceholderFunction,
                            )[0] == spec_insert(
                                args.1[0],
                                called,
                                ScopeElementView::PlaceholderFunction,
                            ));
                        },
                    }
                },
            }
        },
    }
}

/// Lowering an argument list keeps every present name's binding.
proof fn lemma_args_preserve_lookup(scopes: ScopeView, es: Seq<ExprView>, name: Seq<char>)
    requires
        spec_scopes_ok(scopes),
        spec_lookup(scopes[0], name) is Some,
    ensures
        spec_lookup(spec_handle_arguments(scopes, es).1[0], name) == spec_lookup(
            scopes[0],
            name,
        ),
    decreases es,
{
    if es.len() > 0 {
        lemma_expr_preserves_lookup(scopes, es[0], name);
        lemma_handle_expression_ok(scopes, es[0]);
        let first = spec_handle_expression(scopes, es[0]);
        match first.0 {
            Err(_) => {},
            Ok(_) => {
                lemma_args_preserve_lookup(first.1, es.drop_first(), name);
            },
        }
    }
}

/// Lowering a body keeps every present name's binding.
proof fn lemma_body_preserves_lookup(scopes: ScopeView, ss: Seq<StatementView>, name: Seq<char>)
    requires
        spec_scopes_ok(scopes),
        spec_lookup(scopes[0], name) is Some,
    ensures
        spec_lookup(spec_handle_body(scopes, ss).1[0], name) == spec_lookup(scopes[0], name),
    decreases ss.len(),
{
    if ss.len() > 0 {
        match ss[0] {
            StatementView::Expr(e) => {
                lemma_expr_preserves_lookup(scopes, e, name);
                lemma_handle_expression_ok(scopes, e);
            },
        }
        let first = spec_handle_statement(scopes, ss[0]);
        match first.0 {
            Err(_) => {},
            Ok(_) => {
                lemma_body_preserves_lookup(first.1, ss.drop_first(), name);
            },
        }
    }
}

/// Every placeholder entry carries a name the program calls somewhere.
pub open spec fn spec_placeholders_called(ns: NamespaceView, program: Seq<NodeView>) -> bool {
    forall|i: int|
        0 <= i < ns.len() ==> ((#[trigger] ns[i].1) is PlaceholderFunction ==> spec_program_calls(
            program,
            ns[i].0,
        ))
}

/// Binding a name whose placeholder, if it is one, the program calls keeps
/// every placeholder called.
proof fn lemma_insert_placeholders_called(
    ns: NamespaceView,
    program: Seq<NodeView>,
    bound: Seq<char>,
    element: ScopeElementView,
)
    requires
        spec_placeholders_called(ns, program),
        element is PlaceholderFunction ==> spec_program_calls(program, bound),
    ensures
        spec_placeholders_called(spec_insert(ns, bound, element), program),
    decreases ns.len(),
{
    let inserted = spec_insert(ns, bound, element);
    if ns.len() == 0 {
        assert(inserted[0] == (bound, element));
    } else if ns[0].0 == bound {
        assert forall|i: int|
            0 <= i < inserted.len() && (#[trigger] inserted[i].1)
                is PlaceholderFunction implies spec_program_calls(program, inserted[i].0) by {
            if i == 0 {
                assert(inserted[0] == (bound, element));
            } else {
                assert(inserted[i] == ns[i]);
                assert(ns[i].1 is PlaceholderFunction);
            }
        }
    } else {
        assert(spec_placeholders_called(ns.drop_first(), program)) by {
            assert forall|i: int|
                0 <= i < ns.drop_first().len() && (#[trigger] ns.drop_first()[i].1)
                    is PlaceholderFunction implies spec_program_calls(
                program,
                ns.drop_first()[i].0,
            ) by {
                assert(ns.drop_first()[i] == ns[i + 1]);
                assert(ns[i + 1].1 is PlaceholderFunction);
            }
        }
        lemma_insert_placeholders_called(ns.drop_first(), program, bound, element);
        assert forall|i: int|
            0 <= i < inserted.len() && (#[trigger] inserted[i].1)
                is PlaceholderFunction implies spec_program_calls(program, inserted[i].0) by {
            if i == 0 {
                assert(inserted[0] == ns[0]);
                assert(ns[0].1 is PlaceholderFunction);
            } else {
                let sub = spec_insert(ns.drop_first(), bound, element);
                assert(inserted[i] == sub[i - 1]);
            }
        }
    }
}

/// Lowering an expression whose calls the program makes keeps every
/// placeholder called.
proof fn lemma_expr_placeholders_called(scopes: ScopeView, e: ExprView, program: Seq<NodeView>)
    requires
        spec_scopes_ok(scopes),
        spec_placeholders_called(scopes[0], program),
        forall|n: Seq<char>| spec_expr_calls(e, n) ==> #[trigger] spec_program_calls(program, n),
    ensures
        spec_placeholders_called(spec_handle_expression(scopes, e).1[0], program),
    decreases e,
{
    match e {
        ExprView::StringLiteral(_) => {},
        ExprView::FunctionCall { name: called, arguments } => {
            assert(forall|n: Seq<char>|
                spec_exprs_call(arguments, n) ==> #[trigger] spec_program_calls(program, n));
            lemma_args_placeholders_called(scopes, arguments, program);
            lemma_handle_arguments_ok(scopes, arguments);
            let args = spec_handle_arguments(scopes, arguments);
            match args.0 {
                Err(_) => {},
                Ok(_) => {
                    match spec_scope_lookup(args.1, called) {
                        Some(_) => {},
                        None => {
                            assert(spec_expr_calls(e, called));
                            assert(spec_program_calls(program, called));
                            lemma_insert_placeholders_called(
                                args.1[0],
                                program,
                                called,
                                ScopeElementView::PlaceholderFunction,
                            );
                            assert(spec_add_to_scope(
                                args.1,
                                called,
                                ScopeElementView::PlaceholderFunction,
                            )[0] == spec_insert(
                                args.1[0],
                                called,
                                ScopeElementView::PlaceholderFunction,
                            ));
                        },
                    }
                },
            }
        },
    }
}

/// Lowering an argument list whose calls the program makes keeps every
/// placeholder called.
proof fn lemma_args_placeholders_called(
    scopes: ScopeView,
    es: Seq<ExprView>,
    program: Seq<NodeView>,
)
    requires
        spec_scopes_ok(scopes),
        spec_placeholders_called(scopes[0], program),
        forall|n: Seq<char>| spec_exprs_call(es, n) ==> #[trigger] spec_program_calls(program, n),
    ensures
        spec_placeholders_called(spec_handle_arguments(scopes, es).1[0], program),
    decreases es,
{
    if es.len() > 0 {
        assert(forall|n: Seq<char>|
            spec_expr_calls(es[0], n) ==> #[trigger] spec_program_calls(program, n));
        lemma_expr_placeholders_called(scopes, es[0], program);
        lemma_handle_expression_ok(scopes, es[0]);
        let first = spec_handle_expression(scopes, es[0]);
        match first.0 {
            Err(_) => {},
            Ok(_) => {
                assert(forall|n: Seq<char>|
                    spec_exprs_call(es.drop_first(), n) ==> #[trigger] spec_program_calls(
                        program,
                        n,
                    ));
                lemma_args_placeholders_called(first.1, es.drop_first(), program);
            },
        }
    }
}

/// Lowering a body whose calls the program makes keeps every placeholder
/// called.
proof fn lemma_body_placeholders_called(
    scopes: ScopeView,
    ss: Seq<StatementView>,
    program: Seq<NodeView>,
)
    requires
        spec_scopes_ok(scopes),
        spec_placeholders_called(scopes[0], program),
        forall|n: Seq<char>| spec_stmts_call(ss, n) ==> #[trigger] spec_program_calls(program, n),
    ensures
        spec_placeholders_called(spec_handle_body(scopes, ss).1[0], program),
    decreases ss.len(),
{
    if ss.len() > 0 {
        match ss[0] {
            StatementView::Expr(e) => {
                assert(forall|n: Seq<char>|
                    spec_expr_calls(e, n) ==> #[trigger] spec_program_calls(program, n));
                lemma_expr_placeholders_called(scopes, e, program);
                lemma_handle_expression_ok(scopes, e);
            },
        }
        let first = spec_handle_statement(scopes, ss[0]);
        match first.0 {
            Err(_) => {},
            Ok(_) => {
                assert(forall|n: Seq<char>|
                    spec_stmts_call(ss.drop_first(), n) ==> #[trigger] spec_program_calls(
                        program,
                        n,
                    ));
                lemma_body_placeholders_called(first.1, ss.drop_first(), program);
            },
        }
    }
}

/// No two definitions of the program share a name.
pub open spec fn spec_unique_definitions(nodes: Seq<NodeView>) -> bool {
    forall|i: int, j: int|
        0 <= i < j < nodes.len() ==> spec_node_name(#[trigger] nodes[i]) != spec_node_name(
            #[trigger] nodes[j],
        )
}

/// No definition of the program shadows the seeded built-in.
pub open spec fn spec_no_builtin_definitions(nodes: Seq<NodeView>) -> bool {
    forall|i: int| 0 <= i < nodes.len() ==> spec_node_name(#[trigger] nodes[i]) != "print"@
}

/// Every name the program calls is the built-in or defined somewhere —
/// earlier or later in the file.
pub open spec fn spec_calls_resolved(nodes: Seq<NodeView>) -> bool {
    forall|name: Seq<char>|
        #[trigger] spec_program_calls(nodes, name) ==> (name == "print"@ || spec_program_defines(
            nodes,
            name,
        ))
}

/// Every definition already processed is bound to a finished function.
pub open spec fn spec_functions_defined(ns: NamespaceView, done: Seq<NodeView>) -> bool {
    forall|i: int|
        0 <= i < done.len() ==> (spec_lookup(ns, spec_node_name(#[trigger] done[i])) matches Some(v)
            && v is Function)
}

/// Building the rest of a well-formed program succeeds and ends with the
/// built-in untouched, every definition bound to a function, and every
/// placeholder under a called name.
#[verifier::rlimit(100)]
proof fn lemma_build_completes(
    scopes: ScopeView,
    prefix: Seq<NodeView>,
    suffix: Seq<NodeView>,
    program: Seq<NodeView>,
)
    requires
        program == prefix + suffix,
        spec_unique_definitions(program),
        spec_no_builtin_definitions(program),
        spec_scopes_ok(scopes),
        spec_defined_only(scopes[0], prefix),
        spec_placeholders_called(scopes[0], program),
        spec_functions_defined(scopes[0], prefix),
        spec_lookup(scopes[0], "print"@) == Some(ScopeElementView::BuiltInFunction),
    ensures
        spec_build_nodes(scopes, suffix).0 is Ok,
        spec_scopes_ok(spec_build_nodes(scopes, suffix).1),
        spec_placeholders_called(spec_build_nodes(scopes, suffix).1[0], program),
        spec_functions_defined(spec_build_nodes(scopes, suffix).1[0], program),
        spec_lookup(spec_build_nodes(scopes, suffix).1[0], "print"@) == Some(
            ScopeElementView::BuiltInFunction,
        ),
    decreases suffix.len(),
{
    lemma_build_nodes_ok(scopes, suffix);
    if suffix.len() == 0 {
        assert(prefix =~= program);
    } else {
        let node = suffix[0];
        let defined = spec_node_name(node);
        assert(program[prefix.len() as int] == node);
        assert(defined != "print"@);
        let prefix2 = prefix.push(node);
        assert(program =~= prefix2 + suffix.drop_first());
        match node {
            NodeView::FunctionDefinition { name: node_name, contents, impure: _ } => {
                assert(node_name == defined);
                lemma_scope_lookup_value(scopes, defined);
                match spec_lookup(scopes[0], defined) {
                    Some(v) => {
                        crate::table::lemma_lookup_entry(scopes[0], defined);
                        let k = choose|k: int|
                            0 <= k < scopes[0].len() && scopes[0][k] == (
                                defined,
                                spec_lookup(scopes[0], defined)->0,
                            );
                        assert(crate::ir::spec_ns_entry_ok(scopes[0][k]));
                        assert(!(v is Variable));
                        if v is BuiltInFunction {
                            assert(scopes[0][k].0 == "print"@);
                            assert(false);
                        }
                        if v is Function {
                            assert(scopes[0][k].1 is Function);
                            assert(defined == "print"@ || spec_program_defines(prefix, defined));
                            let d = choose|d: int|
                                0 <= d < prefix.len() && spec_node_name(#[trigger] prefix[d])
                                    == defined;
                            assert(program[d] == prefix[d]);
                            assert(spec_node_name(program[d]) == spec_node_name(
                                program[prefix.len() as int],
                            ));
                            assert(false);
                        }
                        assert(v is PlaceholderFunction);
                    },
                    None => {},
                }
                lemma_body_never_errs(scopes, contents);
                lemma_handle_body_ok(scopes, contents);
                let body = spec_handle_body(scopes, contents);
                let after = spec_add_to_scope(
                    body.1,
                    defined,
                    ScopeElementView::Function(body.0->Ok_0),
                );
                assert(spec_handle_node(scopes, node) == (Ok::<(), CompileErrorView>(()), after));
                lemma_handle_node_ok(scopes, node);
                assert(after[0] == spec_insert(
                    body.1[0],
                    defined,
                    ScopeElementView::Function(body.0->Ok_0),
                ));
                // the built-in's binding survives the body and the new function
                lemma_body_preserves_lookup(scopes, contents, "print"@);
                crate::table::lemma_lookup_insert(
                    body.1[0],
                    defined,
                    ScopeElementView::Function(body.0->Ok_0),
                    "print"@,
                );
                // placeholders stay under called names
                assert(forall|n: Seq<char>|
                    spec_stmts_call(contents, n) ==> #[trigger] spec_program_calls(program, n))
                    by {
                    assert forall|n: Seq<char>|
                        spec_stmts_call(contents, n) implies #[trigger] spec_program_calls(
                        program,
                        n,
                    ) by {
                        assert(spec_node_calls(program[prefix.len() as int], n));
                    }
                }
                lemma_body_placeholders_called(scopes, contents, program);
                lemma_insert_placeholders_called(
                    body.1[0],
                    program,
                    defined,
                    ScopeElementView::Function(body.0->Ok_0),
                );
                // earlier definitions keep their functions; this one gains its own
                assert(spec_functions_defined(after[0], prefix2)) by {
                    assert forall|i: int|
                        0 <= i < prefix2.len() implies (spec_lookup(
                        after[0],
                        spec_node_name(#[trigger] prefix2[i]),
                    ) matches Some(v2) && v2 is Function) by {
                        if i < prefix.len() {
                            assert(prefix2[i] == prefix[i]);
                            let d = spec_node_name(prefix[i]);
                            assert(spec_lookup(scopes[0], d) matches Some(v0) && v0 is Function);
                            lemma_body_preserves_lookup(scopes, contents, d);
                            crate::table::lemma_lookup_insert(
                                body.1[0],
                                defined,
                                ScopeElementView::Function(body.0->Ok_0),
                                d,
                            );
                        } else {
                            assert(prefix2[i] == node);
                            crate::table::lemma_lookup_insert(
                                body.1[0],
                                defined,
                                ScopeElementView::Function(body.0->Ok_0),
                                defined,
                            );
                        }
                    }
                }
                // the new namespace still holds only defined or seeded entries
                assert(spec_defined_only(scopes[0], prefix2)) by {
                    assert forall|i: int|
                        0 <= i < scopes[0].len() && ((#[trigger] scopes[0][i].1 is Function
                            || scopes[0][i].1 is BuiltInFunction)) implies (scopes[0][i].0
                        == "print"@ || spec_program_defines(prefix2, scopes[0][i].0)) by {
                        if spec_program_defines(prefix, scopes[0][i].0) {
                            let d = choose|d: int|
                                0 <= d < prefix.len() && spec_node_name(#[trigger] prefix[d])
                                    == scopes[0][i].0;
                            assert(prefix2[d] == prefix[d]);
                            assert(spec_program_defines(prefix2, scopes[0][i].0));
                        }
                    }
                }
                lemma_body_defined_only(scopes, contents, prefix2);
                assert(spec_program_defines(prefix2, defined)) by {
                    assert(prefix2[prefix.len() as int] == node);
                }
                lemma_insert_defined_only(
                    body.1[0],
                    prefix2,
                    defined,
                    ScopeElementView::Function(body.0->Ok_0),
                );
                lemma_build_completes(after, prefix2, suffix.drop_first(), program);
            },
        }
    }
}

/// Forward references resolve: a program with distinct definition names,
/// none shadowing the built-in, whose every called name is the built-in or
/// defined somewhere — earlier or later in the file — compiles to an
/// intermediate representation; no placeholder survives.
pub proof fn lemma_resolved_program_compiles(nodes: Seq<NodeView>)
    requires
        spec_unique_definitions(nodes),
        spec_no_builtin_definitions(nodes),
        spec_calls_resolved(nodes),
    ensures
        spec_from_program(nodes) is Ok,
{
    let initial = spec_initial_scope();
    assert(spec_scopes_ok(initial)) by {
        let ns = initial[0];
        assert(ns[0] == ("print"@, ScopeElementView::BuiltInFunction));
        assert(crate::ir::spec_ns_entry_ok(ns[0]));
    }
    assert(initial[0][0] == ("print"@, ScopeElementView::BuiltInFunction));
    assert(nodes =~= Seq::<NodeView>::empty() + nodes);
    lemma_build_completes(initial, Seq::empty(), nodes, nodes);
    let built = spec_build_nodes(initial, nodes);
    let ns = built.1[0];
    assert(built.1.last() == built.1[0]);
    assert forall|i: int| 0 <= i < ns.len() implies !(#[trigger] ns[i].1
        is PlaceholderFunction) by {
        if ns[i].1 is PlaceholderFunction {
            assert(spec_program_calls(nodes, ns[i].0));
            crate::table::lemma_lookup_at_unique(ns, i);
            if ns[i].0 == "print"@ {
                assert(spec_lookup(ns, "print"@) == Some(ns[i].1));
            } else {
                assert(spec_program_defines(nodes, ns[i].0));
                let d = choose|d: int|
                    0 <= d < nodes.len() && spec_node_name(#[trigger] nodes[d]) == ns[i].0;
                assert(spec_lookup(ns, spec_node_name(nodes[d])) matches Some(v) && v
                    is Function);
            }
        }
    }
    crate::ir::lemma_placeholder_names_empty(ns);
}

/// Undefined-call detection: a program that calls a name defined nowhere
/// — and that is no built-in — fails compilation; no bytecode comes out of
/// [`crate::ir::spec_from_program`].
pub proof fn lemma_undefined_call_rejected(nodes: Seq<NodeView>, name: Seq<char>)
    requires
        spec_program_calls(nodes, name),
        !spec_program_defines(nodes, name),
        name != "print"@,
    ensures
        spec_from_program(nodes) is Err,
{
    let initial = spec_initial_scope();
    assert(spec_scopes_ok(initial)) by {
        let ns = initial[0];
        assert(ns[0] == ("print"@, ScopeElementView::BuiltInFunction));
        assert(crate::ir::spec_ns_entry_ok(ns[0]));
    }
    assert(spec_defined_only(initial[0], nodes)) by {
        assert(initial[0][0] == ("print"@, ScopeElementView::BuiltInFunction));
    }
    let built = spec_build_nodes(initial, nodes);
    if built.0 is Ok {
        lemma_build_nodes_ok(initial, nodes);
        assert(forall|i: int|
            0 <= i < nodes.len() ==> spec_program_defines(nodes, spec_node_name(#[trigger] nodes[i])))
            by {
            assert forall|i: int|
                0 <= i < nodes.len() implies spec_program_defines(
                nodes,
                spec_node_name(#[trigger] nodes[i]),
            ) by {
                assert(spec_node_name(nodes[i]) == spec_node_name(nodes[i]));
            }
        }
        assert(spec_nodes_call(nodes, name));
        lemma_build_nodes_facts(initial, nodes, nodes, name);
        lemma_build_nodes_defined_only(initial, nodes, nodes);
        let ns = built.1[0];
        crate::table::lemma_lookup_entry(ns, name);
        let k = choose|k: int|
            0 <= k < ns.len() && ns[k] == (name, spec_lookup(ns, name)->0);
        assert(crate::ir::spec_ns_entry_ok(ns[k]));
        assert(!(ns[k].1 is Function) && !(ns[k].1 is BuiltInFunction)) by {
            if ns[k].1 is Function || ns[k].1 is BuiltInFunction {
                assert(ns[k].0 == "print"@ || spec_program_defines(nodes, ns[k].0));
            }
        }
        assert(ns[k].1 is PlaceholderFunction);
        crate::ir::lemma_placeholder_names_empty(ns);
        assert(spec_placeholder_names(ns).len() > 0);
        assert(built.1.last() == built.1[0]);
    }
}

} // verus!
