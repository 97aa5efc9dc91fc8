//! A small language toolchain back end: source text is lowered to a stack
//! bytecode with a fixed binary layout, and a virtual machine loads and runs
//! that bytecode on one shared evaluation stack.

pub mod builtin;
pub mod codegen;
pub mod error;
pub mod interpreter;
pub mod ir;
pub mod lexer;
pub mod parser;
pub mod properties;
pub(crate) mod strings;
pub mod table;
pub mod wire;

use vstd::prelude::*;

use crate::builtin::spec_builtin_template;
use crate::codegen::{ir_bytecode, spec_bytes_result, spec_entry_resolved, spec_ir_bytecode,
    spec_namespace_resolved};
use crate::ir::{lemma_from_program_ok, spec_from_program, spec_ns_entry_ok, CompileError,
    CompileErrorView, ScopeElementView, IR};
use crate::lexer::LexerModel;
use crate::parser::{spec_parse_program, Parser};

verus! {

/// Settings for a compilation. None exist yet.
#[derive(Debug)]
pub struct CompilerOptions {}

/// What compiling a whole source text yields: the compiled file's bytes, or
/// the first fault — a parse fault, a name-resolution fault, the batch of
/// names called but never defined, a missing `main`, or a length field
/// overflow.
pub open spec fn spec_compile(source: Seq<char>) -> Result<Seq<u8>, CompileErrorView> {
    let start = LexerModel { input: source, index: 0, line: 0, column: 0 };
    let parsed = spec_parse_program(start);
    match parsed.0 {
        Err(e) => Err(CompileErrorView::Parse(e)),
        Ok(nodes) => match spec_from_program(nodes) {
            Err(e) => Err(e),
            Ok(scopes) => spec_ir_bytecode(scopes[0]),
        },
    }
}

/// Compiles source text to the bytes of a compiled file: parses it, builds
/// and checks the intermediate representation, and encodes the resolved
/// namespace, exactly as [`spec_compile`] says.
pub fn compile(source: &str, _options: CompilerOptions) -> (r: Result<Vec<u8>, CompileError>)
    ensures
        spec_bytes_result(r) == spec_compile(source@),
{
    let mut parser = Parser::new(source);
    let program = match parser.parse_program() {
        Err(e) => {
            return Err(CompileError::Parse(e));
        },
        Ok(p) => p,
    };
    let ghost progv = program.deep_view();
    let intermediate = match IR::from_program(program) {
        Err(e) => {
            return Err(e);
        },
        Ok(ir) => ir,
    };
    proof {
        lemma_from_program_ok(progv);
        let ns = intermediate@[0];
        assert(spec_builtin_template("print"@) is Some);
        assert forall|i: int| 0 <= i < ns.len() implies spec_entry_resolved(ns[i]) by {
            assert(spec_ns_entry_ok(ns[i]));
            assert(!(ns[i].1 is PlaceholderFunction));
            match ns[i].1 {
                ScopeElementView::BuiltInFunction => {
                    assert(ns[i].0 == "print"@);
                },
                _ => {},
            }
        }
        assert(spec_namespace_resolved(intermediate@[0]));
    }
    ir_bytecode(intermediate)
}

} // verus!
