//! The built-ins' fixed bytecode templates. A built-in compiles to ordinary
//! opcodes, so the virtual machine cannot tell it from a user function.

use vstd::prelude::*;

use crate::wire::{OPCODE_PUSH_STRING, OPCODE_WRITE};

verus! {

/// The fixed opcode-stream template of a built-in function, if the name is
/// a registered built-in: `print` pops and emits one string; `println` does
/// the same and then emits a newline.
pub open spec fn spec_builtin_template(name: Seq<char>) -> Option<Seq<u8>> {
    if name == "print"@ {
        Some(seq![OPCODE_WRITE])
    } else if name == "println"@ {
        Some(seq![OPCODE_WRITE, OPCODE_PUSH_STRING, 0x00u8, 0x01u8, 0x0Au8, OPCODE_WRITE])
    } else {
        None
    }
}

/// The encoded body of the named built-in, exactly
/// [`spec_builtin_template`]: `print` is one `Write`; `println` is `Write`,
/// then `PushString` of the one-byte newline, then `Write`.
pub fn get_bytecode_of_function(name: String) -> (r: Option<Vec<u8>>)
    ensures
        match spec_builtin_template(name@) {
            Some(template) => r matches Some(bytes) && bytes@ == template,
            None => r is None,
        },
{
    if name.eq(&"print".to_owned()) {
        let bytes = vec![OPCODE_WRITE];
        proof {
            assert(bytes@ =~= seq![OPCODE_WRITE]);
        }
        Some(bytes)
    } else if name.eq(&"println".to_owned()) {
        let bytes = vec![
            OPCODE_WRITE,
            OPCODE_PUSH_STRING,
            0x00u8,
            0x01u8,
            0x0Au8,
            OPCODE_WRITE,
        ];
        proof {
            assert(bytes@ =~= seq![
                OPCODE_WRITE,
                OPCODE_PUSH_STRING,
                0x00u8,
                0x01u8,
                0x0Au8,
                OPCODE_WRITE,
            ]);
        }
        Some(bytes)
    } else {
        None
    }
}

} // verus!
