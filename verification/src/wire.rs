//! Shared knowledge of the binary file layout: the magic header, the opcode
//! bytes, and the big-endian length fields that prefix names, strings and
//! function bodies.

use vstd::prelude::*;

verus! {

/// First magic byte of a compiled file.
pub const MAGIC_0: u8 = 0x4E;

/// Second magic byte of a compiled file.
pub const MAGIC_1: u8 = 0x45;

/// Third magic byte of a compiled file.
pub const MAGIC_2: u8 = 0x4E;

/// Fourth magic byte of a compiled file.
pub const MAGIC_3: u8 = 0x43;

/// Opcode of the instruction that pops one string and emits it.
pub const OPCODE_WRITE: u8 = 0x12;

/// Opcode of the instruction that invokes a named function.
pub const OPCODE_CALL: u8 = 0xA1;

/// Opcode of the instruction that pushes a string literal.
pub const OPCODE_PUSH_STRING: u8 = 0xE1;

/// The four magic bytes that every compiled file starts with.
pub open spec fn spec_magic() -> Seq<u8> {
    seq![MAGIC_0, MAGIC_1, MAGIC_2, MAGIC_3]
}

/// A `u16` length field, laid out most significant byte first.
pub open spec fn spec_u16_be(n: u16) -> Seq<u8> {
    seq![(n / 256) as u8, (n % 256) as u8]
}

/// A `u32` length field, laid out most significant byte first.
pub open spec fn spec_u32_be(n: u32) -> Seq<u8> {
    seq![
        (n / 0x1000000) as u8,
        ((n / 0x10000) % 256) as u8,
        ((n / 0x100) % 256) as u8,
        (n % 256) as u8,
    ]
}

/// The `u16` read back from two big-endian bytes.
pub open spec fn spec_u16_from_be(b0: u8, b1: u8) -> u16 {
    (b0 * 256 + b1) as u16
}

/// The `u32` read back from four big-endian bytes.
pub open spec fn spec_u32_from_be(b0: u8, b1: u8, b2: u8, b3: u8) -> u32 {
    (b0 * 0x1000000 + b1 * 0x10000 + b2 * 0x100 + b3) as u32
}

/// Reading two big-endian bytes undoes writing them.
pub proof fn lemma_u16_be_round_trip(n: u16)
    ensures
        spec_u16_from_be(spec_u16_be(n)[0], spec_u16_be(n)[1]) == n,
{
}

/// Reading four big-endian bytes undoes writing them.
pub proof fn lemma_u32_be_round_trip(n: u32)
    ensures
        spec_u32_from_be(
            spec_u32_be(n)[0],
            spec_u32_be(n)[1],
            spec_u32_be(n)[2],
            spec_u32_be(n)[3],
        ) == n,
{
}

/// Appends the two big-endian bytes of `n` to `out`.
pub fn push_u16_be(out: &mut Vec<u8>, n: u16)
    ensures
        final(out)@ == old(out)@ + spec_u16_be(n),
{
    out.push((n / 256) as u8);
    out.push((n % 256) as u8);
    proof {
        assert(final(out)@ =~= old(out)@ + spec_u16_be(n));
    }
}

/// Appends the four big-endian bytes of `n` to `out`.
pub fn push_u32_be(out: &mut Vec<u8>, n: u32)
    ensures
        final(out)@ == old(out)@ + spec_u32_be(n),
{
    out.push((n / 0x1000000) as u8);
    out.push(((n / 0x10000) % 256) as u8);
    out.push(((n / 0x100) % 256) as u8);
    out.push((n % 256) as u8);
    proof {
        assert(final(out)@ =~= old(out)@ + spec_u32_be(n));
    }
}

/// Reads a `u16` from two big-endian bytes.
pub fn u16_from_be(b0: u8, b1: u8) -> (n: u16)
    ensures
        n == spec_u16_from_be(b0, b1),
{
    (b0 as u16) * 256 + (b1 as u16)
}

/// Reads a `u32` from four big-endian bytes.
pub fn u32_from_be(b0: u8, b1: u8, b2: u8, b3: u8) -> (n: u32)
    ensures
        n == spec_u32_from_be(b0, b1, b2, b3),
{
    (b0 as u32) * 0x1000000 + (b1 as u32) * 0x10000 + (b2 as u32) * 0x100 + (b3 as u32)
}

} // verus!
