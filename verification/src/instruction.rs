//! The decoded instruction, as far as the search looks into it.
//!
//! An `iced_x86::Instruction` is opaque here. Three facts about it are used:
//! its encoded length, which instructions its `==` takes for the same, and
//! whether a decoder made it.

use iced_x86::Instruction;
use vstd::prelude::*;

verus! {

// `iced_x86::Instruction`: a decoded instruction, carried about as it is.
#[verifier::external_type_specification]
#[verifier::external_body]
pub struct ExInstruction(Instruction);

/// The instruction that a decoder of `iced_x86` for `bitness` bits, made with
/// `options` to read `bytes` as code that stands at the address `ip`, gives
/// first.
pub uninterp spec fn decoded(bitness: u32, bytes: Seq<u8>, ip: u64, options: u32) -> Instruction;

/// A decoder can be made for 16, 32 and 64 bits.
pub open spec fn valid_bitness(bitness: u32) -> bool {
    bitness == 16 || bitness == 32 || bitness == 64
}

/// `instruction` is as a decoder gave it: its fields fit together as the
/// formatter takes for granted. An instruction put together or changed by
/// hand need not be.
pub open spec fn decoder_made(instruction: Instruction) -> bool {
    exists|bitness: u32, bytes: Seq<u8>, ip: u64, options: u32|
        valid_bitness(bitness) && #[trigger] decoded(bitness, bytes, ip, options) == instruction
}

/// Each of `instructions` is as a decoder gave it.
pub open spec fn all_decoder_made(instructions: Seq<Instruction>) -> bool {
    forall|k: int| 0 <= k < instructions.len() ==> decoder_made(#[trigger] instructions[k])
}

/// The number of bytes that `Instruction::len` reports for `instruction`.
pub uninterp spec fn encoded_len(instruction: Instruction) -> nat;

/// The part of `instruction` that `==` on `Instruction` looks at.
pub uninterp spec fn compared_fields(instruction: Instruction) -> Seq<int>;

/// `Instruction::len` reads the length that is stored in the instruction: the
/// same instruction always gives the same number.
pub assume_specification[ Instruction::len ](instruction: &Instruction) -> (len: usize)
    ensures
        len == encoded_len(*instruction),
;

/// `==` on `Instruction` compares a fixed selection of the two instructions'
/// fields, each for equality, and nothing else. It leaves out the length, the
/// address of the next instruction and the bits of the flags that hold the
/// code size.
#[verifier::external_body]
pub(crate) fn same_instruction(a: &Instruction, b: &Instruction) -> (same: bool)
    ensures
        same == (compared_fields(*a) == compared_fields(*b)),
{
    a == b
}

/// The bytes that a chain of instructions takes up.
pub open spec fn total_len(chain: Seq<Instruction>) -> nat
    decreases chain.len(),
{
    if chain.len() == 0 {
        0
    } else {
        total_len(chain.drop_last()) + encoded_len(chain.last())
    }
}

} // verus!
