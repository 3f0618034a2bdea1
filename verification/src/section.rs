//! From the bytes of a section to its gadgets.
//!
//! The table that the search goes through holds, for each byte offset of the
//! section, the instruction that a decoder gives when it starts there. Only
//! instructions that a decoder made go into a search or a gadget, and this is
//! where they are made.

use crate::gadget::Gadget;
use crate::instruction::all_decoder_made;
use crate::instruction::decoded;
use crate::instruction::decoder_made;
use crate::instruction::valid_bitness;
use crate::rules::answers;
use crate::rules::rule_askable;
use crate::search::gadget_views;
use crate::search::harvest;
use crate::search::GadgetIterator;
use crate::search::Window;
use iced_x86::Decoder;
use iced_x86::Instruction;
use vstd::prelude::*;
use vstd::slice::slice_subrange;

verus! {

/// `Decoder::try_with_ip` and, on the decoder that it gives, `Decoder::decode`
/// once. No decoder is given for a bitness other than 16, 32 or 64, nor for a
/// slice that lies at the very end of the address space. What a fresh decoder
/// gives first depends on the bitness, the bytes, the address and the options
/// alone.
#[verifier::external_body]
fn decode_first(bitness: u32, bytes: &[u8], ip: u64, options: u32) -> (first: Option<Instruction>)
    ensures
        !valid_bitness(bitness) ==> first.is_none(),
        first matches Some(instruction) ==> instruction == decoded(bitness, bytes@, ip, options),
{
    match Decoder::try_with_ip(bitness, bytes, ip, options) {
        Ok(mut decoder) => Some(decoder.decode()),
        Err(_) => None,
    }
}

/// The table of a section that holds `bytes` and begins at `section_start`:
/// at each offset the instruction decoded from the bytes that begin there, at
/// the address of that offset.
pub open spec fn section_table(
    bitness: u32,
    bytes: Seq<u8>,
    section_start: nat,
    options: u32,
) -> Seq<Instruction> {
    Seq::new(
        bytes.len(),
        |k: int| decoded(bitness, bytes.skip(k), (section_start + k) as u64, options),
    )
}

/// Every entry of the table of a section is as a decoder gave it.
pub proof fn lemma_table_is_decoder_made(
    bitness: u32,
    bytes: Seq<u8>,
    section_start: nat,
    options: u32,
)
    requires
        valid_bitness(bitness),
    ensures
        all_decoder_made(section_table(bitness, bytes, section_start, options)),
{
    let table = section_table(bitness, bytes, section_start, options);
    assert forall|k: int| 0 <= k < table.len() implies decoder_made(#[trigger] table[k]) by {
        assert(table[k] == decoded(bitness, bytes.skip(k), (section_start + k) as u64, options));
    }
}

/// Decodes `bytes` from every offset.
///
/// There is no table for a bitness other than 16, 32 and 64, nor for a
/// section that ends beyond the address space; and the decoder may turn the
/// bytes down for where they lie in memory.
pub fn decode_each(bitness: u32, bytes: &[u8], section_start: usize, options: u32) -> (made: Option<
    Vec<Instruction>,
>)
    ensures
        !valid_bitness(bitness) || section_start + bytes@.len() > usize::MAX ==> made.is_none(),
        valid_bitness(bitness) && bytes@.len() == 0 ==> made.is_some(),
        made matches Some(table) ==> table@ == section_table(
            bitness,
            bytes@,
            section_start as nat,
            options,
        ),
{
    let len = bytes.len();
    if !(bitness == 16 || bitness == 32 || bitness == 64) || len > usize::MAX - section_start {
        return None;
    }
    let mut table: Vec<Instruction> = Vec::new();
    let mut k: usize = 0;
    while k < len
        invariant
            k <= len,
            len == bytes@.len(),
            section_start + len <= usize::MAX,
            table@.len() == k,
            forall|j: int|
                0 <= j < k ==> #[trigger] table@[j] == decoded(
                    bitness,
                    bytes@.skip(j),
                    (section_start + j) as u64,
                    options,
                ),
        decreases len - k,
    {
        let rest = slice_subrange(bytes, k, len);
        assert(rest@ == bytes@.skip(k as int));
        let ip = (section_start + k) as u64;
        match decode_first(bitness, rest, ip, options) {
            Some(instruction) => {
                table.push(instruction);
            },
            None => {
                return None;
            },
        }
        k += 1;
    }
    assert(table@ =~= section_table(bitness, bytes@, section_start as nat, options));
    Some(table)
}

/// The window in front of the instruction at `tail_index` of a table, from
/// `start_index` on.
pub open spec fn window_of<R: Fn(&Instruction, bool) -> bool>(
    table: Seq<Instruction>,
    section_start: nat,
    start_index: int,
    tail_index: int,
    max_instructions: nat,
    noisy: bool,
    rule: R,
) -> Window {
    Window {
        section_start,
        tail_instruction: table[tail_index],
        predecessors: table.subrange(start_index, tail_index),
        max_instructions,
        noisy,
        head_rule: answers(rule, noisy),
        start_index: start_index as nat,
    }
}

/// Decodes the section that holds `bytes` and gives every gadget that ends
/// in the instruction at `tail_index` and starts at `start_index` or behind
/// it, by ascending offset.
///
/// There is no result where [`decode_each`] gives no table, where the tail
/// does not lie in the section or in front of `start_index`, and where
/// `max_instructions` is zero.
pub fn find_gadgets<R: Fn(&Instruction, bool) -> bool>(
    bitness: u32,
    bytes: &[u8],
    options: u32,
    section_start: usize,
    start_index: usize,
    tail_index: usize,
    max_instructions: usize,
    noisy: bool,
    is_rop_gadget_head: R,
) -> (found: Option<Vec<Gadget>>)
    requires
        forall|instruction: Instruction| #[trigger]
            rule_askable(is_rop_gadget_head, instruction, noisy),
    ensures
        ({
            ||| !valid_bitness(bitness)
            ||| section_start + bytes@.len() > usize::MAX
            ||| tail_index >= bytes@.len()
            ||| start_index > tail_index
            ||| max_instructions == 0
        }) ==> found.is_none(),
        found matches Some(all) ==> harvest(
            window_of(
                section_table(bitness, bytes@, section_start as nat, options),
                section_start as nat,
                start_index as int,
                tail_index as int,
                max_instructions as nat,
                noisy,
                is_rop_gadget_head,
            ),
            tail_index - start_index,
            gadget_views(all@),
        ),
{
    if tail_index >= bytes.len() || start_index > tail_index {
        return None;
    }
    let table = match decode_each(bitness, bytes, section_start, options) {
        Some(table) => table,
        None => {
            return None;
        },
    };
    proof {
        lemma_table_is_decoder_made(bitness, bytes@, section_start as nat, options);
    }
    let tail_instruction = table[tail_index];
    let predecessors = slice_subrange(table.as_slice(), start_index, tail_index);
    assert(all_decoder_made(predecessors@)) by {
        assert forall|k: int| 0 <= k < predecessors@.len() implies decoder_made(
            #[trigger] predecessors@[k],
        ) by {
            assert(predecessors@[k] == table@[start_index + k]);
        }
    }
    let search = GadgetIterator::new(
        section_start,
        tail_instruction,
        predecessors,
        max_instructions,
        noisy,
        start_index,
        is_rop_gadget_head,
    );
    match search {
        Some(search) => Some(search.collect()),
        None => None,
    }
}

} // verus!
