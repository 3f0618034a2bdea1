//! A gadget: where it was found and the instructions it is made of.

use crate::instruction::all_decoder_made;
use crate::instruction::compared_fields;
use crate::rules::askable;
use crate::rules::says;
use iced_x86::Instruction;
use vstd::prelude::*;

verus! {

/// An instruction chain that ends in a tail instruction, with the offset of
/// its first byte.
///
/// Two gadgets are equal when their instructions are; the offset orders them.
#[derive(Debug)]
pub struct Gadget {
    pub(crate) file_offset: usize,
    pub(crate) instructions: Vec<Instruction>,
}

/// What a [`Gadget`] stands for.
pub struct GadgetView {
    pub file_offset: nat,
    pub instructions: Seq<Instruction>,
}

impl View for Gadget {
    type V = GadgetView;

    open(crate) spec fn view(&self) -> GadgetView {
        GadgetView { file_offset: self.file_offset as nat, instructions: self.instructions@ }
    }
}

/// `found` is how asking `head` about the first `count` instructions of
/// `body` can end: with `true` where it says so of one of them, with `false`
/// where it says `false` of each.
pub open spec fn says_of_some<H: Fn(&Instruction) -> bool>(
    head: H,
    body: Seq<Instruction>,
    count: int,
    found: bool,
) -> bool {
    if found {
        exists|k: int| 0 <= k < count && says(head, #[trigger] body[k], true)
    } else {
        forall|k: int| 0 <= k < count ==> says(head, #[trigger] body[k], false)
    }
}

/// `pivot` is the verdict on whether a gadget with the instructions `body`
/// can redirect the stack pointer.
///
/// A lone tail is a pivot when the tail predicate says so. A longer gadget is
/// one when the head predicate says so of an instruction in front of the
/// tail; the tail itself is then not asked about.
pub open spec fn stack_pivot_verdict<H: Fn(&Instruction) -> bool, T: Fn(&Instruction) -> bool>(
    body: Seq<Instruction>,
    head: H,
    tail: T,
    pivot: bool,
) -> bool {
    if body.len() == 0 {
        !pivot
    } else if body.len() == 1 {
        says(tail, body[0], pivot)
    } else {
        says_of_some(head, body, body.len() - 1, pivot)
    }
}

/// `pivot` is the verdict on whether a gadget with the instructions `body`
/// can redirect the frame base pointer: it can when the head predicate says
/// so of an instruction in front of the tail, so a lone tail never can.
pub open spec fn base_pivot_verdict<H: Fn(&Instruction) -> bool>(
    body: Seq<Instruction>,
    head: H,
    pivot: bool,
) -> bool {
    if body.len() <= 1 {
        !pivot
    } else {
        says_of_some(head, body, body.len() - 1, pivot)
    }
}

/// `head` can be asked about each of the first `count` instructions of `body`.
pub open spec fn askable_of_each<H: Fn(&Instruction) -> bool>(
    head: H,
    body: Seq<Instruction>,
    count: int,
) -> bool {
    forall|k: int| 0 <= k < count && k < body.len() ==> askable(head, #[trigger] body[k])
}

/// What equality of gadgets goes by: the compared part of each instruction,
/// in order.
pub open spec fn structural_key(body: Seq<Instruction>) -> Seq<Seq<int>> {
    body.map_values(|i: Instruction| compared_fields(i))
}

/// Asks `head` about the first `count` instructions of `body`, in order, up
/// to the first of which it says `true`.
fn ask_each<H: Fn(&Instruction) -> bool>(body: &Vec<Instruction>, count: usize, head: &H) -> (found:
    bool)
    requires
        count <= body@.len(),
        askable_of_each(*head, body@, count as int),
    ensures
        says_of_some(*head, body@, count as int, found),
{
    let mut k: usize = 0;
    while k < count
        invariant
            k <= count <= body@.len(),
            askable_of_each(*head, body@, count as int),
            says_of_some(*head, body@, k as int, false),
        decreases count - k,
    {
        assert(askable(*head, body@[k as int]));
        if head(&body[k]) {
            assert(says(*head, body@[k as int], true));
            return true;
        }
        assert(says(*head, body@[k as int], false));
        k += 1;
    }
    false
}

impl Gadget {
    #[verifier::type_invariant]
    spec fn well_formed(&self) -> bool {
        &&& self.instructions@.len() >= 1
        &&& all_decoder_made(self.instructions@)
    }

    /// The gadget made of `instructions`, the tail last, that begins at
    /// `file_offset`. There is no gadget without instructions. The
    /// instructions are to be as a decoder gave them.
    pub fn new(file_offset: usize, instructions: Vec<Instruction>) -> (made: Option<Gadget>)
        requires
            all_decoder_made(instructions@),
        ensures
            made.is_none() <==> instructions@.len() == 0,
            made matches Some(gadget) ==> gadget@ == (GadgetView {
                file_offset: file_offset as nat,
                instructions: instructions@,
            }),
    {
        if instructions.len() == 0 {
            None
        } else {
            Some(Gadget { file_offset, instructions })
        }
    }

    /// The offset of the gadget's first byte.
    pub fn file_offset(&self) -> (offset: usize)
        ensures
            offset == self@.file_offset,
    {
        self.file_offset
    }

    /// The gadget's instructions, the tail last. There is at least one, and
    /// each is as a decoder gave it.
    pub fn instructions(&self) -> (body: &[Instruction])
        ensures
            body@ == self@.instructions,
            body@.len() >= 1,
            all_decoder_made(body@),
    {
        proof {
            use_type_invariant(self);
        }
        self.instructions.as_slice()
    }

    /// Whether the gadget can redirect the stack pointer, by what the two
    /// predicates say of its instructions.
    pub fn is_stack_pivot<H: Fn(&Instruction) -> bool, T: Fn(&Instruction) -> bool>(
        &self,
        is_stack_pivot_head: H,
        is_stack_pivot_tail: T,
    ) -> (pivot: bool)
        requires
            self@.instructions.len() == 1 ==> askable(is_stack_pivot_tail, self@.instructions[0]),
            askable_of_each(
                is_stack_pivot_head,
                self@.instructions,
                self@.instructions.len() - 1,
            ),
        ensures
            stack_pivot_verdict(
                self@.instructions,
                is_stack_pivot_head,
                is_stack_pivot_tail,
                pivot,
            ),
    {
        let count = self.instructions.len();
        if count == 0 {
            false
        } else if count == 1 {
            is_stack_pivot_tail(&self.instructions[0])
        } else {
            ask_each(&self.instructions, count - 1, &is_stack_pivot_head)
        }
    }

    /// Whether the gadget can redirect the frame base pointer, by what the
    /// predicate says of its instructions. A gadget that is only a tail
    /// never can.
    pub fn is_base_pivot<H: Fn(&Instruction) -> bool>(&self, is_base_pivot_head: H) -> (pivot: bool)
        requires
            askable_of_each(is_base_pivot_head, self@.instructions, self@.instructions.len() - 1),
        ensures
            base_pivot_verdict(self@.instructions, is_base_pivot_head, pivot),
            self@.instructions.len() <= 1 ==> !pivot,
    {
        let count = self.instructions.len();
        if count <= 1 {
            false
        } else {
            ask_each(&self.instructions, count - 1, &is_base_pivot_head)
        }
    }
}

} // verus!
