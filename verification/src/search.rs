//! The search for gadgets in the window in front of a tail instruction.
//!
//! The window is a table with one entry for each byte offset: the instruction
//! that decoding would give if it started at that byte. A gadget starts at the
//! front of the window when the instructions met by stepping from there, each
//! by its own length, are all admitted by the head rule and end exactly where
//! the tail begins, within the allowed number of instructions. The search
//! tries the front of the window, moves the window on by one byte, and tries
//! again, until the window is empty.

use crate::gadget::Gadget;
use crate::gadget::GadgetView;
use crate::instruction::all_decoder_made;
use crate::instruction::decoder_made;
use crate::instruction::encoded_len;
use crate::instruction::total_len;
use crate::rules::answers;
use crate::rules::rule_askable;
use iced_x86::Instruction;
use vstd::prelude::*;
use vstd::slice::slice_subrange;

verus! {

/// Finds the gadgets that end in one tail instruction, one start offset after
/// the other.
pub struct GadgetIterator<'d, R: Fn(&Instruction, bool) -> bool> {
    section_start: usize,
    tail_instruction: Instruction,
    predecessors: &'d [Instruction],
    max_instructions: usize,
    noisy: bool,
    start_index: usize,
    is_rop_gadget_head: R,
}

/// What a [`GadgetIterator`] stands for: its settings and the part of the
/// window that it has not tried yet.
pub struct Window {
    /// The address that start indices are counted from.
    pub section_start: nat,
    /// The instruction that every gadget ends with.
    pub tail_instruction: Instruction,
    /// The table of the offsets not tried yet. The tail begins at its end.
    pub predecessors: Seq<Instruction>,
    /// The greatest number of instructions in a gadget, the tail included.
    pub max_instructions: nat,
    /// Passed to the head rule with every instruction.
    pub noisy: bool,
    /// What the head rule says: it holds of an instruction and an answer
    /// where that is the rule's answer for the instruction.
    pub head_rule: spec_fn(Instruction, bool) -> bool,
    /// The index, in the section, of the first offset not tried yet.
    pub start_index: nat,
}

impl Window {
    /// The window after its first `count` offsets have been tried.
    pub open spec fn advance(self, count: int) -> Window {
        Window {
            predecessors: self.predecessors.skip(count),
            start_index: (self.start_index + count) as nat,
            ..self
        }
    }

    /// The address of the first offset not tried yet.
    pub open spec fn front_offset(self) -> nat {
        self.section_start + self.start_index
    }

    /// The address at which the tail instruction begins.
    pub open spec fn tail_offset(self) -> nat {
        self.section_start + self.start_index + self.predecessors.len()
    }
}

/// `rule` can be asked, in the mode `noisy`, about every entry of `table`.
pub open spec fn askable_on<R: Fn(&Instruction, bool) -> bool>(
    rule: R,
    table: Seq<Instruction>,
    noisy: bool,
) -> bool {
    forall|k: int| 0 <= k < table.len() ==> rule_askable(rule, #[trigger] table[k], noisy)
}

/// Stepping through `table` from `start` meets the instructions of `chain`,
/// one after the other, each of them admitted by the head rule, and comes
/// out at `end`.
pub open spec fn leads(
    table: Seq<Instruction>,
    says: spec_fn(Instruction, bool) -> bool,
    start: int,
    chain: Seq<Instruction>,
    end: int,
) -> bool
    decreases chain.len(),
{
    if chain.len() == 0 {
        start == end
    } else {
        let at = end - encoded_len(chain.last());
        &&& 0 <= at < table.len()
        &&& chain.last() == table[at]
        &&& says(chain.last(), true)
        &&& leads(table, says, start, chain.drop_last(), at)
    }
}

/// Stepping through `table` from `start` does not come out at the end of the
/// table within `budget` instructions: it meets an instruction that the head
/// rule turns down, oversteps the end, or has instructions left when the
/// budget is used up.
pub open spec fn breaks_off(
    table: Seq<Instruction>,
    says: spec_fn(Instruction, bool) -> bool,
    start: int,
    budget: nat,
) -> bool
    decreases budget,
{
    &&& start != table.len()
    &&& {
        ||| start < 0
        ||| start > table.len()
        ||| budget == 0
        ||| says(table[start], false)
        ||| {
            &&& says(table[start], true)
            &&& breaks_off(table, says, start + encoded_len(table[start]), (budget - 1) as nat)
        }
    }
}

/// `gadget` starts at the front of the window: it stands at the window's
/// first offset and ends in the tail, has no more instructions than allowed,
/// and those in front of the tail lead from the first offset exactly to the
/// tail.
pub open spec fn starts_gadget(window: Window, gadget: GadgetView) -> bool {
    &&& gadget.file_offset == window.front_offset()
    &&& 1 <= gadget.instructions.len() <= window.max_instructions
    &&& gadget.instructions.last() == window.tail_instruction
    &&& leads(
        window.predecessors,
        window.head_rule,
        0,
        gadget.instructions.drop_last(),
        window.predecessors.len() as int,
    )
}

/// No gadget starts at the front of the window.
pub open spec fn starts_none(window: Window) -> bool {
    breaks_off(
        window.predecessors,
        window.head_rule,
        0,
        (window.max_instructions - 1) as nat,
    )
}

/// No gadget starts at any of the offsets of the window from `from` up to,
/// but not including, `to`.
pub open spec fn none_between(window: Window, from: int, to: int) -> bool {
    forall|k: int| from <= k < to ==> starts_none(#[trigger] window.advance(k))
}

/// `gadgets` are the gadgets of the first `count` offsets of the window:
/// each starts at the offset that it names, they come by ascending offset,
/// and at an offset that none of them names no gadget starts.
pub open spec fn harvest(window: Window, count: int, gadgets: Seq<GadgetView>) -> bool {
    &&& forall|j: int|
        0 <= j < gadgets.len() ==> {
            let k = (#[trigger] gadgets[j]).file_offset - window.front_offset();
            0 <= k < count && starts_gadget(window.advance(k), gadgets[j])
        }
    &&& forall|i: int, j: int|
        0 <= i < j < gadgets.len() ==> (#[trigger] gadgets[i]).file_offset < (
        #[trigger] gadgets[j]).file_offset
    &&& forall|k: int|
        0 <= k < count ==> {
            ||| starts_none(#[trigger] window.advance(k))
            ||| exists|j: int|
                0 <= j < gadgets.len() && (#[trigger] gadgets[j]).file_offset
                    == window.front_offset() + k
        }
}

/// The views of `gadgets`, in order.
pub open spec fn gadget_views(gadgets: Seq<Gadget>) -> Seq<GadgetView> {
    gadgets.map_values(|gadget: Gadget| gadget@)
}

/// The instructions of a chain take up the bytes from where it starts to
/// where it comes out.
pub proof fn lemma_chain_spans(
    table: Seq<Instruction>,
    says: spec_fn(Instruction, bool) -> bool,
    start: int,
    chain: Seq<Instruction>,
    end: int,
)
    requires
        leads(table, says, start, chain, end),
    ensures
        start + total_len(chain) == end,
    decreases chain.len(),
{
    if chain.len() > 0 {
        lemma_chain_spans(table, says, start, chain.drop_last(), end - encoded_len(chain.last()));
    }
}

/// A walk that follows a chain and then breaks off breaks off as a whole.
proof fn lemma_breaks_off_behind(
    table: Seq<Instruction>,
    says: spec_fn(Instruction, bool) -> bool,
    start: int,
    chain: Seq<Instruction>,
    end: int,
    budget: nat,
)
    requires
        leads(table, says, start, chain, end),
        breaks_off(table, says, end, budget),
    ensures
        breaks_off(table, says, start, budget + chain.len()),
    decreases chain.len(),
{
    if chain.len() > 0 {
        let at = end - encoded_len(chain.last());
        assert(breaks_off(table, says, at, budget + 1));
        lemma_breaks_off_behind(table, says, start, chain.drop_last(), at, budget + 1);
    }
}

impl<'d, R: Fn(&Instruction, bool) -> bool> View for GadgetIterator<'d, R> {
    type V = Window;

    closed spec fn view(&self) -> Window {
        Window {
            section_start: self.section_start as nat,
            tail_instruction: self.tail_instruction,
            predecessors: self.predecessors@,
            max_instructions: self.max_instructions as nat,
            noisy: self.noisy,
            head_rule: answers(self.is_rop_gadget_head, self.noisy),
            start_index: self.start_index as nat,
        }
    }
}

impl<'d, R: Fn(&Instruction, bool) -> bool> GadgetIterator<'d, R> {
    #[verifier::type_invariant]
    spec fn well_formed(&self) -> bool {
        &&& self.max_instructions >= 1
        &&& self.section_start + self.start_index + self.predecessors@.len() <= usize::MAX
        &&& askable_on(self.is_rop_gadget_head, self.predecessors@, self.noisy)
        &&& decoder_made(self.tail_instruction)
        &&& all_decoder_made(self.predecessors@)
    }

    /// Sets up the search in front of `tail_instruction`.
    ///
    /// `predecessors` holds, for each byte offset of the window, the
    /// instruction decoded from there; its first entry lies `start_index`
    /// bytes into the section that begins at `section_start`. A gadget has at
    /// most `max_instructions` instructions, the tail among them, so a limit
    /// of zero leaves no room for any gadget and is turned down. The tail and
    /// the entries of the table are to be as a decoder gave them.
    pub fn new(
        section_start: usize,
        tail_instruction: Instruction,
        predecessors: &'d [Instruction],
        max_instructions: usize,
        noisy: bool,
        start_index: usize,
        is_rop_gadget_head: R,
    ) -> (made: Option<Self>)
        requires
            section_start + start_index + predecessors.len() <= usize::MAX,
            askable_on(is_rop_gadget_head, predecessors@, noisy),
            decoder_made(tail_instruction),
            all_decoder_made(predecessors@),
        ensures
            made.is_none() <==> max_instructions == 0,
            made matches Some(search) ==> {
                search@ == (Window {
                    section_start: section_start as nat,
                    tail_instruction,
                    predecessors: predecessors@,
                    max_instructions: max_instructions as nat,
                    noisy,
                    head_rule: answers(is_rop_gadget_head, noisy),
                    start_index: start_index as nat,
                })
            },
    {
        if max_instructions == 0 {
            None
        } else {
            Some(
                Self {
                    section_start,
                    tail_instruction,
                    predecessors,
                    max_instructions,
                    noisy,
                    start_index,
                    is_rop_gadget_head,
                },
            )
        }
    }

    /// The number of start offsets that have not been tried yet.
    pub fn remaining(&self) -> (count: usize)
        ensures
            count == self@.predecessors.len(),
    {
        self.predecessors.len()
    }

    /// Tries the first offset of the window, and only that one: gives the
    /// gadget that starts there, if one does, and moves the window on by one
    /// byte either way. An empty window stays as it is.
    pub fn step(&mut self) -> (found: Option<Gadget>)
        ensures
            ({
                let before = old(self)@;
                if before.predecessors.len() == 0 {
                    final(self)@ == before && found.is_none()
                } else {
                    &&& final(self)@ == before.advance(1)
                    &&& match found {
                        Some(gadget) => starts_gadget(before, gadget@),
                        None => starts_none(before),
                    }
                }
            }),
    {
        proof {
            use_type_invariant(&*self);
        }
        let table = self.predecessors;
        let len = table.len();
        if len == 0 {
            return None;
        }
        let budget = self.max_instructions - 1;
        let ghost rule = self.is_rop_gadget_head;
        let ghost noisy = self.noisy;
        let ghost says = answers(rule, noisy);
        let mut instructions: Vec<Instruction> = Vec::new();
        let mut index: usize = 0;
        let mut broken = false;
        while !broken && index < len && instructions.len() < budget
            invariant
                len == table@.len(),
                index <= len,
                instructions@.len() <= budget,
                rule == self.is_rop_gadget_head,
                noisy == self.noisy,
                says == answers(rule, noisy),
                askable_on(rule, table@, noisy),
                all_decoder_made(table@),
                all_decoder_made(instructions@),
                broken ==> breaks_off(table@, says, 0, budget as nat),
                !broken ==> leads(table@, says, 0, instructions@, index as int),
            decreases (if broken { 0int } else { 1int }), budget - instructions@.len(),
        {
            let instruction = table[index];
            let ghost chain = instructions@;
            let ghost left = (budget - chain.len()) as nat;
            assert(rule_askable(rule, table@[index as int], noisy));
            if !(self.is_rop_gadget_head)(&instruction, self.noisy) {
                proof {
                    assert(says(instruction, false));
                    assert(breaks_off(table@, says, index as int, left));
                    lemma_breaks_off_behind(table@, says, 0, chain, index as int, left);
                }
                broken = true;
            } else {
                instructions.push(instruction);
                let length = instruction.len();
                proof {
                    assert(says(instruction, true));
                    assert(instructions@.drop_last() == chain);
                    assert(leads(table@, says, 0, instructions@, index + length));
                }
                if length > len - index {
                    proof {
                        let beyond = index + length;
                        assert(breaks_off(table@, says, beyond, (left - 1) as nat));
                        lemma_breaks_off_behind(
                            table@,
                            says,
                            0,
                            instructions@,
                            beyond,
                            (left - 1) as nat,
                        );
                    }
                    broken = true;
                } else {
                    index += length;
                }
            }
        }
        proof {
            if !broken && index < len {
                assert(breaks_off(table@, says, index as int, 0));
                lemma_breaks_off_behind(table@, says, 0, instructions@, index as int, 0);
            }
            let rest = table@.skip(1);
            assert forall|k: int| 0 <= k < rest.len() implies rule_askable(
                rule,
                #[trigger] rest[k],
                noisy,
            ) by {
                assert(rest[k] == table@[k + 1]);
            }
            assert forall|k: int| 0 <= k < rest.len() implies decoder_made(#[trigger] rest[k]) by {
                assert(rest[k] == table@[k + 1]);
            }
            assert(table@.subrange(1, len as int) == rest);
        }
        let file_offset = self.section_start + self.start_index;
        self.predecessors = slice_subrange(table, 1, len);
        self.start_index = self.start_index + 1;
        if !broken && index == len {
            let ghost chain = instructions@;
            instructions.push(self.tail_instruction);
            proof {
                assert(instructions@.drop_last() == chain);
            }
            Gadget::new(file_offset, instructions)
        } else {
            None
        }
    }

    /// Gives the gadget at the first offset of the window at which one
    /// starts, and leaves the window just behind that offset. Where no gadget
    /// starts in the window, gives `None` and leaves the window empty.
    ///
    /// With each offset that it tries the window shrinks by one byte, so a
    /// window of `n` bytes is tried at most `n` times.
    pub fn next(&mut self) -> (found: Option<Gadget>)
        ensures
            ({
                let before = old(self)@;
                let tried = before.predecessors.len() - final(self)@.predecessors.len();
                &&& 0 <= tried <= before.predecessors.len()
                &&& before.predecessors.len() > 0 ==> tried >= 1
                &&& final(self)@ == before.advance(tried)
                &&& match found {
                    Some(gadget) => {
                        &&& tried >= 1
                        &&& none_between(before, 0, tried - 1)
                        &&& starts_gadget(before.advance(tried - 1), gadget@)
                        &&& gadget@.file_offset == before.front_offset() + tried - 1
                        &&& gadget@.instructions.last() == before.tail_instruction
                        &&& 1 <= gadget@.instructions.len() <= before.max_instructions
                        &&& gadget@.file_offset + total_len(gadget@.instructions.drop_last())
                            == before.tail_offset()
                    },
                    None => {
                        &&& tried == before.predecessors.len()
                        &&& none_between(before, 0, tried)
                    },
                }
            }),
    {
        let ghost before = self@;
        proof {
            use_type_invariant(&*self);
            assert(before.predecessors.skip(0) == before.predecessors);
        }
        while self.predecessors.len() > 0
            invariant
                before == old(self)@,
                0 <= before.predecessors.len() - self@.predecessors.len()
                    <= before.predecessors.len(),
                self@ == before.advance(before.predecessors.len() - self@.predecessors.len()),
                none_between(before, 0, before.predecessors.len() - self@.predecessors.len()),
            decreases self@.predecessors.len(),
        {
            let ghost tried = before.predecessors.len() - self@.predecessors.len();
            let found = self.step();
            proof {
                assert(before.predecessors.skip(tried).skip(1) == before.predecessors.skip(
                    tried + 1,
                ));
            }
            if let Some(gadget) = found {
                proof {
                    let front = before.advance(tried);
                    lemma_chain_spans(
                        front.predecessors,
                        front.head_rule,
                        0,
                        gadget@.instructions.drop_last(),
                        front.predecessors.len() as int,
                    );
                }
                return Some(gadget);
            }
        }
        None
    }

    /// Gives every gadget of the window, by ascending offset.
    pub fn collect(self) -> (all: Vec<Gadget>)
        ensures
            ({
                let window = self@;
                harvest(window, window.predecessors.len() as int, gadget_views(all@))
            }),
    {
        let ghost whole = self@;
        let mut search = self;
        let mut all: Vec<Gadget> = Vec::new();
        proof {
            assert(whole.predecessors.skip(0) == whole.predecessors);
        }
        loop
            invariant
                whole == self@,
                0 <= whole.predecessors.len() - search@.predecessors.len()
                    <= whole.predecessors.len(),
                search@ == whole.advance(whole.predecessors.len() - search@.predecessors.len()),
                harvest(
                    whole,
                    whole.predecessors.len() - search@.predecessors.len(),
                    gadget_views(all@),
                ),
            decreases search@.predecessors.len(),
        {
            let ghost done = whole.predecessors.len() - search@.predecessors.len();
            let ghost front = search@;
            let ghost sofar = gadget_views(all@);
            let found = search.next();
            let ghost tried = front.predecessors.len() - search@.predecessors.len();
            proof {
                assert(whole.predecessors.skip(done).skip(tried) == whole.predecessors.skip(
                    done + tried,
                ));
                assert forall|k: int| 0 <= k < tried implies #[trigger] front.advance(k)
                    == whole.advance(done + k) by {
                    assert(whole.predecessors.skip(done).skip(k) == whole.predecessors.skip(
                        done + k,
                    ));
                }
                let missed = if found.is_some() {
                    tried - 1
                } else {
                    tried
                };
                assert forall|k: int| done <= k < done + missed implies starts_none(
                    #[trigger] whole.advance(k),
                ) by {
                    assert(front.advance(k - done) == whole.advance(k));
                }
            }
            match found {
                Some(gadget) => {
                    all.push(gadget);
                    proof {
                        assert(gadget_views(all@) == sofar.push(gadget@));
                        lemma_harvest_grows(whole, done, sofar, tried, Some(gadget@));
                    }
                },
                None => {
                    proof {
                        lemma_harvest_grows(whole, done, sofar, tried, None);
                    }
                    return all;
                },
            }
        }
    }
}

/// The gadgets of the first `done` offsets, carried on over `tried` more
/// offsets of which at most the last starts a gadget.
proof fn lemma_harvest_grows(
    window: Window,
    done: int,
    gadgets: Seq<GadgetView>,
    tried: int,
    found: Option<GadgetView>,
)
    requires
        0 <= done,
        0 <= tried,
        harvest(window, done, gadgets),
        match found {
            Some(gadget) => {
                &&& tried >= 1
                &&& none_between(window, done, done + tried - 1)
                &&& starts_gadget(window.advance(done + tried - 1), gadget)
            },
            None => none_between(window, done, done + tried),
        },
    ensures
        harvest(
            window,
            done + tried,
            match found {
                Some(gadget) => gadgets.push(gadget),
                None => gadgets,
            },
        ),
{
    match found {
        Some(gadget) => {
            let grown = gadgets.push(gadget);
            let last = done + tried - 1;
            assert forall|j: int| 0 <= j < grown.len() implies ({
                let k = (#[trigger] grown[j]).file_offset - window.front_offset();
                0 <= k < done + tried && starts_gadget(window.advance(k), grown[j])
            }) by {
                if j < gadgets.len() {
                    assert(grown[j] == gadgets[j]);
                }
            }
            assert forall|i: int, j: int| 0 <= i < j < grown.len() implies (
            #[trigger] grown[i]).file_offset < (#[trigger] grown[j]).file_offset by {
                assert(grown[i] == gadgets[i]);
                if j < gadgets.len() {
                    assert(grown[j] == gadgets[j]);
                }
            }
            assert forall|k: int| 0 <= k < done + tried implies ({
                ||| starts_none(#[trigger] window.advance(k))
                ||| exists|j: int|
                    0 <= j < grown.len() && (#[trigger] grown[j]).file_offset
                        == window.front_offset() + k
            }) by {
                if k < done {
                    if !starts_none(window.advance(k)) {
                        let j = choose|j: int|
                            0 <= j < gadgets.len() && (#[trigger] gadgets[j]).file_offset
                                == window.front_offset() + k;
                        assert(grown[j] == gadgets[j]);
                    }
                } else if k == last {
                    assert(grown[gadgets.len() as int] == gadget);
                }
            }
        },
        None => {},
    }
}

} // verus!
