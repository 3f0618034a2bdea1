//! What holds of gadgets and of the search, whatever the window and the rules.

use crate::gadget::base_pivot_verdict;
use crate::gadget::stack_pivot_verdict;
use crate::gadget::Gadget;
use crate::gadget::GadgetView;
use crate::instruction::encoded_len;
use crate::instruction::total_len;
use crate::rules::decided;
use crate::search::breaks_off;
use crate::search::harvest;
use crate::search::leads;
use crate::search::lemma_chain_spans;
use crate::search::starts_gadget;
use crate::search::starts_none;
use crate::search::Window;
use iced_x86::Instruction;
use std::cmp::Ordering;
use vstd::prelude::*;
use vstd::std_specs::cmp::PartialEqSpec;
use vstd::std_specs::cmp::PartialOrdSpec;

verus! {

/// The head rule has one answer at most for each entry of `table`.
pub open spec fn decided_on(says: spec_fn(Instruction, bool) -> bool, table: Seq<Instruction>) -> bool {
    forall|k: int| 0 <= k < table.len() ==> !(says(#[trigger] table[k], true) && says(table[k], false))
}

/// A gadget that starts at the front of a window ends in the window's tail,
/// has between one and the allowed number of instructions, and its
/// instructions in front of the tail take up exactly the bytes from its
/// offset to the tail. Each of them is an instruction that the head rule
/// admits.
pub proof fn lemma_gadget_reaches_tail(window: Window, gadget: GadgetView)
    requires
        starts_gadget(window, gadget),
    ensures
        gadget.instructions.last() == window.tail_instruction,
        1 <= gadget.instructions.len() <= window.max_instructions,
        gadget.file_offset + total_len(gadget.instructions.drop_last()) == window.tail_offset(),
        forall|j: int|
            0 <= j < gadget.instructions.len() - 1 ==> (window.head_rule)(
                #[trigger] gadget.instructions[j],
                true,
            ),
{
    let table = window.predecessors;
    let chain = gadget.instructions.drop_last();
    lemma_chain_spans(table, window.head_rule, 0, chain, table.len() as int);
    assert forall|j: int| 0 <= j < gadget.instructions.len() - 1 implies (window.head_rule)(
        #[trigger] gadget.instructions[j],
        true,
    ) by {
        lemma_chain_is_admitted(table, window.head_rule, 0, chain, table.len() as int, j);
        assert(gadget.instructions[j] == chain[j]);
    }
}

/// Each instruction of a chain is one that the head rule admits.
pub proof fn lemma_chain_is_admitted(
    table: Seq<Instruction>,
    says: spec_fn(Instruction, bool) -> bool,
    start: int,
    chain: Seq<Instruction>,
    end: int,
    j: int,
)
    requires
        leads(table, says, start, chain, end),
        0 <= j < chain.len(),
    ensures
        says(chain[j], true),
    decreases chain.len(),
{
    if j < chain.len() - 1 {
        lemma_chain_is_admitted(
            table,
            says,
            start,
            chain.drop_last(),
            end - encoded_len(chain.last()),
            j,
        );
    }
}

/// A chain begins with the instruction at its start and goes on from behind
/// that instruction.
pub proof fn lemma_chain_front(
    table: Seq<Instruction>,
    says: spec_fn(Instruction, bool) -> bool,
    start: int,
    chain: Seq<Instruction>,
    end: int,
)
    requires
        leads(table, says, start, chain, end),
        chain.len() > 0,
    ensures
        0 <= start < table.len(),
        chain[0] == table[start],
        says(table[start], true),
        leads(table, says, start + encoded_len(table[start]), chain.skip(1), end),
    decreases chain.len(),
{
    let at = end - encoded_len(chain.last());
    let rest = chain.skip(1);
    assert(leads(table, says, start, chain.drop_last(), at));
    if chain.len() == 1 {
        assert(chain.drop_last().len() == 0);
        assert(start == at);
        assert(chain[0] == chain.last());
        assert(rest.len() == 0);
    } else {
        lemma_chain_front(table, says, start, chain.drop_last(), at);
        assert(chain.drop_last()[0] == chain[0]);
        assert(rest.last() == chain.last());
        assert(rest.drop_last() =~= chain.drop_last().skip(1));
    }
}

/// From one start, at most one chain leads to the end of the table.
pub proof fn lemma_chain_is_unique(
    table: Seq<Instruction>,
    says: spec_fn(Instruction, bool) -> bool,
    start: int,
    a: Seq<Instruction>,
    b: Seq<Instruction>,
)
    requires
        leads(table, says, start, a, table.len() as int),
        leads(table, says, start, b, table.len() as int),
    ensures
        a == b,
    decreases a.len(),
{
    let end = table.len() as int;
    if a.len() == 0 {
        if b.len() > 0 {
            lemma_chain_front(table, says, start, b, end);
        }
        assert(a =~= b);
    } else {
        lemma_chain_front(table, says, start, a, end);
        if b.len() > 0 {
            lemma_chain_front(table, says, start, b, end);
            lemma_chain_is_unique(
                table,
                says,
                start + encoded_len(table[start]),
                a.skip(1),
                b.skip(1),
            );
            assert(a =~= seq![a[0]] + a.skip(1));
            assert(b =~= seq![b[0]] + b.skip(1));
        }
    }
}

/// Where the head rule has one answer for each entry of the table, a walk
/// that leads to the end of the table within the budget does not break off.
pub proof fn lemma_chain_does_not_break_off(
    table: Seq<Instruction>,
    says: spec_fn(Instruction, bool) -> bool,
    start: int,
    chain: Seq<Instruction>,
    budget: nat,
)
    requires
        decided_on(says, table),
        leads(table, says, start, chain, table.len() as int),
        chain.len() <= budget,
    ensures
        !breaks_off(table, says, start, budget),
    decreases chain.len(),
{
    if chain.len() > 0 {
        lemma_chain_front(table, says, start, chain, table.len() as int);
        assert(!(says(table[start], true) && says(table[start], false)));
        lemma_chain_does_not_break_off(
            table,
            says,
            start + encoded_len(table[start]),
            chain.skip(1),
            (budget - 1) as nat,
        );
    }
}

/// Where the head rule has one answer for each entry of the window, what
/// trying the front of the window comes to is fixed: at most one gadget
/// starts there, and if one does the walk does not break off.
pub proof fn lemma_step_is_determined(window: Window, a: GadgetView, b: GadgetView)
    requires
        decided_on(window.head_rule, window.predecessors),
        starts_gadget(window, a),
    ensures
        !starts_none(window),
        starts_gadget(window, b) ==> a == b,
{
    let table = window.predecessors;
    lemma_chain_does_not_break_off(
        table,
        window.head_rule,
        0,
        a.instructions.drop_last(),
        (window.max_instructions - 1) as nat,
    );
    if starts_gadget(window, b) {
        lemma_chain_is_unique(
            table,
            window.head_rule,
            0,
            a.instructions.drop_last(),
            b.instructions.drop_last(),
        );
        assert(a.instructions =~= a.instructions.drop_last().push(a.instructions.last()));
        assert(b.instructions =~= b.instructions.drop_last().push(b.instructions.last()));
    }
}

/// Each of the gadgets of a window ends in the window's tail, has between one
/// and the allowed number of instructions, and spans the bytes from its
/// offset to the tail exactly.
pub proof fn lemma_harvested_gadgets_reach_tail(
    window: Window,
    count: int,
    gadgets: Seq<GadgetView>,
    j: int,
)
    requires
        count <= window.predecessors.len(),
        harvest(window, count, gadgets),
        0 <= j < gadgets.len(),
    ensures
        gadgets[j].instructions.last() == window.tail_instruction,
        1 <= gadgets[j].instructions.len() <= window.max_instructions,
        window.front_offset() <= gadgets[j].file_offset < window.front_offset() + count,
        gadgets[j].file_offset + total_len(gadgets[j].instructions.drop_last())
            == window.tail_offset(),
{
    let k = gadgets[j].file_offset - window.front_offset();
    lemma_gadget_reaches_tail(window.advance(k), gadgets[j]);
}

/// Where the head rule has one answer for each entry of the window, the
/// gadgets of the window are fixed.
pub proof fn lemma_harvest_is_determined(
    window: Window,
    count: int,
    a: Seq<GadgetView>,
    b: Seq<GadgetView>,
)
    requires
        count <= window.predecessors.len(),
        decided_on(window.head_rule, window.predecessors),
        harvest(window, count, a),
        harvest(window, count, b),
    ensures
        a == b,
{
    lemma_harvests_agree(window, count, a, b, a.len() as int);
    lemma_harvests_agree(window, count, b, a, b.len() as int);
    assert(a =~= b);
}

/// Two harvests of one window agree in their first `upto` gadgets.
proof fn lemma_harvests_agree(
    window: Window,
    count: int,
    a: Seq<GadgetView>,
    b: Seq<GadgetView>,
    upto: int,
)
    requires
        count <= window.predecessors.len(),
        decided_on(window.head_rule, window.predecessors),
        harvest(window, count, a),
        harvest(window, count, b),
        0 <= upto <= a.len(),
    ensures
        upto <= b.len(),
        forall|i: int| 0 <= i < upto ==> a[i] == b[i],
    decreases upto,
{
    if upto > 0 {
        let i = upto - 1;
        lemma_harvests_agree(window, count, a, b, i);
        let at = lemma_harvest_holds(window, count, a, b, i);
        if at < i {
            assert(a[at] == b[at]);
            assert(a[at].file_offset < a[i].file_offset);
        } else if at > i {
            let back = lemma_harvest_holds(window, count, b, a, i);
            assert(b[i].file_offset < b[at].file_offset);
            if back < i {
                assert(a[back] == b[back]);
                assert(b[back].file_offset < b[i].file_offset);
            } else if back > i {
                assert(a[i].file_offset < a[back].file_offset);
            }
        }
    }
}

/// A gadget of one harvest of a window is a gadget of any other.
proof fn lemma_harvest_holds(
    window: Window,
    count: int,
    a: Seq<GadgetView>,
    b: Seq<GadgetView>,
    i: int,
) -> (at: int)
    requires
        count <= window.predecessors.len(),
        decided_on(window.head_rule, window.predecessors),
        harvest(window, count, a),
        harvest(window, count, b),
        0 <= i < a.len(),
    ensures
        0 <= at < b.len(),
        b[at] == a[i],
{
    let k = a[i].file_offset - window.front_offset();
    let front = window.advance(k);
    assert forall|n: int| 0 <= n < front.predecessors.len() implies !((front.head_rule)(
        #[trigger] front.predecessors[n],
        true,
    ) && (front.head_rule)(front.predecessors[n], false)) by {
        assert(front.predecessors[n] == window.predecessors[k + n]);
    }
    lemma_step_is_determined(front, a[i], a[i]);
    let at = choose|at: int|
        0 <= at < b.len() && (#[trigger] b[at]).file_offset == window.front_offset() + k;
    let other = b[at].file_offset - window.front_offset();
    assert(starts_gadget(window.advance(other), b[at]));
    lemma_step_is_determined(front, a[i], b[at]);
    at
}

/// Gadgets with the same instructions are equal, wherever they were found.
pub proof fn lemma_equality_ignores_offset(a: Gadget, b: Gadget)
    requires
        a@.instructions == b@.instructions,
    ensures
        a.eq_spec(&b),
{
}

/// Equality of gadgets is reflexive, symmetric and transitive.
pub proof fn lemma_equality_is_equivalence(a: Gadget, b: Gadget, c: Gadget)
    ensures
        a.eq_spec(&a),
        a.eq_spec(&b) ==> b.eq_spec(&a),
        a.eq_spec(&b) && b.eq_spec(&c) ==> a.eq_spec(&c),
{
}

/// Any two gadgets are ordered, and by their offsets alone: the one found at
/// the lower offset is the lesser, whatever their instructions.
pub proof fn lemma_order_goes_by_offset(a: Gadget, b: Gadget)
    ensures
        a.partial_cmp_spec(&b).is_some(),
        a.partial_cmp_spec(&b) == Some(Ordering::Less) <==> a@.file_offset < b@.file_offset,
        a.partial_cmp_spec(&b) == Some(Ordering::Equal) <==> a@.file_offset == b@.file_offset,
        a.partial_cmp_spec(&b) == Some(Ordering::Greater) <==> a@.file_offset > b@.file_offset,
{
}

/// The order of gadgets is transitive, and turning two gadgets round turns
/// their order round.
pub proof fn lemma_order_is_consistent(a: Gadget, b: Gadget, c: Gadget)
    ensures
        a.partial_cmp_spec(&b) == Some(Ordering::Less) && b.partial_cmp_spec(&c) == Some(
            Ordering::Less,
        ) ==> a.partial_cmp_spec(&c) == Some(Ordering::Less),
        a.partial_cmp_spec(&b) == Some(Ordering::Less) <==> b.partial_cmp_spec(&a) == Some(
            Ordering::Greater,
        ),
{
}

/// Where the predicates have one answer for each instruction that they are
/// asked about, the verdict on whether a gadget is a stack pivot is fixed by
/// its instructions: asking again gives the same.
pub proof fn lemma_stack_pivot_is_determined<
    H: Fn(&Instruction) -> bool,
    T: Fn(&Instruction) -> bool,
>(body: Seq<Instruction>, head: H, tail: T, first: bool, second: bool)
    requires
        body.len() == 1 ==> decided(tail, body[0]),
        forall|k: int| 0 <= k < body.len() - 1 ==> decided(head, #[trigger] body[k]),
        stack_pivot_verdict(body, head, tail, first),
        stack_pivot_verdict(body, head, tail, second),
    ensures
        first == second,
{
}

/// Where the predicate has one answer for each instruction that it is asked
/// about, the verdict on whether a gadget is a base pivot is fixed by its
/// instructions: asking again gives the same.
pub proof fn lemma_base_pivot_is_determined<H: Fn(&Instruction) -> bool>(
    body: Seq<Instruction>,
    head: H,
    first: bool,
    second: bool,
)
    requires
        forall|k: int| 0 <= k < body.len() - 1 ==> decided(head, #[trigger] body[k]),
        base_pivot_verdict(body, head, first),
        base_pivot_verdict(body, head, second),
    ensures
        first == second,
{
}

/// A gadget that is only a tail is no base pivot, whatever the predicate
/// says.
pub proof fn lemma_lone_tail_is_no_base_pivot<H: Fn(&Instruction) -> bool>(
    body: Seq<Instruction>,
    head: H,
    pivot: bool,
)
    requires
        body.len() <= 1,
        base_pivot_verdict(body, head, pivot),
    ensures
        !pivot,
{
}

} // verus!
