//! The caller's predicates on instructions.
//!
//! What makes an instruction fit for a gadget, and what makes it a pivot, is
//! not decided here: the caller hands in a predicate, any `Fn` from an
//! instruction to `bool`. The contracts of this crate say which answers of
//! the predicate a result rests on. Where a predicate has one answer for each
//! instruction, that fixes the result.

use iced_x86::Instruction;
use vstd::prelude::*;

verus! {

/// `predicate` can be asked about `instruction`.
pub open spec fn askable<P: Fn(&Instruction) -> bool>(
    predicate: P,
    instruction: Instruction,
) -> bool {
    predicate.requires((&instruction,))
}

/// `answer` is what `predicate` says of `instruction`.
pub open spec fn says<P: Fn(&Instruction) -> bool>(
    predicate: P,
    instruction: Instruction,
    answer: bool,
) -> bool {
    predicate.ensures((&instruction,), answer)
}

/// `predicate` does not say both `true` and `false` of `instruction`.
pub open spec fn decided<P: Fn(&Instruction) -> bool>(
    predicate: P,
    instruction: Instruction,
) -> bool {
    !(says(predicate, instruction, true) && says(predicate, instruction, false))
}

/// The head rule `rule` can be asked about `instruction` in the mode `noisy`.
pub open spec fn rule_askable<R: Fn(&Instruction, bool) -> bool>(
    rule: R,
    instruction: Instruction,
    noisy: bool,
) -> bool {
    rule.requires((&instruction, noisy))
}

/// What the head rule `rule` says in the mode `noisy`: the result holds of an
/// instruction and an answer where that is the rule's answer on whether the
/// instruction may stand in a gadget in front of the tail.
pub open spec fn answers<R: Fn(&Instruction, bool) -> bool>(rule: R, noisy: bool) -> spec_fn(
    Instruction,
    bool,
) -> bool {
    |instruction: Instruction, answer: bool| rule.ensures((&instruction, noisy), answer)
}

} // verus!
