//! Equality, hashing and order of gadgets.
//!
//! Equality and the hash go by the instructions alone, so that a set of
//! gadgets keeps one of each instruction chain wherever it was found. The
//! order goes by the offset alone, so that sorted gadgets come out by address.

use crate::gadget::structural_key;
use crate::gadget::Gadget;
use crate::instruction::same_instruction;
use std::cmp::Ordering;
use std::hash::Hash;
use std::hash::Hasher;
use vstd::prelude::*;

verus! {

impl PartialEq for Gadget {
    fn eq(&self, other: &Self) -> (equal: bool) {
        let count = self.instructions.len();
        if other.instructions.len() != count {
            proof {
                assert(structural_key(self@.instructions).len() == count);
                assert(structural_key(other@.instructions).len() != count);
            }
            return false;
        }
        let mut k: usize = 0;
        while k < count
            invariant
                k <= count,
                count == self.instructions@.len(),
                count == other.instructions@.len(),
                structural_key(self.instructions@.take(k as int)) == structural_key(
                    other.instructions@.take(k as int),
                ),
            decreases count - k,
        {
            if !same_instruction(&self.instructions[k], &other.instructions[k]) {
                proof {
                    let a = structural_key(self@.instructions);
                    let b = structural_key(other@.instructions);
                    assert(a[k as int] != b[k as int]);
                }
                return false;
            }
            proof {
                let a = self.instructions@;
                let b = other.instructions@;
                assert(a.take(k + 1) == a.take(k as int).push(a[k as int]));
                assert(b.take(k + 1) == b.take(k as int).push(b[k as int]));
                assert(structural_key(a.take(k + 1)) == structural_key(a.take(k as int)).push(
                    structural_key(a)[k as int],
                ));
                assert(structural_key(b.take(k + 1)) == structural_key(b.take(k as int)).push(
                    structural_key(b)[k as int],
                ));
            }
            k += 1;
        }
        proof {
            assert(self.instructions@.take(count as int) == self.instructions@);
            assert(other.instructions@.take(count as int) == other.instructions@);
        }
        true
    }
}

impl vstd::std_specs::cmp::PartialEqSpecImpl for Gadget {
    open spec fn obeys_eq_spec() -> bool {
        true
    }

    open spec fn eq_spec(&self, other: &Self) -> bool {
        structural_key(self@.instructions) == structural_key(other@.instructions)
    }
}

impl Eq for Gadget {

}

impl Hash for Gadget {
    /// Feeds the instructions, and not the offset, to the hasher: this is
    /// `Hash::hash` of `Vec<Instruction>`, which hashes the number of
    /// instructions and then each of them.
    #[verifier::external_body]
    fn hash<H: Hasher>(&self, state: &mut H) {
        self.instructions.hash(state);
    }
}

impl PartialOrd for Gadget {
    fn partial_cmp(&self, other: &Self) -> (order: Option<Ordering>) {
        if self.file_offset < other.file_offset {
            Some(Ordering::Less)
        } else if self.file_offset == other.file_offset {
            Some(Ordering::Equal)
        } else {
            Some(Ordering::Greater)
        }
    }
}

impl vstd::std_specs::cmp::PartialOrdSpecImpl for Gadget {
    open spec fn obeys_partial_cmp_spec() -> bool {
        true
    }

    open spec fn partial_cmp_spec(&self, other: &Self) -> Option<Ordering> {
        if self@.file_offset < other@.file_offset {
            Some(Ordering::Less)
        } else if self@.file_offset == other@.file_offset {
            Some(Ordering::Equal)
        } else {
            Some(Ordering::Greater)
        }
    }
}

} // verus!
