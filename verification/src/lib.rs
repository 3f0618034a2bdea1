//! Enumeration of return-oriented-programming gadgets.
//!
//! A gadget is a short chain of decoded x86 instructions that ends in a fixed
//! tail instruction, most often a return. [`GadgetIterator`] finds every chain
//! that reaches the tail exactly, trying each byte offset of the window in
//! front of it; [`Gadget`] classifies what was found and renders it as text.
//!
//! Instructions are `iced_x86::Instruction` values as the decoder of that
//! crate makes them.
//! What decides whether an instruction may stand in a gadget, or pivots the
//! stack or the frame base, is handed in by the caller as a predicate.
//!
//! - [`instruction`]: what is used of an instruction: its length, its `==`
//!   and where it came from;
//! - [`rules`]: how the contracts speak of the caller's predicates;
//! - [`gadget`]: the gadget and its classification;
//! - [`comparison`]: equality and hash by instructions, order by offset;
//! - [`render`]: gadgets as tokens of text;
//! - [`search`]: the search itself;
//! - [`section`]: decoding a section and searching it;
//! - [`laws`]: what holds of all of these together.

pub mod comparison;
pub mod gadget;
pub mod instruction;
pub mod laws;
pub mod render;
pub mod rules;
pub mod search;
pub mod section;

pub use gadget::Gadget;
pub use gadget::GadgetView;
pub use render::Token;
pub use search::GadgetIterator;
pub use search::Window;
