//! A single-tape automaton that performs marker-assisted binary addition of
//! two operands laid out on a sparse, bidirectionally infinite tape.
//!
//! The tape maps integer positions to symbols and never stores the blank
//! symbol explicitly; the engine owns the tape, a control state, the head
//! position and three one-bit scratch registers, and advances by a fixed
//! transition table until it halts, its step budget runs out, or the head
//! reads a symbol the table has no rule for.

pub mod convert;
pub mod machine;
pub mod tape;
