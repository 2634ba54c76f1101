//! Privilege-level inspection.
//!
//! The one-time ring-3 transition itself is hardware glue (inline assembly
//! and page-table edits) outside this crate; what remains here is the pure
//! reading of a code-segment selector, whose low two bits encode the
//! privilege ring the processor is running in. The caller reads the `CS`
//! register and hands the selector's raw value in.

use vstd::prelude::*;

verus! {

/// The privilege ring a code-segment selector encodes: its low two bits.
pub fn current_ring(cs_selector: u16) -> (r: u16)
    ensures
        r == cs_selector % 4,
{
    cs_selector % 4
}

/// Whether the selector reports user mode (ring 3).
pub fn is_user_ring(cs_selector: u16) -> (r: bool)
    ensures
        r == (cs_selector % 4 == 3),
{
    current_ring(cs_selector) == 3
}

} // verus!
