//! Error taxonomy shared with the syscall layer, and the alignment helper used
//! by every mutator operation.

use vstd::prelude::*;

verus! {

/// Discriminated failure codes surfaced to the syscall layer.
///
/// Their numeric encoding on the wire is owned by the hardware layer; the core
/// only distinguishes the three kinds.
#[derive(Clone, Copy, Debug, PartialEq, Eq, Structural)]
pub enum ResponseLabel {
    /// A misaligned or otherwise unusable argument.
    InvalidParam,
    /// The targeted slot is already populated (or a leaf blocks a teardown).
    MappedAlready,
    /// A leaf map was requested but no directory exists at the deepest level.
    PageTableMiss,
}

/// Operations that change state but return no payload report only how they
/// failed.
pub type ResultWithErr<E> = Result<(), E>;

/// Whether `value` is a multiple of `align`.
pub open spec fn spec_is_aligned(value: u64, align: u64) -> bool {
    value as int % align as int == 0
}

/// Runtime alignment test; every mutator operation validates its addresses
/// with this before touching the tree.
pub fn is_aligned(value: u64, align: u64) -> (r: bool)
    requires
        align > 0,
    ensures
        r == spec_is_aligned(value, align),
{
    value % align == 0
}

} // verus!
