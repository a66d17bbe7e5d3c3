//! The failures that the arena and its handles report.

use vstd::prelude::*;

verus! {

/// Why an allocation or a split was refused.
#[derive(Debug, Clone, Copy, PartialEq, Eq, Structural)]
pub enum OrcError {
    /// A full scan of the arena found no empty slot.
    OutOfSlots,
    /// The handle already holds the smallest weight, which cannot be halved.
    CannotSplitFurther,
}

} // verus!
