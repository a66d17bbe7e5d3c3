//! Weighted reference counting over a fixed-capacity arena of slots.
//!
//! An `OrcHeap` owns the slots. Allocating a value claims an empty slot, gives it the
//! whole weight and hands out an `Orc` that owns all of it. Splitting a handle halves
//! its share without touching the slot; giving a handle back subtracts its share, and
//! the handle that brings the slot's weight to zero frees the value.

pub mod error;
pub mod handle;
pub mod heap;
pub mod ledger;
pub mod pointer;
pub mod weight;

pub use error::OrcError;
pub use handle::{Orc, OrcView};
pub use heap::{OrcHeap, SlotView};
pub use weight::{two_two_the, MAX_WEIGHT, MAX_WEIGHT_EXP};
