//! What classification and the category constructors report when they
//! refuse their input.

use vstd::prelude::*;
use crate::card::Card;

verus! {

/// Why a hand could not be classified or a category could not be built.
#[derive(Clone, Debug, PartialEq, Eq)]
pub enum Error {
    /// Classification was asked of no cards at all.
    EmptyInput,
    /// A category constructor was handed cards that break the category's
    /// rank or suit rule; the cards are echoed back.
    InvalidShape(Vec<Card>),
    /// A category constructor was handed cards of the right shape in the
    /// wrong order; the cards are echoed back.
    UnsortedInput(Vec<Card>),
    /// A category was asked of fewer cards than it holds.
    InsufficientCards { expected: usize, actual: usize },
}

} // verus!
