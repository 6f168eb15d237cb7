//! Subscriber predicates.
//!
//! A consumer registers a predicate with its subscription; the dispatcher
//! calls it once per pulled item, on its own thread, and delivers the item
//! exactly when the predicate accepts it.

use vstd::prelude::*;

verus! {

/// A boolean test over items, supplied by a consumer.
///
/// `spec_test` is the mathematical meaning of the predicate; `test` is the
/// executable decision and must agree with it.
pub trait Predicate<T>: Sized {
    /// What this predicate accepts.
    spec fn spec_test(&self, item: &T) -> bool;

    /// Decide whether `item` is accepted.
    fn test(&self, item: &T) -> (r: bool)
        ensures
            r == self.spec_test(item),
    ;
}

/// Ready-made predicates over unsigned integers.
#[derive(Clone)]
pub enum NumberFilter {
    /// Accepts every item.
    Anything,
    /// Accepts even items.
    EvenOnly,
    /// Accepts items strictly greater than the bound.
    GreaterThan(u64),
}

impl Predicate<u64> for NumberFilter {
    open spec fn spec_test(&self, item: &u64) -> bool {
        match *self {
            NumberFilter::Anything => true,
            NumberFilter::EvenOnly => *item % 2 == 0,
            NumberFilter::GreaterThan(b) => *item > b,
        }
    }

    fn test(&self, item: &u64) -> (r: bool) {
        match self {
            NumberFilter::Anything => true,
            NumberFilter::EvenOnly => *item % 2 == 0,
            NumberFilter::GreaterThan(b) => *item > *b,
        }
    }
}

} // verus!
