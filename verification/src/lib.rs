//! A filtered broadcast dispatcher.
//!
//! One upstream source feeds a stream of items to a single dispatcher; any
//! number of consumers register a predicate, each over its own private
//! channel, and each receives exactly the items that match its predicate, in
//! source order. A subscription may carry a deadline, after which it is
//! evicted without further delivery. Every consumed item is additionally
//! forwarded, unfiltered, to one downstream endpoint.

use vstd::prelude::*;

pub mod chan;
pub mod dispatch;
pub mod pred;
pub mod sub;

verus! {

pub use crate::chan::PollOutcome;
pub use crate::dispatch::CycleOutcome;
pub use crate::dispatch::Dispatcher;
pub use crate::dispatch::Requester;
pub use crate::pred::NumberFilter;
pub use crate::pred::Predicate;
pub use crate::sub::Subscription;

} // verus!
