//! The dispatcher and the requester handle.
//!
//! The dispatcher owns the upstream source, the two arrival queues and the
//! two registries; one call of `cycle` is one turn of its loop: drain
//! arrivals, evict expired timed subscriptions, pull at most one source item
//! and fan it out. The requester handle is the front end: it registers
//! subscriptions over the arrival queues and never blocks.

use vstd::prelude::*;

use crate::chan::PollOutcome;
use crate::chan::current_millis;
use crate::chan::open_channel;
use crate::chan::poll_channel;
use crate::chan::send_value;
use crate::pred::Predicate;
use crate::sub::PlainRequest;
use crate::sub::Subscription;
use crate::sub::TimedRequest;
use crate::sub::deliver_all;
use crate::sub::drain_plain;
use crate::sub::drain_timed;
use crate::sub::evict_expired;
use crate::sub::fanned_from;
use crate::sub::fresh_sub;
use crate::sub::lemma_eviction_exact;
use crate::sub::lemma_live_after_joined_bound;
use crate::sub::lemma_plain_turn_witness;
use crate::sub::lemma_timed_turn_witness;
use crate::sub::live_after;
use crate::sub::offered;
use crate::sub::plain_turn;
use crate::sub::sub_wf;
use crate::sub::timed_turn;
use std::sync::mpsc::Receiver;
use std::sync::mpsc::Sender;

verus! {

/// What one turn of the dispatcher reported.
pub enum CycleOutcome {
    /// An item was pulled from the source and fanned out.
    Dispatched,
    /// The source had nothing ready; the caller should yield its turn
    /// before cycling again.
    SourceIdle,
    /// The source is closed for good: the dispatcher is finished.
    SourceClosed,
    /// No subscriber is left, no requester handle remains to add one and
    /// the forward endpoint is gone: the dispatcher is finished.
    AllQuiet,
}

/// The dispatcher: the single owner of the registries and the upstream
/// source. It is driven by calling `cycle` until an outcome says it is
/// finished; dropping it then closes every remaining delivery channel.
#[verifier::reject_recursive_types(T)]
#[verifier::reject_recursive_types(P)]
pub struct Dispatcher<T, P> {
    pub(crate) source: Receiver<T>,
    pub(crate) plain_arrivals: Receiver<PlainRequest<T, P>>,
    pub(crate) timed_arrivals: Receiver<TimedRequest<T, P>>,
    pub(crate) plain_subs: Vec<Subscription<T, P>>,
    pub(crate) timed_subs: Vec<Subscription<T, P>>,
    pub(crate) no_more_subscribers: bool,
    pub(crate) forward: Option<Sender<T>>,
    pub(crate) consumed: Ghost<Seq<T>>,
    pub(crate) forwarded: Ghost<Seq<T>>,
}

impl<T: Clone, P: Predicate<T>> Dispatcher<T, P> {
    /// Every source item pulled so far, in source order.
    pub closed spec fn consumed_items(self) -> Seq<T> {
        self.consumed@
    }

    /// The registered subscriptions without a deadline, in arrival order.
    pub closed spec fn plain_registry(self) -> Seq<Subscription<T, P>> {
        self.plain_subs@
    }

    /// The registered subscriptions with a deadline, in arrival order.
    pub closed spec fn timed_registry(self) -> Seq<Subscription<T, P>> {
        self.timed_subs@
    }

    /// Whether the dispatcher has observed that every requester handle is
    /// gone; once set it stays set.
    pub closed spec fn orphaned(self) -> bool {
        self.no_more_subscribers
    }

    /// Whether the forward endpoint is still being served.
    pub closed spec fn forwarding_alive(self) -> bool {
        self.forward is Some
    }

    /// Every item handed to the forward endpoint so far, in source order.
    pub closed spec fn forwarded_items(self) -> Seq<T> {
        self.forwarded@
    }

    /// The item a turn pulled from the source, if it pulled one: the last
    /// item of the consumed stream after the turn.
    pub open spec fn pulled_item(before: Self, after: Self) -> Option<T> {
        if after.consumed_items().len() > before.consumed_items().len() {
            Some(after.consumed_items().last())
        } else {
            None
        }
    }

    /// The terminal idle state: no requester handle remains, both
    /// registries are empty and the forward endpoint is gone, so no
    /// delivery can ever be owed again.
    pub open spec fn idle(self) -> bool {
        &&& self.orphaned()
        &&& self.plain_registry().len() == 0
        &&& self.timed_registry().len() == 0
        &&& !self.forwarding_alive()
    }

    /// The dispatcher's invariant: every registered subscription has been
    /// delivered exactly the matching subsequence of the items consumed
    /// since it joined, registry membership matches deadline kind, and the
    /// forward endpoint has received every consumed item for as long as it
    /// is alive, a prefix of them in any case.
    pub closed spec fn wf(self) -> bool {
        &&& forall|i: int|
            0 <= i < self.plain_subs@.len() ==> sub_wf(#[trigger] self.plain_subs@[i], self.consumed@)
                && self.plain_subs@[i].deadline is None
        &&& forall|i: int|
            0 <= i < self.timed_subs@.len() ==> sub_wf(#[trigger] self.timed_subs@[i], self.consumed@)
                && self.timed_subs@[i].deadline is Some
        &&& (self.forward is Some ==> self.forwarded@ == self.consumed@)
        &&& self.forwarded@.is_prefix_of(self.consumed@)
    }

    /// Law: what the invariant gives every observer — each subscriber's
    /// delivery record is exactly the matching subsequence of the source
    /// items consumed since it joined, and the forward endpoint has seen
    /// every consumed item while alive, an in-order prefix of them always.
    pub proof fn lemma_wf_meaning(self)
        requires
            self.wf(),
        ensures
            forall|i: int|
                0 <= i < self.plain_registry().len() ==> sub_wf(
                    #[trigger] self.plain_registry()[i],
                    self.consumed_items(),
                ),
            forall|i: int|
                0 <= i < self.timed_registry().len() ==> sub_wf(
                    #[trigger] self.timed_registry()[i],
                    self.consumed_items(),
                ),
            self.forwarding_alive() ==> self.forwarded_items() == self.consumed_items(),
            self.forwarded_items().is_prefix_of(self.consumed_items()),
    {
    }

    /// Fan one pulled item out: deliver a clone to every matching
    /// subscriber in the no-deadline registry, then in the timed registry,
    /// dropping a subscription exactly when its delivery fails; then hand
    /// the item itself to the forward endpoint, dropping that endpoint for
    /// good on its first failure.
    fn fan_out(&mut self, item: T) -> (kept: Ghost<(Seq<int>, Seq<int>)>)
        requires
            old(self).wf(),
        ensures
            final(self).wf(),
            final(self).consumed_items() == old(self).consumed_items().push(item),
            final(self).orphaned() == old(self).orphaned(),
            final(self).source == old(self).source,
            final(self).plain_arrivals == old(self).plain_arrivals,
            final(self).timed_arrivals == old(self).timed_arrivals,
            !old(self).forwarding_alive() ==> !final(self).forwarding_alive(),
            fanned_from(old(self).plain_registry(), final(self).plain_registry(), item),
            fanned_from(old(self).timed_registry(), final(self).timed_registry(), item),
            kept@.0.len() == final(self).plain_registry().len(),
            forall|i: int|
                0 <= i < kept@.0.len() ==> 0 <= #[trigger] kept@.0[i] < old(
                    self,
                ).plain_registry().len(),
            forall|i: int|
                0 <= i < kept@.0.len() ==> offered(
                    old(self).plain_registry()[#[trigger] kept@.0[i]],
                    final(self).plain_registry()[i],
                    item,
                ),
            kept@.1.len() == final(self).timed_registry().len(),
            forall|i: int|
                0 <= i < kept@.1.len() ==> 0 <= #[trigger] kept@.1[i] < old(
                    self,
                ).timed_registry().len(),
            forall|i: int|
                0 <= i < kept@.1.len() ==> offered(
                    old(self).timed_registry()[#[trigger] kept@.1[i]],
                    final(self).timed_registry()[i],
                    item,
                ),
    {
        let ghost c = self.consumed@;
        let kept_a = deliver_all(&mut self.plain_subs, &item, Ghost(c));
        let kept_b = deliver_all(&mut self.timed_subs, &item, Ghost(c));
        let ghost ghost_item = item;
        let mut fwd: Option<Sender<T>> = None;
        core::mem::swap(&mut fwd, &mut self.forward);
        match fwd {
            Some(out) => {
                let delivered = send_value(&out, item);
                if delivered {
                    self.forward = Some(out);
                    self.forwarded = Ghost(self.forwarded@.push(ghost_item));
                }
            },
            None => {},
        }
        self.consumed = Ghost(c.push(ghost_item));
        proof {
            assert(self.forwarded@.is_prefix_of(self.consumed@)) by {
                assert(self.forwarded@ =~= self.consumed@.subrange(
                    0,
                    self.forwarded@.len() as int,
                ));
            }
            assert(fanned_from(old(self).plain_registry(), self.plain_registry(), item));
            assert(fanned_from(old(self).timed_registry(), self.timed_registry(), item));
            assert forall|i: int| 0 <= i < self.plain_subs@.len() implies (#[trigger] self.plain_subs@[i]).deadline is None by {
                let j = kept_a@[i];
                assert(offered(old(self).plain_subs@[j], self.plain_subs@[i], item));
            }
            assert forall|i: int| 0 <= i < self.timed_subs@.len() implies (#[trigger] self.timed_subs@[i]).deadline is Some by {
                let j = kept_b@[i];
                assert(offered(old(self).timed_subs@[j], self.timed_subs@[i], item));
            }
            assert forall|i: int| 0 <= i < kept_a@.len() implies offered(
                old(self).plain_registry()[#[trigger] kept_a@[i]],
                self.plain_registry()[i],
                item,
            ) by {
                assert(offered(old(self).plain_subs@[kept_a@[i]], self.plain_subs@[i], item));
            }
            assert forall|i: int| 0 <= i < kept_b@.len() implies offered(
                old(self).timed_registry()[#[trigger] kept_b@[i]],
                self.timed_registry()[i],
                item,
            ) by {
                assert(offered(old(self).timed_subs@[kept_b@[i]], self.timed_subs@[i], item));
            }
        }
        Ghost((kept_a@, kept_b@))
    }

    /// One turn of the dispatcher loop: drain both arrival queues, evict
    /// the timed subscriptions whose deadline has passed, pull at most one
    /// item from the source and fan it out, then check whether anything is
    /// left to serve. The caller drives this in a loop until the outcome
    /// says the dispatcher is finished.
    pub fn cycle(&mut self) -> (outcome: CycleOutcome)
        requires
            old(self).wf(),
        ensures
            final(self).wf(),
            old(self).consumed_items().is_prefix_of(final(self).consumed_items()),
            final(self).consumed_items().len() <= old(self).consumed_items().len() + 1,
            outcome is Dispatched
                ==> final(self).consumed_items().len() == old(self).consumed_items().len() + 1,
            outcome is SourceIdle || outcome is SourceClosed ==> final(self).consumed_items()
                == old(self).consumed_items(),
            old(self).orphaned() ==> final(self).orphaned(),
            !old(self).forwarding_alive() ==> !final(self).forwarding_alive(),
            outcome is AllQuiet ==> final(self).idle(),
            final(self).idle() ==> outcome is AllQuiet || outcome is SourceClosed,
            forall|i: int|
                0 <= i < final(self).plain_registry().len()
                    ==> (#[trigger] final(self).plain_registry()[i]).joined@
                    <= old(self).consumed_items().len(),
            forall|i: int|
                0 <= i < final(self).timed_registry().len()
                    ==> (#[trigger] final(self).timed_registry()[i]).joined@
                    <= old(self).consumed_items().len(),
            plain_turn(
                old(self).plain_registry(),
                final(self).plain_registry(),
                old(self).consumed_items(),
                Self::pulled_item(*old(self), *final(self)),
            ),
            timed_turn(
                old(self).timed_registry(),
                final(self).timed_registry(),
                old(self).consumed_items(),
                Self::pulled_item(*old(self), *final(self)),
            ),
    {
        let ghost c0 = self.consumed@;
        let ghost plain0 = self.plain_subs@;
        let ghost timed0 = self.timed_subs@;
        drain_plain(
            &self.plain_arrivals,
            &mut self.plain_subs,
            &mut self.no_more_subscribers,
            Ghost(c0),
        );
        drain_timed(
            &self.timed_arrivals,
            &mut self.timed_subs,
            &mut self.no_more_subscribers,
            Ghost(c0),
        );
        proof {
            assert forall|i: int| 0 <= i < self.plain_subs@.len() implies (
            #[trigger] self.plain_subs@[i]).joined@ <= c0.len() && self.plain_subs@[i].deadline
                is None by {
                if i < plain0.len() {
                    assert(plain0 =~= self.plain_subs@.subrange(0, plain0.len() as int));
                    assert(self.plain_subs@[i] == plain0[i]);
                }
            }
            assert forall|i: int| 0 <= i < self.timed_subs@.len() implies (
            #[trigger] self.timed_subs@[i]).joined@ <= c0.len() && self.timed_subs@[i].deadline
                is Some by {
                if i < timed0.len() {
                    assert(timed0 =~= self.timed_subs@.subrange(0, timed0.len() as int));
                    assert(self.timed_subs@[i] == timed0[i]);
                }
            }
        }
        let ghost timed1 = self.timed_subs@;
        let now = current_millis();
        evict_expired(&mut self.timed_subs, now, Ghost(c0));
        proof {
            lemma_live_after_joined_bound(timed1, now, c0.len() as int);
            lemma_eviction_exact(timed1, now);
            assert forall|i: int| 0 <= i < self.timed_subs@.len() implies (
            #[trigger] self.timed_subs@[i]).deadline is Some by {
                let x = self.timed_subs@[i];
                assert(timed1.contains(x));
                let j = choose|j: int| 0 <= j < timed1.len() && timed1[j] == x;
                assert(timed1[j].deadline is Some);
            }
        }
        let ghost plain2 = self.plain_subs@;
        let ghost timed2 = self.timed_subs@;
        let ghost mut pulled_v: Option<T> = None;
        let pulled: bool;
        let closed: bool;
        match poll_channel(&self.source) {
            PollOutcome::Ready(item) => {
                let ghost v = item;
                let kept = self.fan_out(item);
                pulled = true;
                closed = false;
                proof {
                    pulled_v = Some(v);
                    assert forall|i: int| 0 <= i < self.plain_subs@.len() implies (
                    #[trigger] self.plain_subs@[i]).joined@ <= c0.len() by {
                        let j = kept@.0[i];
                        assert(offered(plain2[j], self.plain_registry()[i], v));
                    }
                    assert forall|i: int| 0 <= i < self.timed_subs@.len() implies (
                    #[trigger] self.timed_subs@[i]).joined@ <= c0.len() by {
                        let j = kept@.1[i];
                        assert(offered(timed2[j], self.timed_registry()[i], v));
                    }
                }
            },
            PollOutcome::NothingYet => {
                pulled = false;
                closed = false;
            },
            PollOutcome::Closed => {
                pulled = false;
                closed = true;
            },
        }
        proof {
            assert(c0.is_prefix_of(self.consumed@)) by {
                assert(c0 =~= self.consumed@.subrange(0, c0.len() as int));
            }
            let fresh_p = plain2.skip(plain0.len() as int);
            let fresh_t = timed1.skip(timed0.len() as int);
            assert(plain0 + fresh_p =~= plain2);
            assert(timed0 + fresh_t =~= timed1);
            assert forall|i: int| 0 <= i < fresh_p.len() implies fresh_sub(
                #[trigger] fresh_p[i],
                c0,
                None,
            ) by {
                assert(fresh_p[i] == plain2[plain0.len() + i]);
            }
            assert forall|i: int| 0 <= i < fresh_t.len() implies ((#[trigger] fresh_t[i]).joined@
                == c0.len() && fresh_t[i].sent@ == Seq::<T>::empty()
                && fresh_t[i].deadline is Some) by {
                assert(fresh_t[i] == timed1[timed0.len() + i]);
            }
            match pulled_v {
                Some(v) => {
                    assert(fanned_from(plain0 + fresh_p, self.plain_subs@, v));
                    assert(fanned_from(live_after(timed0 + fresh_t, now), self.timed_subs@, v));
                },
                None => {},
            }
            lemma_plain_turn_witness(plain0, self.plain_subs@, c0, pulled_v, fresh_p);
            lemma_timed_turn_witness(timed0, self.timed_subs@, c0, pulled_v, fresh_t, now);
            assert(Self::pulled_item(*old(self), *self) == pulled_v);
        }
        if closed {
            return CycleOutcome::SourceClosed;
        }
        if self.no_more_subscribers && self.plain_subs.len() == 0 && self.timed_subs.len() == 0
            && self.forward.is_none() {
            return CycleOutcome::AllQuiet;
        }
        if pulled {
            CycleOutcome::Dispatched
        } else {
            CycleOutcome::SourceIdle
        }
    }
}

/// The externally visible front end: registers subscriptions with the
/// dispatcher over two unbounded queues and never blocks. Handles can be
/// cloned and used from any number of threads; once every handle is gone
/// the dispatcher may conclude that no subscriber will ever arrive again.
#[derive(Clone)]
#[verifier::reject_recursive_types(T)]
#[verifier::reject_recursive_types(P)]
pub struct Requester<T, P> {
    pub(crate) subscribe_no_timeout: Sender<PlainRequest<T, P>>,
    pub(crate) subscribe_timeout: Sender<TimedRequest<T, P>>,
}

impl<T: Clone, P: Predicate<T>> Requester<T, P> {
    /// Create a requester, the dispatcher that will serve it, and the
    /// consumer side of the forward endpoint, which receives every item the
    /// dispatcher consumes from `source`. The dispatcher starts empty and
    /// is driven by calling `cycle`, typically from a dedicated worker,
    /// until an outcome reports it finished.
    pub fn new(source: Receiver<T>) -> (r: (Requester<T, P>, Dispatcher<T, P>, Receiver<T>))
        ensures
            r.1.wf(),
            r.1.consumed_items() == Seq::<T>::empty(),
            r.1.plain_registry() == Seq::<Subscription<T, P>>::empty(),
            r.1.timed_registry() == Seq::<Subscription<T, P>>::empty(),
            !r.1.orphaned(),
            r.1.forwarding_alive(),
            r.1.forwarded_items() == Seq::<T>::empty(),
    {
        let (plain_tx, plain_rx) = open_channel();
        let (timed_tx, timed_rx) = open_channel();
        let (forward_tx, forward_rx) = open_channel();
        let dispatcher = Dispatcher {
            source,
            plain_arrivals: plain_rx,
            timed_arrivals: timed_rx,
            plain_subs: Vec::new(),
            timed_subs: Vec::new(),
            no_more_subscribers: false,
            forward: Some(forward_tx),
            consumed: Ghost(Seq::empty()),
            forwarded: Ghost(Seq::empty()),
        };
        let requester = Requester {
            subscribe_no_timeout: plain_tx,
            subscribe_timeout: timed_tx,
        };
        proof {
            assert(dispatcher.forwarded@.is_prefix_of(dispatcher.consumed@)) by {
                assert(dispatcher.forwarded@ =~= dispatcher.consumed@.subrange(0, 0));
            }
        }
        (requester, dispatcher, forward_rx)
    }

    /// Register `predicate` without a deadline: the returned receiver
    /// yields exactly the matching items among those the dispatcher pulls
    /// after it picks the registration up, in source order. Never blocks.
    /// If the dispatcher is already finished, the registration is never
    /// picked up and the receiver only ever reports itself closed.
    pub fn request(&self, predicate: P) -> (r: Receiver<T>) {
        let (out, rx) = open_channel();
        let _delivered = send_value(
            &self.subscribe_no_timeout,
            PlainRequest { pred: predicate, out },
        );
        rx
    }

    /// Register `predicate` with a deadline fixed now, as `deadline_after`
    /// of the clock's current reading and `timeout_ms`: the returned
    /// receiver yields matching items as `request` does, until the
    /// dispatcher samples a clock reading past the deadline and evicts the
    /// subscription, closing the receiver silently. Never blocks.
    pub fn request_timeout(&self, timeout_ms: u64, predicate: P) -> (r: Receiver<T>) {
        let now = current_millis();
        let deadline = deadline_after(now, timeout_ms);
        let (out, rx) = open_channel();
        let _delivered = send_value(
            &self.subscribe_timeout,
            TimedRequest { deadline, pred: predicate, out },
        );
        rx
    }
}

/// The absolute expiry instant of a subscription requested at clock reading
/// `now` with timeout `timeout_ms`: their sum, fixed at request time,
/// saturating at the clock's largest representable instant.
pub fn deadline_after(now: u64, timeout_ms: u64) -> (deadline: u64)
    ensures
        deadline == if now + timeout_ms <= u64::MAX {
            now + timeout_ms
        } else {
            u64::MAX as int
        },
{
    if now <= u64::MAX - timeout_ms {
        now + timeout_ms
    } else {
        u64::MAX
    }
}

} // verus!
