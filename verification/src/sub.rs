//! Subscriptions and the registry operations of the dispatcher.
//!
//! A subscription pairs a predicate with the producer side of its private
//! delivery channel, and optionally a deadline. The ghost fields record the
//! point in the source stream at which the subscription was registered and
//! the source items that have been delivered to it; the registry operations
//! keep `sent` equal to the matching subsequence of what the dispatcher has
//! consumed since the subscription joined.

use vstd::prelude::*;

use crate::chan::PollOutcome;
use crate::chan::poll_channel;
use crate::chan::send_value;
use crate::pred::Predicate;
use std::sync::mpsc::Receiver;
use std::sync::mpsc::Sender;

verus! {

/// One registered subscriber: a predicate, the producer side of its delivery
/// channel, and, for timed subscriptions, an absolute expiry instant in
/// clock milliseconds.
#[verifier::reject_recursive_types(T)]
pub struct Subscription<T, P> {
    /// The subscriber's predicate.
    pub pred: P,
    /// Producer side of the subscriber's private delivery channel.
    pub out: Sender<T>,
    /// Absolute expiry instant; `None` for subscriptions without a deadline.
    pub deadline: Option<u64>,
    /// How many source items had been consumed when this subscription joined.
    pub joined: Ghost<int>,
    /// The source items whose delivery to this subscriber succeeded, in order.
    pub sent: Ghost<Seq<T>>,
}

/// The subsequence of `s` whose elements `p` accepts, in the same order.
pub open spec fn matching_of<T, P: Predicate<T>>(p: P, s: Seq<T>) -> Seq<T>
    decreases s.len(),
{
    if s.len() == 0 {
        Seq::empty()
    } else if p.spec_test(&s.last()) {
        matching_of(p, s.drop_last()).push(s.last())
    } else {
        matching_of(p, s.drop_last())
    }
}

/// A subscription is well formed against the stream `consumed` of items the
/// dispatcher has pulled so far: it joined at some point of that stream, and
/// what was delivered to it is exactly the matching subsequence of what was
/// consumed after it joined.
pub open spec fn sub_wf<T, P: Predicate<T>>(s: Subscription<T, P>, consumed: Seq<T>) -> bool {
    &&& 0 <= s.joined@ <= consumed.len()
    &&& s.sent@ == matching_of(s.pred, consumed.skip(s.joined@))
}

/// How one fan-out of item `v` changes a single subscription that stays in
/// the registry: everything is kept, and `v` is appended to its delivery
/// record exactly when its predicate accepts `v`.
pub open spec fn offered<T, P: Predicate<T>>(
    before: Subscription<T, P>,
    after: Subscription<T, P>,
    v: T,
) -> bool {
    &&& after.pred == before.pred
    &&& after.out == before.out
    &&& after.deadline == before.deadline
    &&& after.joined == before.joined
    &&& after.sent@ == if before.pred.spec_test(&v) {
        before.sent@.push(v)
    } else {
        before.sent@
    }
}

/// How one fan-out of item `v` changes a whole registry: the subscriptions
/// that remain are a subsequence of those registered before, in the same
/// order, each updated as `offered` says, and only a subscription whose
/// predicate accepted `v` can be missing (it is dropped exactly when its
/// delivery failed) — none is invented, none is replaced, none is
/// reordered, none is dropped without a matching delivery attempt.
pub open spec fn fanned_from<T, P: Predicate<T>>(
    before: Seq<Subscription<T, P>>,
    after: Seq<Subscription<T, P>>,
    v: T,
) -> bool {
    exists|keep: Seq<int>|
        {
            &&& #[trigger] keep.len() == after.len()
            &&& forall|i: int| 0 <= i < keep.len() ==> 0 <= #[trigger] keep[i] < before.len()
            &&& forall|i: int, j: int| 0 <= i < j < keep.len() ==> keep[i] < keep[j]
            &&& forall|i: int|
                0 <= i < keep.len() ==> offered(before[#[trigger] keep[i]], after[i], v)
            &&& forall|j: int|
                0 <= j < before.len() && !keep.contains(j) ==> (#[trigger] before[j]).pred.spec_test(
                    &v,
                )
        }
}

proof fn lemma_fanned_from_witness<T, P: Predicate<T>>(
    before: Seq<Subscription<T, P>>,
    after: Seq<Subscription<T, P>>,
    v: T,
    kept: Seq<int>,
)
    requires
        kept.len() == after.len(),
        forall|i: int| 0 <= i < kept.len() ==> 0 <= #[trigger] kept[i] < before.len(),
        forall|i: int, j: int| 0 <= i < j < kept.len() ==> kept[i] < kept[j],
        forall|i: int| 0 <= i < kept.len() ==> offered(before[#[trigger] kept[i]], after[i], v),
        forall|j: int|
            0 <= j < before.len() && !kept.contains(j) ==> (#[trigger] before[j]).pred.spec_test(
                &v,
            ),
    ensures
        fanned_from(before, after, v),
{
    assert(kept.len() == after.len());
}

/// How one dispatcher turn changes the no-deadline registry: the arrivals
/// drained this turn are appended, each joining at the current end of the
/// consumed stream, and, when an item was pulled, the widened registry is
/// fanned out with it. Nothing else adds, removes or reorders a
/// subscription.
pub open spec fn plain_turn<T, P: Predicate<T>>(
    before: Seq<Subscription<T, P>>,
    after: Seq<Subscription<T, P>>,
    consumed_before: Seq<T>,
    pulled: Option<T>,
) -> bool {
    exists|fresh: Seq<Subscription<T, P>>|
        #![trigger before + fresh]
        {
            &&& forall|i: int|
                0 <= i < fresh.len() ==> fresh_sub(#[trigger] fresh[i], consumed_before, None)
            &&& match pulled {
                Some(v) => fanned_from(before + fresh, after, v),
                None => after == before + fresh,
            }
        }
}

/// How one dispatcher turn changes the timed registry: the arrivals drained
/// this turn are appended, each joining at the current end of the consumed
/// stream with its deadline fixed at request time; the widened registry is
/// evicted at one sampled clock reading; and, when an item was pulled, what
/// survived is fanned out with it. Nothing else adds, removes or reorders a
/// subscription.
pub open spec fn timed_turn<T, P: Predicate<T>>(
    before: Seq<Subscription<T, P>>,
    after: Seq<Subscription<T, P>>,
    consumed_before: Seq<T>,
    pulled: Option<T>,
) -> bool {
    exists|fresh: Seq<Subscription<T, P>>, now: u64|
        #![trigger live_after(before + fresh, now)]
        {
            &&& forall|i: int|
                0 <= i < fresh.len() ==> (#[trigger] fresh[i]).joined@ == consumed_before.len()
                    && fresh[i].sent@ == Seq::<T>::empty() && fresh[i].deadline is Some
            &&& match pulled {
                Some(v) => fanned_from(live_after(before + fresh, now), after, v),
                None => after == live_after(before + fresh, now),
            }
        }
}

pub(crate) proof fn lemma_plain_turn_witness<T, P: Predicate<T>>(
    before: Seq<Subscription<T, P>>,
    after: Seq<Subscription<T, P>>,
    consumed_before: Seq<T>,
    pulled: Option<T>,
    fresh: Seq<Subscription<T, P>>,
)
    requires
        forall|i: int|
            0 <= i < fresh.len() ==> fresh_sub(#[trigger] fresh[i], consumed_before, None),
        match pulled {
            Some(v) => fanned_from(before + fresh, after, v),
            None => after == before + fresh,
        },
    ensures
        plain_turn(before, after, consumed_before, pulled),
{
    assert((before + fresh).len() == before.len() + fresh.len());
}

pub(crate) proof fn lemma_timed_turn_witness<T, P: Predicate<T>>(
    before: Seq<Subscription<T, P>>,
    after: Seq<Subscription<T, P>>,
    consumed_before: Seq<T>,
    pulled: Option<T>,
    fresh: Seq<Subscription<T, P>>,
    now: u64,
)
    requires
        forall|i: int|
            0 <= i < fresh.len() ==> (#[trigger] fresh[i]).joined@ == consumed_before.len()
                && fresh[i].sent@ == Seq::<T>::empty() && fresh[i].deadline is Some,
        match pulled {
            Some(v) => fanned_from(live_after(before + fresh, now), after, v),
            None => after == live_after(before + fresh, now),
        },
    ensures
        timed_turn(before, after, consumed_before, pulled),
{
    assert(live_after(before + fresh, now).len() >= 0);
}

/// A freshly registered subscription: it joined at the current end of the
/// consumed stream and nothing has been delivered to it yet.
pub open spec fn fresh_sub<T, P: Predicate<T>>(
    s: Subscription<T, P>,
    consumed: Seq<T>,
    deadline: Option<u64>,
) -> bool {
    &&& s.joined@ == consumed.len()
    &&& s.sent@ == Seq::<T>::empty()
    &&& s.deadline == deadline
}

/// Whether a subscription's deadline has passed at clock reading `now`.
pub open spec fn expired<T, P>(s: Subscription<T, P>, now: u64) -> bool {
    match s.deadline {
        Some(d) => d < now,
        None => false,
    }
}

/// The subscriptions of `s` that survive an eviction at clock reading `now`,
/// in the same order.
pub open spec fn live_after<T, P>(s: Seq<Subscription<T, P>>, now: u64) -> Seq<Subscription<T, P>>
    decreases s.len(),
{
    if s.len() == 0 {
        Seq::empty()
    } else if expired(s.last(), now) {
        live_after(s.drop_last(), now)
    } else {
        live_after(s.drop_last(), now).push(s.last())
    }
}

proof fn lemma_push_skip<T>(s: Seq<T>, j: int, v: T)
    requires
        0 <= j <= s.len(),
    ensures
        s.push(v).skip(j) == s.skip(j).push(v),
{
    assert(s.push(v).skip(j) =~= s.skip(j).push(v));
}

proof fn lemma_matching_push<T, P: Predicate<T>>(p: P, s: Seq<T>, v: T)
    ensures
        matching_of(p, s.push(v)) == if p.spec_test(&v) {
            matching_of(p, s).push(v)
        } else {
            matching_of(p, s)
        },
{
    assert(s.push(v).drop_last() =~= s);
    assert(s.push(v).last() == v);
}

/// Law: every item the dispatcher delivers to a subscriber is accepted by
/// that subscriber's predicate.
pub proof fn lemma_matching_accepted<T, P: Predicate<T>>(p: P, s: Seq<T>)
    ensures
        forall|i: int|
            0 <= i < matching_of(p, s).len() ==> p.spec_test(&#[trigger] matching_of(p, s)[i]),
    decreases s.len(),
{
    if s.len() > 0 {
        lemma_matching_accepted(p, s.drop_last());
        assert forall|i: int| 0 <= i < matching_of(p, s).len() implies p.spec_test(
            &#[trigger] matching_of(p, s)[i],
        ) by {
            if i < matching_of(p, s.drop_last()).len() {
                assert(matching_of(p, s)[i] == matching_of(p, s.drop_last())[i]);
            } else {
                assert(matching_of(p, s)[i] == s.last());
            }
        }
    }
}

/// Law: every item delivered to a subscriber occurs in the stretch of the
/// source stream it was filtered from.
pub proof fn lemma_matching_from_source<T, P: Predicate<T>>(p: P, s: Seq<T>)
    ensures
        forall|i: int|
            0 <= i < matching_of(p, s).len() ==> s.contains(#[trigger] matching_of(p, s)[i]),
    decreases s.len(),
{
    if s.len() > 0 {
        lemma_matching_from_source(p, s.drop_last());
        assert forall|i: int| 0 <= i < matching_of(p, s).len() implies s.contains(
            #[trigger] matching_of(p, s)[i],
        ) by {
            if i < matching_of(p, s.drop_last()).len() {
                let x = matching_of(p, s.drop_last())[i];
                let j = choose|j: int| 0 <= j < s.drop_last().len() && s.drop_last()[j] == x;
                assert(s[j] == x);
            } else {
                assert(s[s.len() - 1] == matching_of(p, s)[i]);
            }
        }
    }
}

/// Law: filtering distributes over concatenation of source segments — the
/// items delivered over two consecutive stretches of the stream are the
/// deliveries of the first stretch followed by those of the second.
pub proof fn lemma_matching_concat<T, P: Predicate<T>>(p: P, a: Seq<T>, b: Seq<T>)
    ensures
        matching_of(p, a + b) == matching_of(p, a) + matching_of(p, b),
    decreases b.len(),
{
    if b.len() == 0 {
        assert(a + b =~= a);
        assert(matching_of(p, a) + matching_of(p, b) =~= matching_of(p, a));
    } else {
        lemma_matching_concat(p, a, b.drop_last());
        assert((a + b).drop_last() =~= a + b.drop_last());
        assert((a + b).last() == b.last());
        if p.spec_test(&b.last()) {
            assert(matching_of(p, a) + matching_of(p, b) =~= (matching_of(p, a) + matching_of(
                p,
                b.drop_last(),
            )).push(b.last()));
        }
    }
}

proof fn lemma_contains_push<A>(s: Seq<A>, x: A, y: A)
    ensures
        s.push(x).contains(y) <==> (s.contains(y) || y == x),
{
    if s.contains(y) {
        let i = choose|i: int| 0 <= i < s.len() && s[i] == y;
        assert(s.push(x)[i] == y);
    }
    assert(s.push(x)[s.len() as int] == x);
    if s.push(x).contains(y) && y != x {
        let i = choose|i: int| 0 <= i < s.push(x).len() && s.push(x)[i] == y;
        assert(s[i] == y);
    }
}

/// Law: eviction at clock reading `now` removes exactly the expired timed
/// subscriptions — none that survives is expired, every unexpired one
/// survives, and nothing that was not registered appears.
pub proof fn lemma_eviction_exact<T, P>(s: Seq<Subscription<T, P>>, now: u64)
    ensures
        forall|i: int|
            0 <= i < live_after(s, now).len() ==> !expired(#[trigger] live_after(s, now)[i], now),
        forall|j: int|
            0 <= j < s.len() && !expired(#[trigger] s[j], now) ==> live_after(s, now).contains(
                s[j],
            ),
        forall|i: int|
            0 <= i < live_after(s, now).len() ==> s.contains(#[trigger] live_after(s, now)[i]),
    decreases s.len(),
{
    if s.len() > 0 {
        let rest = s.drop_last();
        lemma_eviction_exact(rest, now);
        assert forall|j: int| 0 <= j < s.len() && !expired(#[trigger] s[j], now) implies live_after(
            s,
            now,
        ).contains(s[j]) by {
            if j < rest.len() {
                assert(rest[j] == s[j]);
                let i = choose|i: int|
                    0 <= i < live_after(rest, now).len() && live_after(rest, now)[i] == s[j];
                if expired(s.last(), now) {
                    assert(live_after(s, now)[i] == s[j]);
                } else {
                    lemma_contains_push(live_after(rest, now), s.last(), s[j]);
                }
            } else {
                assert(s[j] == s.last());
                assert(live_after(s, now).last() == s.last());
            }
        }
        assert forall|i: int| 0 <= i < live_after(s, now).len() implies s.contains(
            #[trigger] live_after(s, now)[i],
        ) by {
            let x = live_after(s, now)[i];
            if expired(s.last(), now) || i < live_after(rest, now).len() {
                assert(live_after(rest, now).contains(x) || x == s.last());
            }
            if live_after(rest, now).contains(x) {
                let j = choose|j: int| 0 <= j < rest.len() && rest[j] == x;
                assert(s[j] == x);
            } else {
                assert(s[s.len() - 1] == x);
            }
        }
    }
}

pub(crate) proof fn lemma_live_after_joined_bound<T, P>(
    s: Seq<Subscription<T, P>>,
    now: u64,
    bound: int,
)
    requires
        forall|i: int| 0 <= i < s.len() ==> (#[trigger] s[i]).joined@ <= bound,
    ensures
        forall|i: int|
            0 <= i < live_after(s, now).len() ==> (#[trigger] live_after(s, now)[i]).joined@
                <= bound,
    decreases s.len(),
{
    if s.len() > 0 {
        let rest = s.drop_last();
        lemma_live_after_joined_bound(rest, now, bound);
        assert forall|i: int| 0 <= i < live_after(s, now).len() implies (#[trigger] live_after(
            s,
            now,
        )[i]).joined@ <= bound by {
            if i < live_after(rest, now).len() {
                assert(live_after(s, now)[i] == live_after(rest, now)[i]);
            } else {
                assert(live_after(s, now)[i] == s.last());
                assert(s[s.len() - 1].joined@ <= bound);
            }
        }
    }
}

/// Law: a subscription that joined after the first `k` items of the stream
/// were consumed is never delivered any of those first `k` items — every
/// delivery stems from the part of the stream after its join point.
pub proof fn lemma_no_delivery_before_join<T, P: Predicate<T>>(
    s: Subscription<T, P>,
    consumed: Seq<T>,
)
    requires
        sub_wf(s, consumed),
    ensures
        forall|i: int|
            0 <= i < s.sent@.len() ==> consumed.skip(s.joined@).contains(#[trigger] s.sent@[i]),
        forall|i: int| 0 <= i < s.sent@.len() ==> s.pred.spec_test(&#[trigger] s.sent@[i]),
{
    lemma_matching_from_source(s.pred, consumed.skip(s.joined@));
    lemma_matching_accepted(s.pred, consumed.skip(s.joined@));
}

/// A subscription request without a deadline, as it travels from the
/// requester handle to the dispatcher.
#[verifier::reject_recursive_types(T)]
pub struct PlainRequest<T, P> {
    /// The subscriber's predicate.
    pub pred: P,
    /// Producer side of the subscriber's private delivery channel.
    pub out: Sender<T>,
}

/// A subscription request with a deadline, as it travels from the requester
/// handle to the dispatcher.
#[verifier::reject_recursive_types(T)]
pub struct TimedRequest<T, P> {
    /// Absolute expiry instant, in clock milliseconds, fixed at request time.
    pub deadline: u64,
    /// The subscriber's predicate.
    pub pred: P,
    /// Producer side of the subscriber's private delivery channel.
    pub out: Sender<T>,
}

/// Drain every immediately available request from the no-deadline arrival
/// queue into the registry. Each arrival joins at the current end of the
/// consumed stream with an empty delivery record; existing subscriptions are
/// untouched; the orphan latch is set, and never cleared, when the queue
/// reports that no requester handle remains. A practically unreachable
/// per-cycle bound on the number of arrivals makes the drain provably
/// terminating.
pub(crate) fn drain_plain<T, P: Predicate<T>>(
    queue: &Receiver<PlainRequest<T, P>>,
    subs: &mut Vec<Subscription<T, P>>,
    orphaned: &mut bool,
    Ghost(consumed): Ghost<Seq<T>>,
)
    requires
        forall|i: int| 0 <= i < old(subs)@.len() ==> sub_wf(#[trigger] old(subs)@[i], consumed),
    ensures
        old(subs)@.is_prefix_of(final(subs)@),
        forall|i: int|
            old(subs)@.len() <= i < final(subs)@.len() ==> fresh_sub(
                #[trigger] final(subs)@[i],
                consumed,
                None,
            ),
        forall|i: int| 0 <= i < final(subs)@.len() ==> sub_wf(#[trigger] final(subs)@[i], consumed),
        *old(orphaned) ==> *final(orphaned),
{
    let mut budget: u64 = u64::MAX;
    while budget > 0
        invariant
            old(subs)@.is_prefix_of(subs@),
            forall|i: int|
                old(subs)@.len() <= i < subs@.len() ==> fresh_sub(
                    #[trigger] subs@[i],
                    consumed,
                    None,
                ),
            forall|i: int| 0 <= i < subs@.len() ==> sub_wf(#[trigger] subs@[i], consumed),
            *old(orphaned) ==> *orphaned,
        decreases budget,
    {
        budget = budget - 1;
        match poll_channel(queue) {
            PollOutcome::Ready(req) => {
                let sub = Subscription {
                    pred: req.pred,
                    out: req.out,
                    deadline: None,
                    joined: Ghost(consumed.len() as int),
                    sent: Ghost(Seq::empty()),
                };
                proof {
                    assert(consumed.skip(consumed.len() as int) =~= Seq::<T>::empty());
                }
                subs.push(sub);
            },
            PollOutcome::NothingYet => {
                break ;
            },
            PollOutcome::Closed => {
                *orphaned = true;
                break ;
            },
        }
    }
}

/// Drain every immediately available request from the deadline arrival queue
/// into the timed registry, exactly as `drain_plain` does for the other
/// queue; each arrival keeps the deadline fixed at request time.
pub(crate) fn drain_timed<T, P: Predicate<T>>(
    queue: &Receiver<TimedRequest<T, P>>,
    subs: &mut Vec<Subscription<T, P>>,
    orphaned: &mut bool,
    Ghost(consumed): Ghost<Seq<T>>,
)
    requires
        forall|i: int| 0 <= i < old(subs)@.len() ==> sub_wf(#[trigger] old(subs)@[i], consumed),
    ensures
        old(subs)@.is_prefix_of(final(subs)@),
        forall|i: int|
            old(subs)@.len() <= i < final(subs)@.len() ==> (#[trigger] final(subs)@[i]).joined@
                == consumed.len() && final(subs)@[i].sent@ == Seq::<T>::empty()
                && final(subs)@[i].deadline is Some,
        forall|i: int| 0 <= i < final(subs)@.len() ==> sub_wf(#[trigger] final(subs)@[i], consumed),
        *old(orphaned) ==> *final(orphaned),
{
    let mut budget: u64 = u64::MAX;
    while budget > 0
        invariant
            old(subs)@.is_prefix_of(subs@),
            forall|i: int|
                old(subs)@.len() <= i < subs@.len() ==> (#[trigger] subs@[i]).joined@
                    == consumed.len() && subs@[i].sent@ == Seq::<T>::empty()
                    && subs@[i].deadline is Some,
            forall|i: int| 0 <= i < subs@.len() ==> sub_wf(#[trigger] subs@[i], consumed),
            *old(orphaned) ==> *orphaned,
        decreases budget,
    {
        budget = budget - 1;
        match poll_channel(queue) {
            PollOutcome::Ready(req) => {
                let sub = Subscription {
                    pred: req.pred,
                    out: req.out,
                    deadline: Some(req.deadline),
                    joined: Ghost(consumed.len() as int),
                    sent: Ghost(Seq::empty()),
                };
                proof {
                    assert(consumed.skip(consumed.len() as int) =~= Seq::<T>::empty());
                }
                subs.push(sub);
            },
            PollOutcome::NothingYet => {
                break ;
            },
            PollOutcome::Closed => {
                *orphaned = true;
                break ;
            },
        }
    }
}

/// Remove from the registry every subscription whose deadline lies strictly
/// before the clock reading `now`, keeping the rest in order and untouched.
/// Dropping an evicted subscription closes its delivery channel, which is
/// how a silent expiry reaches the subscriber.
pub(crate) fn evict_expired<T, P: Predicate<T>>(
    subs: &mut Vec<Subscription<T, P>>,
    now: u64,
    Ghost(consumed): Ghost<Seq<T>>,
)
    requires
        forall|i: int| 0 <= i < old(subs)@.len() ==> sub_wf(#[trigger] old(subs)@[i], consumed),
    ensures
        final(subs)@ == live_after(old(subs)@, now),
        forall|i: int| 0 <= i < final(subs)@.len() ==> sub_wf(#[trigger] final(subs)@[i], consumed),
        forall|i: int| 0 <= i < final(subs)@.len() ==> !expired(#[trigger] final(subs)@[i], now),
{
    let ghost orig = old(subs)@;
    let mut pending: Vec<Subscription<T, P>> = Vec::new();
    core::mem::swap(&mut *subs, &mut pending);
    let ghost mut k: int = 0;
    while pending.len() > 0
        invariant
            0 <= k <= orig.len(),
            pending@ == orig.skip(k),
            subs@ == live_after(orig.take(k), now),
            forall|i: int| 0 <= i < orig.len() ==> sub_wf(#[trigger] orig[i], consumed),
            forall|i: int| 0 <= i < subs@.len() ==> sub_wf(#[trigger] subs@[i], consumed),
            forall|i: int| 0 <= i < subs@.len() ==> !expired(#[trigger] subs@[i], now),
        decreases pending@.len(),
    {
        let s = pending.remove(0);
        proof {
            assert(orig.skip(k)[0] == orig[k]);
            assert(pending@ =~= orig.skip(k + 1));
            assert(orig.take(k + 1).drop_last() =~= orig.take(k));
            assert(orig.take(k + 1).last() == orig[k]);
        }
        let keep = match s.deadline {
            Some(d) => d >= now,
            None => true,
        };
        if keep {
            subs.push(s);
        }
        proof {
            k = k + 1;
        }
    }
    proof {
        assert(orig.skip(k).len() == 0);
        assert(orig.take(k) =~= orig);
    }
}

/// Fan one source item out over a registry: every subscription's predicate
/// is evaluated once against the item; on a match a clone of the item is
/// sent over that subscription's delivery channel, and the subscription is
/// dropped exactly when such a send fails (its consumer is gone); on a
/// mismatch the subscription is kept untouched. `kept` names, in order, the
/// old positions of the subscriptions that stay.
pub(crate) fn deliver_all<T: Clone, P: Predicate<T>>(
    subs: &mut Vec<Subscription<T, P>>,
    item: &T,
    Ghost(consumed): Ghost<Seq<T>>,
) -> (kept: Ghost<Seq<int>>)
    requires
        forall|i: int| 0 <= i < old(subs)@.len() ==> sub_wf(#[trigger] old(subs)@[i], consumed),
    ensures
        forall|i: int|
            0 <= i < final(subs)@.len() ==> sub_wf(#[trigger] final(subs)@[i], consumed.push(*item)),
        kept@.len() == final(subs)@.len(),
        forall|i: int| 0 <= i < kept@.len() ==> 0 <= #[trigger] kept@[i] < old(subs)@.len(),
        forall|i: int, j: int| 0 <= i < j < kept@.len() ==> kept@[i] < kept@[j],
        forall|i: int|
            0 <= i < kept@.len() ==> offered(old(subs)@[#[trigger] kept@[i]], final(subs)@[i], *item),
        forall|j: int|
            0 <= j < old(subs)@.len() && !kept@.contains(j) ==> (#[trigger] old(
                subs,
            )@[j]).pred.spec_test(item),
        fanned_from(old(subs)@, final(subs)@, *item),
{
    let ghost orig = old(subs)@;
    let mut pending: Vec<Subscription<T, P>> = Vec::new();
    core::mem::swap(&mut *subs, &mut pending);
    let ghost mut kept_idx: Seq<int> = Seq::empty();
    let ghost mut k: int = 0;
    while pending.len() > 0
        invariant
            0 <= k <= orig.len(),
            pending@ == orig.skip(k),
            kept_idx.len() == subs@.len(),
            forall|i: int| 0 <= i < kept_idx.len() ==> 0 <= #[trigger] kept_idx[i] < k,
            forall|i: int, j: int| 0 <= i < j < kept_idx.len() ==> kept_idx[i] < kept_idx[j],
            forall|i: int|
                0 <= i < kept_idx.len() ==> offered(orig[#[trigger] kept_idx[i]], subs@[i], *item),
            forall|i: int| 0 <= i < subs@.len() ==> sub_wf(#[trigger] subs@[i], consumed.push(*item)),
            forall|j: int|
                0 <= j < k && !kept_idx.contains(j) ==> (#[trigger] orig[j]).pred.spec_test(item),
            forall|i: int| 0 <= i < orig.len() ==> sub_wf(#[trigger] orig[i], consumed),
        decreases pending@.len(),
    {
        let s = pending.remove(0);
        proof {
            assert(orig.skip(k)[0] == orig[k]);
            assert(pending@ =~= orig.skip(k + 1));
            lemma_push_skip(consumed, s.joined@, *item);
            lemma_matching_push(s.pred, consumed.skip(s.joined@), *item);
        }
        let matched = s.pred.test(item);
        if matched {
            let copy = item.clone();
            let ok = send_value(&s.out, copy);
            if ok {
                let Subscription { pred, out, deadline, joined, sent } = s;
                let ghost new_sent = sent@.push(*item);
                let stayer = Subscription { pred, out, deadline, joined, sent: Ghost(new_sent) };
                subs.push(stayer);
                proof {
                    assert(offered(orig[k], stayer, *item));
                    assert forall|j: int|
                        0 <= j < k + 1 && !kept_idx.push(k).contains(j) implies (#[trigger] orig[j]).pred.spec_test(
                        item,
                    ) by {
                        lemma_contains_push(kept_idx, k, j);
                    }
                    kept_idx = kept_idx.push(k);
                }
            } else {
                proof {
                    assert forall|j: int|
                        0 <= j < k + 1 && !kept_idx.contains(j) implies (#[trigger] orig[j]).pred.spec_test(
                        item,
                    ) by {}
                }
            }
        } else {
            subs.push(s);
            proof {
                assert(offered(orig[k], s, *item));
                assert forall|j: int|
                    0 <= j < k + 1 && !kept_idx.push(k).contains(j) implies (#[trigger] orig[j]).pred.spec_test(
                    item,
                ) by {
                    lemma_contains_push(kept_idx, k, j);
                }
                kept_idx = kept_idx.push(k);
            }
        }
        proof {
            k = k + 1;
        }
    }
    proof {
        assert(orig.skip(k).len() == 0);
        lemma_fanned_from_witness(orig, subs@, *item, kept_idx);
    }
    Ghost(kept_idx)
}

} // verus!
