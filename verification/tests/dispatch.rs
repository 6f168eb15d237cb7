use relay::CycleOutcome;
use relay::NumberFilter;
use relay::Requester;
use std::sync::mpsc::TryRecvError;
use std::sync::mpsc::channel;

/// Spin until the millisecond clock has advanced past `instant`.
fn wait_until_after(instant: u64) {
    while clock_ticks::precise_time_ms() <= instant {}
}

/// Drive the dispatcher until it reports that it is finished.
fn run_to_end(dispatcher: &mut relay::Dispatcher<u64, NumberFilter>) {
    loop {
        match dispatcher.cycle() {
            CycleOutcome::SourceClosed | CycleOutcome::AllQuiet => break,
            CycleOutcome::Dispatched | CycleOutcome::SourceIdle => {}
        }
    }
}

#[test]
fn scenario_five_integers() {
    let (source_tx, source_rx) = channel();
    for item in 1u64..=5 {
        source_tx.send(item).unwrap();
    }
    drop(source_tx);

    let (requester, mut dispatcher, forward_rx) = Requester::new(source_rx);
    let evens = requester.request(NumberFilter::EvenOnly);
    let bigs = requester.request(NumberFilter::GreaterThan(10));
    let before_subscribe = clock_ticks::precise_time_ms();
    let expired = requester.request_timeout(0, NumberFilter::Anything);
    wait_until_after(before_subscribe + 2);

    run_to_end(&mut dispatcher);
    drop(dispatcher);

    assert_eq!(evens.try_recv(), Ok(2));
    assert_eq!(evens.try_recv(), Ok(4));
    assert_eq!(evens.try_recv(), Err(TryRecvError::Disconnected));

    assert_eq!(bigs.try_recv(), Err(TryRecvError::Disconnected));

    assert_eq!(expired.try_recv(), Err(TryRecvError::Disconnected));

    for item in 1u64..=5 {
        assert_eq!(forward_rx.try_recv(), Ok(item));
    }
    assert_eq!(forward_rx.try_recv(), Err(TryRecvError::Disconnected));
}

#[test]
fn late_subscriber_misses_earlier_items() {
    let (source_tx, source_rx) = channel();
    let (requester, mut dispatcher, _forward_rx) = Requester::new(source_rx);

    source_tx.send(1u64).unwrap();
    source_tx.send(2u64).unwrap();
    let mut turns: u32 = 0;
    loop {
        match dispatcher.cycle() {
            CycleOutcome::SourceIdle => break,
            _ => {}
        }
        turns += 1;
        assert!(turns < 100);
    }

    let late = requester.request(NumberFilter::Anything);
    source_tx.send(3u64).unwrap();
    source_tx.send(4u64).unwrap();
    drop(source_tx);
    run_to_end(&mut dispatcher);
    drop(dispatcher);

    assert_eq!(late.try_recv(), Ok(3));
    assert_eq!(late.try_recv(), Ok(4));
    assert_eq!(late.try_recv(), Err(TryRecvError::Disconnected));
}

#[test]
fn timed_subscriber_expires_before_match() {
    let (source_tx, source_rx) = channel();
    let (requester, mut dispatcher, _forward_rx) = Requester::new(source_rx);

    let before_subscribe = clock_ticks::precise_time_ms();
    let expired = requester.request_timeout(0, NumberFilter::Anything);
    wait_until_after(before_subscribe + 2);

    // The first turn drains the registration and immediately evicts it;
    // the subscriber sees its endpoint close while the dispatcher lives on.
    match dispatcher.cycle() {
        CycleOutcome::SourceIdle => {}
        _ => panic!("the source is open and empty"),
    }
    assert_eq!(expired.try_recv(), Err(TryRecvError::Disconnected));

    // A matching item arriving afterwards is not delivered to it.
    source_tx.send(7u64).unwrap();
    match dispatcher.cycle() {
        CycleOutcome::Dispatched => {}
        _ => panic!("one item was ready"),
    }
    assert_eq!(expired.try_recv(), Err(TryRecvError::Disconnected));
}

#[test]
fn source_close_terminates_the_dispatcher() {
    let (source_tx, source_rx) = channel();
    let (requester, mut dispatcher, _forward_rx) =
        Requester::<u64, NumberFilter>::new(source_rx);
    drop(source_tx);

    match dispatcher.cycle() {
        CycleOutcome::SourceClosed => {}
        _ => panic!("the source was closed before the first turn"),
    }
    drop(dispatcher);

    // A registration made after the dispatcher is gone is never picked up:
    // its endpoint closes without ever producing a value.
    let orphan = requester.request(NumberFilter::Anything);
    assert_eq!(orphan.try_recv(), Err(TryRecvError::Disconnected));
}

#[test]
fn orphaned_dispatcher_stops_while_source_open() {
    let (source_tx, source_rx) = channel();
    let (requester, mut dispatcher, forward_rx) =
        Requester::<u64, NumberFilter>::new(source_rx);
    drop(requester);
    drop(forward_rx);

    // One item lets the dispatcher notice that the forward endpoint is
    // gone; every handle is dropped, so it reports itself finished even
    // though the source stays open.
    source_tx.send(1u64).unwrap();
    match dispatcher.cycle() {
        CycleOutcome::AllQuiet => {}
        _ => panic!("nothing is left to serve"),
    }
}

#[test]
fn greater_than_is_strict() {
    let (source_tx, source_rx) = channel();
    for item in [3u64, 4, 10, 11] {
        source_tx.send(item).unwrap();
    }
    drop(source_tx);

    let (requester, mut dispatcher, _forward_rx) = Requester::new(source_rx);
    let bigs = requester.request(NumberFilter::GreaterThan(3));
    let over_ten = requester.request(NumberFilter::GreaterThan(10));
    run_to_end(&mut dispatcher);
    drop(dispatcher);

    assert_eq!(bigs.try_recv(), Ok(4));
    assert_eq!(bigs.try_recv(), Ok(10));
    assert_eq!(bigs.try_recv(), Ok(11));
    assert_eq!(bigs.try_recv(), Err(TryRecvError::Disconnected));

    assert_eq!(over_ten.try_recv(), Ok(11));
    assert_eq!(over_ten.try_recv(), Err(TryRecvError::Disconnected));
}

#[test]
fn deadline_is_fixed_at_request_time() {
    assert_eq!(relay::dispatch::deadline_after(5, 10), 15);
    assert_eq!(relay::dispatch::deadline_after(0, 0), 0);
    assert_eq!(relay::dispatch::deadline_after(u64::MAX - 1, 1), u64::MAX);
    assert_eq!(relay::dispatch::deadline_after(u64::MAX - 1, 7), u64::MAX);
    assert_eq!(relay::dispatch::deadline_after(u64::MAX, u64::MAX), u64::MAX);
}

#[test]
fn cloned_handle_reaches_the_same_dispatcher() {
    let (source_tx, source_rx) = channel();
    let (requester, mut dispatcher, _forward_rx) = Requester::new(source_rx);
    let twin = requester.clone();

    let evens = twin.request(NumberFilter::EvenOnly);
    source_tx.send(2u64).unwrap();
    drop(source_tx);
    run_to_end(&mut dispatcher);
    drop(dispatcher);

    assert_eq!(evens.try_recv(), Ok(2));
    assert_eq!(evens.try_recv(), Err(TryRecvError::Disconnected));
}
