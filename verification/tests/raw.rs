use tokio::sync::broadcast::error::TryRecvError;
use ws_client::raw::{
    overflow_after, raw_all_overflow_count, raw_overflow_count, reclaim_raw_buses, subscribe_raw,
    subscribe_raw_all, RawBuses, MAX_RAW_URLS, RAW_ALL_CAPACITY, RAW_BUS_CAPACITY,
};
use ws_client::transport::{ensure_slot, Transport};

#[test]
fn frames_say_where_they_came_from() {
    let mut transport = Transport::new();
    let slot = ensure_slot(&mut transport, 0, "u").unwrap();
    let mut at_url = subscribe_raw(transport.raw_mut(), "u").unwrap();
    let mut at_all = subscribe_raw_all(transport.raw_mut());
    let before = std::time::Instant::now();
    transport.mock_inject_raw(slot, b"{\"x\":1}".to_vec(), false);
    transport.mock_inject_raw(slot, vec![0xff], true);
    for receiver in [&mut at_url, &mut at_all] {
        let first = receiver.try_recv().unwrap();
        assert_eq!((first.url.as_str(), first.generation), ("u", slot));
        assert_eq!(first.payload, b"{\"x\":1}");
        assert!(!first.is_binary);
        assert!(first.ingress_at >= before);
        assert!(first.ingress_unix_ms > 1_600_000_000_000);
        let second = receiver.try_recv().unwrap();
        assert_eq!((second.payload.as_slice(), second.is_binary), ([0xff].as_slice(), true));
        assert!(matches!(receiver.try_recv(), Err(TryRecvError::Empty)));
    }
}

#[test]
fn traffic_opens_no_channel_and_late_observers_miss_the_past() {
    let mut transport = Transport::new();
    let slot = ensure_slot(&mut transport, 0, "u").unwrap();
    transport.mock_inject_raw(slot, b"a".to_vec(), false);
    assert_eq!(transport.raw().len(), 0);
    let mut observer = subscribe_raw(transport.raw_mut(), "u").unwrap();
    assert!(matches!(observer.try_recv(), Err(TryRecvError::Empty)));
    transport.mock_inject_raw(slot, b"b".to_vec(), false);
    assert_eq!(observer.try_recv().unwrap().payload, b"b");
    transport.client_mut(slot).unwrap().request_close();
    transport.mock_inject_raw(slot, b"c".to_vec(), false);
    assert!(matches!(observer.try_recv(), Err(TryRecvError::Empty)));
}

#[test]
fn what_does_not_decode_reaches_nobody() {
    let mut transport = Transport::new();
    let slot = ensure_slot(&mut transport, 0, "u").unwrap();
    let mut observer = subscribe_raw(transport.raw_mut(), "u").unwrap();
    transport.mock_inject_raw(slot, vec![0xff], false);
    assert!(matches!(observer.try_recv(), Err(TryRecvError::Empty)));
    assert!(transport.client(slot).unwrap().is_closed());
}

#[test]
fn observed_urls_are_limited() {
    let mut raw = RawBuses::new();
    let mut observers = Vec::new();
    for index in 0..MAX_RAW_URLS {
        observers.push(subscribe_raw(&mut raw, &format!("u{index}")).unwrap());
    }
    assert_eq!(
        subscribe_raw(&mut raw, "one more").err(),
        Some("[NetworkError] raw observer URL registry is full".to_owned())
    );
    assert!(subscribe_raw(&mut raw, "u0").is_ok(), "a URL that has a channel has a place");
    observers.pop();
    assert!(subscribe_raw(&mut raw, "one more").is_ok());
    assert_eq!(
        subscribe_raw(&mut raw, &"x".repeat(4097)).err(),
        Some("[NetworkError] raw observer URL exceeds limit".to_owned())
    );
}

#[test]
fn overflow_is_counted_where_the_channel_is_full() {
    assert_eq!(overflow_after(3, 63, 64), 3);
    assert_eq!(overflow_after(3, 64, 64), 4);
    assert_eq!(overflow_after(u64::MAX, 64, 64), 0);
    assert_eq!((RAW_BUS_CAPACITY, RAW_ALL_CAPACITY), (64, 256));
    let mut transport = Transport::new();
    let slot = ensure_slot(&mut transport, 0, "u").unwrap();
    assert_eq!(raw_all_overflow_count(transport.raw()), 0);
    let mut all = subscribe_raw_all(transport.raw_mut());
    let mut one = subscribe_raw(transport.raw_mut(), "u").unwrap();
    for _ in 0..RAW_ALL_CAPACITY + 2 {
        transport.mock_inject_raw(slot, b"1".to_vec(), false);
        transport.client_mut(slot).unwrap().next_message();
    }
    assert_eq!(raw_all_overflow_count(transport.raw()), 2);
    assert_eq!(raw_overflow_count(transport.raw(), "u"), (RAW_ALL_CAPACITY + 2 - RAW_BUS_CAPACITY) as u64);
    assert_eq!(raw_overflow_count(transport.raw(), "other"), 0);
    assert!(matches!(all.try_recv(), Err(TryRecvError::Lagged(2))));
    assert!(matches!(one.try_recv(), Err(TryRecvError::Lagged(194))));
}

#[test]
fn every_observer_hears_its_own_url_once() {
    let mut transport = Transport::new();
    let a = ensure_slot(&mut transport, 0, "a").unwrap();
    let b = ensure_slot(&mut transport, 0, "b").unwrap();
    let mut at_a = subscribe_raw(transport.raw_mut(), "a").unwrap();
    let mut also_at_a = subscribe_raw(transport.raw_mut(), "a").unwrap();
    let mut at_b = subscribe_raw(transport.raw_mut(), "b").unwrap();
    let mut at_all = subscribe_raw_all(transport.raw_mut());
    transport.mock_inject_raw(a, b"1".to_vec(), false);
    transport.mock_inject_raw(b, b"2".to_vec(), false);
    for (receiver, payloads) in [
        (&mut at_a, vec![b"1"]),
        (&mut also_at_a, vec![b"1"]),
        (&mut at_b, vec![b"2"]),
        (&mut at_all, vec![b"1", b"2"]),
    ] {
        for payload in payloads {
            assert_eq!(receiver.try_recv().unwrap().payload, payload);
        }
        assert!(matches!(receiver.try_recv(), Err(TryRecvError::Empty)));
    }
}

#[test]
fn a_url_that_loses_its_channel_counts_from_nothing() {
    let mut transport = Transport::new();
    let slot = ensure_slot(&mut transport, 0, "u").unwrap();
    let kept = subscribe_raw(transport.raw_mut(), "kept").unwrap();
    let unread = subscribe_raw(transport.raw_mut(), "u").unwrap();
    for _ in 0..RAW_BUS_CAPACITY + 3 {
        transport.mock_inject_raw(slot, b"1".to_vec(), false);
        transport.client_mut(slot).unwrap().next_message();
    }
    assert_eq!(raw_overflow_count(transport.raw(), "u"), 3);
    drop(unread);
    for _ in 0..2 {
        reclaim_raw_buses(transport.raw_mut());
        assert!(transport.raw().has_url("kept") && transport.raw().len() == 1);
        assert_eq!(raw_overflow_count(transport.raw(), "u"), 0);
    }
    drop(kept);
}

#[test]
fn reclaiming_goes_by_the_receivers() {
    let mut raw = RawBuses::new();
    let kept = subscribe_raw(&mut raw, "kept").unwrap();
    let lost = subscribe_raw(&mut raw, "lost").unwrap();
    drop(lost);
    reclaim_raw_buses(&mut raw);
    assert!(raw.has_url("kept") && !raw.has_url("lost"));
    raw.retain_observed(&vec![0]);
    assert!(!raw.has_url("kept"));
    drop(kept);
}
