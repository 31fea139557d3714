use ws_client::bounds::{INCOMING_CAPACITY, MAX_PAYLOAD_BYTES, OUTGOING_BYTES, OUTGOING_CAPACITY};
use ws_client::bridge::{
    client_field_live, client_value, value_open_flight, value_reject, value_reset, value_resolve,
    value_send, value_sub_field_write, value_subs_insert, value_subs_remove,
};
use ws_client::events::{Dial, Dialed, Inbound, NextMessage};
use ws_client::flight::{ws_await_flight, FlightStart, FlightStep};
use ws_client::json::parse_text;
use ws_client::lifecycle::{
    FailureSource, ScopeFailure, ScopeJoinReport, SocketError, TaskOutcome, Tasks, TASKS_PER_CLIENT,
};
use ws_client::outgoing::Message;
use ws_client::raw::{raw_overflow_count, reclaim_raw_buses, subscribe_raw, RAW_BUS_CAPACITY};
use ws_client::scope::{scope_id, ClientScope, JoinRun};
use ws_client::transport::{
    acquire_slot, client_generation, drop_client, ensure_slot, get_client, remove_exact, Transport,
};
use ws_client::value::Value;

fn text(text: &str) -> Value {
    Value::Str(text.to_owned())
}

fn connected(transport: &mut Transport, scope: &ClientScope, url: &str) -> u64 {
    let slot = ensure_slot(transport, scope.active(), url).unwrap();
    transport.finish_connect(slot, Dialed::Opened).unwrap();
    slot
}

fn await_tasks(transport: &mut Transport, slot: u64) {
    let client = transport.client_mut(slot).unwrap();
    while client.pending_tasks() > 0 {
        client.task_finished(TaskOutcome::Cancelled);
    }
}

fn join_all(transport: &mut Transport, mut run: JoinRun) -> ScopeJoinReport {
    while let Some(slot) = run.next() {
        await_tasks(transport, slot);
        run.absorb(transport, true);
    }
    run.finish(transport)
}

fn close(transport: &mut Transport, scope: &ClientScope) -> ScopeJoinReport {
    let run = scope.close_and_join(transport);
    join_all(transport, run)
}

fn message(next: NextMessage) -> Value {
    match next {
        NextMessage::Message(value) => value,
        _ => panic!("message before close"),
    }
}

#[test]
fn transport_roundtrip() {
    let mut transport = Transport::new();
    let url = "ws://127.0.0.1:1";
    let slot = ensure_slot(&mut transport, 0, url).unwrap();
    transport.finish_connect(slot, Dialed::Opened).unwrap();
    let client = transport.client_mut(slot).unwrap();
    assert!(client.subscribe_once("ticker:BTC/USDT", Value::Null));
    assert!(!client.subscribe_once("ticker:BTC/USDT", Value::Null));
    assert!(client.send_text("{\"op\":\"subscribe\",\"channel\":\"ticker\"}".to_string()));
    assert!(matches!(
        client.next_outgoing(),
        Some(Message::Text(sent)) if sent.contains("subscribe")
    ));
    for px in ["100.5", "101.0", "101.5"] {
        let frame =
            format!("{{\"channel\":\"ticker\",\"symbol\":\"BTC/USDT\",\"last\":\"{px}\"}}");
        assert!(transport.on_inbound(slot, Inbound::Text(frame.into_bytes())));
    }
    let client = transport.client_mut(slot).unwrap();
    let mut lasts = Vec::new();
    while lasts.len() < 3 {
        let msg = message(client.next_message());
        if let Some(last) = msg.text_field("last") {
            client.resolve("ticker", Value::Str(last));
        }
        if let Some(Ok(Value::Str(v))) = client.take_settled(&["ticker".to_string()]) {
            lasts.push(v);
        }
    }
    assert_eq!(lasts, vec!["100.5", "101.0", "101.5"]);
    let subs = client.subscriptions_value();
    assert_eq!(subs.field("ticker:BTC/USDT"), Some(&Value::Bool(true)));
    drop_client(&mut transport, 0, url);
    assert!(get_client(&transport, url).is_none());
}

#[test]
fn scoped_join_observes_three_tasks_and_peer_eof() {
    let mut transport = Transport::new();
    let url = "ws://peer";
    let scope = ClientScope::new(&mut transport);
    let client = connected(&mut transport, &scope, url);
    assert_eq!(transport.client(client).unwrap().pending_tasks(), 3);
    let report = close(&mut transport, &scope);
    assert!(report.all_joined(), "{report:?}");
    assert!(report.cleanup_complete);
    assert_eq!(report.clients, 1);
    assert_eq!(report.tasks_joined, 3);
    assert_eq!(transport.client(client).unwrap().pending_tasks(), 0);
    assert!(get_client(&transport, url).is_none());
    assert_eq!(client_generation(&transport, url), None);
}

#[test]
fn cancelled_join_retains_handles_and_retry_observes_them() {
    let mut transport = Transport::new();
    let scope = ClientScope::new(&mut transport);
    let client = connected(&mut transport, &scope, "ws://peer");
    let joining = scope.close_and_join(&mut transport);
    assert_eq!(joining.next(), Some(client));
    let cancelled = joining.finish(&mut transport);
    assert!(!cancelled.cleanup_complete);
    assert_eq!(transport.client(client).unwrap().pending_tasks(), 3);
    let report = close(&mut transport, &scope);
    assert!(report.all_joined(), "{report:?}");
    assert_eq!(report.tasks_joined, 3);
}

#[test]
fn concurrent_join_is_idempotent() {
    let mut transport = Transport::new();
    let scope = ClientScope::new(&mut transport);
    connected(&mut transport, &scope, "ws://peer");
    let a = scope.close_and_join(&mut transport);
    let b = scope.close_and_join(&mut transport);
    let (a, b) = (join_all(&mut transport, a), join_all(&mut transport, b));
    assert!(a.all_joined() && b.all_joined(), "{a:?} {b:?}");
    assert_eq!(a.tasks_joined, 3);
    assert_eq!(b.tasks_joined, 3);
}

#[test]
fn timeout_is_not_success_and_retry_can_join() {
    let mut transport = Transport::new();
    let scope = ClientScope::new(&mut transport);
    let client = connected(&mut transport, &scope, "ws://peer");
    let mut run = scope.close_and_join(&mut transport);
    run.absorb(&mut transport, false);
    let report = run.finish(&mut transport);
    assert!(report.timed_out && !report.all_joined());
    assert!(!report.cleanup_complete);
    let report = close(&mut transport, &scope);
    assert!(report.all_joined(), "{report:?}");
    assert_eq!(report.tasks_joined, 3);
    assert!(transport.client(client).unwrap().is_closed());
}

#[test]
fn foreign_scope_rejected_without_poison_or_cancellation() {
    let mut transport = Transport::new();
    let url = "ws://peer";
    let first = ClientScope::new(&mut transport);
    let client = connected(&mut transport, &first, url);
    let second = ClientScope::new(&mut transport);
    assert_eq!(
        ensure_slot(&mut transport, second.active(), url),
        Err("[NetworkError] WebSocket URL belongs to another owner".to_owned())
    );
    assert_eq!(
        acquire_slot(&mut transport, 0, url),
        Err("[NetworkError] WebSocket URL belongs to a scoped owner".to_owned())
    );
    assert!(!transport.client(client).unwrap().is_closed());
    assert_eq!(get_client(&transport, url).unwrap().generation(), client);
    assert_eq!(close(&mut transport, &second).clients, 0);
    assert!(transport.client_mut(client).unwrap().send_text("still-owned".to_owned()));
    assert!(close(&mut transport, &first).all_joined());
}

#[test]
fn scope_cancels_pending_handshake_before_first_frame() {
    let mut transport = Transport::new();
    let scope = ClientScope::new(&mut transport);
    let slot = ensure_slot(&mut transport, scope.active(), "ws://peer").unwrap();
    assert!(matches!(transport.client(slot).unwrap().dial(None), Ok(Dial::Direct)));
    scope.request_close(&mut transport);
    assert_eq!(
        transport.finish_connect(slot, Dialed::Opened),
        Err("[NetworkError] client closed during connect".to_owned())
    );
    let report = close(&mut transport, &scope);
    assert!(report.all_joined(), "{report:?}");
    assert_eq!(report.clients, 1);
    assert_eq!(report.tasks_joined, 0);
}

#[test]
fn scope_drop_releases_socket_without_claiming_join() {
    let mut transport = Transport::new();
    let url = "ws://peer";
    let scope = ClientScope::new(&mut transport);
    let client = connected(&mut transport, &scope, url);
    scope.release(&mut transport);
    assert!(transport.client(client).unwrap().is_closed());
    assert!(get_client(&transport, url).is_none());
    let run = transport.close_and_join(client);
    assert_eq!(join_all(&mut transport, run).tasks_joined, 3);
    assert!(transport.retire(client));
    assert!(transport.client(client).is_none());
}

#[test]
fn old_generation_cannot_remove_replacement_and_raw_observer_survives() {
    let mut transport = Transport::new();
    let url = "fixture-generation-replacement";
    let mut raw = subscribe_raw(transport.raw_mut(), url).unwrap();
    let scope = ClientScope::new(&mut transport);
    let old = ensure_slot(&mut transport, scope.active(), url).unwrap();
    transport.mock_inject_raw(old, b"old".to_vec(), false);
    assert_eq!(raw.try_recv().unwrap().generation, old);
    let run = transport.close_and_join(old);
    assert!(join_all(&mut transport, run).all_joined());
    let new = ensure_slot(&mut transport, scope.active(), url).unwrap();
    assert_ne!(old, new);
    let run = transport.close_and_join(old);
    assert!(join_all(&mut transport, run).all_joined());
    assert_eq!(get_client(&transport, url).unwrap().generation(), new);
    transport.mock_inject_raw(new, b"new".to_vec(), false);
    let frame = raw.try_recv().unwrap();
    assert_eq!((frame.generation, frame.payload.as_slice()), (new, b"new".as_slice()));
    assert!(close(&mut transport, &scope).all_joined());
    drop(raw);
    reclaim_raw_buses(transport.raw_mut());
    assert!(!transport.raw().has_url(url));
}

#[test]
fn outgoing_frame_count_and_bytes_are_independent_terminal_limits() {
    for (url, payload, accepted, error) in [
        ("fixture-out-count", "x".to_owned(), OUTGOING_CAPACITY, "queue"),
        (
            "fixture-out-bytes",
            "x".repeat(MAX_PAYLOAD_BYTES),
            OUTGOING_BYTES / MAX_PAYLOAD_BYTES,
            "byte",
        ),
        ("fixture-out-payload", "x".repeat(MAX_PAYLOAD_BYTES + 1), 0, "payload"),
    ] {
        let mut transport = Transport::new();
        let scope = ClientScope::new(&mut transport);
        let slot = ensure_slot(&mut transport, scope.active(), url).unwrap();
        let client = transport.client_mut(slot).unwrap();
        for _ in 0..accepted {
            assert!(client.send_text(payload.clone()));
        }
        assert!(!client.send_text(payload));
        assert!(client.terminal_error().unwrap().contains(error));
        assert!(client.is_closed());
        assert_eq!(client.outgoing_available(), OUTGOING_BYTES);
        assert!(!close(&mut transport, &scope).all_joined());
    }
}

#[test]
fn incoming_overflow_is_not_successful_empty() {
    let mut transport = Transport::new();
    let scope = ClientScope::new(&mut transport);
    let slot =
        ensure_slot(&mut transport, scope.active(), "fixture-incoming-overflow").unwrap();
    let client = transport.client_mut(slot).unwrap();
    for _ in 0..=INCOMING_CAPACITY {
        client.mock_inject(Value::Null);
    }
    assert!(client.is_closed());
    assert!(client.terminal_error().unwrap().contains("capacity"));
    assert!(matches!(client.next_message(), NextMessage::Failed(error) if error.contains("capacity")));
    assert!(!close(&mut transport, &scope).all_joined());
}

#[test]
fn raw_churn_reclaims_keys_without_breaking_live_observer() {
    let mut transport = Transport::new();
    let live = subscribe_raw(transport.raw_mut(), "fixture-raw-live").unwrap();
    for index in 0..1024 {
        let url = format!("fixture-raw-churn-{index}");
        drop(subscribe_raw(transport.raw_mut(), &url).unwrap());
    }
    reclaim_raw_buses(transport.raw_mut());
    assert!(transport.raw().has_url("fixture-raw-live"));
    assert_eq!(transport.raw().len(), 1);
    drop(live);
    reclaim_raw_buses(transport.raw_mut());
    assert_eq!(transport.raw().len(), 0);
}

#[test]
fn raw_overflow_reports_lag_and_payload_cap_is_not_bypassed() {
    let mut transport = Transport::new();
    let scope = ClientScope::new(&mut transport);
    let url = "fixture-raw-overflow";
    let slot = ensure_slot(&mut transport, scope.active(), url).unwrap();
    let mut raw = subscribe_raw(transport.raw_mut(), url).unwrap();
    for _ in 0..=RAW_BUS_CAPACITY {
        transport.mock_inject_raw(slot, b"pong".to_vec(), false);
        let client = transport.client_mut(slot).unwrap();
        assert!(matches!(client.next_message(), NextMessage::Message(_)));
    }
    assert_eq!(raw_overflow_count(transport.raw(), url), 1);
    assert!(matches!(
        raw.try_recv(),
        Err(tokio::sync::broadcast::error::TryRecvError::Lagged(1))
    ));
    transport.mock_inject_raw(slot, vec![0; MAX_PAYLOAD_BYTES + 1], true);
    assert!(transport.client(slot).unwrap().terminal_error().unwrap().contains("payload"));
    assert!(!close(&mut transport, &scope).all_joined());
}

#[test]
fn internal_panic_is_joined_but_not_reported_as_success() {
    let mut tasks = Tasks::new();
    tasks.start(1);
    tasks.finish(TaskOutcome::Panicked("task 9 panicked".to_owned()));
    let mut report = ScopeJoinReport::open(1, true);
    report.add_client(&tasks, None, true);
    assert_eq!(report.tasks_joined, 1);
    assert!(!report.all_joined() && !report.timed_out);
    assert!(report.failures[0].message.contains("panic"));
}

#[test]
fn a_panicked_task_is_joined_beside_the_others() {
    let mut transport = Transport::new();
    let scope = ClientScope::new(&mut transport);
    let slot = connected(&mut transport, &scope, "fixture-internal-panic");
    let mut run = scope.close_and_join(&mut transport);
    let client = transport.client_mut(slot).unwrap();
    client.task_finished(TaskOutcome::Panicked("task 9 panicked".to_owned()));
    client.task_finished(TaskOutcome::Cancelled);
    client.task_finished(TaskOutcome::Finished);
    run.absorb(&mut transport, true);
    let report = run.finish(&mut transport);
    assert_eq!(report.tasks_joined, 3);
    assert!(!report.all_joined() && !report.timed_out);
    assert!(report.failures[0].message.contains("panic"));
    assert_eq!(report.failures[0].source, FailureSource::TaskPanic);
    assert!(report.cleanup_complete);
}

#[test]
fn spare_payload_capacity_cannot_bypass_retained_byte_limits() {
    let mut transport = Transport::new();
    let scope = ClientScope::new(&mut transport);
    let outgoing = ensure_slot(&mut transport, scope.active(), "fixture-spare-outgoing").unwrap();
    let outgoing = transport.client_mut(outgoing).unwrap();
    let mut text = String::with_capacity(OUTGOING_BYTES + 1);
    text.push('x');
    assert!(!outgoing.send_text(text));
    assert!(outgoing.terminal_error().unwrap().contains("byte budget"));

    let incoming = ensure_slot(&mut transport, scope.active(), "fixture-spare-raw").unwrap();
    let mut raw = subscribe_raw(transport.raw_mut(), "fixture-spare-raw").unwrap();
    let mut bytes = Vec::with_capacity(OUTGOING_BYTES + 1);
    bytes.extend_from_slice(b"pong");
    transport.mock_inject_raw(incoming, bytes, false);
    let frame = raw.try_recv().unwrap();
    assert_eq!(frame.payload.capacity(), frame.payload.len());
    assert_eq!(frame.payload, b"pong");
    assert!(!close(&mut transport, &scope).all_joined());
}

#[test]
fn stale_value_handles_and_subscription_references_cannot_mutate_replacement() {
    let mut transport = Transport::new();
    let scope = ClientScope::new(&mut transport);
    let active = scope.active();
    let url = "fixture-stale-value-handle";
    let old = ensure_slot(&mut transport, active, url).unwrap();
    transport.client_mut(old).unwrap().set_subscription("channel", parse_text("{}"));
    let handle = client_value(&mut transport, active, url).unwrap();
    let old_subscriptions = transport.client(old).unwrap().subscriptions_value();
    let reference = transport.client(old).unwrap().reference();
    let field_reference = serde_json::to_string(&(&reference, "channel")).unwrap();
    let future = value_open_flight(&mut transport, active, &handle, &text("flight"));
    let run = transport.close_and_join(old);
    assert!(join_all(&mut transport, run).all_joined());
    let new = ensure_slot(&mut transport, active, url).unwrap();
    let client = transport.client_mut(new).unwrap();
    client.set_subscription("keep", Value::Bool(true));
    client.flight_begin("flight");
    for stale in [&handle, &future] {
        value_resolve(&mut transport, active, stale, &[Value::Int(1), text("flight")]);
        value_reject(&mut transport, active, stale, &[text("bad"), text("flight")]);
        value_send(&mut transport, active, stale, &[text("unexpected")]);
        value_reset(&mut transport, active, stale);
        value_open_flight(&mut transport, active, stale, &text("unwanted"));
    }
    value_subs_insert(&mut transport, active, &reference, "new", Value::Bool(true));
    value_subs_remove(&mut transport, active, &reference, "keep");
    value_sub_field_write(&mut transport, active, &field_reference, "changed", Value::Bool(true));
    let client = transport.client_mut(new).unwrap();
    assert!(client.take_settled(&["flight".into()]).is_none());
    assert!(client.flight_peek("flight").is_none());
    assert!(client.is_subscribed("keep"));
    assert!(!client.is_subscribed("new") && !client.is_subscribed("channel"));
    assert!(!client.flight_is_open("unwanted"));
    assert_eq!(client.outgoing_available(), OUTGOING_BYTES);
    assert!(matches!(
        ws_await_flight(&transport, active, &future),
        FlightStart::Settled(FlightStep::Done(Value::Null))
    ));
    assert_eq!(client_field_live(&transport, active, &reference, "subscriptions"), parse_text("{}"));
    assert_ne!(old_subscriptions, transport.client(new).unwrap().subscriptions_value());
    let fresh = client_value(&mut transport, active, url).unwrap();
    value_resolve(&mut transport, active, &fresh, &[Value::Int(2), text("flight")]);
    assert_eq!(
        transport.client_mut(new).unwrap().take_settled(&["flight".into()]),
        Some(Ok(Value::Int(2)))
    );
    assert!(close(&mut transport, &scope).all_joined());
}

#[test]
fn value_handle_from_foreign_live_scope_is_not_routable() {
    let mut transport = Transport::new();
    let owner = ClientScope::new(&mut transport);
    let url = "fixture-live-foreign-handle";
    let handle = client_value(&mut transport, owner.active(), url).unwrap();
    let foreign = ClientScope::new(&mut transport);
    value_send(&mut transport, foreign.active(), &handle, &[text("not-owned")]);
    value_resolve(&mut transport, foreign.active(), &handle, &[Value::Int(1), text("hash")]);
    let client = transport.live_mut(url).unwrap();
    assert_eq!(client.outgoing_available(), OUTGOING_BYTES);
    assert!(client.take_settled(&["hash".into()]).is_none());
    assert!(close(&mut transport, &owner).all_joined());
}

#[test]
fn mock_capture_has_an_aggregate_byte_budget() {
    let mut transport = Transport::new();
    let scope = ClientScope::new(&mut transport);
    let slot = ensure_slot(&mut transport, scope.active(), "fixture-mock-byte-bound").unwrap();
    let client = transport.client_mut(slot).unwrap();
    client.mock_enable();
    for _ in 0..5 {
        if !client.send_text("x".repeat(MAX_PAYLOAD_BYTES)) {
            break;
        }
    }
    assert!(client.terminal_error().unwrap().contains("mock capture byte budget"));
    assert!(
        matches!(client.mock_sent_value(), Value::Arr(sent) if sent.len() < OUTGOING_CAPACITY)
    );
    assert!(!close(&mut transport, &scope).all_joined());
}

#[test]
fn registry_and_owner_have_their_limits() {
    let mut transport = Transport::new();
    let owner = ClientScope::new(&mut transport);
    for index in 0..256 {
        ensure_slot(&mut transport, owner.active(), &format!("owned-{index}")).unwrap();
    }
    assert_eq!(
        acquire_slot(&mut transport, owner.active(), "one-more"),
        Err("[NetworkError] WebSocket owner generation limit".to_owned())
    );
    assert_eq!(acquire_slot(&mut transport, owner.active(), "owned-0"), Ok(1));
    for index in 0..768 {
        ensure_slot(&mut transport, 0, &format!("free-{index}")).unwrap();
    }
    assert_eq!(
        acquire_slot(&mut transport, 0, "too-many"),
        Err("[NetworkError] WebSocket registry limit".to_owned())
    );
    let other = ClientScope::new(&mut transport);
    assert_eq!(
        acquire_slot(&mut transport, other.active(), "too-many"),
        Err("[NetworkError] WebSocket registry limit".to_owned())
    );
    drop_client(&mut transport, 0, "free-0");
    assert!(acquire_slot(&mut transport, other.active(), "too-many").is_ok());
}

#[test]
fn closed_and_unknown_owners_acquire_nothing() {
    let mut transport = Transport::new();
    let scope = ClientScope::new(&mut transport);
    let slot = ensure_slot(&mut transport, scope.active(), "u").unwrap();
    scope.request_close(&mut transport);
    assert!(transport.client(slot).unwrap().is_closed());
    for (active, url) in [(scope.active(), "u"), (scope.active(), "v"), (77, "v")] {
        assert_eq!(
            acquire_slot(&mut transport, active, url),
            Err("[NetworkError] WebSocket owner is closed".to_owned())
        );
    }
    assert_eq!(
        acquire_slot(&mut transport, 0, &"x".repeat(4097)),
        Err("[NetworkError] WebSocket URL exceeds limit".to_owned())
    );
    assert!(acquire_slot(&mut transport, 0, &"x".repeat(4096)).is_ok());
    assert_eq!((scope_id(Some(scope.active())), scope_id(None)), (scope.active(), 0));
}

#[test]
fn a_closed_client_is_replaced_and_an_open_one_is_kept() {
    let mut transport = Transport::new();
    let first = ensure_slot(&mut transport, 0, "u").unwrap();
    assert_eq!(ensure_slot(&mut transport, 0, "u"), Ok(first));
    transport.client_mut(first).unwrap().request_close();
    assert_eq!(client_generation(&transport, "u"), None);
    let second = ensure_slot(&mut transport, 0, "u").unwrap();
    assert_eq!((first, second), (1, 2));
    assert_eq!(client_generation(&transport, "u"), Some(second));
    remove_exact(&mut transport, first);
    assert_eq!(client_generation(&transport, "u"), Some(second));
    assert!(!transport.retire(second));
    assert!(transport.retire(first));
    remove_exact(&mut transport, second);
    assert_eq!(client_generation(&transport, "u"), None);
    assert!(transport.has_generations());
}

#[test]
fn dropping_a_client_is_for_its_owner() {
    let mut transport = Transport::new();
    let scope = ClientScope::new(&mut transport);
    let slot = ensure_slot(&mut transport, scope.active(), "u").unwrap();
    drop_client(&mut transport, 0, "u");
    assert_eq!(client_generation(&transport, "u"), Some(slot));
    drop_client(&mut transport, scope.active(), "u");
    assert_eq!(client_generation(&transport, "u"), None);
    assert!(transport.client(slot).unwrap().is_closed());
    assert!(!transport.retire(slot), "its owner still knows it");
}

#[test]
fn dialing_depends_on_the_state_and_the_proxy() {
    let mut transport = Transport::new();
    let slot = ensure_slot(&mut transport, 0, "u").unwrap();
    let client = transport.client(slot).unwrap();
    assert!(matches!(client.dial(Some(String::new())), Ok(Dial::Direct)));
    assert!(matches!(client.dial(Some("http://p".to_owned())), Ok(Dial::Proxy(p)) if p == "http://p"));
    for (dialed, message) in [
        (Dialed::Closing, "[NetworkError] client closed during connect"),
        (Dialed::DeadlineExceeded, "[NetworkError] connect deadline exceeded"),
        (Dialed::Failed("[NetworkError] ws connect: no".to_owned()), "[NetworkError] ws connect: no"),
    ] {
        assert_eq!(transport.finish_connect(slot, dialed), Err(message.to_owned()));
    }
    assert_eq!(transport.finish_connect(slot, Dialed::Opened), Ok(()));
    assert_eq!(transport.client(slot).unwrap().pending_tasks(), TASKS_PER_CLIENT);
    assert!(matches!(transport.client(slot).unwrap().dial(None), Ok(Dial::Ready)));
    assert_eq!(
        transport.finish_connect(slot, Dialed::Opened),
        Err("[NetworkError] slot has no writer channel".to_owned())
    );
    transport.client_mut(slot).unwrap().request_close();
    assert!(matches!(
        transport.client(slot).unwrap().dial(None),
        Err(message) if message == "[NetworkError] client closed before connect"
    ));
    assert!(transport.finish_connect(99, Dialed::Opened).is_err());
}

#[test]
fn failures_are_typed_by_what_failed() {
    for (error, source) in [
        (SocketError::Io, FailureSource::TransportTerminal),
        (SocketError::ConnectionClosed, FailureSource::TransportTerminal),
        (SocketError::AlreadyClosed, FailureSource::TransportTerminal),
        (SocketError::ResetWithoutClosingHandshake, FailureSource::TransportTerminal),
        (SocketError::Other, FailureSource::Internal),
    ] {
        let mut transport = Transport::new();
        let slot = ensure_slot(&mut transport, 0, "u").unwrap();
        assert!(!transport.on_inbound(slot, Inbound::Failed(error, "why".to_owned())));
        let run = transport.close_and_join(slot);
        let report = join_all(&mut transport, run);
        assert_eq!(
            report.failures,
            vec![ScopeFailure { source, message: "[NetworkError] reader: why".to_owned() }]
        );
        assert!(report.cleanup_complete && !report.all_joined());
    }
}

#[test]
fn the_first_failure_is_told_and_one_later_internal_one_is_retained() {
    let mut transport = Transport::new();
    let slot = ensure_slot(&mut transport, 0, "u").unwrap();
    assert!(!transport.on_inbound(slot, Inbound::End));
    let client = transport.client_mut(slot).unwrap();
    client.fail(FailureSource::Internal, "second".to_owned());
    client.fail(FailureSource::Internal, "third".to_owned());
    client.writer_failed(SocketError::Io, "fourth");
    assert_eq!(client.terminal_error().as_deref(), Some("[NetworkError] reader reached EOF"));
    let run = transport.close_and_join(slot);
    let report = join_all(&mut transport, run);
    let told: Vec<_> = report.failures.iter().map(|f| (f.source, f.message.as_str())).collect();
    assert_eq!(
        told,
        vec![
            (FailureSource::Internal, "second"),
            (FailureSource::TransportTerminal, "[NetworkError] reader reached EOF"),
        ]
    );
}

#[test]
fn the_reader_answers_what_the_socket_brings() {
    let mut transport = Transport::new();
    let slot = ensure_slot(&mut transport, 0, "u").unwrap();
    transport.finish_connect(slot, Dialed::Opened).unwrap();
    transport.client_mut(slot).unwrap().on_pong_at(1);
    assert!(transport.on_inbound(slot, Inbound::Pong));
    assert!(transport.client(slot).unwrap().last_pong_ms() > 1);
    assert!(transport.on_inbound(slot, Inbound::Other));
    assert!(transport.on_inbound(slot, Inbound::Ping(vec![1, 2])));
    assert!(transport.on_inbound(slot, Inbound::Binary(b"[5]".to_vec())));
    let client = transport.client_mut(slot).unwrap();
    assert!(matches!(client.next_outgoing(), Some(Message::Pong(bytes)) if bytes == [1, 2]));
    assert!(client.outgoing_available() < OUTGOING_BYTES, "a frame is charged while it is written");
    client.release_outgoing();
    assert_eq!(client.outgoing_available(), OUTGOING_BYTES);
    assert!(client.keep_alive());
    assert!(matches!(client.next_outgoing(), Some(Message::Ping(bytes)) if bytes.is_empty()));
    assert!(client.next_outgoing().is_none());
    assert_eq!(message(client.next_message()), parse_text("[5]"));
    assert!(matches!(client.next_message(), NextMessage::Wait));
    assert_eq!(client.message_budget_ms(), None);
    assert!(!transport.on_inbound(slot, Inbound::Close));
    let client = transport.client_mut(slot).unwrap();
    assert!(matches!(client.next_message(), NextMessage::Ended));
    assert!(!client.keep_alive());
    assert!(client.terminal_error().is_none());
    assert!(!transport.on_inbound(99, Inbound::Other));
}

#[test]
fn the_writer_says_why_it_failed() {
    let mut transport = Transport::new();
    let slot = ensure_slot(&mut transport, 0, "u").unwrap();
    let client = transport.client_mut(slot).unwrap();
    client.writer_failed(SocketError::Other, "broken pipe");
    assert_eq!(client.terminal_error().as_deref(), Some("[NetworkError] writer: broken pipe"));
    assert!(client.is_closed());
}

#[test]
fn a_backlog_outlives_a_close_but_not_a_failure() {
    let mut transport = Transport::new();
    let slot = ensure_slot(&mut transport, 0, "u").unwrap();
    let client = transport.client_mut(slot).unwrap();
    client.mock_inject(Value::Int(1));
    client.mock_inject(Value::Int(2));
    client.request_close();
    client.request_close();
    client.mock_inject(Value::Int(3));
    assert_eq!(message(client.next_message()), Value::Int(1));
    assert!(client.has_queued_messages());
    client.fail(FailureSource::Internal, "over".to_owned());
    assert!(matches!(client.next_message(), NextMessage::Failed(error) if error == "over"));
}

#[test]
fn reports_start_out_empty() {
    let report = ScopeJoinReport::default();
    assert!(report.all_joined() && !report.cleanup_complete);
    assert_eq!(report.clone(), ScopeJoinReport::open(0, false));
    let mut transport = Transport::new();
    let scope = ClientScope::new(&mut transport);
    let report = close(&mut transport, &scope);
    assert!(report.cleanup_complete && report.all_joined());
    assert_eq!(report.clients, 0);
}

#[test]
fn a_timeout_keeps_later_clients_registered() {
    let mut transport = Transport::new();
    let scope = ClientScope::new(&mut transport);
    let first = ensure_slot(&mut transport, scope.active(), "a").unwrap();
    let second = ensure_slot(&mut transport, scope.active(), "b").unwrap();
    let mut run = scope.close_and_join(&mut transport);
    assert_eq!(run.next(), Some(first));
    run.absorb(&mut transport, false);
    assert_eq!(run.next(), Some(second));
    run.absorb(&mut transport, true);
    assert_eq!(run.next(), None);
    let report = run.finish(&mut transport);
    assert!(report.timed_out && !report.cleanup_complete);
    scope.release(&mut transport);
    assert_eq!(acquire_slot(&mut transport, 0, "a"), Ok(3));
    assert_eq!(acquire_slot(&mut transport, 0, "b"), Ok(4));
    assert!(transport.retire(first) && transport.retire(second));
}

#[test]
fn a_connected_client_is_used_again() {
    let mut transport = Transport::new();
    let scope = ClientScope::new(&mut transport);
    let slot = connected(&mut transport, &scope, "u");
    assert_eq!(acquire_slot(&mut transport, scope.active(), "u"), Ok(slot));
    let client = transport.client(slot).unwrap();
    assert!(matches!(client.dial(None), Ok(Dial::Ready)));
    assert_eq!(
        transport.finish_connect(slot, Dialed::Opened),
        Err("[NetworkError] slot has no writer channel".to_owned())
    );
    assert_eq!(close(&mut transport, &scope).tasks_joined, 3);
}

#[test]
fn a_replaced_client_is_joined_again() {
    let mut transport = Transport::new();
    let old = ensure_slot(&mut transport, 0, "u").unwrap();
    transport.finish_connect(old, Dialed::Opened).unwrap();
    let mut run = transport.close_and_join(old);
    for _ in 0..3 {
        transport.client_mut(old).unwrap().task_finished(TaskOutcome::Cancelled);
    }
    run.absorb(&mut transport, true);
    let first = run.finish(&mut transport);
    let new = ensure_slot(&mut transport, 0, "u").unwrap();
    assert!(new > old);
    let mut run = transport.close_and_join(old);
    run.absorb(&mut transport, true);
    let again = run.finish(&mut transport);
    assert_eq!(again, first);
    assert_eq!((again.tasks_joined, again.all_joined()), (3, true));
    assert_eq!(client_generation(&transport, "u"), Some(new));
}

#[test]
fn a_closed_owner_never_acquires_again() {
    let refused = Err("[NetworkError] WebSocket owner is closed".to_owned());
    let mut transport = Transport::new();
    let owner = ClientScope::new(&mut transport);
    let id = owner.active();
    let slot = ensure_slot(&mut transport, id, "u").unwrap();
    owner.request_close(&mut transport);
    let other = ClientScope::new(&mut transport);
    ensure_slot(&mut transport, other.active(), "v").unwrap();
    assert_eq!(acquire_slot(&mut transport, id, "w"), refused);
    remove_exact(&mut transport, slot);
    drop_client(&mut transport, other.active(), "v");
    assert_eq!(acquire_slot(&mut transport, id, "w"), refused);
    owner.release(&mut transport);
    assert!(transport.retire(slot));
    let third = ClientScope::new(&mut transport);
    assert_ne!(third.active(), id);
    assert_eq!(acquire_slot(&mut transport, id, "w"), refused);
    assert!(acquire_slot(&mut transport, third.active(), "w").is_ok());
}
