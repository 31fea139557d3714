use std::io::Write;

use ws_client::bounds::decode;
use ws_client::bridge::{begin_flight, flight_handle, value_open_flight};
use ws_client::client::ClientState;
use ws_client::flight::{
    complaint_of, hand_on, ws_await_flight, FlightStart, FlightStep, FLIGHT_BUDGET_MS,
    MOCK_FLIGHT_BUDGET_MS,
};
use ws_client::json::parse_text;
use ws_client::transport::{drop_client, ensure_slot, get_client, Transport};
use ws_client::value::Value;

fn text(text: &str) -> Value {
    Value::Str(text.to_owned())
}

fn done(start: FlightStart) -> Value {
    match start {
        FlightStart::Settled(FlightStep::Done(value)) => value,
        _ => panic!("the flight is not done"),
    }
}

fn in_op_futures(client: &ClientState, hash: &str) -> bool {
    client.futures_value().field(hash).is_some()
}

#[test]
fn flight_elects_one_leader_and_registers_it() {
    let url = "flight-test-election";
    let mut transport = Transport::new();
    let slot = ensure_slot(&mut transport, 0, url).unwrap();
    let c = transport.client_mut(slot).unwrap();
    assert!(c.flight_begin("authenticate:future"), "first caller leads");
    assert!(!c.flight_begin("authenticate:future"), "second caller follows");
    assert!(in_op_futures(c, "authenticate:future"));
    drop_client(&mut transport, 0, url);
    assert!(get_client(&transport, url).is_none());
}

#[test]
fn flight_settle_wakes_waiters_and_reopens() {
    let url = "flight-test-settle";
    let mut transport = Transport::new();
    let slot = ensure_slot(&mut transport, 0, url).unwrap();
    let c = transport.client_mut(slot).unwrap();
    assert!(c.flight_begin("auth"));
    c.resolve("auth", text("listen-key"));
    let handle = flight_handle(&transport, url, "auth", false);
    assert_eq!(done(ws_await_flight(&transport, 0, &handle)), text("listen-key"));
    let handle = flight_handle(&transport, url, "auth", false);
    assert_eq!(done(ws_await_flight(&transport, 0, &handle)), text("listen-key"));
    let c = transport.client_mut(slot).unwrap();
    assert!(!in_op_futures(c, "auth"));
    assert!(c.flight_begin("auth"), "a settled flight re-elects");
    drop_client(&mut transport, 0, url);
}

#[test]
fn flight_follower_waits_for_the_leader() {
    let url = "flight-test-wait";
    let mut transport = Transport::new();
    let slot = ensure_slot(&mut transport, 0, url).unwrap();
    assert!(transport.client_mut(slot).unwrap().flight_begin("auth"));
    let handle = flight_handle(&transport, url, "auth", false);
    let pending = match ws_await_flight(&transport, 0, &handle) {
        FlightStart::Pending(pending) => pending,
        FlightStart::Settled(_) => panic!("nobody settled the flight"),
    };
    assert_eq!(pending.budget_ms, FLIGHT_BUDGET_MS);
    assert!(matches!(pending.poll(&transport), FlightStep::Wait));
    transport.client_mut(slot).unwrap().resolve("auth", text("late"));
    for _ in 0..2 {
        match pending.poll(&transport) {
            FlightStep::Done(got) => assert_eq!(got, text("late")),
            _ => panic!("waited for the leader"),
        }
    }
    drop_client(&mut transport, 0, url);
}

#[test]
fn a_leader_never_blocks_on_its_own_flight() {
    let url = "flight-test-leader";
    let mut transport = Transport::new();
    let slot = ensure_slot(&mut transport, 0, url).unwrap();
    let led = transport.client_mut(slot).unwrap().flight_begin("authenticated");
    assert!(led);
    let handle = flight_handle(&transport, url, "authenticated", led);
    assert_eq!(done(ws_await_flight(&transport, 0, &handle)), Value::Null);
    let c = transport.client_mut(slot).unwrap();
    c.resolve("authenticated", Value::Bool(true));
    let led2 = c.flight_begin("authenticated");
    let handle = flight_handle(&transport, url, "authenticated", led2);
    assert_eq!(
        done(ws_await_flight(&transport, 0, &handle)),
        Value::Bool(true),
        "a re-lead with no new work reports the last value"
    );
    drop_client(&mut transport, 0, url);
}

#[test]
fn flight_handle_without_a_flight_returns_null() {
    let url = "flight-test-missing";
    let mut transport = Transport::new();
    ensure_slot(&mut transport, 0, url).unwrap();
    let handle = flight_handle(&transport, url, "nope", false);
    assert_eq!(done(ws_await_flight(&transport, 0, &handle)), Value::Null);
    drop_client(&mut transport, 0, url);
}

#[test]
fn parse_helpers() {
    assert!(matches!(parse_text("{\"a\":1}"), Value::Dict(_)));
    assert_eq!(parse_text("pong"), text("pong"));
    let mut e = flate2::write::GzEncoder::new(Vec::new(), flate2::Compression::default());
    e.write_all(b"{\"x\":true}").unwrap();
    let gz = e.finish().unwrap();
    assert!(matches!(decode(&gz, true).expect("valid binary fixture"), Value::Dict(_)));
}

#[test]
fn a_rejected_flight_fails_its_waiters() {
    let url = "flight-test-rejected";
    let mut transport = Transport::new();
    let slot = ensure_slot(&mut transport, 0, url).unwrap();
    let c = transport.client_mut(slot).unwrap();
    assert!(c.flight_begin("auth"));
    c.reject("auth", text("[AuthenticationError] denied"));
    let handle = flight_handle(&transport, url, "auth", false);
    assert!(matches!(
        ws_await_flight(&transport, 0, &handle),
        FlightStart::Settled(FlightStep::Failed(message)) if message == "[AuthenticationError] denied"
    ));
}

#[test]
fn errors_that_are_no_text_are_told_as_json() {
    assert_eq!(complaint_of(&text("plain")), "plain");
    assert_eq!(complaint_of(&parse_text("{\"code\":7}")), "{\"code\":7}");
    assert_eq!(complaint_of(&Value::array(vec![Value::Null, Value::Bool(false)])), "[null,false]");
    assert!(matches!(hand_on(None), FlightStep::Done(Value::Null)));
}

#[test]
fn a_flight_that_is_reset_ends_without_a_value() {
    let url = "flight-test-reset";
    let mut transport = Transport::new();
    let slot = ensure_slot(&mut transport, 0, url).unwrap();
    transport.client_mut(slot).unwrap().flight_begin("auth");
    let handle = flight_handle(&transport, url, "auth", false);
    let pending = match ws_await_flight(&transport, 0, &handle) {
        FlightStart::Pending(pending) => pending,
        FlightStart::Settled(_) => panic!("the flight is open"),
    };
    transport.client_mut(slot).unwrap().reset();
    assert!(matches!(pending.poll(&transport), FlightStep::Done(Value::Null)));
    assert_eq!(
        pending.timed_out(),
        "[NetworkError] timed out waiting for the in-flight 'auth' on flight-test-reset"
    );
}

#[test]
fn a_mock_waits_less() {
    let url = "flight-test-mock";
    let mut transport = Transport::new();
    let slot = ensure_slot(&mut transport, 0, url).unwrap();
    let c = transport.client_mut(slot).unwrap();
    c.mock_enable();
    c.flight_begin("auth");
    let handle = flight_handle(&transport, url, "auth", false);
    assert!(matches!(
        ws_await_flight(&transport, 0, &handle),
        FlightStart::Pending(pending) if pending.budget_ms == MOCK_FLIGHT_BUDGET_MS
    ));
    assert_eq!((MOCK_FLIGHT_BUDGET_MS, FLIGHT_BUDGET_MS), (1500, 60_000));
}

#[test]
fn flights_can_be_parked_on_a_url_that_is_never_dialed() {
    let mut transport = Transport::new();
    assert_eq!(begin_flight(&mut transport, 0, "pseudo", "auth"), Ok(true));
    assert_eq!(begin_flight(&mut transport, 0, "pseudo", "auth"), Ok(false));
    let client = get_client(&transport, "pseudo").unwrap();
    assert!(client.flight_is_open("auth") && !client.is_connected());
    let long = "x".repeat(4097);
    assert_eq!(
        begin_flight(&mut transport, 0, &long, "auth"),
        Err("[NetworkError] WebSocket URL exceeds limit".to_owned())
    );
}

#[test]
fn handles_that_name_no_flight_have_nothing_to_wait_for() {
    let mut transport = Transport::new();
    ensure_slot(&mut transport, 0, "u").unwrap();
    for handle in [Value::Null, parse_text("{\"url\":\"u\"}"), flight_handle(&transport, "other", "h", false)] {
        assert_eq!(done(ws_await_flight(&transport, 0, &handle)), Value::Null);
    }
    let client = ws_client::bridge::client_value(&mut transport, 0, "u").unwrap();
    assert_eq!(value_open_flight(&mut transport, 0, &client, &Value::Int(3)), Value::Null);
    let flight = value_open_flight(&mut transport, 0, &client, &text("h"));
    assert_eq!(flight.field("__ws_flight_led"), Some(&Value::Bool(true)));
    let follower = value_open_flight(&mut transport, 0, &client, &text("h"));
    assert_eq!(follower.field("__ws_flight_led"), Some(&Value::Bool(false)));
    assert_eq!(follower.text_field("__ws_flight_hash"), Some("h".to_owned()));
}

#[test]
fn a_handle_without_a_client_waits_at_the_one_that_comes() {
    let mut transport = Transport::new();
    let early = flight_handle(&transport, "u", "h", false);
    assert_eq!(early.text_field("__ws_client_ref"), None);
    assert_eq!(done(ws_await_flight(&transport, 0, &early)), Value::Null);
    let slot = ensure_slot(&mut transport, 0, "u").unwrap();
    transport.client_mut(slot).unwrap().flight_begin("h");
    assert!(matches!(
        ws_await_flight(&transport, 0, &early),
        FlightStart::Pending(pending) if pending.generation == slot
    ));
    assert_eq!(done(ws_await_flight(&transport, 9, &early)), Value::Null, "another owner");
    transport.client_mut(slot).unwrap().flight_settle("h", Ok(Value::Int(7)));
    assert_eq!(done(ws_await_flight(&transport, 0, &early)), Value::Int(7));
    let bound = flight_handle(&transport, "u", "h", false);
    drop_client(&mut transport, 0, "u");
    let next = ensure_slot(&mut transport, 0, "u").unwrap();
    transport.client_mut(next).unwrap().flight_begin("h");
    assert_eq!(done(ws_await_flight(&transport, 0, &bound)), Value::Null, "its client is gone");
}

#[test]
fn settling_needs_an_open_flight() {
    let mut transport = Transport::new();
    let slot = ensure_slot(&mut transport, 0, "u").unwrap();
    let c = transport.client_mut(slot).unwrap();
    assert!(!c.flight_settle("h", Ok(Value::Int(1))));
    assert_eq!(c.flight_peek("h"), None);
    c.flight_begin("h");
    c.flight_begin("other");
    assert!(c.flight_settle("h", Err(text("no"))));
    assert_eq!(c.flight_peek("h"), Some(Err(text("no"))));
    assert!(!c.flight_is_open("h") && c.flight_is_open("other"));
    assert!(c.flight_begin("h"));
    assert_eq!(c.flight_peek("h"), Some(Err(text("no"))), "the last outcome stays on reopening");
}
