use ws_client::bridge::{
    client_field_live, client_value, flight_hash_of, future_hash_of, hash_str, subscription_target_of,
    url_of, value_on_pong, value_reject, value_reset, value_resolve, value_send,
    value_sub_field_write, value_subs_insert, value_subs_remove, write_sub_field,
};
use ws_client::json::parse_text;
use ws_client::outgoing::Message;
use ws_client::reference::{decimal_text, reference_to, reference_url};
use ws_client::transport::{ensure_slot, Transport};
use ws_client::value::Value;

fn text(text: &str) -> Value {
    Value::Str(text.to_owned())
}

fn hash(name: &str) -> Vec<String> {
    vec![name.to_owned()]
}

#[test]
fn handles_say_what_they_are_for() {
    let mut transport = Transport::new();
    let handle = client_value(&mut transport, 0, "wss://venue").unwrap();
    assert_eq!(url_of(&handle), Some("wss://venue".to_owned()));
    assert_eq!(handle.text_field("__ws_client_ref"), Some("1:0:wss://venue".to_owned()));
    assert_eq!(handle.field("futures"), Some(&parse_text("{}")));
    assert_eq!(
        handle.field("subscriptions").unwrap().text_field("__ws_subs_url"),
        Some("1:0:wss://venue".to_owned())
    );
    assert_eq!(url_of(&Value::Null), None);
    assert_eq!(url_of(&parse_text("{\"url\":7}")), None);
    assert_eq!(hash_str(&text("h")), Some("h".to_owned()));
    assert_eq!(hash_str(&Value::Int(1)), None);
    assert_eq!(future_hash_of(&parse_text("{\"__ws_future_hash\":\"h\"}")), Some("h".to_owned()));
    assert_eq!(future_hash_of(&handle), None);
    assert_eq!(
        flight_hash_of(&parse_text("{\"__ws_flight_hash\":\"a\",\"__ws_future_hash\":\"b\"}")),
        Some("a".to_owned())
    );
    assert_eq!(flight_hash_of(&parse_text("{\"__ws_future_hash\":\"b\"}")), Some("b".to_owned()));
    assert_eq!(flight_hash_of(&parse_text("{\"__ws_flight_hash\":1}")), None);
    assert_eq!(
        client_value(&mut transport, 5, "wss://venue"),
        Err("[NetworkError] WebSocket owner is closed".to_owned())
    );
}

#[test]
fn references_name_one_client() {
    assert_eq!(decimal_text(0), "0");
    assert_eq!(decimal_text(u64::MAX), "18446744073709551615");
    assert_eq!(reference_to(12, 0, "ws://a:1/b"), "12:0:ws://a:1/b");
    assert_eq!(reference_url("12:0:ws://a:1/b"), Some("ws://a:1/b".to_owned()));
    assert_eq!(reference_url("1:2:"), Some(String::new()));
    assert_eq!(reference_url("1:2:ü:é"), Some("ü:é".to_owned()));
    assert_eq!(reference_url("1:2"), None);
    assert_eq!(reference_url(""), None);
}

#[test]
fn values_resolve_and_reject_through_handles() {
    let mut transport = Transport::new();
    let client = client_value(&mut transport, 0, "u").unwrap();
    let value = value_resolve(&mut transport, 0, &client, &[Value::Int(4), text("h")]);
    assert_eq!(value, Value::Int(4));
    assert_eq!(value_resolve(&mut transport, 0, &client, &[]), Value::Null);
    assert_eq!(value_resolve(&mut transport, 0, &client, &[Value::Int(5)]), Value::Int(5));
    let state = transport.live_mut("u").unwrap();
    assert_eq!(state.take_settled(&hash("h")), Some(Ok(Value::Int(4))));

    state.note_futures(&hash("f"));
    let future = state.futures_value().field("f").unwrap().clone();
    value_resolve(&mut transport, 0, &future, &[Value::Int(6), text("ignored")]);
    let state = transport.live_mut("u").unwrap();
    assert_eq!(state.take_settled(&hash("ignored")), None);
    assert_eq!(state.take_settled(&hash("f")), Some(Ok(Value::Int(6))));

    value_reject(&mut transport, 0, &future, &[text("no")]);
    value_reject(&mut transport, 0, &client, &[text("nope"), text("g")]);
    let state = transport.live_mut("u").unwrap();
    assert_eq!(state.take_settled(&hash("f")), Some(Err(text("no"))));
    assert_eq!(state.take_settled(&hash("g")), Some(Err(text("nope"))));

    let error = value_reject(&mut transport, 0, &client, &[text("all")]);
    assert_eq!(error, text("all"));
    let state = transport.live_mut("u").unwrap();
    assert_eq!(state.take_settled(&hash("f")), Some(Err(text("all"))));
}

#[test]
fn values_are_sent_as_text_or_json() {
    let mut transport = Transport::new();
    let client = client_value(&mut transport, 0, "u").unwrap();
    for args in [vec![text("plain")], vec![parse_text("{\"op\":[1,null,2.5]}")], vec![]] {
        assert_eq!(value_send(&mut transport, 0, &client, &args), Value::Null);
    }
    let state = transport.live_mut("u").unwrap();
    for expected in ["plain", "{\"op\":[1,null,2.5]}", ""] {
        assert!(matches!(state.next_outgoing(), Some(Message::Text(sent)) if sent == expected));
    }
}

#[test]
fn resets_and_pongs_go_through_handles() {
    let mut transport = Transport::new();
    let client = client_value(&mut transport, 0, "u").unwrap();
    let state = transport.live_mut("u").unwrap();
    state.subscribe_once("s", Value::Null);
    state.on_pong_at(5);
    assert_eq!(value_on_pong(&mut transport, 0, &client), Value::Null);
    assert_eq!(value_reset(&mut transport, 0, &client), Value::Null);
    let state = transport.live_mut("u").unwrap();
    assert!(!state.is_subscribed("s"));
    assert!(state.last_pong_ms() > 5);
}

#[test]
fn subscriptions_are_written_by_reference() {
    let mut transport = Transport::new();
    let slot = ensure_slot(&mut transport, 0, "u").unwrap();
    let reference = transport.client(slot).unwrap().reference();
    value_subs_insert(&mut transport, 0, &reference, "chan", parse_text("{\"a\":1}"));
    let shown = client_field_live(&transport, 0, &reference, "subscriptions");
    let tag = shown.field("chan").unwrap().text_field("__ws_sub_ref").unwrap();
    value_sub_field_write(&mut transport, 0, &tag, "seen", Value::Bool(true));
    let shown = client_field_live(&transport, 0, &reference, "subscriptions");
    assert_eq!(shown.field("chan").unwrap().field("seen"), Some(&Value::Bool(true)));
    assert_eq!(shown.field("chan").unwrap().field("a"), Some(&Value::Int(1)));
    value_subs_remove(&mut transport, 0, &reference, "chan");
    assert!(!transport.client(slot).unwrap().is_subscribed("chan"));
    transport.client_mut(slot).unwrap().flight_begin("f");
    assert!(client_field_live(&transport, 0, &reference, "futures").field("f").is_some());
}

#[test]
fn texts_that_are_no_references_are_ignored() {
    let mut transport = Transport::new();
    let slot = ensure_slot(&mut transport, 0, "u").unwrap();
    for tag in ["", "no json", "[]", "[\"1:0:u\"]", "[\"1:0:u\",3]", "[\"1:0:v\",\"h\"]", "{}"] {
        value_sub_field_write(&mut transport, 0, tag, "k", Value::Int(1));
    }
    assert!(!transport.client(slot).unwrap().is_subscribed("h"));
    assert_eq!(subscription_target_of(None), None);
    assert_eq!(
        subscription_target_of(Some(parse_text("[\"r\",\"h\"]"))),
        Some(("r".to_owned(), "h".to_owned()))
    );
    write_sub_field(
        &mut transport,
        0,
        Some(("1:0:u".to_owned(), "h".to_owned())),
        "k",
        Value::Int(1),
    );
    assert!(transport.client(slot).unwrap().is_subscribed("h"));
    for reference in ["", "u", "0:0:u", "2:0:u", "1:1:u", "01:0:u"] {
        value_subs_insert(&mut transport, 0, reference, "x", Value::Null);
        assert_eq!(client_field_live(&transport, 0, reference, "futures"), parse_text("{}"));
    }
    assert!(!transport.client(slot).unwrap().is_subscribed("x"));
}
