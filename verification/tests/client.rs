use ws_client::bounds::{MAX_PAYLOAD_BYTES, OUTGOING_BYTES, OUTGOING_CAPACITY};
use ws_client::client::ClientState;
use ws_client::events::NextMessage;
use ws_client::json::parse_text;
use ws_client::mock::{
    mock_has_pending_futures, mock_has_queued_messages, mock_inject, mock_is_completed,
    mock_mark_completed, mock_reject_futures, mock_sent_messages, mock_setup,
};
use ws_client::outgoing::{Message, OutgoingQueue, Refusal};
use ws_client::transport::{get_client, Transport};
use ws_client::value::Value;

fn text(text: &str) -> Value {
    Value::Str(text.to_owned())
}

fn client() -> ClientState {
    ClientState::new("wss://venue/ws", 7, 3, 1000)
}

fn hashes(names: &[&str]) -> Vec<String> {
    names.iter().map(|name| name.to_string()).collect()
}

#[test]
fn a_new_client_knows_who_it_is() {
    let client = client();
    assert_eq!(client.url(), "wss://venue/ws");
    assert_eq!((client.generation(), client.scope_id()), (7, 3));
    assert_eq!(client.reference(), "7:3:wss://venue/ws");
    assert_eq!(client.last_pong_ms(), 1000);
    assert!(!client.is_closed() && !client.is_connected() && !client.is_mock());
    assert_eq!(client.outgoing_available(), OUTGOING_BYTES);
}

#[test]
fn settlements_are_taken_once_and_rejections_go_first() {
    let mut client = client();
    client.resolve("a", Value::Int(1));
    client.resolve("b", Value::Int(2));
    client.reject("b", text("no"));
    let wanted = hashes(&["z", "a", "b"]);
    assert_eq!(client.take_settled(&wanted), Some(Err(text("no"))));
    assert_eq!(client.take_settled(&wanted), Some(Ok(Value::Int(1))));
    assert_eq!(client.take_settled(&wanted), Some(Ok(Value::Int(2))));
    assert_eq!(client.take_settled(&wanted), None);
    client.resolve("a", Value::Int(3));
    client.resolve("a", Value::Int(4));
    assert_eq!(client.take_settled(&wanted), Some(Ok(Value::Int(4))));
}

#[test]
fn subscriptions_are_recorded_once() {
    let mut client = client();
    assert!(client.subscribe_once("h", Value::Null));
    assert!(!client.subscribe_once("h", Value::Int(5)));
    assert_eq!(client.subscriptions_value().field("h"), Some(&Value::Bool(true)));
    assert!(client.subscribe_once("k", Value::Bool(false)));
    assert_eq!(client.subscriptions_value().field("k"), Some(&Value::Bool(false)));
    client.set_subscription("h", Value::Int(6));
    assert_eq!(client.subscriptions_value().field("h"), Some(&Value::Int(6)));
    client.remove_subscription("h");
    assert!(!client.is_subscribed("h") && client.is_subscribed("k"));
}

#[test]
fn snapshots_carry_references() {
    let mut client = client();
    client.set_subscription("chan", parse_text("{\"name\":\"trades\"}"));
    let shown = client.subscriptions_value();
    assert_eq!(shown.text_field("__ws_subs_url"), Some("7:3:wss://venue/ws".to_owned()));
    let chan = shown.field("chan").unwrap();
    assert_eq!(chan.text_field("name"), Some("trades".to_owned()));
    assert_eq!(
        chan.text_field("__ws_sub_ref"),
        Some("[\"7:3:wss://venue/ws\",\"chan\"]".to_owned())
    );
    client.note_futures(&hashes(&["f", "g", "f"]));
    let futures = client.futures_value();
    let future = futures.field("g").unwrap();
    assert_eq!(future.text_field("url"), Some("wss://venue/ws".to_owned()));
    assert_eq!(future.text_field("__ws_client_ref"), Some(client.reference()));
    assert_eq!(future.text_field("__ws_future_hash"), Some("g".to_owned()));
    assert!(futures.field("f").is_some() && futures.field("h").is_none());
}

#[test]
fn subscription_fields_are_set_in_place() {
    let mut client = client();
    client.set_subscription("s", parse_text("{\"a\":1,\"b\":2}"));
    client.set_subscription_field("s", "a", Value::Int(9));
    client.set_subscription_field("s", "c", Value::Bool(true));
    let shown = client.subscriptions_value();
    let inner = shown.field("s").unwrap();
    assert_eq!(inner.field("a"), Some(&Value::Int(9)));
    assert_eq!(inner.field("b"), Some(&Value::Int(2)));
    assert_eq!(inner.field("c"), Some(&Value::Bool(true)));
    client.set_subscription("plain", Value::Bool(true));
    client.set_subscription_field("plain", "k", Value::Int(1));
    client.set_subscription_field("absent", "k", Value::Int(2));
    let shown = client.subscriptions_value();
    assert_eq!(shown.field("plain").unwrap().field("k"), Some(&Value::Int(1)));
    assert_eq!(shown.field("absent").unwrap().field("k"), Some(&Value::Int(2)));
}

#[test]
fn a_reset_forgets_everything_awaited() {
    let mut client = client();
    client.resolve("a", Value::Int(1));
    client.reject("b", text("no"));
    client.subscribe_once("s", Value::Null);
    client.flight_begin("f");
    client.mock_inject(Value::Int(5));
    client.reset();
    assert_eq!(client.take_settled(&hashes(&["a", "b"])), None);
    assert!(!client.is_subscribed("s") && !client.has_pending_futures());
    assert!(!client.flight_is_open("f"));
    assert_eq!(client.flight_peek("f"), None);
    assert!(client.has_queued_messages(), "what arrived is kept");
}

#[test]
fn pending_futures_are_rejected_together() {
    let mut client = client();
    client.note_futures(&hashes(&["a", "b"]));
    client.flight_begin("f");
    client.resolve("c", Value::Int(3));
    client.reject_pending_futures(text("gone"));
    for hash in ["a", "b", "f"] {
        assert_eq!(client.take_settled(&hashes(&[hash])), Some(Err(text("gone"))));
    }
    assert_eq!(client.take_settled(&hashes(&["c"])), Some(Ok(Value::Int(3))));
    assert_eq!(client.flight_peek("f"), Some(Err(text("gone"))));
    assert!(client.has_pending_futures(), "only flights leave the futures when they settle");
    assert!(client.futures_value().field("f").is_none());
}

#[test]
fn texts_are_queued_or_captured() {
    let mut client = client();
    assert!(client.send_text("first".to_owned()));
    client.mock_enable();
    assert!(client.is_mock() && client.is_connected());
    assert_eq!(client.message_budget_ms(), Some(1500));
    assert!(client.send_text("{\"op\":1}".to_owned()));
    assert!(client.send_text("ping".to_owned()));
    assert_eq!(
        client.mock_sent_value(),
        Value::array(vec![parse_text("{\"op\":1}"), text("ping")])
    );
    assert!(matches!(client.next_outgoing(), Some(Message::Text(sent)) if sent == "first"));
    assert!(client.next_outgoing().is_none());
    client.request_close();
    assert!(!client.send_text("late".to_owned()));
}

#[test]
fn a_full_capture_ends_the_client() {
    let mut client = client();
    client.mock_enable();
    for _ in 0..OUTGOING_CAPACITY {
        assert!(client.send_text("1".to_owned()));
    }
    assert!(!client.send_text("1".to_owned()));
    assert_eq!(client.terminal_error().as_deref(), Some("[NetworkError] mock capture full"));
    assert!(matches!(client.mock_sent_value(), Value::Arr(sent) if sent.len() == OUTGOING_CAPACITY));
}

#[test]
fn an_oversized_text_ends_the_client_whatever_the_transport() {
    for mock in [false, true] {
        let mut client = client();
        if mock {
            client.mock_enable();
        }
        assert!(!client.send_text("x".repeat(MAX_PAYLOAD_BYTES + 1)));
        assert_eq!(
            client.terminal_error().as_deref(),
            Some("[NetworkError] outgoing payload exceeds limit")
        );
    }
}

#[test]
fn frames_of_every_kind_are_sent() {
    let mut client = client();
    assert!(client.send_message(Message::Binary(vec![1, 2, 3])));
    assert!(client.send_message(Message::Pong(vec![4])));
    assert!(matches!(client.next_outgoing(), Some(Message::Binary(bytes)) if bytes == [1, 2, 3]));
    assert!(matches!(client.next_outgoing(), Some(Message::Pong(bytes)) if bytes == [4]));
    let mut roomy = Vec::with_capacity(OUTGOING_BYTES + 1);
    roomy.push(0);
    assert!(!client.send_message(Message::Binary(roomy)));
    assert_eq!(
        client.terminal_error().as_deref(),
        Some("[NetworkError] outgoing byte budget exceeded")
    );
}

#[test]
fn the_outgoing_queue_keeps_its_budget() {
    let mut queue = OutgoingQueue::new();
    assert_eq!(queue.available(), OUTGOING_BYTES);
    assert!(queue.push(Message::Ping(Vec::new()), 0).is_none());
    assert_eq!(queue.available(), OUTGOING_BYTES - 1, "even an empty frame is charged");
    assert!(queue.push(Message::Ping(Vec::new()), OUTGOING_BYTES) == Some(Refusal::Budget));
    assert!(queue.push(Message::Ping(Vec::new()), OUTGOING_BYTES - 1).is_none());
    assert_eq!((queue.len(), queue.available()), (2, 0));
    assert!(queue.next().is_some());
    assert_eq!(queue.available(), 0, "the frame being written is charged");
    queue.clear();
    assert_eq!(queue.available(), OUTGOING_BYTES - 1);
    queue.release();
    assert_eq!(queue.available(), OUTGOING_BYTES);
    for _ in 0..OUTGOING_CAPACITY {
        assert!(queue.push(Message::Ping(Vec::new()), 1).is_none());
    }
    assert!(queue.push(Message::Ping(Vec::new()), 1) == Some(Refusal::Full));
}

#[test]
fn a_mock_is_set_up_by_url_and_starts_fresh() {
    let mut transport = Transport::new();
    let url = "fixture-mock";
    let slot = mock_setup(&mut transport, 0, url).unwrap();
    mock_inject(&mut transport, url, Value::Int(1));
    assert!(mock_has_queued_messages(&transport, url));
    let client = transport.client_mut(slot).unwrap();
    client.send_text("a".to_owned());
    client.note_futures(&hashes(&["f"]));
    assert!(mock_has_pending_futures(&transport, url));
    assert_eq!(mock_sent_messages(&transport, url), Value::array(vec![text("a")]));
    assert!(!mock_is_completed(&transport, url));
    mock_mark_completed(&mut transport, url);
    assert!(mock_is_completed(&transport, url));
    assert_eq!(mock_setup(&mut transport, 0, url), Ok(slot));
    assert!(!mock_has_queued_messages(&transport, url));
    assert!(!mock_has_pending_futures(&transport, url));
    assert_eq!(mock_sent_messages(&transport, url), Value::array(vec![]));
    assert!(!mock_is_completed(&transport, url));
    assert!(get_client(&transport, url).unwrap().is_connected());
}

#[test]
fn an_unresolved_fixture_is_told_so() {
    let mut transport = Transport::new();
    let url = "fixture-unresolved";
    let slot = mock_setup(&mut transport, 0, url).unwrap();
    transport.client_mut(slot).unwrap().note_futures(&hashes(&["f"]));
    mock_reject_futures(&mut transport, url);
    assert_eq!(
        transport.client_mut(slot).unwrap().take_settled(&hashes(&["f"])),
        Some(Err(text(
            "[ExchangeError] static ws test: the injected messages did not resolve the watch future"
        )))
    );
}

#[test]
fn without_a_client_the_mock_has_nothing() {
    let mut transport = Transport::new();
    mock_inject(&mut transport, "none", Value::Null);
    mock_mark_completed(&mut transport, "none");
    mock_reject_futures(&mut transport, "none");
    assert!(mock_is_completed(&transport, "none"));
    assert!(!mock_has_pending_futures(&transport, "none"));
    assert!(!mock_has_queued_messages(&transport, "none"));
    assert_eq!(mock_sent_messages(&transport, "none"), Value::array(vec![]));
    assert!(mock_setup(&mut transport, 9, "none").is_err());
}

#[test]
fn messages_come_in_order() {
    let mut client = client();
    for number in 0..3 {
        client.push_incoming(Value::Int(number));
    }
    for number in 0..3 {
        assert!(matches!(client.next_message(), NextMessage::Message(Value::Int(n)) if n == number));
    }
    assert!(matches!(client.next_message(), NextMessage::Wait));
}
