use std::io::Write;
use std::mem::size_of;

use ws_client::bounds::{
    array_bytes, bytes_to_value, decode, dict_bytes, estimate_value_bytes, parse_binary_bytes,
    parse_compressed, read_compressed, settle_expansion, string_bytes, Compressed, ParsedQueue,
    INCOMING_BYTES, INCOMING_CAPACITY, MAX_DECODED_BYTES, MAX_PAYLOAD_BYTES,
};
use ws_client::value::{Dict, Value};

fn gzip(input: &[u8]) -> Vec<u8> {
    let mut encoder = flate2::write::GzEncoder::new(Vec::new(), flate2::Compression::default());
    encoder.write_all(input).unwrap();
    encoder.finish().unwrap()
}

fn deflate(input: &[u8]) -> Vec<u8> {
    let mut encoder = flate2::write::DeflateEncoder::new(Vec::new(), flate2::Compression::default());
    encoder.write_all(input).unwrap();
    encoder.finish().unwrap()
}

#[test]
fn queue_enforces_count_and_accounts_bytes() {
    let mut queue = ParsedQueue::new();
    queue.push(Value::Str("hello".to_owned())).unwrap();
    assert_eq!(queue.len(), 1);
    assert!(!queue.is_empty());
    assert!(queue.bytes() >= size_of::<Value>() + 5);
    assert_eq!(queue.pop(), Some(Value::Str("hello".to_owned())));
    assert!(queue.is_empty());
    assert_eq!(queue.bytes(), 0);

    for _ in 0..INCOMING_CAPACITY {
        queue.push(Value::Null).unwrap();
    }
    assert_eq!(queue.len(), INCOMING_CAPACITY);
    assert!(queue.push(Value::Null).is_err());
    queue.clear();
    assert!(queue.is_empty());
    assert_eq!(queue.len(), 0);
    assert_eq!(queue.bytes(), 0);

    let too_large = Value::Str("x".repeat(INCOMING_BYTES));
    assert!(queue.push(too_large).is_err());
}

#[test]
fn repeated_pushes_hit_byte_budget_before_count_budget() {
    let mut queue = ParsedQueue::new();
    let item = Value::Str("x".repeat(32 * 1024));
    while queue.push(item.clone()).is_ok() {}
    assert!(queue.len() < INCOMING_CAPACITY);
    assert!(queue.len() > 1);
    assert!(queue.bytes() <= INCOMING_BYTES);
    let len = queue.len();
    let bytes = queue.bytes();
    assert!(queue.push(item).is_err());
    assert_eq!(queue.len(), len);
    assert_eq!(queue.bytes(), bytes);
}

#[test]
fn gzip_expansion_limit_is_accepted() {
    let input = vec![b'x'; MAX_DECODED_BYTES];
    let mut encoder = flate2::write::GzEncoder::new(Vec::new(), flate2::Compression::default());
    encoder.write_all(&input).unwrap();
    let compressed = encoder.finish().unwrap();
    let result = decode(&compressed, true).unwrap();
    assert_eq!(result.as_str().map(str::len), Some(MAX_DECODED_BYTES));
}

#[test]
fn gzip_expansion_overflow_is_terminal() {
    let input = vec![b'x'; MAX_DECODED_BYTES + 1];
    let mut encoder = flate2::write::GzEncoder::new(Vec::new(), flate2::Compression::default());
    encoder.write_all(&input).unwrap();
    let compressed = encoder.finish().unwrap();
    let result = decode(&compressed, true);
    assert!(
        matches!(result, Err(message) if message.starts_with("[NetworkError] decoded WebSocket payload"))
    );
}

#[test]
fn raw_deflate_expansion_overflow_is_terminal() {
    let input = vec![b'x'; MAX_DECODED_BYTES + 1];
    let mut encoder = flate2::write::DeflateEncoder::new(Vec::new(), flate2::Compression::default());
    encoder.write_all(&input).unwrap();
    let compressed = encoder.finish().unwrap();
    let result = decode(&compressed, true);
    assert!(
        matches!(result, Err(message) if message.starts_with("[NetworkError] decoded WebSocket payload"))
    );
}

#[test]
fn invalid_utf8_text_is_rejected() {
    assert!(decode(&[0xff, 0xfe], false).is_err());
}

#[test]
fn invalid_utf8_binary_is_retained_as_bytes() {
    let payload = [0x00, 0xff, 0x01];
    assert_eq!(decode(&payload, true).unwrap(), bytes_to_value(&payload));
}

#[test]
fn raw_json_binary_matches_text() {
    let payload = br#"{"channel":"ticker","value":1}"#;
    assert_eq!(decode(payload, true), decode(payload, false));
}

#[test]
fn empty_compressed_expansion_falls_back_to_nonempty_raw_payload() {
    let encoder = flate2::write::GzEncoder::new(Vec::new(), flate2::Compression::default());
    let compressed = encoder.finish().unwrap();
    assert!(!compressed.is_empty());
    assert_eq!(decode(&compressed, true).unwrap(), bytes_to_value(&compressed));
}

#[test]
fn zero_length_payload_is_safe() {
    assert_eq!(decode(&[], true).unwrap(), Value::Str(String::new()));
    assert_eq!(decode(&[], false).unwrap(), Value::Str(String::new()));
}

#[test]
fn bare_pong_is_plain_text() {
    assert_eq!(decode(b"pong", false).unwrap(), Value::Str("pong".to_owned()));
}

#[test]
fn oversized_payload_is_refused_with_its_limit() {
    let payload = vec![b'x'; MAX_PAYLOAD_BYTES + 1];
    for is_binary in [false, true] {
        assert_eq!(
            decode(&payload, is_binary),
            Err("[NetworkError] WebSocket payload exceeds 262144 bytes".to_owned())
        );
    }
    assert_eq!(
        decode(&payload[1..], false).unwrap().as_str().map(str::len),
        Some(MAX_PAYLOAD_BYTES)
    );
}

#[test]
fn invalid_text_is_complained_about() {
    assert_eq!(
        decode(&[b'a', 0xff], false),
        Err(
            "[NetworkError] WebSocket text is not valid UTF-8: invalid utf-8 sequence of 1 bytes \
             from index 1"
                .to_owned()
        )
    );
}

#[test]
fn compressed_text_is_read() {
    let json = decode(br#"{"x":true}"#, false).unwrap();
    assert_eq!(decode(&gzip(br#"{"x":true}"#), true).unwrap(), json);
    assert_eq!(decode(&deflate(br#"{"x":true}"#), true).unwrap(), json);
    assert_eq!(json.field("x"), Some(&Value::Bool(true)));
    assert_eq!(decode(&gzip(b"pong"), true).unwrap(), Value::Str("pong".to_owned()));
}

#[test]
fn deflate_expansion_limit_is_accepted() {
    let result = decode(&deflate(&vec![b'x'; MAX_DECODED_BYTES]), true).unwrap();
    assert_eq!(result.as_str().map(str::len), Some(MAX_DECODED_BYTES));
}

#[test]
fn compressed_bytes_that_are_no_text_are_kept_as_they_came() {
    let payload = gzip(&[0xff, 0xfe, 0xfd]);
    assert_eq!(decode(&payload, true).unwrap(), bytes_to_value(&payload));
}

#[test]
fn broken_gzip_falls_through_to_its_bytes() {
    let mut payload = gzip(b"some text that is long enough to be cut");
    payload.truncate(payload.len() - 6);
    assert_eq!(decode(&payload, true).unwrap(), bytes_to_value(&payload));
}

#[test]
fn bytes_become_their_numbers() {
    assert_eq!(
        bytes_to_value(&[0, 7, 255]),
        Value::array(vec![Value::Int(0), Value::Int(7), Value::Int(255)])
    );
    assert_eq!(parse_binary_bytes(&[0xff]), Value::array(vec![Value::Int(255)]));
    assert_eq!(parse_binary_bytes(b"[1]"), Value::array(vec![Value::Int(1)]));
}

#[test]
fn expansions_are_judged_by_length_and_completeness() {
    assert!(matches!(read_compressed(vec![0; MAX_DECODED_BYTES + 1], true), Compressed::Overflow));
    assert!(matches!(read_compressed(vec![0; MAX_DECODED_BYTES + 1], false), Compressed::Overflow));
    assert!(matches!(read_compressed(vec![0; 3], false), Compressed::Invalid));
    assert!(matches!(read_compressed(vec![1, 2], true), Compressed::Decoded(bytes) if bytes == [1, 2]));
    assert_eq!(parse_compressed(b""), None);
    assert_eq!(parse_compressed(&[0xff]), None);
    assert_eq!(parse_compressed(b"7"), Some(Value::Int(7)));
    assert_eq!(settle_expansion(Compressed::Invalid), None);
    assert_eq!(settle_expansion(Compressed::Decoded(Vec::new())), None);
    assert_eq!(
        settle_expansion(Compressed::Overflow),
        Some(Err("[NetworkError] decoded WebSocket payload exceeds 1048576 bytes".to_owned()))
    );
}

#[test]
fn queue_refusals_say_which_bound() {
    let mut queue = ParsedQueue::new();
    assert_eq!(queue.push_charged(Value::Null, INCOMING_BYTES), Ok(()));
    assert_eq!(
        queue.push_charged(Value::Null, 1),
        Err("[NetworkError] incoming WebSocket queue byte limit exceeded (4194304 bytes)".to_owned())
    );
    assert_eq!(queue.bytes(), INCOMING_BYTES);
    queue.clear();
    for _ in 0..INCOMING_CAPACITY {
        queue.push_charged(Value::Null, 0).unwrap();
    }
    assert_eq!(
        queue.push_charged(Value::Null, 0),
        Err("[NetworkError] incoming WebSocket queue capacity exceeded (256)".to_owned())
    );
}

#[test]
fn queue_gives_values_back_in_order() {
    let mut queue = ParsedQueue::new();
    for number in 0..5 {
        queue.push_charged(Value::Int(number), 10).unwrap();
    }
    assert_eq!(queue.bytes(), 50);
    for number in 0..5 {
        assert_eq!(queue.pop(), Some(Value::Int(number)));
    }
    assert_eq!(queue.pop(), None);
}

#[test]
fn charges_follow_the_shape_of_a_value() {
    let leaf = size_of::<Value>();
    assert_eq!(estimate_value_bytes(&Value::Null), leaf);
    assert_eq!(estimate_value_bytes(&Value::Bool(true)), leaf);
    assert_eq!(estimate_value_bytes(&Value::Int(9)), leaf);
    assert_eq!(string_bytes(5), leaf + 5);
    assert_eq!(
        array_bytes(3, 100),
        leaf + size_of::<Vec<Value>>() + 2 * size_of::<usize>() + 3 * leaf + 100
    );
    let slot = size_of::<String>() + leaf + size_of::<usize>();
    assert_eq!(
        dict_bytes(2, 7),
        leaf + size_of::<Dict>() + 2 * size_of::<usize>() + 2 * slot + 7
    );
    assert_eq!(string_bytes(usize::MAX), usize::MAX);
    assert_eq!(array_bytes(usize::MAX, 0), usize::MAX);
    assert_eq!(dict_bytes(usize::MAX, 0), usize::MAX);
}

#[test]
fn spare_room_is_charged() {
    let mut text = String::with_capacity(1000);
    text.push('x');
    assert!(estimate_value_bytes(&Value::Str(text)) >= size_of::<Value>() + 1000);
    let items = vec![Value::Str("abc".to_owned()), Value::Null];
    let held = array_bytes(2, string_bytes(3) + size_of::<Value>());
    assert!(estimate_value_bytes(&Value::array(items)) >= held);
    let dict = decode(br#"{"key":"value"}"#, false).unwrap();
    assert!(estimate_value_bytes(&dict) >= dict_bytes(1, 3 + string_bytes(5)));
}

#[test]
fn the_charge_grows_with_room_and_with_nested_values() {
    let nested = |text: String| Value::array(vec![Value::Null, Value::array(vec![Value::Str(text)])]);
    let short = estimate_value_bytes(&nested("x".to_owned()));
    let long = estimate_value_bytes(&nested("x".repeat(100)));
    let mut roomy = String::with_capacity(500);
    roomy.push('x');
    let spare = estimate_value_bytes(&nested(roomy));
    assert_eq!(long, short + 99);
    assert!(spare >= short + 499);
    let part = estimate_value_bytes(&Value::array(vec![Value::Str("x".to_owned())]));
    assert!(short > part + estimate_value_bytes(&Value::Null));
}

#[test]
fn a_queue_is_charged_nothing_only_while_it_is_empty() {
    let mut queue = ParsedQueue::new();
    assert_eq!((queue.len(), queue.bytes()), (0, 0));
    queue.push(Value::Null).unwrap();
    queue.push(Value::Bool(true)).unwrap();
    assert_eq!(queue.bytes(), 2 * size_of::<Value>());
    queue.pop();
    assert!(queue.bytes() > 0);
    queue.pop();
    assert_eq!((queue.len(), queue.bytes()), (0, 0));
}
