use ws_client::clock::epoch_ms;
use ws_client::json::{parse_text, read_document, text_value};
use ws_client::table::Table;
use ws_client::value::Value;

fn text(text: &str) -> Value {
    Value::Str(text.to_owned())
}

#[test]
fn json_is_read_level_by_level() {
    let value = parse_text("{\"b\":[1,-2,null,true],\"a\":{\"x\":\"y\"},\"n\":1.5,\"big\":18446744073709551615}");
    assert_eq!(
        value.field("b"),
        Some(&Value::array(vec![Value::Int(1), Value::Int(-2), Value::Null, Value::Bool(true)]))
    );
    assert_eq!(value.field("a").unwrap().text_field("x"), Some("y".to_owned()));
    assert!(matches!(value.field("n"), Some(Value::Float(_))));
    assert!(matches!(value.field("big"), Some(Value::Float(_))));
    assert_eq!(value.field("missing"), None);
    assert_eq!(value.text_field("b"), None);
    assert_eq!(Value::Int(3).field("b"), None);
}

#[test]
fn json_text_keeps_the_order_of_fields() {
    let source = "{\"z\":1,\"a\":[\"\\u0001\",\"é\"],\"m\":{\"k\":2.5},\"e\":{},\"l\":[]}";
    assert_eq!(parse_text(source).json_text(), source);
    assert_eq!(text("a\"b").json_text(), "\"a\\\"b\"");
    assert_eq!(Value::Null.json_text(), "null");
    assert_eq!(parse_text("{\"a\":1,\"b\":2,\"a\":3}").json_text(), "{\"a\":3,\"b\":2}");
}

#[test]
fn documents_go_in_and_out() {
    let document: serde_json::Value = serde_json::from_str("[{\"k\":[0,1]},\"s\",-7]").unwrap();
    let value = Value::from_json(&document);
    assert_eq!(value.to_json(), document);
    assert_eq!(read_document("7"), Some(Value::Int(7)));
    assert_eq!(read_document("pong"), None);
    assert_eq!(text_value(None, "raw"), text("raw"));
    assert_eq!(text_value(Some(Value::Int(1)), "raw"), Value::Int(1));
}

#[test]
fn texts_that_are_no_json_stay_texts() {
    for plain in ["pong", "", "{", "1 2", "NaN"] {
        assert_eq!(parse_text(plain), text(plain));
    }
    assert_eq!(parse_text(" \"quoted\" "), text("quoted"));
}

#[test]
fn arrays_of_texts_read_back() {
    let array = Value::array(vec![text("a\u{1}\"\\"), text("ü"), text("")]);
    assert_eq!(parse_text(&array.json_text()), array);
    assert_eq!(array.as_str(), None);
    assert_eq!(text("t").as_str(), Some("t"));
}

#[test]
fn clones_are_equal() {
    let value = parse_text("{\"a\":[1,2.5,\"x\",null,true]}");
    assert_eq!(value.clone(), value);
}

#[test]
fn tables_keep_each_key_once() {
    let mut table: Table<u64> = Table::new();
    assert!(table.is_empty());
    table.insert("a", 1);
    table.insert("b", 2);
    table.insert("a", 3);
    assert_eq!((table.len(), table.get("a"), table.get("c")), (2, Some(&3), None));
    assert_eq!(table.keys(), vec!["a".to_owned(), "b".to_owned()]);
    assert_eq!(table.entry(1), (&"b".to_owned(), &2));
    assert_eq!((table.remove("a"), table.remove("a")), (Some(3), None));
    assert!(table.contains_key("b") && !table.contains_key("a"));
    table.clear();
    assert!(table.is_empty());
}

#[test]
fn readings_before_the_epoch_are_zero() {
    assert_eq!(epoch_ms(Some(1234)), 1234);
    assert_eq!(epoch_ms(None), 0);
}
