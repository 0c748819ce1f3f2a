use auditor::fingerprint::{build_context, is_allowed_header, select_headers, ProxyHttp};
use auditor::json::{canonicalise, JsonValue};

fn text(s: &str) -> String {
    s.to_string()
}

fn num(n: i128) -> JsonValue {
    JsonValue::Number(n)
}

fn object(members: Vec<(&str, JsonValue)>) -> JsonValue {
    JsonValue::Object(members.into_iter().map(|(k, v)| (k.to_string(), v)).collect())
}

fn from_serde(v: &serde_json::Value) -> JsonValue {
    match v {
        serde_json::Value::Null => JsonValue::Null,
        serde_json::Value::Bool(b) => JsonValue::Bool(*b),
        serde_json::Value::Number(n) => match n.as_i64() {
            Some(i) => JsonValue::Number(i as i128),
            None => JsonValue::Number(n.as_u64().unwrap() as i128),
        },
        serde_json::Value::String(s) => JsonValue::Str(s.clone()),
        serde_json::Value::Array(a) => JsonValue::Array(a.iter().map(from_serde).collect()),
        serde_json::Value::Object(m) => {
            JsonValue::Object(m.iter().map(|(k, v)| (k.clone(), from_serde(v))).collect())
        }
    }
}

fn as_text(bytes: Vec<u8>) -> String {
    String::from_utf8(bytes).unwrap()
}

#[test]
fn test_canonicalise() {
    let obj = object(vec![
        ("b", num(2)),
        ("a", num(1)),
        ("c", object(vec![("z", num(3)), ("y", num(2))])),
    ]);
    let expected = r#"{"a":1,"b":2,"c":{"y":2,"z":3}}"#;
    let canonical = canonicalise(&obj);
    assert_eq!(std::str::from_utf8(&canonical).unwrap(), expected);
}

#[test]
fn canonical_scalars_and_arrays() {
    let v = JsonValue::Array(vec![
        JsonValue::Null,
        JsonValue::Bool(true),
        JsonValue::Bool(false),
        num(-42),
        num(0),
        num(i64::MIN as i128),
        num(u64::MAX as i128),
        num(i128::MIN),
        JsonValue::Str(text("a\"b\\c\n")),
        JsonValue::Array(vec![]),
        object(vec![]),
    ]);
    assert_eq!(
        as_text(canonicalise(&v)),
        r#"[null,true,false,-42,0,-9223372036854775808,18446744073709551615,-170141183460469231731687303715884105728,"a\"b\\c\n",[],{}]"#
    );
}

#[test]
fn canonical_string_escapes() {
    let v = JsonValue::Str(text("\u{1f}\u{8}\u{c}\r\t/\u{7f}é"));
    assert_eq!(as_text(canonicalise(&v)), "\"\\u001f\\b\\f\\r\\t/\u{7f}é\"");
}

#[test]
fn canonical_keys_sorted_by_utf16_units() {
    let v = object(vec![("é", num(1)), ("Z", num(2)), ("a", num(3)), ("aa", num(4))]);
    assert_eq!(as_text(canonicalise(&v)), r#"{"Z":2,"a":3,"aa":4,"é":1}"#);
    let wide = object(vec![("\u{ffff}", num(1)), ("\u{e000}", num(2)), ("\u{10000}", num(3)), ("\u{d7ff}", num(4))]);
    assert_eq!(
        as_text(canonicalise(&wide)),
        "{\"\u{d7ff}\":4,\"\u{10000}\":3,\"\u{e000}\":2,\"\u{ffff}\":1}"
    );
}

#[test]
fn canonical_keeps_last_member_of_a_key() {
    let v = object(vec![("a", num(1)), ("b", num(2)), ("a", num(3))]);
    assert_eq!(as_text(canonicalise(&v)), r#"{"a":3,"b":2}"#);
    let parsed: serde_json::Value = serde_json::from_str(r#"{"a":1,"b":2,"a":3}"#).unwrap();
    assert_eq!(canonicalise(&v), canonicalise(&from_serde(&parsed)));
}

#[test]
fn leaf_ignores_repeated_equal_headers() {
    let once = vec![(text("x-model-id"), text("m"))];
    let twice = vec![(text("x-model-id"), text("m")), (text("x-model-id"), text("m"))];
    let a = canonicalise(&build_context(&once, text("ok"), 3));
    let b = canonicalise(&build_context(&twice, text("ok"), 3));
    assert_eq!(a, b);
    assert_eq!(
        as_text(a),
        r#"{"request_headers":{"x-model-id":"m"},"response_text":"ok","timestamp_ns":3}"#
    );
}

#[test]
fn timestamp_takes_any_unsigned_value() {
    let v = build_context(&vec![], text(""), u64::MAX);
    assert_eq!(
        as_text(canonicalise(&v)),
        r#"{"request_headers":{},"response_text":"","timestamp_ns":18446744073709551615}"#
    );
}

#[test]
fn canonical_ignores_whitespace_of_source() {
    let spaced: serde_json::Value =
        serde_json::from_str("{ \"b\" : 2 ,\n \"a\" : [ 1 , 2 ] }").unwrap();
    let tight: serde_json::Value = serde_json::from_str("{\"a\":[1,2],\"b\":2}").unwrap();
    assert_eq!(canonicalise(&from_serde(&spaced)), canonicalise(&from_serde(&tight)));
}

#[test]
fn canonical_is_a_fixed_point_of_reparsing() {
    let v = object(vec![
        ("b", num(2)),
        ("a", num(1)),
        ("c", object(vec![("z", num(3)), ("y", JsonValue::Array(vec![num(1), object(vec![("q", JsonValue::Null), ("p", JsonValue::Bool(true))])]))])),
        ("d", JsonValue::Str(text("x\ty\u{1}é"))),
    ]);
    let once = canonicalise(&v);
    let parsed: serde_json::Value = serde_json::from_slice(&once).unwrap();
    let twice = canonicalise(&from_serde(&parsed));
    assert_eq!(once, twice);
}

#[test]
fn leaf_derivation_scenario() {
    let headers = vec![(text("x-model-id"), text("m-1"))];
    let context = build_context(&headers, text("ok"), 0);
    let bytes = canonicalise(&context);
    assert_eq!(
        as_text(bytes.clone()),
        r#"{"request_headers":{"x-model-id":"m-1"},"response_text":"ok","timestamp_ns":0}"#
    );
    let mut proxy = ProxyHttp::new();
    proxy.on_http_request_headers(&vec![(text("x-model-id"), text("m-1")), (text("cookie"), text("c"))]);
    proxy.on_http_response_body(b"ok".to_vec(), true, 0);
    assert_eq!(proxy.hash_queue.len(), 1);
    assert_eq!(proxy.hash_queue[0], blake3::hash(&bytes).as_bytes().to_vec());
}

#[test]
fn leaf_ignores_header_arrival_order() {
    let first = vec![
        (text("x-model-id"), text("m-1")),
        (text("x-adapter-ids"), text("a,b")),
        (text("x-approval-status"), text("approved")),
    ];
    let second = vec![
        (text("x-approval-status"), text("approved")),
        (text("x-model-id"), text("m-1")),
        (text("x-adapter-ids"), text("a,b")),
    ];
    let a = canonicalise(&build_context(&first, text("body"), 17));
    let b = canonicalise(&build_context(&second, text("body"), 17));
    assert_eq!(a, b);
}

#[test]
fn header_allow_list_is_exact() {
    assert!(is_allowed_header("x-model-id"));
    assert!(is_allowed_header("x-adapter-ids"));
    assert!(is_allowed_header("x-prompt-template-id"));
    assert!(is_allowed_header("x-approval-status"));
    assert!(!is_allowed_header("X-Model-Id"));
    assert!(!is_allowed_header("x-model-id "));
    assert!(!is_allowed_header("authorization"));
    let kept = select_headers(&vec![
        (text("authorization"), text("secret")),
        (text("x-prompt-template-id"), text("t-9")),
        (text("x-model-id"), text("m-2")),
    ]);
    assert_eq!(kept, vec![(text("x-prompt-template-id"), text("t-9")), (text("x-model-id"), text("m-2"))]);
}

#[test]
fn body_is_decoded_lossily() {
    let mut proxy = ProxyHttp::new();
    proxy.on_http_response_body(vec![0x6f, 0xff, 0x6b], false, 5);
    assert!(proxy.hash_queue.is_empty());
    assert!(proxy.response_body.is_none());
    proxy.on_http_response_body(vec![0x6f, 0xff, 0x6b], true, 5);
    let expected = canonicalise(&build_context(&vec![], text("o\u{fffd}k"), 5));
    assert_eq!(proxy.hash_queue[0], blake3::hash(&expected).as_bytes().to_vec());
}
