//! The form in which a report carries its data.

use base64::Engine;
use std::io::Read;
use tracefox::engine::payload::{
    decode_report_payload, encode_report_payload, report_document, REPORT_PAYLOAD_PREFIX,
};
use tracefox::engine::scan::{compact_json, display_line};

#[test]
fn compressed_payload_round_trips_and_is_script_safe() {
    let json = "{\"文本\":\"</script>&>中文\\\\u003c\\n\\\"\",\"rows\":[1,2]}";
    let payload = encode_report_payload(json.as_bytes()).unwrap();
    assert!(payload.starts_with(REPORT_PAYLOAD_PREFIX));
    assert!(!payload.bytes().any(|byte| matches!(byte, b'<' | b'>' | b'&')));
    let compressed = base64::engine::general_purpose::STANDARD
        .decode(payload.strip_prefix(REPORT_PAYLOAD_PREFIX).unwrap())
        .unwrap();
    let mut decoder = flate2::read::GzDecoder::new(compressed.as_slice());
    let mut actual = Vec::new();
    decoder.read_to_end(&mut actual).unwrap();
    assert_eq!(actual, json.as_bytes());
    let a: serde_json::Value = serde_json::from_slice(&actual).unwrap();
    let b: serde_json::Value = serde_json::from_str(json).unwrap();
    assert_eq!(a, b);
}

#[test]
fn documents_take_the_payload_where_the_template_asks_for_it() {
    let d = report_document("<script>const report=/*REPORT_DATA*/null;</script>", "a\"b").unwrap();
    assert_eq!(d, "<script>const report=\"a\\\"b\";</script>");
    assert!(report_document("no mark", "x").is_none());
}

#[test]
fn lines_are_shown_and_compacted() {
    assert_eq!(display_line(b"plain"), "plain");
    assert_eq!(display_line(b"\0\0x"), "[NUL × 2]x");
    assert_eq!(display_line(&[0x61, 0xff]), "a\u{fffd}");
    assert_eq!(compact_json("{ \"a\" : 1 }").as_deref(), Some("{\"a\":1}"));
    assert_eq!(compact_json("plain"), None);
}

#[test]
fn payloads_are_read_back() {
    let payload = encode_report_payload(b"{\"a\":1}").unwrap();
    assert_eq!(decode_report_payload(&payload).as_deref(), Some(&b"{\"a\":1}"[..]));
    assert!(decode_report_payload("gzip-base64-v1:?").is_none());
    assert!(decode_report_payload("gzip-base64-v1:AAAA").is_none());
    assert!(decode_report_payload(&payload[1..]).is_none());
}

#[test]
fn control_characters_are_quoted() {
    let d = report_document("/*REPORT_DATA*/null", "\u{1}\u{1f}\u{8}\u{c}\n\r\t\\é\u{7f}").unwrap();
    assert_eq!(d, "\"\\u0001\\u001f\\b\\f\\n\\r\\t\\\\é\u{7f}\"");
}
