use rust_rdkafka::message::TheMessage;
use rust_rdkafka::record::{transform, Header, MalformedPolicy, SourceRecord};

fn src(payload: Option<Vec<u8>>) -> SourceRecord {
    SourceRecord {
        topic: "source".to_string(),
        partition: 2,
        offset: 5,
        key: Some(b"k1".to_vec()),
        payload,
        headers: vec![Header { name: "traceparent".to_string(), value: b"00-ab".to_vec() }],
    }
}

#[test]
fn valid_payload_is_kept() {
    let out = transform(src(Some("héllo".as_bytes().to_vec())), MalformedPolicy::Skip).unwrap();
    assert_eq!(out.payload, "héllo".as_bytes().to_vec());
    assert_eq!(out.key, Some(Vec::new()));
    assert_eq!(out.headers.len(), 1);
    assert_eq!(out.headers[0].name, "traceparent");
    assert_eq!(out.headers[0].value, b"00-ab".to_vec());
}

#[test]
fn missing_payload_becomes_dashes() {
    let out = transform(src(None), MalformedPolicy::Skip).unwrap();
    assert_eq!(out.payload, b"--".to_vec());
}

#[test]
fn malformed_payload_is_skipped() {
    assert!(transform(src(Some(vec![0xc3, 0x28])), MalformedPolicy::Skip).is_none());
}

#[test]
fn malformed_payload_forwarded_empty() {
    let out = transform(src(Some(vec![0xc3, 0x28])), MalformedPolicy::ForwardEmpty).unwrap();
    assert!(out.payload.is_empty());
}

#[test]
fn empty_payload_is_valid() {
    let out = transform(src(Some(Vec::new())), MalformedPolicy::Skip).unwrap();
    assert!(out.payload.is_empty());
}

#[test]
fn message_bytes_are_its_content() {
    let m = TheMessage::new("Message 3");
    assert_eq!(m.content(), "Message 3");
    assert_eq!(m.to_bytes(), b"Message 3");
}

#[test]
fn skipping_is_the_default() {
    assert_eq!(MalformedPolicy::default(), MalformedPolicy::Skip);
}
