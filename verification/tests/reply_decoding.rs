//! Decoding replies: typed payloads, the string sentinel fallback, and
//! malformed payloads, with the reference serializer producing the bytes.

use meritrank_connector::replies::{
    decode_ack, decode_link_records, decode_mutual_score_records, decode_node_names,
    decode_score_records, decode_text, ReplyError,
};

#[test]
fn typed_score_records_decode() {
    let reply = rmp_serde::to_vec(&vec![
        ("U1".to_string(), "U2".to_string(), 0.4f64),
        ("U1".to_string(), "U3".to_string(), 0.6f64),
    ])
    .unwrap();
    let records = decode_score_records(&reply).expect("typed decode should win");
    assert_eq!(records.len(), 2);
    assert_eq!(records[0].ego, "U1");
    assert_eq!(records[0].target, "U2");
    assert_eq!(records[0].score.bits, 0.4f64.to_bits());
    assert_eq!(records[1].target, "U3");
    assert_eq!(records[1].score.bits, 0.6f64.to_bits());
}

#[test]
fn empty_score_list_decodes() {
    let reply = rmp_serde::to_vec(&Vec::<(String, String, f64)>::new()).unwrap();
    let records = decode_score_records(&reply).expect("empty list is typed");
    assert_eq!(records.len(), 0);
}

#[test]
fn sentinel_string_becomes_service_error() {
    let reply = rmp_serde::to_vec(&"no such node").unwrap();
    match decode_score_records(&reply) {
        Err(ReplyError::Service(message)) => assert_eq!(message, "no such node"),
        _ => panic!("expected the service error fallback"),
    }
}

#[test]
fn garbage_becomes_malformed() {
    let reply: Vec<u8> = vec![0xc1, 0x00, 0xff];
    match decode_score_records(&reply) {
        Err(ReplyError::Malformed) => {}
        _ => panic!("expected a malformed reply"),
    }
}

#[test]
fn truncated_typed_reply_falls_back_to_malformed() {
    let mut reply = rmp_serde::to_vec(&vec![("U1".to_string(), "U2".to_string(), 0.4f64)])
        .unwrap();
    reply.pop();
    match decode_score_records(&reply) {
        Err(ReplyError::Malformed) => {}
        _ => panic!("expected a malformed reply"),
    }
}

#[test]
fn node_names_decode() {
    let reply = rmp_serde::to_vec(&vec![("U1".to_string(),), ("U2".to_string(),)]).unwrap();
    let names = decode_node_names(&reply).expect("typed decode should win");
    assert_eq!(names, vec!["U1".to_string(), "U2".to_string()]);
}

#[test]
fn node_names_service_error() {
    let reply = rmp_serde::to_vec(&"backing store gone").unwrap();
    match decode_node_names(&reply) {
        Err(ReplyError::Service(message)) => assert_eq!(message, "backing store gone"),
        _ => panic!("expected the service error fallback"),
    }
}

#[test]
fn link_records_decode() {
    let reply = rmp_serde::to_vec(&vec![
        ("U1".to_string(), "U2".to_string()),
        ("U1".to_string(), "U3".to_string()),
    ])
    .unwrap();
    let links = decode_link_records(&reply).expect("typed decode should win");
    assert_eq!(links.len(), 2);
    assert_eq!(links[0].ego, "U1");
    assert_eq!(links[0].target, "U2");
    assert_eq!(links[1].target, "U3");
}

#[test]
fn mutual_score_records_decode() {
    let reply = rmp_serde::to_vec(&vec![("U2".to_string(), 0.3f64, 0.2f64)]).unwrap();
    let records = decode_mutual_score_records(&reply).expect("typed decode should win");
    assert_eq!(records.len(), 1);
    assert_eq!(records[0].peer, "U2");
    assert_eq!(records[0].peer_score.bits, 0.3f64.to_bits());
    assert_eq!(records[0].ego_score.bits, 0.2f64.to_bits());
}

#[test]
fn ack_decodes_and_falls_back() {
    let reply = rmp_serde::to_vec(&()).unwrap();
    decode_ack(&reply).expect("nil is the acknowledgment");
    let reply = rmp_serde::to_vec(&"mutation rejected").unwrap();
    match decode_ack(&reply) {
        Err(ReplyError::Service(message)) => assert_eq!(message, "mutation rejected"),
        _ => panic!("expected the service error fallback"),
    }
}

#[test]
fn text_reply_decodes() {
    let reply = rmp_serde::to_vec(&"0.8.1").unwrap();
    assert_eq!(decode_text(&reply).expect("a string reply"), "0.8.1");
    match decode_text(&[0x91u8, 0xc0].to_vec()) {
        Err(ReplyError::Malformed) => {}
        _ => panic!("a list is not a text reply"),
    }
}

#[test]
fn non_ascii_text_survives_decoding() {
    let reply = rmp_serde::to_vec(&"нет такого узла — 世界").unwrap();
    assert_eq!(
        decode_text(&reply).expect("a string reply"),
        "нет такого узла — 世界"
    );
}

#[test]
fn typed_decode_wins_over_sentinel() {
    // A reply that is a real typed payload must never be read as an error
    // string, even though a string-shaped decode of some payloads exists:
    // the typed attempt comes first.
    let reply = rmp_serde::to_vec(&Vec::<(String, String, f64)>::new()).unwrap();
    assert!(decode_score_records(&reply).is_ok());
}
