//! Identifier text round trips, content-hash determinism, hex parsing.
use rollout_coordinator::cloud::{LeaseToken, QueueItemId};
use rollout_coordinator::errors::{CoreError, FatalError};
use rollout_coordinator::ids::{parse_run_id, ContentId, RunId, WorkerId};
use ulid::Ulid;

/// blake3 of the empty input (well-known vector).
const EMPTY_BLAKE3: [u8; 32] = [
    0xaf, 0x13, 0x49, 0xb9, 0xf5, 0xf9, 0xa1, 0xa6, 0xa0, 0x40, 0x4d, 0xea, 0x36, 0xdc, 0xc9, 0x49, 0x9b, 0xcb, 0x25,
    0xc9, 0xad, 0xc1, 0x12, 0xb7, 0xcc, 0x9a, 0x93, 0xca, 0xe4, 0x1f, 0x32, 0x62,
];

#[test]
fn run_id_display_from_str_roundtrip() {
    let r = RunId(Ulid::new().0);
    let s = r.to_text();
    let parsed = RunId::parse(&s).expect("parse RunId");
    assert_eq!(parsed, r);
}

#[test]
fn worker_id_display_from_str_roundtrip() {
    let w = WorkerId(Ulid::new().0);
    let s = w.to_text();
    let parsed = WorkerId::parse(&s).expect("parse WorkerId");
    assert_eq!(parsed, w);
}

#[test]
fn content_id_determinism() {
    assert_eq!(ContentId::of(b"data"), ContentId::of(b"data"));
    assert_ne!(ContentId::of(b"data"), ContentId::of(b"other"));
}

#[test]
fn content_id_known_vector() {
    assert_eq!(ContentId::of(b"").0, EMPTY_BLAKE3);
}

#[test]
fn ulid_text_is_canonical_crockford() {
    let r = RunId(Ulid::from_string("01ARZ3NDEKTSV4RRFFQ69G5FAV").unwrap().0);
    assert_eq!(r.to_text(), "01ARZ3NDEKTSV4RRFFQ69G5FAV");
    assert!(RunId::parse("not-a-ulid").is_none());
    assert!(WorkerId::parse("").is_none());
}

#[test]
fn content_id_hex_round_trip() {
    let id = ContentId::of(b"");
    let hex = id.to_hex();
    assert_eq!(hex, "af1349b9f5f9a1a6a0404dea36dcc9499bcb25c9adc112b7cc9a93cae41f3262");
    assert_eq!(ContentId::parse_hex(&hex).unwrap(), id);
    assert_eq!(ContentId::parse_hex(&hex.to_uppercase()).unwrap(), id);
}

#[test]
fn content_id_parse_hex_refusals() {
    assert_eq!(ContentId::parse_hex("abc").unwrap_err(), "ContentId: expected 64 hex chars, got 3");
    let bad = format!("zz{}", "0".repeat(62));
    assert_eq!(ContentId::parse_hex(&bad).unwrap_err(), "invalid digit found in string");
    // a leading `+` is an accepted sign of a pair
    let plus = format!("+f{}", "0".repeat(62));
    assert_eq!(ContentId::parse_hex(&plus).unwrap().0[0], 0x0f);
}

#[test]
fn from_message_id_string_is_deterministic_and_collision_distinct() {
    let a = QueueItemId::from_message_id_string("msg-uuid-1");
    let a2 = QueueItemId::from_message_id_string("msg-uuid-1");
    let b = QueueItemId::from_message_id_string("msg-uuid-2");
    assert_eq!(a, a2, "same message id must map to the same QueueItemId");
    assert_ne!(a, b, "distinct message ids must map to distinct QueueItemIds");
}

#[test]
fn from_message_id_string_takes_first_16_digest_bytes_big_endian() {
    let q = QueueItemId::from_message_id_string("msg-uuid-1");
    let d = ContentId::of(b"msg-uuid-1").0;
    let mut want: u128 = 0;
    for b in &d[..16] {
        want = (want << 8) | u128::from(*b);
    }
    assert_eq!(q.0, want);
}

#[test]
fn lease_token_from_queue_item_id_is_big_endian_bytes() {
    let t = LeaseToken::from_queue_item_id(QueueItemId(0x0102));
    let mut want = vec![0u8; 14];
    want.extend_from_slice(&[1, 2]);
    assert_eq!(t.0, want);
}

#[test]
fn parse_run_id_maps_decode_errors_to_config_invalid() {
    let ok = parse_run_id("01ARZ3NDEKTSV4RRFFQ69G5FAV").unwrap();
    assert_eq!(ok.to_text(), "01ARZ3NDEKTSV4RRFFQ69G5FAV");
    match parse_run_id("abc") {
        Err(CoreError::Fatal(FatalError::ConfigInvalid { msg })) => {
            assert_eq!(msg, "run_id is not a valid ULID: invalid length")
        },
        other => panic!("unexpected {other:?}"),
    }
    match parse_run_id("01ARZ3NDEKTSV4RRFFQ69G5FAU") {
        Err(CoreError::Fatal(FatalError::ConfigInvalid { msg })) => {
            assert_eq!(msg, "run_id is not a valid ULID: invalid character")
        },
        other => panic!("unexpected {other:?}"),
    }
}
