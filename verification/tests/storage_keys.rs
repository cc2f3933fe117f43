//! Postgres key validation.
use rollout_coordinator::errors::{CoreError, FatalError};
use rollout_coordinator::ids::ContentId;
use rollout_coordinator::storage::StorageKey;

fn key(path: &[&str]) -> StorageKey {
    StorageKey { namespace: "work".into(), run_id: None, path: path.iter().map(|s| (*s).to_string()).collect() }
}

fn is_config_invalid(err: &CoreError) -> bool {
    matches!(err, CoreError::Fatal(FatalError::ConfigInvalid { .. }))
}

#[test]
fn validate_for_postgres_accepts_ascii_printable() {
    assert!(key(&["abc123"]).validate_for_postgres().is_ok());
}

#[test]
fn validate_for_postgres_rejects_non_printable() {
    for bad in ["\u{0}", "\u{1}", "\u{7f}"] {
        let err = key(&[bad]).validate_for_postgres().unwrap_err();
        assert!(is_config_invalid(&err), "expected ConfigInvalid for {bad:?}");
    }
}

#[test]
fn validate_for_postgres_rejects_non_utf8_namespace_unreachable_by_type() {
    assert!(key(&["clean"]).validate_for_postgres().is_ok());
}

#[test]
fn validate_for_postgres_rejects_high_bit_set() {
    let err = key(&["caf\u{e9}"]).validate_for_postgres().unwrap_err();
    assert!(is_config_invalid(&err));
}

#[test]
fn validate_for_postgres_empty_path_ok() {
    assert!(key(&[]).validate_for_postgres().is_ok());
}

#[test]
fn validate_for_postgres_hex_encoded_id_passes() {
    let hexed = ContentId::of(&[0x00_u8, 0xff, 0x42]).to_hex();
    let k = StorageKey { namespace: "work".into(), run_id: None, path: vec!["abc".into(), hexed] };
    assert!(k.validate_for_postgres().is_ok());
}

#[test]
fn validate_for_postgres_names_first_bad_component() {
    let err = key(&["ok", "b\u{1}d", "\u{7f}"]).validate_for_postgres().unwrap_err();
    match err {
        CoreError::Fatal(FatalError::ConfigInvalid { msg }) => {
            assert_eq!(
                msg,
                "StorageKey path[1] contains byte 0x01 outside printable ASCII (0x20-0x7E); hex-encode binary IDs for the Postgres backend (see rollout-core::traits::storage StorageKey rustdoc)"
            );
        },
        other => panic!("unexpected {other:?}"),
    }
}
