//! Cloud-config bounds and the coordinator lease timing checks.
use rollout_coordinator::config::{
    default_ack_deadline_secs, default_max_snapshot_part, default_multipart_chunk, default_visibility_timeout,
    schema_version, AwsConfig, AwsS3Config, AwsSecretsConfig, AwsSqsConfig, CloudConfig, CoordinatorConfig,
    GcpConfig, GcpGcsConfig, GcpPubSubConfig, GcpSecretsConfig,
};

fn aws(chunk: u64, part: u64) -> CloudConfig {
    CloudConfig::Aws(AwsConfig {
        region: "us-west-2".into(),
        s3: AwsS3Config {
            bucket: "x".into(),
            prefix: None,
            multipart_chunk_bytes: chunk,
            max_snapshot_part_bytes: part,
        },
        sqs: AwsSqsConfig { queue_url: "u".into(), visibility_timeout_secs: default_visibility_timeout() },
        secrets: AwsSecretsConfig::default(),
    })
}

fn gcp(chunk: u64, part: u64) -> CloudConfig {
    CloudConfig::Gcp(GcpConfig {
        project: "p".into(),
        gcs: GcpGcsConfig { bucket: "b".into(), prefix: None, resumable_chunk_bytes: chunk, max_snapshot_part_bytes: part },
        pubsub: GcpPubSubConfig { subscription: "s".into(), topic: "t".into(), ack_deadline_secs: default_ack_deadline_secs() },
        secrets: GcpSecretsConfig::default(),
    })
}

#[test]
fn cloud_config_defaults_match_d_snap_02_and_03() {
    assert_eq!(default_multipart_chunk(), 16 * 1024 * 1024);
    assert_eq!(default_max_snapshot_part(), 5 * 1024 * 1024 * 1024);
}

#[test]
fn cloud_config_rejects_multipart_chunk_below_5mib() {
    let cfg = aws(1048576, default_max_snapshot_part());
    let err = cfg.validate_cross_fields().unwrap_err().describe();
    assert!(err.contains("below S3 5 MiB minimum"), "got: {err}");
}

#[test]
fn cloud_config_rejects_max_snapshot_part_above_10gib() {
    let cfg = aws(default_multipart_chunk(), 11000000000);
    let err = cfg.validate_cross_fields().unwrap_err().describe();
    assert!(err.contains("10 GiB hard cap"), "got: {err}");
}

#[test]
fn cloud_defaults_pass_and_local_is_default() {
    assert!(matches!(CloudConfig::default(), CloudConfig::Local));
    assert!(CloudConfig::Local.validate_cross_fields().is_ok());
    assert!(aws(default_multipart_chunk(), default_max_snapshot_part()).validate_cross_fields().is_ok());
    assert!(gcp(default_multipart_chunk(), default_max_snapshot_part()).validate_cross_fields().is_ok());
    assert_eq!(default_visibility_timeout(), 300);
    assert_eq!(default_ack_deadline_secs(), 30);
    assert_eq!(schema_version(), 1);
}

#[test]
fn cloud_bounds_are_inclusive_and_cap_checked_first() {
    let five = 5 * 1024 * 1024;
    let ten = 10 * 1024 * 1024 * 1024;
    assert!(aws(five, ten).validate_cross_fields().is_ok(), "exactly 5 MiB and 10 GiB pass");
    assert!(aws(five - 1, ten).validate_cross_fields().is_err());
    // both bounds broken: the cap is reported
    let err = aws(1, ten + 1).validate_cross_fields().unwrap_err();
    assert!(err.is_config_invalid());
    assert_eq!(
        err.describe(),
        "fatal: config invalid: cloud.aws.s3.max_snapshot_part_bytes exceeds 10 GiB hard cap (D-SNAP-03)"
    );
    let g = gcp(five - 1, ten).validate_cross_fields().unwrap_err().describe();
    assert_eq!(g, "fatal: config invalid: cloud.gcp.gcs.resumable_chunk_bytes below 5 MiB minimum");
    let g2 = gcp(five, ten + 1).validate_cross_fields().unwrap_err().describe();
    assert!(g2.contains("cloud.gcp.gcs.max_snapshot_part_bytes exceeds 10 GiB hard cap"));
}

fn coord(heartbeat_ms: u64, failure_ms: u64) -> CoordinatorConfig {
    CoordinatorConfig {
        run_id: "01ARZ3NDEKTSV4RRFFQ69G5FAV".to_string(),
        storage_path: "rollout.redb".to_string(),
        heartbeat_interval_ms: heartbeat_ms,
        coordinator_failure_timeout_ms: failure_ms,
        clock_skew_budget_ms: 500,
    }
}

#[test]
fn lease_ttl_equals_coord_failure() {
    let c = coord(1_000, 10_000);
    assert_eq!(c.lease_ttl(), c.coordinator_failure_timeout_ms);
    assert_eq!(c.lease_renew_interval(), c.heartbeat_interval_ms);
    assert!(c.lease_renew_interval() < c.lease_ttl());
    c.validate(Ok(())).expect("default lease timing is valid");
}

#[test]
fn scan_runs_at_half_the_heartbeat_interval() {
    assert_eq!(coord(1_000, 10_000).scan_interval_ms(), 500);
    assert_eq!(coord(1_001, 10_000).scan_interval_ms(), 500);
    assert_eq!(coord(1, 10_000).scan_interval_ms(), 0);
}

#[test]
fn renew_cadence_not_below_ttl_is_rejected() {
    let mut c = coord(1_000, 10_000);
    c.heartbeat_interval_ms = c.coordinator_failure_timeout_ms;
    let errs = c.validate(Ok(())).expect_err("renew cadence == TTL must be rejected");
    assert!(errs.iter().any(|e| e.contains("renew cadence")));
}

#[test]
fn transport_violations_come_first_and_are_kept() {
    let c = coord(20_000, 10_000);
    let errs = c.validate(Err(vec!["self_fence must be below failure timeout".to_string()])).unwrap_err();
    assert_eq!(errs.len(), 2);
    assert_eq!(errs[0], "self_fence must be below failure timeout");
    assert_eq!(
        errs[1],
        "coordinator lease renew cadence must be strictly less than the lease TTL (coordinator_failure_timeout)"
    );
    assert!(coord(1, 2).validate(Err(Vec::new())).is_ok(), "an empty transport result is no violation");
}
