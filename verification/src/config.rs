//! Run configuration schema: run metadata, storage and cloud-provider
//! selection, and the plan-time cross-field checks of the cloud config.

use vstd::prelude::*;

use crate::errors::{CoreError, FatalError};

verus! {

/// 5 MiB: the S3 multipart / GCS resumable chunk floor.
pub const FIVE_MIB: u64 = 5 * 1024 * 1024;

/// 10 GiB: the hard cap on a single snapshot part.
pub const TEN_GIB: u64 = 10 * 1024 * 1024 * 1024;

/// Default schema version for new configs.
pub fn schema_version() -> (v: u32)
    ensures
        v == 1,
{
    1
}

/// Default multipart / resumable chunk size: 16 MiB.
pub fn default_multipart_chunk() -> (n: u64)
    ensures
        n == 16 * 1024 * 1024,
{
    16 * 1024 * 1024
}

/// Default cap on one snapshot part: 5 GiB.
pub fn default_max_snapshot_part() -> (n: u64)
    ensures
        n == 5 * 1024 * 1024 * 1024,
{
    5 * 1024 * 1024 * 1024
}

/// Default SQS visibility timeout: 300 s.
pub fn default_visibility_timeout() -> (n: u32)
    ensures
        n == 300,
{
    300
}

/// Default Pub/Sub ack deadline: 30 s.
pub fn default_ack_deadline_secs() -> (n: u32)
    ensures
        n == 30,
{
    30
}

/// Free-form run metadata; persisted but not interpreted.
#[derive(Debug, Clone, Default)]
pub struct RunMetadata {
    /// Human-readable run name.
    pub name: Option<String>,
    /// Free-form tags.
    pub tags: Vec<String>,
}

/// Storage backend selection.
#[derive(Debug, Clone)]
pub enum StorageConfig {
    /// Embedded local KV.
    Embedded {
        /// Filesystem path for the embedded DB.
        path: String,
    },
    /// Postgres.
    Postgres {
        /// Postgres connection URL.
        url: String,
    },
}

/// Cloud provider selection; `Local` is the default. Being one tagged
/// choice, a config can never name two providers at once.
#[derive(Debug, Clone)]
pub enum CloudConfig {
    /// Local filesystem + in-memory backends (no cloud credentials).
    Local,
    /// Amazon Web Services.
    Aws(AwsConfig),
    /// Google Cloud Platform.
    Gcp(GcpConfig),
}

/// AWS provider config.
#[derive(Debug, Clone)]
pub struct AwsConfig {
    /// AWS region (e.g. `us-west-2`).
    pub region: String,
    /// S3 object-store settings.
    pub s3: AwsS3Config,
    /// SQS queue settings.
    pub sqs: AwsSqsConfig,
    /// Secrets Manager settings.
    pub secrets: AwsSecretsConfig,
}

/// AWS S3 object-store settings.
#[derive(Debug, Clone)]
pub struct AwsS3Config {
    /// Target bucket name.
    pub bucket: String,
    /// Optional key prefix for all objects.
    pub prefix: Option<String>,
    /// Multipart upload chunk size in bytes (S3 minimum 5 MiB).
    pub multipart_chunk_bytes: u64,
    /// Hard cap on a single snapshot part (10 GiB ceiling).
    pub max_snapshot_part_bytes: u64,
}

/// AWS SQS queue settings.
#[derive(Debug, Clone)]
pub struct AwsSqsConfig {
    /// Fully-qualified SQS queue URL.
    pub queue_url: String,
    /// Visibility timeout in seconds (default 300).
    pub visibility_timeout_secs: u32,
}

/// AWS Secrets Manager settings.
#[derive(Debug, Clone, Default)]
pub struct AwsSecretsConfig {
    /// Read-allowlisted secret names.
    pub allowlist: Vec<String>,
}

/// GCP provider config.
#[derive(Debug, Clone)]
pub struct GcpConfig {
    /// GCP project id.
    pub project: String,
    /// GCS object-store settings.
    pub gcs: GcpGcsConfig,
    /// Pub/Sub queue settings.
    pub pubsub: GcpPubSubConfig,
    /// Secret Manager settings.
    pub secrets: GcpSecretsConfig,
}

/// GCP GCS object-store settings.
#[derive(Debug, Clone)]
pub struct GcpGcsConfig {
    /// Target GCS bucket.
    pub bucket: String,
    /// Optional object-name prefix.
    pub prefix: Option<String>,
    /// Resumable-upload chunk size in bytes (5 MiB minimum).
    pub resumable_chunk_bytes: u64,
    /// Hard cap on a single snapshot part (10 GiB ceiling).
    pub max_snapshot_part_bytes: u64,
}

/// GCP Pub/Sub queue settings.
#[derive(Debug, Clone)]
pub struct GcpPubSubConfig {
    /// Subscription id to pull from.
    pub subscription: String,
    /// Topic id to publish to.
    pub topic: String,
    /// Ack deadline in seconds (default 30).
    pub ack_deadline_secs: u32,
}

/// GCP Secret Manager settings.
#[derive(Debug, Clone, Default)]
pub struct GcpSecretsConfig {
    /// Read-allowlisted secret names.
    pub allowlist: Vec<String>,
}

/// The message of the first violated cloud bound, if any.
pub open spec fn cloud_violation(c: CloudConfig) -> Option<Seq<char>> {
    match c {
        CloudConfig::Aws(aws) => if aws.s3.max_snapshot_part_bytes > TEN_GIB {
            Some("cloud.aws.s3.max_snapshot_part_bytes exceeds 10 GiB hard cap (D-SNAP-03)"@)
        } else if aws.s3.multipart_chunk_bytes < FIVE_MIB {
            Some("cloud.aws.s3.multipart_chunk_bytes below S3 5 MiB minimum"@)
        } else {
            None
        },
        CloudConfig::Gcp(gcp) => if gcp.gcs.max_snapshot_part_bytes > TEN_GIB {
            Some("cloud.gcp.gcs.max_snapshot_part_bytes exceeds 10 GiB hard cap (D-SNAP-03)"@)
        } else if gcp.gcs.resumable_chunk_bytes < FIVE_MIB {
            Some("cloud.gcp.gcs.resumable_chunk_bytes below 5 MiB minimum"@)
        } else {
            None
        },
        CloudConfig::Local => None,
    }
}

fn config_invalid(msg: &str) -> (e: CoreError)
    ensures
        e matches CoreError::Fatal(FatalError::ConfigInvalid { msg: m }) && m@ == msg@,
{
    CoreError::Fatal(FatalError::ConfigInvalid { msg: msg.to_owned() })
}

impl Default for CloudConfig {
    /// The default provider: `Local`.
    fn default() -> (c: CloudConfig)
        ensures
            c is Local,
    {
        CloudConfig::Local
    }
}

impl CloudConfig {
    /// Plan-time cross-field validation: reject snapshot parts above the
    /// 10 GiB hard cap (checked first) and multipart / resumable chunks
    /// below the 5 MiB floor. `Local` has no bounds.
    ///
    /// Returns `Fatal(ConfigInvalid)` with the message of the first violated
    /// bound, exactly when one is violated.
    pub fn validate_cross_fields(&self) -> (r: Result<(), CoreError>)
        ensures
            match cloud_violation(*self) {
                None => r is Ok,
                Some(m) => r matches Err(CoreError::Fatal(FatalError::ConfigInvalid { msg }))
                    && msg@ == m,
            },
            r is Ok <==> match *self {
                CloudConfig::Aws(aws) => aws.s3.max_snapshot_part_bytes <= 10_737_418_240
                    && aws.s3.multipart_chunk_bytes >= 5_242_880,
                CloudConfig::Gcp(gcp) => gcp.gcs.max_snapshot_part_bytes <= 10_737_418_240
                    && gcp.gcs.resumable_chunk_bytes >= 5_242_880,
                CloudConfig::Local => true,
            },
    {
        match self {
            CloudConfig::Aws(aws) => {
                if aws.s3.max_snapshot_part_bytes > TEN_GIB {
                    return Err(
                        config_invalid(
                            "cloud.aws.s3.max_snapshot_part_bytes exceeds 10 GiB hard cap (D-SNAP-03)",
                        ),
                    );
                }
                if aws.s3.multipart_chunk_bytes < FIVE_MIB {
                    return Err(config_invalid("cloud.aws.s3.multipart_chunk_bytes below S3 5 MiB minimum"));
                }
            },
            CloudConfig::Gcp(gcp) => {
                if gcp.gcs.max_snapshot_part_bytes > TEN_GIB {
                    return Err(
                        config_invalid(
                            "cloud.gcp.gcs.max_snapshot_part_bytes exceeds 10 GiB hard cap (D-SNAP-03)",
                        ),
                    );
                }
                if gcp.gcs.resumable_chunk_bytes < FIVE_MIB {
                    return Err(config_invalid("cloud.gcp.gcs.resumable_chunk_bytes below 5 MiB minimum"));
                }
            },
            CloudConfig::Local => {},
        }
        Ok(())
    }
}

/// Coordinator run configuration: the run it serves, where its embedded
/// storage lives, and the transport timings it reads (milliseconds).
#[derive(Debug, Clone)]
pub struct CoordinatorConfig {
    /// Run id this coordinator serves (ULID text).
    pub run_id: String,
    /// Embedded storage location.
    pub storage_path: String,
    /// Worker heartbeat cadence.
    pub heartbeat_interval_ms: u64,
    /// Deadline after which a silent coordinator (or worker) is failed.
    pub coordinator_failure_timeout_ms: u64,
    /// Clock-skew allowance applied before declaring a worker failed.
    pub clock_skew_budget_ms: u64,
}

/// Violation text: the lease TTL differs from the failure timeout.
pub open spec fn lease_ttl_violation() -> Seq<char> {
    "coordinator lease TTL must equal transport.coordinator_failure_timeout"@
}

/// Violation text: the renew cadence is not below the lease TTL.
pub open spec fn renew_cadence_violation() -> Seq<char> {
    "coordinator lease renew cadence must be strictly less than the lease TTL (coordinator_failure_timeout)"@
}

/// The violations `validate` reports: the transport's own, then the lease
/// timing ones.
pub open spec fn coordinator_violations(c: CoordinatorConfig, transport: Seq<Seq<char>>) -> Seq<Seq<char>> {
    if c.heartbeat_interval_ms >= c.coordinator_failure_timeout_ms {
        transport.push(renew_cadence_violation())
    } else {
        transport
    }
}

/// The violation texts of a check result: none for `Ok`.
pub open spec fn violation_texts(r: Result<(), Vec<String>>) -> Seq<Seq<char>> {
    match r {
        Ok(_) => Seq::empty(),
        Err(v) => v@.map_values(|x: String| x@),
    }
}

impl CoordinatorConfig {
    /// Coordinator-lease TTL: a dead coordinator's lease expires exactly when
    /// workers would declare it failed, so it is the coordinator failure
    /// timeout.
    pub fn lease_ttl(&self) -> (ms: u64)
        ensures
            ms == self.coordinator_failure_timeout_ms,
    {
        self.coordinator_failure_timeout_ms
    }

    /// Lease-renew cadence: one renewal per heartbeat interval.
    pub fn lease_renew_interval(&self) -> (ms: u64)
        ensures
            ms == self.heartbeat_interval_ms,
    {
        self.heartbeat_interval_ms
    }

    /// Failure-scan cadence: half the heartbeat interval, so a single missed
    /// beat is detected within two heartbeat intervals.
    pub fn scan_interval_ms(&self) -> (ms: u64)
        ensures
            ms == self.heartbeat_interval_ms / 2,
    {
        self.heartbeat_interval_ms / 2
    }

    /// Validate cross-field invariants at plan time.
    ///
    /// `transport` is the transport layer's own cross-field check result; its
    /// violations come first. Added to them: the lease TTL must equal the
    /// coordinator failure timeout, and the renew cadence must be strictly
    /// shorter than the TTL (so a missed renewal is not immediately fatal).
    /// Returns every violation, or `Ok` when there is none.
    pub fn validate(&self, transport: Result<(), Vec<String>>) -> (r: Result<(), Vec<String>>)
        ensures
            ({
                let v = coordinator_violations(*self, violation_texts(transport));
                &&& v.len() == 0 ==> r is Ok
                &&& v.len() > 0 ==> (r matches Err(e) && e@.map_values(|x: String| x@) == v)
            }),
            r is Ok <==> (violation_texts(transport).len() == 0 && self.heartbeat_interval_ms
                < self.coordinator_failure_timeout_ms),
            transport is Ok ==> (r is Ok <==> self.heartbeat_interval_ms < self.coordinator_failure_timeout_ms),
    {
        let ghost t = violation_texts(transport);
        let mut violations = match transport {
            Ok(()) => Vec::new(),
            Err(v) => v,
        };
        proof {
            assert(violations@.map_values(|x: String| x@) =~= t);
        }
        if self.lease_ttl() != self.coordinator_failure_timeout_ms {
            violations.push("coordinator lease TTL must equal transport.coordinator_failure_timeout".to_owned());
        }
        if self.lease_renew_interval() >= self.lease_ttl() {
            let ghost before = violations@;
            violations.push(
                "coordinator lease renew cadence must be strictly less than the lease TTL (coordinator_failure_timeout)".to_owned(),
            );
            proof {
                reveal_strlit(
                    "coordinator lease renew cadence must be strictly less than the lease TTL (coordinator_failure_timeout)",
                );
                assert(violations@.map_values(|x: String| x@) =~= before.map_values(|x: String| x@).push(
                    renew_cadence_violation(),
                ));
            }
        }
        if violations.len() == 0 {
            Ok(())
        } else {
            Err(violations)
        }
    }
}

} // verus!
