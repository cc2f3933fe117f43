//! Cloud-layer value types: queue item ids, lease tokens, object-store put
//! hints, and compute inventory.

use vstd::prelude::*;

use std::time::Duration;

use crate::errors::CoreError;
use crate::ids::blake3_digest;

verus! {

/// Identifier for an enqueued queue item (a ULID's 128-bit value).
#[derive(Debug, Clone, Copy, PartialEq, Eq, Structural, Hash)]
pub struct QueueItemId(pub u128);

/// Opaque per-backend lease handle (SQS receipt handle, Pub/Sub ack id, or
/// the bytes of a `QueueItemId`).
#[derive(Debug, Clone, PartialEq, Eq)]
pub struct LeaseToken(pub Vec<u8>);

/// Hint passed alongside an object-store put.
#[derive(Debug, Clone, Default, PartialEq, Eq)]
pub struct PutHint {
    /// Caller-provided size estimate, if known.
    pub expected_size: Option<u64>,
    /// MIME-style content type, if applicable.
    pub content_type: Option<String>,
}

/// Snapshot of a single GPU device.
#[derive(Debug, Clone, PartialEq, Eq)]
pub struct GpuInfo {
    /// Vendor name (e.g. `"nvidia"`).
    pub vendor: String,
    /// Model identifier.
    pub model: String,
    /// Total device memory in MiB.
    pub memory_mib: u64,
}

/// Inventory of CPU / memory / GPU for the current node.
#[derive(Debug, Clone, PartialEq, Eq)]
pub struct ComputeInventory {
    /// Logical CPU count.
    pub cpu_count: u32,
    /// Total RAM in MiB.
    pub memory_mib: u64,
    /// GPUs visible on this node.
    pub gpus: Vec<GpuInfo>,
    /// Provider-reported instance type, if any.
    pub instance_type: Option<String>,
}

/// `256^n`.
pub open spec fn pow256(n: nat) -> nat
    decreases n,
{
    if n == 0 {
        1
    } else {
        pow256((n - 1) as nat) * 256
    }
}

/// Big-endian value of a byte string.
pub open spec fn be_value(s: Seq<u8>) -> nat
    decreases s.len(),
{
    if s.len() == 0 {
        0
    } else {
        be_value(s.drop_last()) * 256 + s.last() as nat
    }
}

/// The 16 big-endian bytes of a 128-bit value.
pub open spec fn be_bytes(v: u128) -> Seq<u8> {
    Seq::new(16, |i: int| ((v >> ((15 - i) * 8) as u128) & 0xff) as u8)
}

proof fn lemma_be_value_bound(s: Seq<u8>)
    ensures
        be_value(s) < pow256(s.len()),
    decreases s.len(),
{
    if s.len() > 0 {
        lemma_be_value_bound(s.drop_last());
    }
}

impl QueueItemId {
    /// Derive a deterministic `QueueItemId` from a backend message-id string:
    /// the first 16 bytes of the blake3 digest of its UTF-8 bytes, read
    /// big-endian. The same message id always maps to the same item id.
    pub fn from_message_id_string(mid: &str) -> (q: QueueItemId)
        ensures
            q.0 == be_value(blake3_digest(vstd::utf8::encode_utf8(mid@)).take(16)),
    {
        let digest = crate::ids::ContentId::of(mid.as_bytes());
        let mut v: u128 = 0;
        let mut i: usize = 0;
        proof {
            assert(digest.0@.take(0) =~= Seq::<u8>::empty());
            assert(pow256(15) == 0x1000000000000000000000000000000u128) by {
                reveal_with_fuel(pow256, 16);
            }
        }
        while i < 16
            invariant
                i <= 16,
                digest.0@.len() == 32,
                v == be_value(digest.0@.take(i as int)),
                pow256(15) == 0x1000000000000000000000000000000u128,
            decreases 16 - i,
        {
            proof {
                lemma_be_value_bound(digest.0@.take(i as int));
                lemma_pow256_monotone(i as nat, 15);
                let t = digest.0@.take(i + 1);
                assert(t.drop_last() =~= digest.0@.take(i as int));
                assert(t.last() == digest.0@[i as int]);
            }
            v = v * 256 + digest.0[i] as u128;
            i = i + 1;
        }
        QueueItemId(v)
    }
}

proof fn lemma_pow256_monotone(a: nat, b: nat)
    requires
        a <= b,
    ensures
        pow256(a) <= pow256(b),
    decreases b,
{
    if a < b {
        lemma_pow256_monotone(a, (b - 1) as nat);
    }
}

impl LeaseToken {
    /// A lease token carrying the 16 big-endian bytes of a `QueueItemId`.
    pub fn from_queue_item_id(id: QueueItemId) -> (t: LeaseToken)
        ensures
            t.0@ == be_bytes(id.0),
    {
        let mut out: Vec<u8> = Vec::new();
        let mut i: u32 = 0;
        while i < 16
            invariant
                i <= 16,
                out@.len() == i,
                forall|j: int| 0 <= j < i ==> out@[j] == be_bytes(id.0)[j],
            decreases 16 - i,
        {
            let b = ((id.0 >> ((15 - i) * 8)) & 0xff) as u8;
            out.push(b);
            i = i + 1;
        }
        assert(out@ =~= be_bytes(id.0));
        LeaseToken(out)
    }
}

/// Secret-material accessor, implemented per backend (cloud secret
/// managers, environment variables).
pub trait SecretStore {
    /// Resolve a named secret.
    fn get(&self, name: &str) -> Result<String, CoreError>;

    /// Write a secret. A read-only backend returns `Fatal(ConfigInvalid)`.
    fn put(&self, name: &str, value: &str) -> Result<(), CoreError>;
}

/// Read-only compute / instance metadata, implemented per backend.
pub trait ComputeHint {
    /// Best-effort node inventory.
    fn inventory(&self) -> Result<ComputeInventory, CoreError>;

    /// `Some(t)` if a preemption notice has been observed; `t` is the
    /// warning lead.
    fn preemption_signal(&self) -> Result<Option<Duration>, CoreError>;
}

} // verus!
