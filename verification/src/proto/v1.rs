//! Version 1 of the contract. Enum-typed fields hold the variant's number, as they do on the
//! wire.
use vstd::prelude::*;

verus! {

#[derive(Debug, Clone, Copy, PartialEq, Eq, Default, Structural)]
pub struct Lsn {
    pub value: u64,
}

/// A half-open range of keyspace ids; no end means the end of the keyspace.
#[derive(Debug, Clone, Copy, PartialEq, Eq, Default, Structural)]
pub struct KeyRange {
    pub start: u64,
    pub end: Option<u64>,
}

/// How far one shard's stream has come.
#[derive(Debug, Clone, PartialEq, Eq, Default)]
pub struct ShardGtid {
    pub shard: String,
    pub lsn: Option<Lsn>,
    pub tables_copied: Vec<String>,
}

/// A position over all shards.
#[derive(Debug, Clone, PartialEq, Eq, Default)]
pub struct VGtid {
    pub shard_gtids: Vec<ShardGtid>,
}

#[derive(Debug, Clone, Copy, PartialEq, Eq, Structural)]
pub enum InstanceRole {
    Unspecified,
    Primary,
    Standby,
}

impl InstanceRole {
    pub open spec fn wire(self) -> i32 {
        match self {
            InstanceRole::Unspecified => 0,
            InstanceRole::Primary => 1,
            InstanceRole::Standby => 2,
        }
    }

    /// The number that stands for the role on the wire.
    pub fn number(self) -> (r: i32)
        ensures
            r == self.wire(),
    {
        match self {
            InstanceRole::Unspecified => 0,
            InstanceRole::Primary => 1,
            InstanceRole::Standby => 2,
        }
    }
}

/// What the operator polls. The replay lag, in seconds, is always reported as zero and is
/// left to whoever writes the message.
#[derive(Debug, Clone, PartialEq, Eq, Default)]
pub struct InstanceStatus {
    pub role: i32,
    pub ready: bool,
    pub timeline: u32,
    pub wal_write_lsn: Option<Lsn>,
    pub wal_receive_lsn: Option<Lsn>,
    pub wal_replay_lsn: Option<Lsn>,
    pub sync_state: i32,
    pub wal_receiver_active: bool,
    pub archiving_healthy: bool,
    pub postgres_version: String,
    pub system_id: u64,
    pub fenced: bool,
}

#[derive(Debug, Clone, PartialEq, Eq, Default)]
pub struct PromoteRequest {
    pub target_primary: String,
    pub decision_epoch: u64,
}

#[derive(Debug, Clone, Copy, PartialEq, Eq, Default, Structural)]
pub struct PromoteResponse {
    pub new_timeline: u32,
    pub promote_lsn: Option<Lsn>,
}

#[derive(Debug, Clone, Copy, PartialEq, Eq, Default, Structural)]
pub struct FenceRequest {
    pub fenced: bool,
    pub decision_epoch: u64,
}

/// Where a PostgreSQL database is reached.
#[derive(Debug, Clone, PartialEq, Eq, Default)]
pub struct PgEndpoint {
    pub host: String,
    pub port: u32,
    pub database: String,
}

#[derive(Debug, Clone, PartialEq, Eq, Default)]
pub struct RejoinAsStandbyRequest {
    pub upstream: Option<PgEndpoint>,
    pub allow_rewind: bool,
    pub decision_epoch: u64,
}

#[derive(Debug, Clone, Copy, PartialEq, Eq, Default, Structural)]
pub struct RejoinAsStandbyResponse {
    pub rewound: bool,
}

#[derive(Debug, Clone, Copy, PartialEq, Eq, Default, Structural)]
pub struct CreateRestorePointResponse {
    pub lsn: Option<Lsn>,
    pub timeline: u32,
}

#[derive(Debug, Clone, PartialEq, Eq, Default)]
pub struct CreateDatabaseRequest {
    pub name: String,
    pub owner: String,
    pub provenance: String,
    pub adopt: bool,
    pub target_pod_uid: String,
}

#[derive(Debug, Clone, PartialEq, Eq, Default)]
pub struct CreateDatabaseResponse {
    pub verified_provenance: String,
    pub served_pod_uid: String,
}

#[derive(Debug, Clone, Copy, PartialEq, Eq, Structural)]
pub enum WorkflowKind {
    Unspecified,
    Reshard,
    DdlShadow,
}

impl WorkflowKind {
    pub open spec fn wire(self) -> i32 {
        match self {
            WorkflowKind::Unspecified => 0,
            WorkflowKind::Reshard => 1,
            WorkflowKind::DdlShadow => 2,
        }
    }

    /// The number that stands for the kind on the wire.
    pub fn number(self) -> (r: i32)
        ensures
            r == self.wire(),
    {
        match self {
            WorkflowKind::Unspecified => 0,
            WorkflowKind::Reshard => 1,
            WorkflowKind::DdlShadow => 2,
        }
    }
}

#[derive(Debug, Clone, Copy, PartialEq, Eq, Structural)]
pub enum SourcePolicy {
    Unspecified,
    Primary,
    PreferStandby,
}

impl SourcePolicy {
    pub open spec fn wire(self) -> i32 {
        match self {
            SourcePolicy::Unspecified => 0,
            SourcePolicy::Primary => 1,
            SourcePolicy::PreferStandby => 2,
        }
    }

    /// The number that stands for the policy on the wire.
    pub fn number(self) -> (r: i32)
        ensures
            r == self.wire(),
    {
        match self {
            SourcePolicy::Unspecified => 0,
            SourcePolicy::Primary => 1,
            SourcePolicy::PreferStandby => 2,
        }
    }
}

#[derive(Debug, Clone, PartialEq, Eq, Default)]
pub struct TableRef {
    pub schema: String,
    pub name: String,
}

#[derive(Debug, Clone, PartialEq, Eq, Default)]
pub struct TableMapping {
    pub source: Option<TableRef>,
    pub target: Option<TableRef>,
    /// Renamed columns: source name, target name.
    pub column_map: Vec<(String, String)>,
    pub shard_key_column: String,
    pub shard_key_type: String,
}

#[derive(Debug, Clone, PartialEq, Eq, Default)]
pub struct KeyRangeFilter {
    pub range: Option<KeyRange>,
    pub hash_function: String,
}

#[derive(Debug, Clone, PartialEq, Eq)]
pub enum Filter {
    All(bool),
    KeyRange(KeyRangeFilter),
}

#[derive(Debug, Clone, PartialEq, Eq, Default)]
pub struct RowFilter {
    pub filter: Option<Filter>,
}

/// A seeding workflow as the operator asks for it.
#[derive(Debug, Clone, PartialEq, Eq, Default)]
pub struct WorkflowSpec {
    pub id: String,
    pub kind: i32,
    pub source_shard: String,
    pub source_primary: Option<PgEndpoint>,
    pub source_policy: i32,
    pub slot: String,
    pub publication: String,
    pub tables: Vec<TableMapping>,
    pub filter: Option<RowFilter>,
    pub target_database: String,
    pub expect_provenance: String,
}

#[derive(Debug, Clone, Copy, PartialEq, Eq, Structural)]
pub enum WorkflowPhase {
    Unspecified,
    Init,
    Copy,
    Streaming,
    Stopped,
    Error,
}

#[derive(Debug, Clone, Copy, PartialEq, Eq, Default, Structural)]
pub struct CopyProgress {
    pub tables_total: u32,
    pub tables_done: u32,
    pub rows_copied: u64,
}

} // verus!
