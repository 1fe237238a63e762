//! The compiled topology that a router is built from.
use crate::gate::GateSpec;
use crate::keyspace::KeyRange;
use crate::shardfn::ScalarType;
use vstd::prelude::*;
use vstd::string::*;

verus! {

/// A PostgreSQL instance.
#[derive(Debug, PartialEq, Eq)]
pub struct Instance {
    pub pod: String,
    pub host: String,
    pub port: u16,
    pub can_read: bool,
}

impl Clone for Instance {
    fn clone(&self) -> (r: Instance)
        ensures
            r == *self,
    {
        Instance {
            pod: self.pod.clone(),
            host: self.host.clone(),
            port: self.port,
            can_read: self.can_read,
        }
    }
}

#[derive(Debug, Clone, Copy, PartialEq, Eq, Structural)]
pub enum ShardState {
    /// The shard takes traffic.
    Serving,
    /// The shard is being seeded, or its traffic is held back.
    Buffered,
    /// The shard takes no traffic for another reason.
    Offline,
}

#[derive(Debug, PartialEq, Eq)]
pub struct ShardEntry {
    pub name: String,
    pub key_range: KeyRange,
    pub state: ShardState,
    /// The current primary, if there is one.
    pub primary: Option<Instance>,
    pub replicas: Vec<Instance>,
}

#[derive(Debug, Clone, Copy, PartialEq, Eq, Structural)]
pub enum TableType {
    Sharded,
    /// In the system (unsharded) database.
    Global,
}

/// A column that is filled from a global sequence.
#[derive(Debug, PartialEq, Eq)]
pub struct Sequence {
    pub column: String,
    pub sequence: String,
}

#[derive(Debug, PartialEq, Eq)]
pub struct TableEntry {
    pub schema: String,
    pub name: String,
    pub table_type: TableType,
    pub shard_key_column: Option<String>,
    /// The declared type of the shard-key column, where it is known.
    pub shard_key_type: Option<ScalarType>,
    pub sequences: Vec<Sequence>,
}

/// One epoch's topology.
#[derive(Debug, PartialEq, Eq)]
pub struct Topology {
    pub epoch: u64,
    pub topology_generation: u64,
    /// How long a router may write on a view that it has not confirmed.
    pub write_lease_seconds: u64,
    pub hash_function: String,
    pub shards: Vec<ShardEntry>,
    pub tables: Vec<TableEntry>,
    pub gates: Vec<GateSpec>,
    /// The system (unsharded) database, where sequences live.
    pub sequence_endpoint: Option<Instance>,
}

} // verus!
