//! What the agent knows of the local PostgreSQL it supervises.
use crate::text;
use vstd::prelude::*;
use vstd::string::*;

verus! {

/// A named consistency point created on the primary: the LSN it recorded and
/// the timeline it was on. A cross-shard barrier records one of these per shard.
#[derive(Debug, Clone, Copy, PartialEq, Eq, Structural)]
pub struct RestorePoint {
    pub lsn: u64,
    pub timeline: u32,
}

/// Prefix of the database-comment marker binding a shard database to the
/// placement (shard UID) that created it.
pub const PROVENANCE_PREFIX: &'static str = "pgshard-provenance:";

/// The marker of a provenance.
pub open spec fn marker(provenance: Seq<char>) -> Seq<char> {
    "pgshard-provenance:"@ + provenance
}

/// The full comment marker for a provenance value.
pub fn provenance_marker(provenance: &str) -> (r: String)
    ensures
        r@ == marker(provenance@),
{
    text::concat2(PROVENANCE_PREFIX, provenance)
}

/// A same-named database exists but carries a different or missing provenance
/// marker: another placement's data (retained volume, reshard leftover), which
/// must never be adopted silently. The service maps this to
/// FAILED_PRECONDITION; taking the database over requires the request's
/// explicit `adopt` authorization.
#[derive(Debug, PartialEq, Eq)]
pub struct ForeignDatabase {
    pub name: String,
    /// The marker found on the existing database, if any.
    pub found: Option<String>,
}

/// What the refusal says.
pub open spec fn foreign_text(name: Seq<char>, found: Option<Seq<char>>) -> Seq<char> {
    match found {
        Some(m) => "database "@ + text::debug_text(name)
            + " already exists with provenance marker "@ + text::debug_text(m)
            + "; refusing to adopt without explicit authorization"@,
        None => "database "@ + text::debug_text(name)
            + " already exists without a provenance marker; refusing to adopt without explicit authorization"@,
    }
}

impl ForeignDatabase {
    pub fn to_string(&self) -> (r: String)
        ensures
            r@ == foreign_text(self.name@, text::option_view(self.found)),
    {
        match &self.found {
            Some(m) => text::concat5(
                "database ",
                text::debug_string(self.name.as_str()).as_str(),
                " already exists with provenance marker ",
                text::debug_string(m.as_str()).as_str(),
                "; refusing to adopt without explicit authorization",
            ),
            None => text::concat3(
                "database ",
                text::debug_string(self.name.as_str()).as_str(),
                " already exists without a provenance marker; refusing to adopt without explicit authorization",
            ),
        }
    }
}

/// A point-in-time reading of the local instance, from which the agent builds
/// the `InstanceStatus` the operator polls.
#[derive(Debug, Clone, PartialEq, Eq)]
pub struct Snapshot {
    /// `pg_is_in_recovery()`: true on a standby, false on a primary.
    pub in_recovery: bool,
    /// Ready to accept client connections.
    pub accepting: bool,
    pub timeline: u32,
    /// `pg_current_wal_lsn()` on a primary.
    pub write_lsn: u64,
    /// `pg_last_wal_receive_lsn()` on a standby.
    pub receive_lsn: u64,
    /// `pg_last_wal_replay_lsn()` on a standby.
    pub replay_lsn: u64,
    /// A walreceiver process is streaming.
    pub receiver_active: bool,
    pub postgres_version: String,
    pub system_id: u64,
    /// The agent is holding PostgreSQL down (fenced).
    pub fenced: bool,
}

impl Default for Snapshot {
    fn default() -> (r: Snapshot)
        ensures
            !r.in_recovery && !r.accepting && !r.receiver_active && !r.fenced,
            r.timeline == 0 && r.write_lsn == 0 && r.receive_lsn == 0 && r.replay_lsn == 0,
            r.system_id == 0,
            r.postgres_version@.len() == 0,
    {
        Snapshot {
            in_recovery: false,
            accepting: false,
            timeline: 0,
            write_lsn: 0,
            receive_lsn: 0,
            replay_lsn: 0,
            receiver_active: false,
            postgres_version: String::new(),
            system_id: 0,
            fenced: false,
        }
    }
}

/// A database is marked with the provenance that it was created for: no two have one mark.
pub proof fn law_marks_tell_placements_apart(a: Seq<char>, b: Seq<char>)
    ensures
        marker(a) == marker(b) <==> a == b,
        marker(a).skip("pgshard-provenance:"@.len() as int) == a,
        marker(a).take("pgshard-provenance:"@.len() as int) == "pgshard-provenance:"@,
{
    let n = "pgshard-provenance:"@.len() as int;
    assert(marker(a).skip(n) =~= a);
    assert(marker(b).skip(n) =~= b);
    assert(marker(a).take(n) =~= "pgshard-provenance:"@);
}

} // verus!
