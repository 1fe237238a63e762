//! Translate an instance [`Snapshot`] into the `InstanceStatus` the operator
//! polls.
use crate::instance::Snapshot;
use crate::proto::v1;
use vstd::prelude::*;
use vstd::string::*;

verus! {

/// A fenced instance is held down, so it is never ready even if the last
/// observed state accepted connections.
pub fn to_status(s: &Snapshot) -> (r: v1::InstanceStatus)
    ensures
        r.role == (if s.in_recovery {
            v1::InstanceRole::Standby
        } else {
            v1::InstanceRole::Primary
        }).wire(),
        r.ready == (s.accepting && !s.fenced),
        r.timeline == s.timeline,
        r.wal_write_lsn == Some(v1::Lsn { value: s.write_lsn }),
        r.wal_receive_lsn == Some(v1::Lsn { value: s.receive_lsn }),
        r.wal_replay_lsn == Some(v1::Lsn { value: s.replay_lsn }),
        r.sync_state == 0,
        r.wal_receiver_active == s.receiver_active,
        !r.archiving_healthy,
        r.postgres_version@ == s.postgres_version@,
        r.system_id == s.system_id,
        r.fenced == s.fenced,
{
    let role = if s.in_recovery {
        v1::InstanceRole::Standby
    } else {
        v1::InstanceRole::Primary
    };
    v1::InstanceStatus {
        role: role.number(),
        ready: s.accepting && !s.fenced,
        timeline: s.timeline,
        wal_write_lsn: Some(v1::Lsn { value: s.write_lsn }),
        wal_receive_lsn: Some(v1::Lsn { value: s.receive_lsn }),
        wal_replay_lsn: Some(v1::Lsn { value: s.replay_lsn }),
        sync_state: 0,
        wal_receiver_active: s.receiver_active,
        archiving_healthy: false,
        postgres_version: s.postgres_version.clone(),
        system_id: s.system_id,
        fenced: s.fenced,
    }
}

} // verus!
