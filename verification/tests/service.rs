use std::collections::BTreeMap;

use pgshard::epoch::Outcome;
use pgshard::instance::{RestorePoint, Snapshot};
use pgshard::pg::{
    create_database, drop_database, fence_writes, flapping, foreign_database, prepare_source,
    snapshot, terminated, CreateAction, CreateEvent, CreateOutcome, CreateState, PgInstance,
    PrepareEvent, PrepareOutcome, PrepareSource, PrepareState, SnapshotRow,
};
use pgshard::proto::v1;
use pgshard::schema::Claim;
use pgshard::service::{
    internal, promote_response, rejoin_response, restore_point_response, switch_wal, AgentSvc,
    Code, RestoreStep,
};
use pgshard::status::to_status;

/// An instance that keeps its state in memory.
#[derive(Default)]
struct Fake {
    snapshot: Snapshot,
    promote_fails: bool,
    exec_fails: bool,
    db_fails: bool,
    executed: Vec<String>,
    restore_points: Vec<String>,
    /// The owner and the comment of each database.
    databases: BTreeMap<String, (String, Option<String>)>,
}

impl Fake {
    fn primary() -> Fake {
        let mut f = Fake::default();
        f.snapshot.accepting = true;
        f.snapshot.timeline = 1;
        f
    }

    fn standby() -> Fake {
        let mut f = Fake::primary();
        f.snapshot.in_recovery = true;
        f
    }

    fn promote(&mut self) -> Result<u32, String> {
        if self.promote_fails {
            return Err("promote failed".into());
        }
        self.snapshot.in_recovery = false;
        self.snapshot.timeline += 1;
        Ok(self.snapshot.timeline)
    }

    fn create_restore_point(&mut self, name: &str) -> Result<RestorePoint, String> {
        if self.snapshot.in_recovery {
            return Err("recovery is in progress".into());
        }
        self.restore_points.push(name.into());
        Ok(RestorePoint {
            lsn: self.snapshot.write_lsn,
            timeline: self.snapshot.timeline,
        })
    }

    fn execute(&mut self, name: &str, owner: &str, sql: &str) -> CreateEvent {
        if self.db_fails {
            return CreateEvent::Failed("disk full".into());
        }
        if sql.starts_with("CREATE DATABASE ") {
            if self.databases.contains_key(name) {
                return CreateEvent::Duplicate;
            }
            self.databases.insert(name.into(), (owner.into(), None));
        } else {
            let comment = sql
                .strip_prefix(format!("COMMENT ON DATABASE \"{name}\" IS '").as_str())
                .and_then(|rest| rest.strip_suffix('\''))
                .expect("a comment statement");
            self.databases.get_mut(name).unwrap().1 = Some(comment.to_owned());
        }
        CreateEvent::Executed
    }

    fn marker_of(&self, name: &str) -> Option<&str> {
        self.databases.get(name)?.1.as_deref()
    }
}

fn svc() -> AgentSvc {
    AgentSvc::new("pod-0".into())
}

fn promote_request(target: &str, epoch: u64) -> v1::PromoteRequest {
    v1::PromoteRequest {
        target_primary: target.into(),
        decision_epoch: epoch,
    }
}

/// Promotes the instance where the service says so.
fn promote(
    s: &mut AgentSvc,
    f: &mut Fake,
    req: &v1::PromoteRequest,
) -> Result<v1::PromoteResponse, Code> {
    match s.promote(req).map_err(|e| e.code)? {
        Outcome::Replay => Ok(promote_response(f.snapshot.timeline, &f.snapshot)),
        Outcome::Apply => {
            let timeline = f.promote().map_err(|m| internal(m).code)?;
            s.promoted(req);
            Ok(promote_response(timeline, &f.snapshot))
        }
    }
}

#[test]
fn get_status_reports_role() {
    let f = Fake::standby();
    assert_eq!(
        to_status(&f.snapshot).role,
        v1::InstanceRole::Standby.number()
    );
}

#[test]
fn promote_is_epoch_guarded_and_idempotent() {
    let (mut s, mut f) = (svc(), Fake::standby());
    // Wrong epoch (0) rejected.
    assert!(promote(&mut s, &mut f, &promote_request("pod-0", 0)).is_err());
    // Apply.
    let first = promote(&mut s, &mut f, &promote_request("pod-0", 1)).unwrap();
    assert_eq!(first.new_timeline, 2);
    // Idempotent retry returns the same timeline, does not promote again.
    let retry = promote(&mut s, &mut f, &promote_request("pod-0", 1)).unwrap();
    assert_eq!(retry.new_timeline, 2);
    // Now a primary.
    assert_eq!(
        to_status(&f.snapshot).role,
        v1::InstanceRole::Primary.number()
    );
}

#[test]
fn a_failed_promote_retries_instead_of_replaying_success() {
    let (mut s, mut f) = (svc(), Fake::standby());
    f.promote_fails = true;
    let req = promote_request("pod-0", 1);
    // First attempt fails inside the instance.
    assert!(promote(&mut s, &mut f, &req).is_err());
    // The retry must re-execute (and fail again) — not replay a success that
    // never happened.
    assert!(promote(&mut s, &mut f, &req).is_err());
    // Once the instance can promote, the same epoch finally applies.
    f.promote_fails = false;
    assert_eq!(promote(&mut s, &mut f, &req).unwrap().new_timeline, 2);
}

#[test]
fn promote_refuses_a_foreign_target() {
    let (mut s, mut f) = (svc(), Fake::standby());
    assert_eq!(
        promote(&mut s, &mut f, &promote_request("pod-9", 1)),
        Err(Code::FailedPrecondition)
    );
}

#[test]
fn a_newer_decision_is_never_reversed() {
    let (mut s, mut f) = (svc(), Fake::standby());
    promote(&mut s, &mut f, &promote_request("pod-0", 5)).unwrap();
    assert_eq!(
        promote(&mut s, &mut f, &promote_request("pod-0", 4)),
        Err(Code::FailedPrecondition)
    );
    // The same epoch with another command conflicts.
    let fence = v1::FenceRequest {
        fenced: true,
        decision_epoch: 5,
    };
    assert_eq!(s.fence(&fence).unwrap_err().code, Code::FailedPrecondition);
}

#[test]
fn fence_sets_and_clears() {
    let (mut s, mut f) = (svc(), Fake::primary());
    let req = v1::FenceRequest {
        fenced: true,
        decision_epoch: 1,
    };
    assert_eq!(s.fence(&req).unwrap(), Outcome::Apply);
    f.snapshot.fenced = true;
    s.fenced(&req);
    let status = to_status(&f.snapshot);
    assert!(status.fenced);
    assert!(!status.ready, "a fenced instance is not ready");
    // A retry replays.
    assert_eq!(s.fence(&req).unwrap(), Outcome::Replay);
}

#[test]
fn rejoining_needs_an_upstream_and_is_epoch_guarded() {
    let mut s = svc();
    let mut req = v1::RejoinAsStandbyRequest {
        upstream: None,
        allow_rewind: true,
        decision_epoch: 1,
    };
    assert_eq!(
        s.rejoin_as_standby(&req).unwrap_err().code,
        Code::InvalidArgument
    );
    req.upstream = Some(v1::PgEndpoint {
        host: "pod-1".into(),
        port: 5432,
        database: String::new(),
    });
    let (outcome, target) = s.rejoin_as_standby(&req).unwrap();
    assert_eq!(outcome, Outcome::Apply);
    s.rejoined(&target, &req);
    assert_eq!(s.rejoin_as_standby(&req).unwrap().0, Outcome::Replay);
    assert!(rejoin_response(Outcome::Apply, true, &req).rewound);
}

/// Runs a schema statement where the service says so.
fn exec_schema(s: &mut AgentSvc, f: &mut Fake, op: &str, sql: &str) -> Result<(), Code> {
    match s.exec_schema(op, sql).map_err(|e| e.code)? {
        Claim::Replay => Ok(()),
        Claim::Execute => {
            let ok = !f.exec_fails;
            if ok {
                f.executed.push(sql.into());
            }
            s.schema_finished(op, ok);
            if ok {
                Ok(())
            } else {
                Err(internal("failed".into()).code)
            }
        }
    }
}

#[test]
fn exec_schema_is_idempotent_by_operation_id() {
    let (mut s, mut f) = (svc(), Fake::primary());
    exec_schema(&mut s, &mut f, "op1", "CREATE TABLE t()").unwrap();
    // A retry with the same id + sql replays without re-executing.
    exec_schema(&mut s, &mut f, "op1", "CREATE TABLE t()").unwrap();
    assert_eq!(f.executed, vec!["CREATE TABLE t()".to_string()]);
    // The same id with different sql, and an empty id, are rejected.
    assert_eq!(
        exec_schema(&mut s, &mut f, "op1", "DROP TABLE t"),
        Err(Code::InvalidArgument)
    );
    assert_eq!(
        exec_schema(&mut s, &mut f, "", "SELECT 1"),
        Err(Code::InvalidArgument)
    );
}

#[test]
fn exec_schema_failure_retries_instead_of_replaying() {
    let (mut s, mut f) = (svc(), Fake::primary());
    f.exec_fails = true;
    assert!(exec_schema(&mut s, &mut f, "op1", "CREATE TABLE t()").is_err());
    // The failed op was not recorded done; once the instance recovers, the
    // same id re-executes rather than replaying a phantom success.
    f.exec_fails = false;
    exec_schema(&mut s, &mut f, "op1", "CREATE TABLE t()").unwrap();
    assert_eq!(f.executed, vec!["CREATE TABLE t()".to_string()]);
}

/// Creates a database where the service admits the request.
fn create(
    s: &AgentSvc,
    f: &mut Fake,
    req: &v1::CreateDatabaseRequest,
) -> Result<v1::CreateDatabaseResponse, Code> {
    s.create_database(req).map_err(|e| e.code)?;
    let mut run = create_database(&req.name, &req.owner, &req.provenance, req.adopt);
    loop {
        let event = match run.action() {
            CreateAction::Look if f.db_fails => CreateEvent::Failed("down".into()),
            CreateAction::Look => match f.databases.get(&req.name) {
                Some((_, comment)) => CreateEvent::Existing(comment.clone()),
                None => CreateEvent::Absent,
            },
            CreateAction::Execute(sql) => f.execute(&req.name, &req.owner, &sql),
            CreateAction::Finish => break,
        };
        run = run.advance(event);
    }
    match run.state {
        CreateState::Finished(CreateOutcome::Ready) => Ok(s.database_created(req)),
        CreateState::Finished(CreateOutcome::Foreign(_)) => Err(Code::FailedPrecondition),
        CreateState::Finished(CreateOutcome::Flapping) => Err(internal(flapping(&req.name)).code),
        CreateState::Finished(CreateOutcome::Failed(m)) => Err(internal(m).code),
        other => panic!("not finished: {other:?}"),
    }
}

fn database(name: &str, owner: &str) -> v1::CreateDatabaseRequest {
    v1::CreateDatabaseRequest {
        name: name.into(),
        owner: owner.into(),
        ..Default::default()
    }
}

fn placed(provenance: &str, adopt: bool) -> v1::CreateDatabaseRequest {
    v1::CreateDatabaseRequest {
        name: "mycl-x40-x80".into(),
        provenance: provenance.into(),
        adopt,
        ..Default::default()
    }
}

#[test]
fn create_database_is_idempotent_and_records_owner() {
    let (s, mut f) = (svc(), Fake::primary());
    create(&s, &mut f, &database("mycl-x40-x80", "app")).unwrap();
    // A repeat is a success and leaves the original owner untouched.
    create(&s, &mut f, &database("mycl-x40-x80", "other")).unwrap();
    assert_eq!(f.databases.len(), 1);
    assert_eq!(f.databases["mycl-x40-x80"].0, "app");
}

#[test]
fn create_database_rejects_an_empty_name() {
    let (s, mut f) = (svc(), Fake::primary());
    assert_eq!(
        create(&s, &mut f, &database("", "")),
        Err(Code::InvalidArgument)
    );
}

#[test]
fn database_ops_reject_overlong_identifiers() {
    let (s, mut f) = (svc(), Fake::primary());
    let too_long = "a".repeat(64); // PostgreSQL truncates beyond 63 bytes.
    // An overlong name is rejected on both create and drop, and nothing is
    // executed against the instance (no truncated collision).
    assert_eq!(
        create(&s, &mut f, &database(&too_long, "")),
        Err(Code::InvalidArgument)
    );
    assert_eq!(
        s.drop_database(&too_long).unwrap_err().code,
        Code::InvalidArgument
    );
    // An overlong owner is rejected too.
    assert_eq!(
        create(&s, &mut f, &database("ok", &too_long)),
        Err(Code::InvalidArgument)
    );
    assert!(f.databases.is_empty());
    // 63 bytes still fit.
    assert!(s.drop_database(&"a".repeat(63)).is_ok());
}

#[test]
fn drop_database_is_idempotent() {
    let s = svc();
    s.drop_database("shard-a").unwrap();
    // Dropping an already-absent database still succeeds.
    assert_eq!(
        drop_database("shard-a"),
        "DROP DATABASE IF EXISTS \"shard-a\" WITH (FORCE)"
    );
}

#[test]
fn database_op_failure_maps_to_internal() {
    let (s, mut f) = (svc(), Fake::primary());
    f.db_fails = true;
    assert_eq!(
        create(&s, &mut f, &database("shard-a", "")),
        Err(Code::Internal)
    );
}

#[test]
fn create_database_stamps_and_verifies_provenance() {
    let (s, mut f) = (svc(), Fake::primary());
    create(&s, &mut f, &placed("uid-a", false)).unwrap();
    assert_eq!(
        f.marker_of("mycl-x40-x80"),
        Some("pgshard-provenance:uid-a")
    );
    // Same placement retries idempotently.
    let again = create(&s, &mut f, &placed("uid-a", false)).unwrap();
    assert_eq!(again.verified_provenance, "uid-a");
    // A different placement is fenced out, and the marker is untouched.
    assert_eq!(
        create(&s, &mut f, &placed("uid-b", false)),
        Err(Code::FailedPrecondition)
    );
    assert_eq!(
        f.marker_of("mycl-x40-x80"),
        Some("pgshard-provenance:uid-a")
    );
    // Explicit adoption re-stamps.
    create(&s, &mut f, &placed("uid-b", true)).unwrap();
    assert_eq!(
        f.marker_of("mycl-x40-x80"),
        Some("pgshard-provenance:uid-b")
    );
}

#[test]
fn create_database_fences_an_unmarked_existing_database() {
    let (s, mut f) = (svc(), Fake::primary());
    // A retained database with no marker (pre-provenance data, or a crash
    // between CREATE DATABASE and the comment) is never silently adopted.
    f.databases
        .insert("mycl-x40-x80".into(), ("app".into(), None));
    assert_eq!(
        create(&s, &mut f, &placed("uid-a", false)),
        Err(Code::FailedPrecondition)
    );
    create(&s, &mut f, &placed("uid-a", true)).unwrap();
    assert_eq!(
        f.marker_of("mycl-x40-x80"),
        Some("pgshard-provenance:uid-a")
    );
    assert!(foreign_database("mycl-x40-x80", None)
        .to_string()
        .contains("mycl-x40-x80"));
}

#[test]
fn create_database_validates_provenance_and_adopt() {
    let (s, mut f) = (svc(), Fake::primary());
    // Adoption without a marker to stamp is meaningless.
    assert_eq!(
        create(&s, &mut f, &placed("", true)),
        Err(Code::InvalidArgument)
    );
    // Characters outside [A-Za-z0-9._:-] and overlong values are rejected.
    assert_eq!(
        create(&s, &mut f, &placed("uid'; DROP--", false)),
        Err(Code::InvalidArgument)
    );
    assert_eq!(
        create(&s, &mut f, &placed(&"a".repeat(129), false)),
        Err(Code::InvalidArgument)
    );
    assert!(f.databases.is_empty());
}

#[test]
fn a_request_for_another_pod_is_refused() {
    let s = AgentSvc::with_pod_uid("pod-0".into(), "uid-0".into());
    let mut req = placed("uid-a", false);
    req.target_pod_uid = "uid-9".into();
    assert_eq!(s.create_database(&req).unwrap_err().code, Code::Aborted);
    req.target_pod_uid = "uid-0".into();
    s.create_database(&req).unwrap();
    assert_eq!(s.database_created(&req).served_pod_uid, "uid-0");
}

#[test]
fn a_flapping_database_gives_up_after_its_attempts() {
    let mut run = create_database("db", "", "", false);
    for _ in 0..3 {
        run = run.advance(CreateEvent::Absent);
        assert_eq!(
            run.action(),
            CreateAction::Execute("CREATE DATABASE \"db\"".into())
        );
        run = run.advance(CreateEvent::Duplicate);
    }
    assert_eq!(run.state, CreateState::Finished(CreateOutcome::Flapping));
}

/// Creates a restore point where the service says so.
fn restore_point(
    s: &mut AgentSvc,
    f: &mut Fake,
    name: &str,
) -> Result<v1::CreateRestorePointResponse, Code> {
    match s.create_restore_point(name).map_err(|e| e.code)? {
        RestoreStep::Replay(rp) => Ok(restore_point_response(rp)),
        RestoreStep::Create => match f.create_restore_point(name) {
            Ok(rp) => {
                s.restore_point_finished(name, Some(rp));
                Ok(restore_point_response(rp))
            }
            Err(m) => {
                s.restore_point_finished(name, None);
                Err(internal(m).code)
            }
        },
        RestoreStep::Wait => panic!("nothing is in flight"),
    }
}

#[test]
fn create_restore_point_records_and_returns_lsn_and_timeline() {
    let (mut s, mut f) = (svc(), Fake::primary());
    f.snapshot.write_lsn = 0x1234;
    f.snapshot.timeline = 3;
    let resp = restore_point(&mut s, &mut f, "pgshard_barrier_1").unwrap();
    assert_eq!(resp.lsn.unwrap().value, 0x1234);
    assert_eq!(resp.timeline, 3);
    assert_eq!(f.restore_points, vec!["pgshard_barrier_1"]);
}

#[test]
fn create_restore_point_rejects_an_empty_name() {
    let (mut s, mut f) = (svc(), Fake::primary());
    assert_eq!(
        restore_point(&mut s, &mut f, ""),
        Err(Code::InvalidArgument)
    );
}

#[test]
fn create_restore_point_is_rejected_on_a_standby() {
    // A restore point can only be created on a primary; a standby errors.
    let (mut s, mut f) = (svc(), Fake::standby());
    assert_eq!(
        restore_point(&mut s, &mut f, "pgshard_barrier_1"),
        Err(Code::Internal)
    );
    assert!(f.restore_points.is_empty());
    // The failure leaves nothing behind: a retry creates.
    assert_eq!(
        s.create_restore_point("pgshard_barrier_1").unwrap(),
        RestoreStep::Create
    );
}

#[test]
fn create_restore_point_is_idempotent_by_name() {
    let (mut s, mut f) = (svc(), Fake::primary());
    f.snapshot.write_lsn = 0xAA;
    let first = restore_point(&mut s, &mut f, "pgshard_barrier_1").unwrap();
    // The instance advances between attempts, but a retry of the same barrier
    // returns the original point, not a divergent second one.
    f.snapshot.write_lsn = 0xBB;
    let retry = restore_point(&mut s, &mut f, "pgshard_barrier_1").unwrap();
    assert_eq!(retry.lsn.unwrap().value, first.lsn.unwrap().value);
    assert_eq!(retry.timeline, first.timeline);
    // Only one PostgreSQL restore point was written.
    assert_eq!(f.restore_points, vec!["pgshard_barrier_1"]);
}

#[test]
fn concurrent_same_name_restore_points_are_single_flight() {
    let mut s = svc();
    assert_eq!(
        s.create_restore_point("pgshard_b1").unwrap(),
        RestoreStep::Create
    );
    // The second caller waits for the first, however often it asks.
    assert_eq!(
        s.create_restore_point("pgshard_b1").unwrap(),
        RestoreStep::Wait
    );
    assert_eq!(
        s.create_restore_point("pgshard_b2").unwrap(),
        RestoreStep::Create
    );
    let rp = RestorePoint {
        lsn: 0xAA,
        timeline: 1,
    };
    s.restore_point_finished("pgshard_b1", Some(rp));
    assert_eq!(
        s.create_restore_point("pgshard_b1").unwrap(),
        RestoreStep::Replay(rp)
    );
}

#[test]
fn create_restore_point_rejects_an_overlong_name() {
    // PostgreSQL truncates a restore-point name at 63 bytes; reject upfront so
    // two long names cannot collide onto one record.
    let (mut s, mut f) = (svc(), Fake::primary());
    assert_eq!(
        restore_point(&mut s, &mut f, &"b".repeat(64)),
        Err(Code::InvalidArgument)
    );
}

#[test]
fn switch_wal_rejects_wait_archived_without_switching() {
    assert!(switch_wal(false).is_ok());
    assert_eq!(switch_wal(true).unwrap_err().code, Code::Internal);
}

#[test]
fn snapshots_are_read_leniently() {
    let s = snapshot(SnapshotRow {
        in_recovery: true,
        timeline: 4,
        write_lsn: None,
        receive_lsn: Some("0/10".into()),
        replay_lsn: Some("garbage".into()),
        receiver_active: true,
        version: "18.0".into(),
        system_id: 7,
    });
    assert_eq!((s.write_lsn, s.receive_lsn, s.replay_lsn), (0, 0x10, 0));
    assert_eq!((s.timeline, s.system_id), (4, 7));
    assert!(s.in_recovery && s.receiver_active);
    assert_eq!(PgInstance::new("host=x".into()).conn_string, "host=x");
}

#[test]
fn a_fence_makes_new_sessions_read_only() {
    assert_eq!(
        fence_writes("shard\"a"),
        "ALTER DATABASE \"shard\"\"a\" SET default_transaction_read_only = on"
    );
    assert_eq!((terminated(3), terminated(-1)), (3, 0));
}

// ---- preparing a source ----------------------------------------------------------------

fn prepared_tables() -> Vec<(String, String)> {
    vec![
        ("public".to_string(), "orders".to_string()),
        ("public".to_string(), "items".to_string()),
    ]
}

/// A preparation that has asked about the tables.
fn past_tables() -> PrepareSource {
    prepare_source("pgshard_seed", prepared_tables())
        .advance(PrepareEvent::HasGenerated(false))
        .advance(PrepareEvent::HasGenerated(false))
}

fn member(name: &str, clean: bool) -> (String, String, bool) {
    ("public".into(), name.into(), clean)
}

#[test]
fn a_missing_publication_is_created() {
    let p = past_tables().advance(PrepareEvent::Shape(None));
    assert_eq!(
        p.statement().as_deref(),
        Some("DROP PUBLICATION IF EXISTS \"pgshard_seed\"")
    );
    let p = p.advance(PrepareEvent::Executed);
    assert_eq!(
        p.statement().as_deref(),
        Some(
            "CREATE PUBLICATION \"pgshard_seed\" FOR TABLE \"public\".\"orders\", \
             \"public\".\"items\" WITH (publish = 'insert, update, delete, truncate')"
        )
    );
    // Retention is unlimited.
    let p = p
        .advance(PrepareEvent::Executed)
        .advance(PrepareEvent::Keep("-1".into()));
    assert_eq!(
        p.state,
        PrepareState::Finished(PrepareOutcome::Ready(None))
    );
}

#[test]
fn a_matching_publication_is_left_untouched() {
    let p = past_tables()
        .advance(PrepareEvent::Shape(Some(true)))
        .advance(PrepareEvent::Members(vec![
            member("items", true),
            member("orders", true),
        ]));
    assert_eq!(p.state, PrepareState::Keep);
    assert_eq!(p.statement(), None);
    let p = p
        .advance(PrepareEvent::Keep("10GB".into()))
        .advance(PrepareEvent::Size(10 << 30));
    assert_eq!(
        p.state,
        PrepareState::Finished(PrepareOutcome::Ready(Some(10 << 30)))
    );
}

#[test]
fn a_mismatched_publication_converges() {
    // A FULL column list (naming every current column) must be treated as
    // mismatched: it freezes the published set.
    for members in [
        vec![member("items", true), member("orders", false)],
        vec![member("orders", true)],
        vec![member("orders", true), member("other", true)],
    ] {
        let p = past_tables()
            .advance(PrepareEvent::Shape(Some(true)))
            .advance(PrepareEvent::Members(members));
        assert_eq!(p.state, PrepareState::Dropping);
    }
    // So must a catalog row of another shape.
    assert_eq!(
        past_tables().advance(PrepareEvent::Shape(Some(false))).state,
        PrepareState::Dropping
    );
}

#[test]
fn generated_columns_are_refused_up_front() {
    let p = prepare_source("pgshard_gen", prepared_tables())
        .advance(PrepareEvent::HasGenerated(false))
        .advance(PrepareEvent::HasGenerated(true));
    assert_eq!(
        p.state,
        PrepareState::Finished(PrepareOutcome::Generated(1))
    );
    assert!(p.refusal(1).contains("generated"));
    assert_eq!(
        p.refusal(1),
        "table public.items has generated columns; the seeding runner cannot stream them"
    );
    let failed = past_tables().advance(PrepareEvent::Failed("down".into()));
    assert_eq!(
        failed.state,
        PrepareState::Finished(PrepareOutcome::Failed("down".into()))
    );
}
