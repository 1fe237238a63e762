use pgshard::epoch::{EpochError, EpochGuard, Outcome};
use pgshard::instance::Snapshot;
use pgshard::pg::parse_lsn;
use pgshard::preflight::xid_recurrence_horizon;
use pgshard::proto::v1;
use pgshard::quote::quote_ident;
use pgshard::schema::{Claim, SchemaError, SchemaLog};
use pgshard::status::to_status;

#[test]
fn zero_is_rejected() {
    let g = EpochGuard::new();
    assert_eq!(g.check(0, "promote:a"), Err(EpochError::Zero));
}

#[test]
fn commit_advances_after_success() {
    let mut g = EpochGuard::new();
    assert_eq!(g.check(1, "promote:a"), Ok(Outcome::Apply));
    // Not recorded until commit.
    assert_eq!(g.applied_epoch(), 0);
    g.commit(1, "promote:a");
    assert_eq!(g.applied_epoch(), 1);
    assert_eq!(g.check(5, "promote:b"), Ok(Outcome::Apply));
    g.commit(5, "promote:b");
    assert_eq!(g.applied_epoch(), 5);
}

#[test]
fn an_uncommitted_apply_retries_instead_of_replaying() {
    let g = EpochGuard::new();
    // The command was reserved but failed, so it was never committed.
    assert_eq!(g.check(1, "promote:a"), Ok(Outcome::Apply));
    // The retry must Apply again (re-execute), not Replay a success.
    assert_eq!(g.check(1, "promote:a"), Ok(Outcome::Apply));
}

#[test]
fn lower_is_stale() {
    let mut g = EpochGuard::new();
    g.commit(5, "promote:a");
    assert_eq!(
        g.check(3, "promote:a"),
        Err(EpochError::Stale { got: 3, applied: 5 })
    );
}

#[test]
fn equal_same_key_replays_equal_other_key_conflicts() {
    let mut g = EpochGuard::new();
    g.commit(2, "promote:a");
    assert_eq!(g.check(2, "promote:a"), Ok(Outcome::Replay));
    assert_eq!(
        g.check(2, "promote:b"),
        Err(EpochError::Conflict { epoch: 2 })
    );
}

#[test]
fn parses_hex_lsn() {
    assert_eq!(parse_lsn("0/0"), 0);
    assert_eq!(parse_lsn("0/5000000"), 0x5000000);
    assert_eq!(parse_lsn("1/0"), 1u64 << 32);
    assert_eq!(parse_lsn("garbage"), 0);
}

#[test]
fn quotes_identifiers_and_escapes_embedded_quotes() {
    assert_eq!(quote_ident("mycl-x40-x80"), "\"mycl-x40-x80\"");
    assert_eq!(quote_ident("a\"b"), "\"a\"\"b\"");
}

#[test]
fn empty_id_is_rejected() {
    assert_eq!(
        SchemaLog::new().claim("", "SELECT 1"),
        Err(SchemaError::EmptyId)
    );
}

#[test]
fn completed_identical_replays_different_sql_conflicts() {
    let mut log = SchemaLog::new();
    assert_eq!(log.claim("op1", "CREATE TABLE t()"), Ok(Claim::Execute));
    log.mark_done("op1");
    assert_eq!(log.claim("op1", "CREATE TABLE t()"), Ok(Claim::Replay));
    assert_eq!(
        log.claim("op1", "DROP TABLE t"),
        Err(SchemaError::DifferentSql("op1".into()))
    );
}

#[test]
fn concurrent_duplicate_is_rejected_while_in_flight() {
    let mut log = SchemaLog::new();
    assert_eq!(log.claim("op2", "CREATE INDEX ..."), Ok(Claim::Execute));
    assert_eq!(
        log.claim("op2", "CREATE INDEX ..."),
        Err(SchemaError::InFlight("op2".into()))
    );
}

#[test]
fn a_failed_op_re_executes_after_rollback() {
    let mut log = SchemaLog::new();
    assert_eq!(log.claim("op3", "SELECT 1"), Ok(Claim::Execute));
    log.rollback("op3");
    // The retry re-executes rather than replaying a success that never happened.
    assert_eq!(log.claim("op3", "SELECT 1"), Ok(Claim::Execute));
}

#[test]
fn a_released_claim_leaves_no_trace() {
    let mut log = SchemaLog::new();
    assert_eq!(log.claim("done", "SELECT 1"), Ok(Claim::Execute));
    log.mark_done("done");
    assert_eq!(log.claim("running", "SELECT 2"), Ok(Claim::Execute));
    assert_eq!(log.claim("op", "SELECT 3"), Ok(Claim::Execute));
    log.rollback("op");
    assert_eq!(log.claim("done", "SELECT 1"), Ok(Claim::Replay));
    assert_eq!(
        log.claim("running", "SELECT 2"),
        Err(SchemaError::InFlight("running".into()))
    );
    // The id is free again, for another statement too.
    assert_eq!(log.claim("op", "SELECT 4"), Ok(Claim::Execute));
}

#[test]
fn primary_maps_to_primary_role() {
    let s = Snapshot {
        in_recovery: false,
        accepting: true,
        timeline: 3,
        write_lsn: 42,
        ..Default::default()
    };
    let st = to_status(&s);
    assert_eq!(st.role, v1::InstanceRole::Primary.number());
    assert!(st.ready);
    assert_eq!(st.timeline, 3);
    assert_eq!(st.wal_write_lsn.unwrap().value, 42);
}

#[test]
fn standby_maps_to_standby_role() {
    let s = Snapshot {
        in_recovery: true,
        accepting: true,
        receive_lsn: 100,
        receiver_active: true,
        ..Default::default()
    };
    let st = to_status(&s);
    assert_eq!(st.role, v1::InstanceRole::Standby.number());
    assert!(st.wal_receiver_active);
    assert_eq!(st.wal_receive_lsn.unwrap().value, 100);
}

#[test]
fn fenced_is_never_ready() {
    let s = Snapshot {
        in_recovery: false,
        accepting: true,
        fenced: true,
        ..Default::default()
    };
    let st = to_status(&s);
    assert!(!st.ready);
    assert!(st.fenced);
}

fn v(xmins: &[&str]) -> Vec<(i32, u32, String)> {
    xmins.iter().map(|x| (0, 1, x.to_string())).collect()
}

const FULL_CYCLE: u64 = 1 << 32;

#[test]
fn the_nearest_forward_xmin_bounds_the_horizon() {
    let h = xid_recurrence_horizon(1000, &v(&["1010", "500000"])).unwrap();
    assert_eq!(h, 10);
}

#[test]
fn an_xmin_behind_the_counter_recurs_only_after_wrapping_forward() {
    let h = xid_recurrence_horizon(1000, &v(&["990"])).unwrap();
    assert_eq!(h, FULL_CYCLE - 10);
}

#[test]
fn an_xmin_equal_to_the_baseline_means_a_full_cycle() {
    let h = xid_recurrence_horizon(1000, &v(&["1000"])).unwrap();
    assert_eq!(h, FULL_CYCLE);
}

#[test]
fn special_xids_never_recur_and_do_not_bound_the_horizon() {
    let h = xid_recurrence_horizon(1000, &v(&["0", "1", "2"])).unwrap();
    assert_eq!(h, FULL_CYCLE);
}

#[test]
fn a_64_bit_baseline_bounds_by_its_low_32_bits() {
    let base = (7 << 32) | 1000;
    let h = xid_recurrence_horizon(base, &v(&["1010"])).unwrap();
    assert_eq!(h, 10);
}

#[test]
fn an_unparseable_xmin_is_an_error() {
    assert!(xid_recurrence_horizon(1000, &v(&["not-an-xid"])).is_err());
}

#[test]
fn generated_types_are_usable() {
    let range = v1::KeyRange {
        start: 0x40 << 56,
        end: Some(0x80 << 56),
    };
    assert!(range.end.unwrap() > range.start);

    let vgtid = v1::VGtid {
        shard_gtids: vec![v1::ShardGtid {
            shard: "mycl-x40-x80".into(),
            lsn: Some(v1::Lsn { value: 42 }),
            tables_copied: vec![],
        }],
    };
    assert_eq!(vgtid.shard_gtids[0].lsn.as_ref().unwrap().value, 42);
}
