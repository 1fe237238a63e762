use pgshard::gate::{
    Admission, GateEngine, GateLimits, GateMatch, GateMode, GateSpec, Release, StatementScope,
};
use pgshard::keyspace::{KeyRange, KeyspaceId};

/// The clock of these tests, in milliseconds.
const NOW: u64 = 1_000_000;

fn write_scope(table: &str, id: u64) -> StatementScope {
    StatementScope {
        tables: vec![table.to_string()],
        keyspace_ids: vec![KeyspaceId(id)],
        is_write: true,
    }
}

fn read_scope(table: &str, id: u64) -> StatementScope {
    StatementScope {
        is_write: false,
        ..write_scope(table, id)
    }
}

fn keyrange_gate(id: &str, range: &str, deadline_in: u64) -> GateSpec {
    GateSpec {
        id: id.to_string(),
        mode: GateMode::WritesOnly,
        matcher: GateMatch {
            key_ranges: vec![range.parse::<KeyRange>().unwrap()],
            ..GateMatch::default()
        },
        deadline: NOW + deadline_in,
        min_topology_generation: 2,
    }
}

#[test]
fn parks_matching_writes_and_replays_fifo_on_open() {
    let mut engine = GateEngine::new(GateLimits::default());
    engine.topology_applied(1, NOW);
    engine.close(keyrange_gate("g1", "40-80", 60_000));

    // Write inside the gated range parks; outside proceeds; read passes.
    assert_eq!(
        engine.check(&write_scope("orders", 0x50 << 56), 1, NOW, &[]),
        Admission::Parked
    );
    assert_eq!(
        engine.check(&write_scope("orders", 0x10 << 56), 2, NOW, &[]),
        Admission::Proceed
    );
    assert_eq!(
        engine.check(&read_scope("orders", 0x50 << 56), 3, NOW, &[]),
        Admission::Proceed
    );
    assert_eq!(
        engine.check(&write_scope("orders", 0x60 << 56), 4, NOW, &[]),
        Admission::Parked
    );

    engine.topology_applied(2, NOW);
    let replan = Release::Replan {
        topology_generation: 2,
    };
    assert_eq!(engine.open("g1", NOW), vec![(1, replan), (4, replan)]);
}

#[test]
fn buffer_all_mode_parks_reads_too() {
    let mut engine = GateEngine::new(GateLimits::default());
    let mut gate = keyrange_gate("g-all", "-", 60_000);
    gate.mode = GateMode::All;
    gate.matcher = GateMatch {
        all: true,
        ..GateMatch::default()
    };
    engine.close(gate);
    assert_eq!(
        engine.check(&read_scope("anything", 7), 1, NOW, &[]),
        Admission::Parked
    );
}

#[test]
fn table_gates_match_by_name() {
    let mut engine = GateEngine::new(GateLimits::default());
    engine.close(GateSpec {
        id: "ddl-orders".into(),
        mode: GateMode::WritesOnly,
        matcher: GateMatch {
            tables: vec!["public.orders".into()],
            ..GateMatch::default()
        },
        deadline: NOW + 60_000,
        min_topology_generation: 0,
    });
    assert_eq!(
        engine.check(&write_scope("public.orders", 1), 1, NOW, &[]),
        Admission::Parked
    );
    assert_eq!(
        engine.check(&write_scope("public.customers", 1), 2, NOW, &[]),
        Admission::Proceed
    );
}

#[test]
fn deadline_expiry_releases_as_expired() {
    let mut engine = GateEngine::new(GateLimits::default());
    engine.close(keyrange_gate("g-exp", "-", 0));
    assert_eq!(
        engine.check(&write_scope("t", 1), 1, NOW, &[]),
        Admission::Parked
    );
    assert_eq!(engine.expire_due(NOW), (1, vec![(1, Release::Expired)]));
    // Gate is gone: traffic flows.
    assert_eq!(
        engine.check(&write_scope("t", 1), 1, NOW, &[]),
        Admission::Proceed
    );
    assert_eq!(engine.expire_due(NOW), (0, vec![]));
}

#[test]
fn overfull_gate_rejects_new_sessions() {
    let mut engine = GateEngine::new(GateLimits {
        max_sessions: 1,
        max_total_sessions: 100,
        max_wait: 20_000,
    });
    engine.close(keyrange_gate("g-full", "-", 60_000));
    assert_eq!(
        engine.check(&write_scope("t", 1), 1, NOW, &[]),
        Admission::Parked
    );
    assert_eq!(
        engine.check(&write_scope("t", 2), 2, NOW, &[]),
        Admission::Rejected
    );
    // A session that has gone away no longer takes a place.
    assert_eq!(
        engine.check(&write_scope("t", 2), 2, NOW, &[1]),
        Admission::Parked
    );
}

#[test]
fn overdue_sessions_are_rejected_but_gate_stays() {
    let mut engine = GateEngine::new(GateLimits {
        max_sessions: 100,
        max_total_sessions: 1000,
        max_wait: 0,
    });
    engine.close(keyrange_gate("g-wait", "-", 60_000));
    assert_eq!(
        engine.check(&write_scope("t", 1), 1, NOW, &[]),
        Admission::Parked
    );
    assert_eq!(
        engine.reject_overdue_sessions(NOW + 5, &[]),
        vec![(1, Release::Rejected)]
    );
    assert_eq!(engine.status(), vec![("g-wait".to_string(), 0)]);
}

#[test]
fn open_before_generation_holds_until_topology_applied() {
    let mut engine = GateEngine::new(GateLimits::default());
    engine.topology_applied(1, NOW);
    // keyrange_gate requires topology generation 2.
    engine.close(keyrange_gate("cut", "40-80", 60_000));
    assert_eq!(
        engine.check(&write_scope("orders", 0x50 << 56), 1, NOW, &[]),
        Admission::Parked
    );

    // Open arrives before generation 2 is applied: the write must NOT be
    // released against the stale generation-1 topology — it stays parked.
    assert_eq!(engine.open("cut", NOW), vec![]);
    assert_eq!(engine.status(), vec![("cut".to_string(), 1)]);

    // Applying generation 2 satisfies the held-open gate and replays it.
    assert_eq!(
        engine.topology_applied(2, NOW),
        vec![(
            1,
            Release::Replan {
                topology_generation: 2
            }
        )]
    );
}

#[test]
fn open_after_deadline_expires_instead_of_replaying() {
    let mut engine = GateEngine::new(GateLimits::default());
    engine.topology_applied(2, NOW);
    engine.close(keyrange_gate("late", "-", 0));
    assert_eq!(
        engine.check(&write_scope("t", 1), 1, NOW, &[]),
        Admission::Parked
    );
    // A late open (past the deadline) is an aborted cutover, not a switch.
    assert_eq!(engine.open("late", NOW + 2), vec![(1, Release::Expired)]);
}

#[test]
fn overlapping_gates_require_recheck_after_each_release() {
    let mut engine = GateEngine::new(GateLimits::default());
    engine.topology_applied(5, NOW);
    let mut failover = keyrange_gate("failover", "40-80", 60_000);
    failover.min_topology_generation = 5;
    engine.close(failover);
    engine.close(GateSpec {
        id: "ddl".into(),
        mode: GateMode::WritesOnly,
        matcher: GateMatch {
            tables: vec!["orders".into()],
            ..GateMatch::default()
        },
        deadline: NOW + 60_000,
        min_topology_generation: 5,
    });

    // This write matches BOTH gates (range 40-80 and table orders).
    let scope = StatementScope {
        tables: vec!["orders".into()],
        keyspace_ids: vec![KeyspaceId(0x50 << 56)],
        is_write: true,
    };
    // check parks behind the first gate; opening it releases the session, which
    // re-checks and parks behind the still-closed second gate.
    assert_eq!(engine.check(&scope, 1, NOW, &[]), Admission::Parked);
    let first = engine.open("failover", NOW);
    assert!(matches!(first.as_slice(), [(1, Release::Replan { .. })]));
    assert_eq!(engine.check(&scope, 1, NOW, &[]), Admission::Parked);
    let second = engine.open("ddl", NOW);
    assert!(matches!(second.as_slice(), [(1, Release::Replan { .. })]));
    // No gate blocks the write now.
    assert_eq!(engine.check(&scope, 1, NOW, &[]), Admission::Proceed);
}

#[test]
fn reclosing_same_id_updates_spec_without_dropping_parked() {
    let mut engine = GateEngine::new(GateLimits::default());
    engine.close(keyrange_gate("g-re", "-", 60_000));
    assert_eq!(
        engine.check(&write_scope("t", 1), 1, NOW, &[]),
        Admission::Parked
    );
    // Level-triggered re-application of the same gate id.
    engine.close(keyrange_gate("g-re", "-", 120_000));
    assert_eq!(engine.status(), vec![("g-re".to_string(), 1)]);
    engine.topology_applied(2, NOW);
    let released = engine.open("g-re", NOW);
    assert!(matches!(
        released.as_slice(),
        [(1, Release::Replan { .. })]
    ));
}

#[test]
fn a_range_gate_holds_only_statements_that_touch_it() {
    let mut engine = GateEngine::new(GateLimits::default());
    engine.close(keyrange_gate("g", "40-80", 60_000));
    let unpinned = StatementScope {
        tables: vec!["orders".into()],
        keyspace_ids: vec![],
        is_write: true,
    };
    assert_eq!(engine.check(&unpinned, 9, NOW, &[]), Admission::Proceed);
    // Opening a gate that does not exist changes nothing.
    assert_eq!(engine.open("other", NOW), vec![]);
    assert_eq!(engine.status(), vec![("g".to_string(), 0)]);
}
