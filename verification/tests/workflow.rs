use pgshard::keyspace::KeyRange;
use pgshard::lsn::Lsn;
use pgshard::pgoutput::{
    Delete, Insert, LogicalRepMsg, Message, Relation, RelationColumn, Truncate, TupleColumn,
    TupleData, Update,
};
use pgshard::preflight::{
    allowed_key_oids, fetch_publication, hashable, preflight, Answer, Preflight,
    PublicationBaseline, PublicationRow, PublicationShape, PublishedTable, Question, RowVersion,
    SqlColumn,
};
use pgshard::proto::v1::{self, WorkflowPhase};
use pgshard::seeding::{SeedEvent, SeedStep, Seeding, SlotInfo};
use pgshard::shardfn::{shard_function, ScalarType, ScalarValue, ShardFunction, XxHash64V1};
use pgshard::workflow::{
    plan, RunPlan, StartStep, WorkflowConfig, WorkflowError, WorkflowRegistry,
};

const UPPER_HALF: u64 = 1 << 63;

const TARGET_PROVENANCE: &str = "shard-uid-1";

const INT4_OID: u32 = 23;
const TEXT_OID: u32 = 25;

fn xxhash() -> XxHash64V1 {
    shard_function("xxhash64_v1").unwrap()
}

fn in_upper_half(id: i32) -> bool {
    xxhash().keyspace_id(&ScalarValue::Int64(id as i64)).0 >= UPPER_HALF
}

/// The first id that is (or is not) in the target range.
fn an_id(inside: bool) -> i32 {
    (0..).find(|id| in_upper_half(*id) == inside).unwrap()
}

fn config() -> WorkflowConfig {
    WorkflowConfig {
        source_user: "postgres".into(),
        source_password: "postgres".into(),
    }
}

fn spec(id: &str, slot: &str) -> v1::WorkflowSpec {
    v1::WorkflowSpec {
        id: id.into(),
        kind: v1::WorkflowKind::Reshard.number(),
        source_shard: "src".into(),
        source_primary: Some(v1::PgEndpoint {
            host: "localhost".into(),
            port: 5432,
            database: "postgres".into(),
        }),
        source_policy: v1::SourcePolicy::Primary.number(),
        slot: slot.into(),
        publication: "seed_pub".into(),
        tables: vec![v1::TableMapping {
            source: Some(v1::TableRef {
                schema: "public".into(),
                name: "orders".into(),
            }),
            target: None,
            column_map: Default::default(),
            shard_key_column: "id".into(),
            shard_key_type: "int".into(),
        }],
        filter: Some(v1::RowFilter {
            filter: Some(v1::Filter::KeyRange(v1::KeyRangeFilter {
                range: Some(v1::KeyRange {
                    start: UPPER_HALF,
                    end: None,
                }),
                hash_function: "xxhash64_v1".into(),
            })),
        }),
        target_database: "shard_target".into(),
        expect_provenance: TARGET_PROVENANCE.into(),
    }
}

#[test]
fn rejects_specs_the_runner_cannot_execute_honestly() {
    let refused = |s: v1::WorkflowSpec| plan(&s, &config()).unwrap_err();

    let mut bad = spec("wfx", "pgshard_wfx");
    bad.tables[0].shard_key_type = "float".into();
    assert!(matches!(refused(bad), WorkflowError::Invalid(_)));

    let mut renamed = spec("wfy", "pgshard_wfy");
    renamed.tables[0].target = Some(v1::TableRef {
        schema: "public".into(),
        name: "orders_v2".into(),
    });
    assert!(matches!(refused(renamed), WorkflowError::Unimplemented(..)));

    let mut standby = spec("wfz", "pgshard_wfz");
    standby.source_policy = v1::SourcePolicy::PreferStandby.number();
    assert!(matches!(refused(standby), WorkflowError::Unimplemented(..)));

    let inject = spec("wfi", "bad-slot;DROP");
    assert!(matches!(refused(inject), WorkflowError::Invalid(_)));

    let unprefixed = spec("wfp", "wfp_slot");
    assert!(matches!(refused(unprefixed), WorkflowError::Invalid(_)));

    let mut wrong_kind = spec("wfk", "pgshard_wfk");
    wrong_kind.kind = v1::WorkflowKind::DdlShadow.number();
    assert!(matches!(refused(wrong_kind), WorkflowError::Invalid(_)));

    let mut no_provenance = spec("wfv", "pgshard_wfv");
    no_provenance.expect_provenance = String::new();
    assert!(matches!(refused(no_provenance), WorkflowError::Invalid(_)));

    let mut duplicated = spec("wfd", "pgshard_wfd");
    let again = duplicated.tables[0].clone();
    duplicated.tables.push(again);
    let e = refused(duplicated);
    assert!(matches!(e, WorkflowError::Invalid(_)));
    assert_eq!(
        e.to_string(),
        "invalid workflow spec: table public.orders is mapped twice"
    );
}

#[test]
fn a_runnable_spec_becomes_its_plan() {
    let run = plan(&spec("wf", "pgshard_wf"), &config()).unwrap();
    assert_eq!(run.id, "wf");
    assert_eq!(run.range, KeyRange::new(UPPER_HALF, None).unwrap());
    assert_eq!(run.source.host, "localhost");
    assert_eq!(run.source.user, "postgres");
    assert_eq!(run.tables[0].shard_key_type, ScalarType::Int);
    // Everything, without a range.
    let mut all = spec("wf", "pgshard_wf");
    all.filter = Some(v1::RowFilter {
        filter: Some(v1::Filter::All(true)),
    });
    assert_eq!(plan(&all, &config()).unwrap().range, KeyRange::FULL());
}

#[test]
fn one_worker_per_target_and_one_spec_per_id() {
    let mut registry = WorkflowRegistry::default();
    assert_eq!(
        registry.start("wf_a", "shard_target", b"one".to_vec()),
        Ok(StartStep::Spawn)
    );
    // The same spec again is acknowledged; another one conflicts.
    assert_eq!(
        registry.start("wf_a", "shard_target", b"one".to_vec()),
        Ok(StartStep::Acknowledge)
    );
    assert_eq!(
        registry.start("wf_a", "shard_target", b"two".to_vec()),
        Err(WorkflowError::Conflict("wf_a".into()))
    );
    // A second RUNNING workflow under a different id may not seize the same
    // target database.
    assert_eq!(
        registry.start("wf_b", "shard_target", b"two".to_vec()),
        Err(WorkflowError::TargetBusy(
            "wf_a".into(),
            "shard_target".into()
        ))
    );
    assert_eq!(
        registry.start("wf_b", "other_target", b"two".to_vec()),
        Ok(StartStep::Spawn)
    );
    // A stopping workflow still holds its target until its task has ended.
    registry.stop("wf_a");
    assert_eq!(
        registry.start("wf_a", "shard_target", b"one".to_vec()),
        Err(WorkflowError::Stopping("wf_a".into()))
    );
    registry.report("wf_a", WorkflowPhase::Stopped);
    registry.finish("wf_a");
    assert_eq!(
        registry.start("wf_a", "shard_target", b"one".to_vec()),
        Ok(StartStep::Spawn)
    );
    assert_eq!(
        registry.statuses(&vec!["wf_b".into()]),
        vec!["wf_b".to_string()]
    );
}

// ---- preflight -------------------------------------------------------------------------

fn run() -> RunPlan {
    plan(&spec("wf", "pgshard_wf"), &config()).unwrap()
}

fn column(name: &str, type_oid: u32) -> SqlColumn {
    SqlColumn {
        name: name.into(),
        type_oid,
        typmod: -1,
        generated: false,
        identity: 0,
        relkind: b'r',
    }
}

fn order_columns() -> Vec<SqlColumn> {
    vec![column("id", INT4_OID), column("note", TEXT_OID)]
}

fn published() -> PublishedTable {
    PublishedTable {
        schema: "public".into(),
        name: "orders".into(),
        columns: vec!["id".into(), "note".into()],
        has_column_list: false,
        has_row_filter: false,
    }
}

fn shape() -> PublicationShape {
    PublicationShape {
        insert: true,
        update: true,
        delete: true,
        truncate: true,
        via_partition_root: false,
        publishes_generated: false,
        all_tables: false,
        versions: vec![(0, 1, "700".into())],
        tables: vec![published()],
    }
}

fn baseline(shape: PublicationShape) -> PublicationBaseline {
    PublicationBaseline {
        shape,
        xid: 1000,
        horizon: 1 << 31,
    }
}

fn marker() -> Option<String> {
    Some(format!("pgshard-provenance:{TARGET_PROVENANCE}"))
}

/// A preflight that has found the target's marker in order.
fn marked() -> Preflight {
    preflight(&run())
        .answer(&run(), Answer::Marker(marker()))
        .unwrap()
}

/// A preflight that has found the publication in order as well.
fn published_well() -> Preflight {
    marked()
        .answer(&run(), Answer::Publication(baseline(shape())))
        .unwrap()
}

fn passed() -> Preflight {
    let p = published_well()
        .answer(&run(), Answer::Source(order_columns()))
        .unwrap()
        .answer(&run(), Answer::Target(order_columns()))
        .unwrap()
        .answer(&run(), Answer::Identity(b'd'))
        .unwrap();
    assert_eq!(p.question, Question::IdentityColumns(0, false));
    p.answer(&run(), Answer::IdentityColumns(vec!["id".into()]))
        .unwrap()
}

#[test]
fn a_clean_pair_passes_the_preflight() {
    let p = passed();
    assert_eq!(p.question, Question::Nothing);
    assert_eq!(p.tables[0].columns, vec!["id", "note"]);
}

#[test]
fn preflight_refuses_a_database_that_is_not_the_target() {
    for found in [
        None,
        Some("pgshard-provenance:some-other-shard".to_string()),
        Some(TARGET_PROVENANCE.to_string()),
    ] {
        let e = preflight(&run())
            .answer(&run(), Answer::Marker(found))
            .unwrap_err();
        assert!(e.contains("provenance"), "{e}");
    }
}

#[test]
fn preflight_refuses_publications_that_would_lose_changes() {
    let refused = |change: fn(&mut PublicationShape), needle: &str| {
        let mut s = shape();
        change(&mut s);
        let e = marked()
            .answer(&run(), Answer::Publication(baseline(s)))
            .unwrap_err();
        assert!(e.contains(needle), "{e}");
    };
    // A publication with a disabled DML kind, a row filter, or a column list
    // would silently omit or transform streamed changes.
    refused(|s| s.update = false, "does not publish all");
    refused(|s| s.tables[0].has_row_filter = true, "filters rows");
    refused(
        |s| s.tables[0].has_column_list = true,
        "different column set",
    );
    // Dynamic membership cannot be pinned by catalog row versions.
    refused(|s| s.all_tables = true, "FOR ALL TABLES");
    refused(
        |s| s.versions.push((2, 9, "701".into())),
        "TABLES IN SCHEMA",
    );
    // A partition-root publication announces leaf relations the mapping
    // does not know, and direct leaf truncates go unpublished.
    refused(
        |s| s.via_partition_root = true,
        "publish_via_partition_root",
    );
    refused(|s| s.publishes_generated = true, "generated");
    // A mapped table missing from the publication would be seeded once and
    // then silently go stale; an unmapped one would fail the stream.
    refused(|s| s.tables.clear(), "is not in publication");
    refused(
        |s| {
            s.tables.push(PublishedTable {
                name: "extra".into(),
                ..published()
            })
        },
        "unmapped table public.extra",
    );
}

#[test]
fn preflight_refuses_tables_that_are_not_clones() {
    let targets = |tgt: Vec<SqlColumn>, needle: &str| {
        let e = published_well()
            .answer(&run(), Answer::Source(order_columns()))
            .unwrap()
            .answer(&run(), Answer::Target(tgt))
            .unwrap_err();
        assert!(e.contains(needle), "{e}");
    };
    let sources = |src: Vec<SqlColumn>, needle: &str| {
        let e = published_well()
            .answer(&run(), Answer::Source(src))
            .unwrap_err();
        assert!(e.contains(needle), "{e}");
    };
    targets(vec![], "does not exist");
    targets(vec![column("id", INT4_OID)], "missing column note");
    // A same-named target column of a different type would truncate first
    // and fail mid-copy without the deep compatibility check.
    targets(
        vec![column("id", INT4_OID), column("note", INT4_OID)],
        "different type on the target",
    );
    // Exact schema equivalence: an extra target column's defaults or
    // constraints could reject or transform copied rows after truncation.
    let mut extra = order_columns();
    extra.push(column("added", 1184));
    targets(extra, "extra column");
    let mut always = order_columns();
    always[0].identity = b'a';
    targets(always, "GENERATED ALWAYS AS IDENTITY");
    // Generated columns cannot be compared across databases and are refused.
    let mut generated = order_columns();
    generated[1].generated = true;
    sources(generated, "generated");
    sources(vec![], "not found");
    let mut partitioned = order_columns();
    partitioned[0].relkind = b'p';
    partitioned[1].relkind = b'p';
    sources(partitioned, "not a plain table");
}

#[test]
fn preflight_refuses_keys_that_cannot_be_hashed_or_found_again() {
    // Declared shard-key type contradicting the real column type: hashing
    // would place rows on the wrong shard.
    let text_key = || vec![column("id", TEXT_OID), column("note", TEXT_OID)];
    let e = published_well()
        .answer(&run(), Answer::Source(text_key()))
        .unwrap()
        .answer(&run(), Answer::Target(text_key()))
        .unwrap_err();
    assert!(e.contains("cannot be hashed"), "{e}");
    assert!(hashable(ScalarType::Int, INT4_OID) && !hashable(ScalarType::Int, TEXT_OID));
    assert_eq!(allowed_key_oids(ScalarType::Int), vec![20, 21, 23]);

    let compared = || {
        published_well()
            .answer(&run(), Answer::Source(order_columns()))
            .unwrap()
            .answer(&run(), Answer::Target(order_columns()))
            .unwrap()
    };
    // REPLICA IDENTITY FULL is refused up front: the applier cannot apply
    // FULL-identity updates/deletes.
    let e = compared()
        .answer(&run(), Answer::Identity(b'f'))
        .unwrap_err();
    assert!(e.contains("replica identity 'f'"), "{e}");
    // The identity must hold the shard key.
    let e = compared()
        .answer(&run(), Answer::Identity(b'i'))
        .unwrap()
        .answer(&run(), Answer::IdentityColumns(vec!["note".into()]))
        .unwrap_err();
    assert!(e.contains("does not cover shard key"), "{e}");
}

#[test]
fn a_publication_is_fetched_with_its_horizon() {
    let row = || PublicationRow {
        insert: true,
        update: true,
        delete: true,
        truncate: true,
        via_partition_root: false,
        publishes_generated: false,
        all_tables: false,
        xid: "1000".into(),
    };
    let versions = || -> Vec<RowVersion> { vec![(0, 1, "1010".into())] };
    let b = fetch_publication("p", Some(row()), versions(), vec![published()]).unwrap();
    assert_eq!((b.xid, b.horizon), (1000, 10));
    assert_eq!(b.shape.versions, versions());
    assert_eq!(
        fetch_publication("p", None, vec![], vec![]).unwrap_err(),
        "publication p does not exist on the source"
    );
    for (xid, fault) in [
        ("x", "invalid digit found in string"),
        ("-5", "invalid digit found in string"),
        ("", "cannot parse integer from empty string"),
        ("18446744073709551616", "number too large to fit in target type"),
    ] {
        let mut bad = row();
        bad.xid = xid.into();
        assert_eq!(
            fetch_publication("p", Some(bad), vec![], vec![]).unwrap_err(),
            fault
        );
    }
}

// ---- seeding and streaming -------------------------------------------------------------

fn seeding() -> Seeding {
    Seeding::new(run(), passed()).unwrap()
}

#[test]
fn seeding_waits_for_its_preflight() {
    assert!(Seeding::new(run(), published_well()).is_none());
}

/// A workflow that has come as far as streaming.
fn streaming() -> Seeding {
    let mut s = seeding();
    assert_eq!(s.step, SeedStep::FindSlot);
    s.advance(SeedEvent::Slot(None));
    assert_eq!(s.step, SeedStep::CreateSlot);
    s.advance(SeedEvent::Created("00000003-1".into(), Lsn(0x100)));
    assert_eq!(s.step, SeedStep::ClearCheckpoint);
    s.advance(SeedEvent::Done);
    assert_eq!(s.step, SeedStep::Truncate(0));
    assert_eq!(s.truncate(0), "TRUNCATE \"public\".\"orders\"");
    s.advance(SeedEvent::Done);
    assert_eq!(s.step, SeedStep::Copy(0));
    let copy = s.copy_spec(0);
    assert_eq!(
        (copy.schema, copy.table, copy.shard_key_column),
        ("public", "orders", "id")
    );
    assert_eq!(copy.target_range, KeyRange::new(UPPER_HALF, None).unwrap());
    s.advance(SeedEvent::Copied(7));
    assert_eq!(s.step, SeedStep::StartStream);
    let progress = s.progress.copy.unwrap();
    assert_eq!(
        (
            progress.tables_total,
            progress.tables_done,
            progress.rows_copied
        ),
        (1, 1, 7)
    );
    s.advance(SeedEvent::Done);
    assert_eq!(s.step, SeedStep::OpenApplier);
    s.advance(SeedEvent::Done);
    assert_eq!(s.step, SeedStep::Stream);
    assert_eq!(s.progress.phase, WorkflowPhase::Streaming);
    s
}

#[test]
fn seeding_takes_its_steps_in_order() {
    streaming();
}

#[test]
fn a_stale_slot_of_its_own_is_dropped_and_a_foreign_one_survives() {
    let own = || SlotInfo {
        active: false,
        plugin: Some("pgoutput".into()),
        database: Some("postgres".into()),
    };
    let mut s = seeding();
    s.advance(SeedEvent::Slot(Some(own())));
    assert_eq!(s.step, SeedStep::DropSlot);
    s.advance(SeedEvent::Done);
    assert_eq!(s.step, SeedStep::CreateSlot);

    for foreign in [
        SlotInfo {
            active: true,
            ..own()
        },
        SlotInfo {
            plugin: Some("wal2json".into()),
            ..own()
        },
        SlotInfo {
            database: Some("elsewhere".into()),
            ..own()
        },
    ] {
        let mut s = seeding();
        s.advance(SeedEvent::Slot(Some(foreign)));
        assert!(matches!(s.step, SeedStep::Failed(_)), "{:?}", s.step);
        assert_eq!(s.progress.phase, WorkflowPhase::Error);
    }
}

fn relation(replica_identity: u8) -> LogicalRepMsg<'static> {
    LogicalRepMsg::Relation(Relation {
        xid: None,
        oid: 16400,
        namespace: "public",
        name: "orders",
        replica_identity,
        columns: vec![
            RelationColumn {
                flags: 1,
                name: "id",
                type_oid: INT4_OID,
                type_modifier: -1,
            },
            RelationColumn {
                flags: 0,
                name: "note",
                type_oid: TEXT_OID,
                type_modifier: -1,
            },
        ],
    })
}

fn tuple(id: &str) -> TupleData<'_> {
    TupleData {
        columns: vec![TupleColumn::Text(id.as_bytes()), TupleColumn::Null],
    }
}

fn inserted(id: &str) -> LogicalRepMsg<'_> {
    LogicalRepMsg::Insert(Insert {
        xid: None,
        rel_oid: 16400,
        new_tuple: tuple(id),
    })
}

#[test]
fn only_the_target_keyrange_is_streamed() {
    let mut s = streaming();
    let f = xxhash();
    assert_eq!(s.stream(&relation(b'd'), &f), Ok(true));
    let (inside, outside) = (an_id(true).to_string(), an_id(false).to_string());
    assert_eq!(s.stream(&inserted(&inside), &f), Ok(true));
    assert_eq!(s.stream(&inserted(&outside), &f), Ok(false));
    let deleted = |id| {
        LogicalRepMsg::Delete(Delete {
            xid: None,
            rel_oid: 16400,
            key: Some(tuple(id)),
            old: None,
        })
    };
    assert_eq!(s.stream(&deleted(&inside), &f), Ok(true));
    assert_eq!(s.stream(&deleted(&outside), &f), Ok(false));
    // A change of a relation that was never announced.
    assert!(streaming().stream(&inserted(&inside), &f).is_err());
    // TRUNCATE would empty rows that the filter keeps out of view.
    let truncated = LogicalRepMsg::Truncate(Truncate {
        xid: None,
        options: 0,
        relations: vec![16400],
    });
    assert!(s.stream(&truncated, &f).is_err());
}

#[test]
fn update_moving_the_shard_key_across_the_boundary_fails_loudly() {
    let mut s = streaming();
    let f = xxhash();
    s.stream(&relation(b'd'), &f).unwrap();
    let (inside, outside) = (an_id(true).to_string(), an_id(false).to_string());
    let moved = LogicalRepMsg::Update(Update {
        xid: None,
        rel_oid: 16400,
        key: Some(tuple(&inside)),
        old: None,
        new_tuple: tuple(&outside),
    });
    let e = s.stream(&moved, &f).unwrap_err();
    assert!(e.contains("across the target range boundary"), "{e}");
    // An update that leaves the key alone passes.
    let kept = LogicalRepMsg::Update(Update {
        xid: None,
        rel_oid: 16400,
        key: None,
        old: None,
        new_tuple: tuple(&inside),
    });
    assert_eq!(s.stream(&kept, &f), Ok(true));
}

#[test]
fn dropping_replica_identity_mid_stream_fails_loudly() {
    let mut s = streaming();
    let e = s.stream(&relation(b'f'), &xxhash()).unwrap_err();
    assert!(e.contains("no longer covers shard key"), "{e}");
}

#[test]
fn altering_the_publication_mid_stream_fails_loudly() {
    let s = streaming();
    let now = |xid: u64, change: fn(&mut PublicationShape)| {
        let mut sh = shape();
        change(&mut sh);
        PublicationBaseline {
            shape: sh,
            xid,
            horizon: 1 << 31,
        }
    };
    assert_eq!(s.poll(&now(1001, |_| {})), Ok(()));
    // The shape is what it was, but the catalog row has been rewritten.
    let e = s
        .poll(&now(1001, |sh| sh.versions[0].2 = "990".into()))
        .unwrap_err();
    assert!(e.contains("changed while streaming"), "{e}");
    // After so many transactions a row version could recur.
    assert!(s.poll(&now(1000 + (1 << 31), |_| {})).is_err());
}

#[test]
fn the_journal_is_acknowledged_with_its_transaction() {
    let mut s = streaming();
    let f = xxhash();
    let journal = LogicalRepMsg::Message(Message {
        xid: None,
        transactional: true,
        lsn: Lsn(0xABCD),
        prefix: "pgshard",
        content: b"jrnl",
    });
    assert_eq!(s.stream(&journal, &f), Ok(true));
    assert_eq!(s.progress.journal_lsn, None);
    s.committed(Lsn(0xB000));
    assert_eq!(s.progress.applied_lsn, Some(0xB000));
    assert_eq!(s.progress.journal_lsn, Some(0xABCD));
    // A halted workflow has stopped.
    s.halt();
    assert_eq!(s.step, SeedStep::Stopped);
}
