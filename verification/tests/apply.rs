use pgshard::apply::{
    build_delete, build_insert, build_update, check_affected, progress_values, Applier, ApplyError,
    Cell, RelationInfo,
};
use pgshard::lsn::Lsn;
use pgshard::pgoutput::{
    Begin, Commit, Delete, Insert, LogicalRepMsg, Relation, RelationColumn, Truncate, TupleColumn,
    TupleData, Update,
};
use pgshard::quote::{quote_ident, quote_literal};

fn text(s: &str) -> Cell {
    Cell::Text(s.as_bytes().to_vec())
}

/// A two-column `public.orders(id, note)` with `id` as the key.
fn orders(replica_identity: u8) -> RelationInfo {
    RelationInfo {
        schema: "public".to_owned(),
        table: "orders".to_owned(),
        columns: vec!["id".to_owned(), "note".to_owned()],
        replica_identity,
        key_columns: if replica_identity == b'n' {
            vec![]
        } else {
            vec![0]
        },
    }
}

#[test]
fn quoting_neutralizes_injection() {
    assert_eq!(quote_literal("hi"), "'hi'");
    assert_eq!(quote_literal("O'Brien"), "'O''Brien'");
    assert_eq!(
        quote_literal("'); DROP TABLE t; --"),
        "'''); DROP TABLE t; --'"
    );
    assert_eq!(quote_ident("orders"), "\"orders\"");
    assert_eq!(quote_ident("weird\"name"), "\"weird\"\"name\"");
}

#[test]
fn insert_names_every_column() {
    let sql = build_insert(&orders(b'd'), &[text("1"), text("hi")]).unwrap();
    assert_eq!(
        sql,
        "INSERT INTO \"public\".\"orders\" (\"id\", \"note\") VALUES ('1', 'hi')"
    );
}

#[test]
fn update_sets_shipped_columns_and_matches_by_key() {
    // Default identity, key unchanged: key_source is the new tuple.
    let sql = build_update(
        &orders(b'd'),
        &[text("1"), text("z")],
        &[text("1"), text("z")],
    )
    .unwrap()
    .unwrap();
    assert_eq!(
        sql,
        "UPDATE \"public\".\"orders\" SET \"id\" = '1', \"note\" = 'z' WHERE \"id\" = '1'"
    );
}

#[test]
fn update_skips_unchanged_toast_and_no_op_updates() {
    // A shipped 'note' change with an unchanged-TOAST 'id' would not happen for
    // a key, but exercises SET omission on the second column.
    let sql = build_update(
        &orders(b'd'),
        &[text("1"), text("z")],
        &[text("1"), Cell::Unchanged],
    )
    .unwrap()
    .unwrap();
    assert_eq!(
        sql,
        "UPDATE \"public\".\"orders\" SET \"id\" = '1' WHERE \"id\" = '1'"
    );
    // All columns unchanged → nothing to set → no statement.
    let none = build_update(
        &orders(b'd'),
        &[text("1"), text("z")],
        &[Cell::Unchanged, Cell::Unchanged],
    )
    .unwrap();
    assert!(none.is_none());
}

#[test]
fn delete_matches_by_key() {
    let sql = build_delete(&orders(b'd'), &[text("1"), Cell::Null]).unwrap();
    assert_eq!(sql, "DELETE FROM \"public\".\"orders\" WHERE \"id\" = '1'");
}

#[test]
fn multi_column_key_is_anded() {
    let mut rel = orders(b'i');
    rel.columns = vec!["a".to_owned(), "b".to_owned(), "c".to_owned()];
    rel.key_columns = vec![0, 1];
    let sql = build_delete(&rel, &[text("x"), text("y"), text("z")]).unwrap();
    assert_eq!(
        sql,
        "DELETE FROM \"public\".\"orders\" WHERE \"a\" = 'x' AND \"b\" = 'y'"
    );
}

#[test]
fn unsupported_or_missing_keys_fail_closed() {
    // REPLICA IDENTITY FULL / NOTHING are rejected.
    assert!(build_delete(&orders(b'f'), &[text("1"), text("hi")]).is_err());
    assert!(build_delete(&orders(b'n'), &[text("1"), text("hi")]).is_err());
    // A NULL or unshipped-TOAST key value is rejected.
    assert!(build_delete(&orders(b'd'), &[Cell::Null, text("hi")]).is_err());
    assert!(build_delete(&orders(b'd'), &[Cell::Unchanged, text("hi")]).is_err());
}

fn described() -> LogicalRepMsg<'static> {
    LogicalRepMsg::Relation(Relation {
        xid: None,
        oid: 16400,
        namespace: "public",
        name: "orders",
        replica_identity: b'd',
        columns: vec![
            RelationColumn { flags: 1, name: "id", type_oid: 23, type_modifier: -1 },
            RelationColumn { flags: 0, name: "note", type_oid: 25, type_modifier: -1 },
        ],
    })
}

fn begin() -> LogicalRepMsg<'static> {
    LogicalRepMsg::Begin(Begin { final_lsn: Lsn(100), commit_timestamp: 0, xid: 7 })
}

fn commit(at: u64, end: u64) -> LogicalRepMsg<'static> {
    LogicalRepMsg::Commit(Commit {
        commit_lsn: Lsn(at),
        end_lsn: Lsn(end),
        commit_timestamp: 0,
    })
}

fn tuple(cells: &[&'static str]) -> TupleData<'static> {
    TupleData { columns: cells.iter().map(|c| TupleColumn::Text(c.as_bytes())).collect() }
}

fn inserted(rel_oid: u32) -> LogicalRepMsg<'static> {
    LogicalRepMsg::Insert(Insert { xid: None, rel_oid, new_tuple: tuple(&["1", "a"]) })
}

#[test]
fn a_transaction_is_handed_out_whole_at_its_commit() {
    let mut applier = Applier::new("wf1", None);
    assert_eq!(applier.consumer(), "wf1");
    assert_eq!(applier.handle(&described()), Ok(None));
    assert_eq!(applier.handle(&begin()), Ok(None));
    assert_eq!(applier.handle(&inserted(16400)), Ok(None));
    let update = LogicalRepMsg::Update(Update {
        xid: None,
        rel_oid: 16400,
        key: None,
        old: None,
        new_tuple: tuple(&["1", "b"]),
    });
    assert_eq!(applier.handle(&update), Ok(None));
    let delete = LogicalRepMsg::Delete(Delete {
        xid: None,
        rel_oid: 16400,
        key: Some(tuple(&["1", ""])),
        old: None,
    });
    assert_eq!(applier.handle(&delete), Ok(None));
    let txn = applier.handle(&commit(100, 108)).unwrap().unwrap();
    assert_eq!(
        txn.statements,
        vec![
            "INSERT INTO \"public\".\"orders\" (\"id\", \"note\") VALUES ('1', 'a')".to_owned(),
            "UPDATE \"public\".\"orders\" SET \"id\" = '1', \"note\" = 'b' WHERE \"id\" = '1'"
                .to_owned(),
            "DELETE FROM \"public\".\"orders\" WHERE \"id\" = '1'".to_owned(),
        ]
    );
    assert_eq!(progress_values(&txn), (100, 108));
    // Nothing is durable until the target transaction has committed.
    assert_eq!(applier.checkpoint(), Lsn(0));
    assert_eq!(applier.ack_lsn(), Lsn(0));
    applier.applied(&txn);
    assert_eq!(applier.checkpoint(), Lsn(100));
    assert_eq!(applier.ack_lsn(), Lsn(108));
}

#[test]
fn an_applied_transaction_is_skipped_on_replay() {
    let mut applier = Applier::new("wf1", Some((100, 108)));
    assert_eq!(applier.checkpoint(), Lsn(100));
    assert_eq!(applier.ack_lsn(), Lsn(108));
    applier.handle(&described()).unwrap();
    applier.handle(&begin()).unwrap();
    applier.handle(&inserted(16400)).unwrap();
    assert_eq!(applier.handle(&commit(100, 108)), Ok(None));
    applier.handle(&begin()).unwrap();
    applier.handle(&inserted(16400)).unwrap();
    let txn = applier.handle(&commit(120, 128)).unwrap().unwrap();
    assert_eq!(txn.statements.len(), 1);
}

#[test]
fn what_cannot_be_applied_soundly_is_refused() {
    let mut applier = Applier::new("wf1", None);
    applier.handle(&begin()).unwrap();
    applier.handle(&inserted(9)).unwrap();
    assert_eq!(applier.handle(&commit(100, 108)), Err(ApplyError::UnknownRelation(9)));
    let truncate = LogicalRepMsg::Truncate(Truncate { xid: None, options: 0, relations: vec![9] });
    assert_eq!(applier.handle(&truncate), Err(ApplyError::Unsupported("TRUNCATE apply")));
    assert_eq!(
        applier.handle(&LogicalRepMsg::StreamStop),
        Err(ApplyError::Unsupported("streamed or two-phase transactions"))
    );
    let binary = LogicalRepMsg::Insert(Insert {
        xid: None,
        rel_oid: 9,
        new_tuple: TupleData { columns: vec![TupleColumn::Binary(b"x")] },
    });
    assert!(matches!(applier.handle(&binary), Err(ApplyError::Unsupported(_))));
}

#[test]
fn a_change_must_affect_exactly_one_row() {
    assert_eq!(check_affected(1), Ok(()));
    assert_eq!(check_affected(0), Err(ApplyError::RowCountMismatch { affected: 0 }));
    assert_eq!(check_affected(2), Err(ApplyError::RowCountMismatch { affected: 2 }));
}

#[test]
fn rows_must_match_their_relation() {
    assert_eq!(
        build_insert(&orders(b'd'), &[text("1")]),
        Err(ApplyError::ColumnCountMismatch {
            relation: "public.orders".to_owned(),
            expected: 2,
            actual: 1,
        })
    );
    assert_eq!(
        build_insert(&orders(b'd'), &[Cell::Text(vec![0xff]), Cell::Null]),
        Err(ApplyError::InvalidUtf8)
    );
}
