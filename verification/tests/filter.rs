use pgshard::filter::{
    cell_keyspace_id, shard_key_index, tuple_in_range, tuple_keyspace_id, FilterError,
};
use pgshard::keyspace::KeyRange;
use pgshard::pgoutput::{Relation, RelationColumn, TupleColumn, TupleData};
use pgshard::shardfn::{shard_function, ScalarType, ScalarValue, ShardFunction, XxHash64V1};

fn xxhash() -> &'static XxHash64V1 {
    Box::leak(Box::new(shard_function("xxhash64_v1").unwrap()))
}

fn relation(columns: &[&str]) -> Relation<'static> {
    // Leak the names so the borrowed Relation is 'static for the test.
    let columns = columns
        .iter()
        .map(|name| RelationColumn {
            flags: 0,
            name: Box::leak(name.to_string().into_boxed_str()),
            type_oid: 23,
            type_modifier: -1,
        })
        .collect();
    Relation {
        xid: None,
        oid: 16400,
        namespace: "public",
        name: "orders",
        replica_identity: b'd',
        columns,
    }
}

fn tuple(cells: Vec<TupleColumn<'static>>) -> TupleData<'static> {
    TupleData { columns: cells }
}

#[test]
fn resolves_the_shard_key_column_index() {
    let rel = relation(&["id", "customer_id", "note"]);
    assert_eq!(shard_key_index(&rel, "customer_id").unwrap(), 1);
    assert_eq!(
        shard_key_index(&rel, "missing").unwrap_err(),
        FilterError::NoShardKeyColumn("missing".to_owned())
    );
}

#[test]
fn text_shard_key_hashes_identically_to_the_routers_typed_value() {
    // The soundness property: the router hashes an int literal as Int64; the
    // replication stream ships it as text "5"; both must reach one keyspace id.
    let f = xxhash();
    let from_text = cell_keyspace_id(&TupleColumn::Text(b"5"), ScalarType::Int, f).unwrap();
    let from_router = f.keyspace_id(&ScalarValue::Int64(5));
    assert_eq!(from_text, from_router);

    // And a quoted vs unquoted spelling of the same int route alike, because
    // both coerce to Int64(5) — the whole point of typing the shard key.
    let quoted = cell_keyspace_id(&TupleColumn::Text(b"5"), ScalarType::Int, f).unwrap();
    assert_eq!(quoted, from_router);

    // A text-typed key hashes as its text.
    let as_text = cell_keyspace_id(&TupleColumn::Text(b"5"), ScalarType::Text, f).unwrap();
    assert_eq!(as_text, f.keyspace_id(&ScalarValue::Text("5".to_owned())));
    // Int and text spellings of "5" are different keyspace ids (different types).
    assert_ne!(from_router, as_text);
}

#[test]
fn null_toast_binary_and_uncoercible_keys_are_rejected() {
    let f = xxhash();
    assert_eq!(
        cell_keyspace_id(&TupleColumn::Null, ScalarType::Int, f).unwrap_err(),
        FilterError::UnroutableCell
    );
    assert_eq!(
        cell_keyspace_id(&TupleColumn::UnchangedToast, ScalarType::Int, f).unwrap_err(),
        FilterError::UnroutableCell
    );
    assert_eq!(
        cell_keyspace_id(&TupleColumn::Binary(b"\x00"), ScalarType::Int, f).unwrap_err(),
        FilterError::BinaryCell
    );
    // "abc" is not a valid integer.
    assert_eq!(
        cell_keyspace_id(&TupleColumn::Text(b"abc"), ScalarType::Int, f).unwrap_err(),
        FilterError::Uncoercible {
            value: "abc".to_owned(),
            ty: ScalarType::Int,
        }
    );
}

#[test]
fn uuid_and_bytea_shard_keys_match_the_routers_typed_hash() {
    // These reshard-critical types must hash from their pgoutput text form to
    // exactly the keyspace id the router computed from the canonical value.
    let f = xxhash();

    // pgoutput emits a UUID in canonical lowercase-hyphenated form.
    let uuid_bytes = [
        0x55, 0x0e, 0x84, 0x00, 0xe2, 0x9b, 0x41, 0xd4, 0xa7, 0x16, 0x44, 0x66, 0x55, 0x44,
        0x00, 0x00,
    ];
    let from_text = cell_keyspace_id(
        &TupleColumn::Text(b"550e8400-e29b-41d4-a716-446655440000"),
        ScalarType::Uuid,
        f,
    )
    .unwrap();
    assert_eq!(from_text, f.keyspace_id(&ScalarValue::Uuid(uuid_bytes)));

    // pgoutput emits bytea in the default hex form (`\x..`).
    let from_hex =
        cell_keyspace_id(&TupleColumn::Text(b"\\x0102ff"), ScalarType::Bytea, f).unwrap();
    assert_eq!(
        from_hex,
        f.keyspace_id(&ScalarValue::Bytea(vec![0x01, 0x02, 0xff]))
    );
}

#[test]
fn tuple_in_range_keeps_in_range_rows_and_skips_the_rest() {
    let f = xxhash();
    let row = tuple(vec![TupleColumn::Text(b"7"), TupleColumn::Text(b"hi")]);
    // The full range keeps every row.
    assert!(tuple_in_range(&row, 0, ScalarType::Int, f, &KeyRange::FULL()).unwrap());

    // A range that starts just above the row's own id excludes it.
    let id = tuple_keyspace_id(&row, 0, ScalarType::Int, f).unwrap();
    let above = KeyRange::new(id.0.wrapping_add(1), None).unwrap();
    assert!(!tuple_in_range(&row, 0, ScalarType::Int, f, &above).unwrap());
    // A range that ends at the row's id (exclusive) also excludes it, while one
    // covering it keeps it.
    if id.0 > 0 {
        let below = KeyRange::new(0, Some(id.0)).unwrap();
        assert!(!tuple_in_range(&row, 0, ScalarType::Int, f, &below).unwrap());
    }
    let covering = KeyRange::new(id.0, id.0.checked_add(1)).unwrap();
    assert!(tuple_in_range(&row, 0, ScalarType::Int, f, &covering).unwrap());
}

#[test]
fn a_short_row_reports_the_out_of_range_column() {
    let f = xxhash();
    let row = tuple(vec![TupleColumn::Text(b"1")]);
    assert_eq!(
        tuple_keyspace_id(&row, 3, ScalarType::Int, f).unwrap_err(),
        FilterError::ColumnOutOfRange { index: 3, len: 1 }
    );
}
