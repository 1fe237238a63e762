use pgshard::catalog::{ShardCatalog, ShardId};
use pgshard::keyspace::{
    format_bound, parse_bound, validate_partition, KeyRange, KeyRangeError, KeyspaceId,
    PartitionError,
};
use pgshard::lsn::{InvalidLsn, Lsn};
use pgshard::shardfn::{shard_function, ScalarType, ScalarValue, ShardFnError, ShardFunction};
use pgshard::vschema::{SequenceBinding, TableDef, TableName, VSchema, VSchemaError};

// ---- keyspace ------------------------------------------------------------------------

#[test]
fn bound_round_trips() {
    for v in [
        0u64,
        1,
        0x40 << 56,
        0x80 << 56,
        0xc0de_0000_0000_0000,
        u64::MAX,
    ] {
        assert_eq!(parse_bound(&format_bound(v)).unwrap(), v, "{v:#x}");
    }
}

#[test]
fn bound_formats_are_trimmed_and_left_aligned() {
    assert_eq!(format_bound(0), "");
    assert_eq!(format_bound(0x40 << 56), "40");
    assert_eq!(format_bound(0x4080 << 48), "4080");
    assert_eq!(parse_bound("40").unwrap(), 0x40 << 56);
    assert!(parse_bound("4").is_err());
    assert!(parse_bound("GG").is_err());
    assert!(parse_bound("40000000000000000000").is_err());
}

#[test]
fn range_display_and_parse() {
    let range: KeyRange = "40-80".parse().unwrap();
    assert_eq!(range.start(), 0x40 << 56);
    assert_eq!(range.end(), Some(0x80 << 56));
    assert_eq!(range.to_string(), "40-80");
    assert_eq!(KeyRange::FULL().to_string(), "-");
    assert_eq!("-".parse::<KeyRange>().unwrap(), KeyRange::FULL());
    assert!("80-40".parse::<KeyRange>().is_err());
    assert!("40".parse::<KeyRange>().is_err());
}

#[test]
fn contains_and_intersects() {
    let range: KeyRange = "40-80".parse().unwrap();
    assert!(!range.contains(KeyspaceId((0x40 << 56) - 1)));
    assert!(range.contains(KeyspaceId(0x40 << 56)));
    assert!(!range.contains(KeyspaceId(0x80 << 56)));

    let top: KeyRange = "c0-".parse().unwrap();
    assert!(top.contains(KeyspaceId(u64::MAX)));
    assert!(!top.intersects(&range));
    assert!(top.intersects(&KeyRange::FULL()));
}

#[test]
fn split_partitions_the_input() {
    let parts = KeyRange::FULL().split_evenly(4).unwrap();
    assert_eq!(parts.len(), 4);
    validate_partition(&parts).unwrap();
    assert_eq!(parts[1].to_string(), "40-80");

    let sub: KeyRange = "40-80".parse().unwrap();
    let sub_parts = sub.split_evenly(3).unwrap();
    assert_eq!(sub_parts.first().unwrap().start(), sub.start());
    assert_eq!(sub_parts.last().unwrap().end(), sub.end());
    for pair in sub_parts.windows(2) {
        assert_eq!(pair[0].end(), Some(pair[1].start()));
    }
}

#[test]
fn split_boundaries_are_rounded() {
    let bounds = |end: u64, parts: u32| -> Vec<(u64, Option<u64>)> {
        KeyRange::new(0, Some(end))
            .unwrap()
            .split_evenly(parts)
            .unwrap()
            .iter()
            .map(|r| (r.start(), r.end()))
            .collect()
    };
    assert_eq!(bounds(5, 3), [(0, Some(2)), (2, Some(3)), (3, Some(5))]);
    // A half is rounded up.
    assert_eq!(bounds(5, 2), [(0, Some(3)), (3, Some(5))]);
    assert_eq!(bounds(3, 3), [(0, Some(1)), (1, Some(2)), (2, Some(3))]);
    let thirds = KeyRange::FULL().split_evenly(3).unwrap();
    assert_eq!(thirds[1].start(), 0x5555_5555_5555_5555);
    assert_eq!(thirds[2].start(), 0xaaaa_aaaa_aaaa_aaab);
    assert_eq!(thirds[2].end(), None);
}

#[test]
fn no_range_is_empty() {
    for text in ["-", "40-80", "c0-", "-40"] {
        let range: KeyRange = text.parse().unwrap();
        assert!(range.contains(KeyspaceId(range.start())));
    }
    assert!("80-40".parse::<KeyRange>().is_err());
    assert!("40-40".parse::<KeyRange>().is_err());
}

#[test]
fn partition_validation_rejects_gaps_and_overlaps() {
    assert_eq!(validate_partition(&[]), Err(PartitionError::Empty));

    let lo: KeyRange = "-40".parse().unwrap();
    let hi: KeyRange = "80-".parse().unwrap();
    assert!(matches!(
        validate_partition(&[lo, hi]),
        Err(PartitionError::GapOrOverlap { index: 1, .. })
    ));

    let mid: KeyRange = "40-80".parse().unwrap();
    validate_partition(&[lo, mid, hi]).unwrap();
}

#[test]
fn every_partition_error_has_its_input() {
    let lo: KeyRange = "-40".parse().unwrap();
    let mid: KeyRange = "40-80".parse().unwrap();
    assert_eq!(
        validate_partition(&[mid]),
        Err(PartitionError::DoesNotStartAtZero(0x40 << 56))
    );
    assert_eq!(
        validate_partition(&[lo, mid]),
        Err(PartitionError::DoesNotEndAtMax(0x80 << 56))
    );
    assert_eq!(
        validate_partition(&[KeyRange::FULL(), lo]),
        Err(PartitionError::GapOrOverlap {
            index: 1,
            prev_end: None,
            next_start: 0,
        })
    );
}

#[test]
fn every_range_error_has_its_input() {
    assert_eq!(
        KeyRange::new(5, Some(5)),
        Err(KeyRangeError::Empty { start: 5, end: 5 })
    );
    assert_eq!(
        "4-".parse::<KeyRange>(),
        Err(KeyRangeError::InvalidBound("4".into()))
    );
    assert_eq!(
        "40".parse::<KeyRange>(),
        Err(KeyRangeError::InvalidSyntax("40".into()))
    );
    assert_eq!(
        KeyRange::FULL().split_evenly(0),
        Err(KeyRangeError::InvalidSplit(0))
    );
    // A range of two ids cannot be cut into three.
    assert_eq!(
        KeyRange::new(0, Some(2)).unwrap().split_evenly(3),
        Err(KeyRangeError::InvalidSplit(3))
    );
}

/// Ranges and ids spread over the keyspace, its ends included.
fn sample_ranges() -> Vec<KeyRange> {
    let bounds = [0u64, 1, 0xff, 0x40 << 56, (0x40 << 56) + 1, 0xdead_beef_0000_0001, u64::MAX];
    let mut out = Vec::new();
    for start in bounds {
        for end in bounds {
            if let Ok(r) = KeyRange::new(start, Some(end)) {
                out.push(r);
            }
        }
        out.push(KeyRange::new(start, None).unwrap());
    }
    out
}

#[test]
fn bound_format_round_trips() {
    let mut v: u64 = 1;
    for _ in 0..64 {
        assert_eq!(parse_bound(&format_bound(v)).unwrap(), v);
        assert_eq!(parse_bound(&format_bound(!v)).unwrap(), !v);
        v = v.rotate_left(1) ^ 0x9e37_79b9_7f4a_7c15;
    }
}

#[test]
fn range_display_round_trips() {
    for range in sample_ranges() {
        let parsed: KeyRange = range.to_string().parse().unwrap();
        assert_eq!(parsed, range);
    }
}

#[test]
fn split_partitions_and_preserves_bounds() {
    for range in sample_ranges() {
        for parts in [1u32, 2, 3, 7, 64] {
            if range
                .end()
                .is_some_and(|e| e - range.start() < u64::from(parts))
            {
                continue;
            }
            let Ok(split) = range.split_evenly(parts) else {
                // The open range at the very top is shorter than the number of parts.
                assert!(u64::MAX - range.start() < u64::from(parts));
                continue;
            };
            assert_eq!(split.len(), parts as usize);
            assert_eq!(split.first().unwrap().start(), range.start());
            assert_eq!(split.last().unwrap().end(), range.end());
            for pair in split.windows(2) {
                assert_eq!(pair[0].end(), Some(pair[1].start()));
            }
        }
    }
}

#[test]
fn full_split_validates_as_partition() {
    for parts in 1u32..=64 {
        let split = KeyRange::FULL().split_evenly(parts).unwrap();
        assert!(validate_partition(&split).is_ok());
    }
}

#[test]
fn exactly_one_partition_member_contains_any_id() {
    for parts in 1u32..=64 {
        let split = KeyRange::FULL().split_evenly(parts).unwrap();
        for id in [0u64, 1, 0x7fff_ffff_ffff_ffff, 0x8000_0000_0000_0000, u64::MAX] {
            let owners = split.iter().filter(|r| r.contains(KeyspaceId(id))).count();
            assert_eq!(owners, 1);
        }
    }
}

#[test]
fn contains_implies_intersects_point_range() {
    for range in sample_ranges() {
        for id in [0u64, 1, 0x40 << 56, 0xdead_beef_0000_0000, u64::MAX] {
            if range.contains(KeyspaceId(id)) {
                let point = match id.checked_add(1) {
                    Some(end) => KeyRange::new(id, Some(end)).unwrap(),
                    None => KeyRange::new(id, None).unwrap(),
                };
                assert!(range.intersects(&point));
            }
        }
    }
}

#[test]
fn range_errors_are_readable() {
    assert_eq!(
        KeyRange::new(0x80 << 56, Some(0x40 << 56))
            .unwrap_err()
            .to_string(),
        "empty range: start 0x8000000000000000 >= end 0x4000000000000000"
    );
    assert!(KeyRange::parse("zz-").unwrap_err().to_string().contains("zz"));
}

// ---- lsn -----------------------------------------------------------------------------

#[test]
fn round_trips_postgres_format() {
    let lsn: Lsn = "16/B374D848".parse().unwrap();
    assert_eq!(lsn.0, 0x16_B374_D848);
    assert_eq!(lsn.to_string(), "16/B374D848");
    assert!("nope".parse::<Lsn>().is_err());
    assert!("1/123456789".parse::<Lsn>().is_err());
}

#[test]
fn lsn_ends_round_trip() {
    for lsn in [Lsn(0), Lsn(1), Lsn(0xffff_ffff), Lsn(1 << 32), Lsn(u64::MAX)] {
        assert_eq!(lsn.to_string().parse::<Lsn>(), Ok(lsn));
    }
    assert_eq!(Lsn(u64::MAX).to_string(), "FFFFFFFF/FFFFFFFF");
    assert_eq!("".parse::<Lsn>(), Err(InvalidLsn("".into())));
    assert!(Lsn(1) < Lsn(2));
}

// ---- shard functions -----------------------------------------------------------------

#[test]
fn integer_widths_hash_identically() {
    let f = shard_function("xxhash64_v1").unwrap();
    let id64 = f.keyspace_id(&ScalarValue::Int64(42));
    assert_eq!(f.keyspace_id(&ScalarValue::Int32(42)), id64);
    assert_eq!(f.keyspace_id(&ScalarValue::Int16(42)), id64);
    assert_ne!(f.keyspace_id(&ScalarValue::Int64(-42)), id64);
}

/// Cross-language golden vectors: the Go operator's keyspace-id
/// implementation asserts these exact values. Never change them —
/// xxhash64_v1 is versioned by name and frozen.
#[test]
fn golden_vectors_are_frozen() {
    let f = shard_function("xxhash64_v1").unwrap();
    let cases: [(ScalarValue, u64); 10] = [
        (ScalarValue::Int64(0), 0x34c96acdcadb1bbb),
        (ScalarValue::Int64(1), 0x9f1ffc793b8a47da),
        (ScalarValue::Int64(42), 0xa2c396223f8bdbdf),
        (ScalarValue::Int64(-1), 0x85d136adb773c6c9),
        (ScalarValue::Int64(i64::MAX), 0x043de1bbaf341994),
        (ScalarValue::Text(String::new()), 0xef46db3751d8e999),
        (ScalarValue::Text("hello".into()), 0x26c7827d889f6da3),
        (
            ScalarValue::Text("customer-12345".into()),
            0xab540c504509fb51,
        ),
        (
            ScalarValue::Uuid([0, 1, 2, 3, 4, 5, 6, 7, 8, 9, 10, 11, 12, 13, 14, 15]),
            0x44b6ef2fb84169f7,
        ),
        (
            ScalarValue::Bytea(vec![0xde, 0xad, 0xbe, 0xef]),
            0x2ff5cfb6af9aaf68,
        ),
    ];
    for (value, expected) in cases {
        assert_eq!(f.keyspace_id(&value), KeyspaceId(expected), "{value:?}");
    }
}

#[test]
fn unknown_function_is_rejected() {
    let Err(err) = shard_function("md5") else {
        panic!("md5 must be rejected");
    };
    assert_eq!(err, ShardFnError::Unknown("md5".into()));
    assert_eq!(err.to_string(), "unknown shard function \"md5\"");
}

#[test]
fn int_coercion_makes_quoted_and_bare_integers_identical() {
    // The whole point: `customer_id = '1'` (a string literal) and
    // `customer_id = 1` must resolve to the same canonical value.
    assert_eq!(
        ScalarType::Int.coerce(&ScalarValue::Text("1".into())),
        Some(ScalarValue::Int64(1))
    );
    assert_eq!(
        ScalarType::Int.coerce(&ScalarValue::Int64(1)),
        Some(ScalarValue::Int64(1))
    );
    // Widths widen to i64 (they already hash identically).
    assert_eq!(
        ScalarType::Int.coerce(&ScalarValue::Int32(1)),
        Some(ScalarValue::Int64(1))
    );
    // PostgreSQL trims whitespace and accepts a leading sign.
    assert_eq!(
        ScalarType::Int.coerce(&ScalarValue::Text("  -42 ".into())),
        Some(ScalarValue::Int64(-42))
    );
    // A value that is not a valid integer is unroutable, not misrouted.
    for bad in ["abc", "1.5", "", "9999999999999999999999"] {
        assert_eq!(
            ScalarType::Int.coerce(&ScalarValue::Text(bad.into())),
            None,
            "{bad}"
        );
    }
}

#[test]
fn text_coercion_is_identity_and_rejects_bare_integers() {
    assert_eq!(
        ScalarType::Text.coerce(&ScalarValue::Text("1".into())),
        Some(ScalarValue::Text("1".into()))
    );
    // `text_col = 1` has no `text = int` operator in PostgreSQL: unroutable.
    assert_eq!(ScalarType::Text.coerce(&ScalarValue::Int64(1)), None);
}

#[test]
fn uuid_coercion_is_spelling_independent() {
    let canonical = ScalarType::Uuid.coerce(&ScalarValue::Text(
        "00010203-0405-0607-0809-0a0b0c0d0e0f".into(),
    ));
    assert_eq!(
        canonical,
        Some(ScalarValue::Uuid([
            0, 1, 2, 3, 4, 5, 6, 7, 8, 9, 10, 11, 12, 13, 14, 15
        ]))
    );
    // Uppercase, no hyphens, and braces all name the same UUID -> same bytes.
    for spelling in [
        "00010203-0405-0607-0809-0A0B0C0D0E0F",
        "000102030405060708090a0b0c0d0e0f",
        "{00010203-0405-0607-0809-0a0b0c0d0e0f}",
    ] {
        assert_eq!(
            ScalarType::Uuid.coerce(&ScalarValue::Text(spelling.into())),
            canonical,
            "{spelling}"
        );
    }
    // Wrong length / unbalanced brace / non-hex: unroutable.
    for bad in [
        "not-a-uuid",
        "0001",
        "{00010203-0405-0607-0809-0a0b0c0d0e0f",
    ] {
        assert_eq!(
            ScalarType::Uuid.coerce(&ScalarValue::Text(bad.into())),
            None,
            "{bad}"
        );
    }
}

#[test]
fn bytea_coercion_reads_hex_format() {
    assert_eq!(
        ScalarType::Bytea.coerce(&ScalarValue::Text("\\xdeadbeef".into())),
        Some(ScalarValue::Bytea(vec![0xde, 0xad, 0xbe, 0xef]))
    );
    // Missing `\x`, odd digit count, or non-hex: unroutable.
    for bad in ["deadbeef", "\\xabc", "\\xzz"] {
        assert_eq!(
            ScalarType::Bytea.coerce(&ScalarValue::Text(bad.into())),
            None,
            "{bad}"
        );
    }
}

#[test]
fn coerced_spellings_hash_to_the_same_keyspace_id() {
    let f = shard_function("xxhash64_v1").unwrap();
    let bare = ScalarType::Int.coerce(&ScalarValue::Int64(12345)).unwrap();
    let quoted = ScalarType::Int
        .coerce(&ScalarValue::Text("12345".into()))
        .unwrap();
    assert_eq!(f.keyspace_id(&bare), f.keyspace_id(&quoted));
}

// ---- the sharding schema -------------------------------------------------------------

fn sharded(function: &str) -> TableDef {
    TableDef::Sharded {
        shard_key_column: "customer_id".into(),
        shard_function: function.into(),
        shard_key_type: None,
        sequences: vec![SequenceBinding {
            column: "id".into(),
            sequence: "orders_id".into(),
        }],
    }
}

#[test]
fn accepts_valid_tables_and_rejects_duplicates() {
    let mut schema = VSchema::default();
    let orders = TableName::new("public", "orders");
    schema
        .insert(orders.clone(), sharded("xxhash64_v1"))
        .unwrap();
    schema
        .insert(TableName::new("public", "settings"), TableDef::Global)
        .unwrap();
    assert_eq!(
        schema.insert(orders.clone(), TableDef::Global),
        Err(VSchemaError::DuplicateTable(orders))
    );
}

#[test]
fn rejects_empty_names() {
    let mut schema = VSchema::default();
    assert_eq!(
        schema.insert(TableName::new("", "orders"), TableDef::Global),
        Err(VSchemaError::EmptyTableName("".into(), "orders".into()))
    );
    assert_eq!(
        schema.insert(TableName::new("public", ""), TableDef::Global),
        Err(VSchemaError::EmptyTableName("public".into(), "".into()))
    );
}

#[test]
fn rejects_unknown_shard_function() {
    let mut schema = VSchema::default();
    let t = TableName::new("public", "orders");
    assert_eq!(
        schema.insert(t.clone(), sharded("md5")),
        Err(VSchemaError::UnknownShardFunction(t, "md5".into()))
    );
}

#[test]
fn rejects_an_empty_shard_key_and_a_doubly_bound_column() {
    let mut schema = VSchema::default();
    let t = TableName::new("public", "orders");
    let def = |key: &str, columns: &[&str]| TableDef::Sharded {
        shard_key_column: key.into(),
        shard_function: "xxhash64_v1".into(),
        shard_key_type: Some(ScalarType::Int),
        sequences: columns
            .iter()
            .map(|c| SequenceBinding {
                column: c.to_string(),
                sequence: "s".into(),
            })
            .collect(),
    };
    assert_eq!(
        schema.insert(t.clone(), def("", &[])),
        Err(VSchemaError::EmptyShardKey(t.clone()))
    );
    assert_eq!(
        schema.insert(t.clone(), def("k", &["a", "b", "a"])),
        Err(VSchemaError::DuplicateSequenceColumn(t.clone(), "a".into()))
    );
    // What was refused is not in the schema.
    assert!(schema.get(&t).is_none());
    schema.insert(t.clone(), def("k", &["a", "b"])).unwrap();
    assert_eq!(schema.get(&t), Some(&def("k", &["a", "b"])));
    assert_eq!(t.to_string(), "public.orders");
}

// ---- the shard catalog ---------------------------------------------------------------

fn shards() -> Vec<(KeyRange, ShardId)> {
    KeyRange::FULL()
        .split_evenly(4)
        .unwrap()
        .into_iter()
        .map(|r| (r, ShardId::new(&r.to_string())))
        .collect()
}

#[test]
fn routes_each_id_to_its_owning_shard() {
    let cat = ShardCatalog::new(shards()).unwrap();
    assert_eq!(cat.len(), 4);
    assert_eq!(cat.route(KeyspaceId(0)), &ShardId::new("-40"));
    assert_eq!(cat.route(KeyspaceId(0x40 << 56)), &ShardId::new("40-80"));
    assert_eq!(cat.route(KeyspaceId(u64::MAX)), &ShardId::new("c0-"));
    assert_eq!(
        cat.all(),
        vec![
            ShardId::new("-40"),
            ShardId::new("40-80"),
            ShardId::new("80-c0"),
            ShardId::new("c0-"),
        ]
    );
}

#[test]
fn rejects_a_non_partitioning_shard_set() {
    // A gap in the middle is not a valid partition.
    let lo: KeyRange = "-40".parse().unwrap();
    let hi: KeyRange = "80-".parse().unwrap();
    assert!(matches!(
        ShardCatalog::new(vec![(lo, ShardId::new("lo")), (hi, ShardId::new("hi"))]),
        Err(PartitionError::GapOrOverlap { .. })
    ));
    assert_eq!(
        ShardCatalog::new(vec![]).unwrap_err(),
        PartitionError::Empty
    );
}

#[test]
fn only_the_whole_keyspace_is_full() {
    assert!(KeyRange::FULL().is_full());
    assert!(KeyRange::new(0, None).unwrap().is_full());
    assert!(!KeyRange::new(1, None).unwrap().is_full());
    assert!(!KeyRange::new(0, Some(u64::MAX)).unwrap().is_full());
}

#[test]
fn tables_come_in_the_order_of_their_names() {
    let mut schema = VSchema::default();
    for (namespace, name) in [("public", "b"), ("app", "z"), ("public", "a")] {
        schema
            .insert(TableName::new(namespace, name), TableDef::Global)
            .unwrap();
    }
    let names: Vec<&TableName> = schema.tables().iter().map(|t| &t.0).collect();
    assert_eq!(
        names,
        vec![
            &TableName::new("app", "z"),
            &TableName::new("public", "a"),
            &TableName::new("public", "b"),
        ]
    );
    assert_eq!(shard_function("xxhash64_v1").unwrap().name(), "xxhash64_v1");
}
