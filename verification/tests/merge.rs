use pgshard::merge::{
    cmp_value, decode, float_texts, merge_ordered, resolve_keys, sort_kind, FloatRank, SortColumn,
    SortKey, SortKind, SortValue,
};
use pgshard::results::{field_bytes, DataRow, Field, FieldFormat, Origin};
use std::cmp::Ordering;

const BOOL: u32 = 16;
const INT4: u32 = 23;
const TEXT: u32 = 25;
const FLOAT8: u32 = 701;
const TIMESTAMP: u32 = 1114;
const NUMERIC: u32 = 1700;
const UUID: u32 = 2950;

fn field(name: &str, type_oid: u32) -> Field {
    Field {
        name: name.to_owned(),
        type_oid,
        format: FieldFormat::Text,
        origin: Origin::none(),
    }
}

/// Build a text-format DataRow from optional string cells.
fn row(cells: &[Option<&str>]) -> DataRow {
    let mut data = Vec::new();
    for cell in cells {
        match cell {
            Some(s) => {
                data.extend_from_slice(&(s.len() as i32).to_be_bytes());
                data.extend_from_slice(s.as_bytes());
            }
            None => data.extend_from_slice(&(-1i32).to_be_bytes()),
        }
    }
    DataRow {
        data,
        field_count: cells.len() as i16,
    }
}

#[test]
fn field_bytes_walks_to_the_column_including_nulls() {
    let r = row(&[Some("9"), None, Some("hello")]);
    assert_eq!(field_bytes(&r, 0).unwrap(), Some(b"9".as_slice()));
    assert_eq!(field_bytes(&r, 1).unwrap(), None); // SQL NULL
    assert_eq!(field_bytes(&r, 2).unwrap(), Some(b"hello".as_slice()));
}

#[test]
fn field_bytes_fails_closed_on_a_missing_or_truncated_field() {
    // The row has two cells; asking for a third must error, not read as NULL —
    // otherwise a short row would silently sort under NULL ordering.
    let short = row(&[Some("1"), Some("2")]);
    assert!(field_bytes(&short, 2).is_err());
    // A field whose declared length overruns the buffer is malformed.
    let mut truncated = row(&[Some("hello")]);
    truncated.data.truncate(6); // 4-byte length says 5, only 2 value bytes remain
    assert!(field_bytes(&truncated, 0).is_err());
    // So is a length below -1.
    let negative = DataRow {
        data: (-2i32).to_be_bytes().to_vec(),
        field_count: 1,
    };
    let err = field_bytes(&negative, 0).unwrap_err();
    assert_eq!(err.code, "XX000");
    assert_eq!(
        err.message,
        "malformed DataRow from backend: field is truncated or out of range"
    );
}

#[test]
fn bool_decode_rejects_non_boolean_text() {
    assert!(matches!(
        decode(Some(b"t"), SortKind::Bool, &[]).unwrap(),
        SortValue::Bool(true)
    ));
    assert!(matches!(
        decode(Some(b"f"), SortKind::Bool, &[]).unwrap(),
        SortValue::Bool(false)
    ));
    // Anything else fails closed rather than decoding as `false`.
    assert!(decode(Some(b"x"), SortKind::Bool, &[]).is_err());
    assert!(decode(Some(b"true"), SortKind::Bool, &[]).is_err());
}

#[test]
fn every_undecodable_cell_says_why() {
    let message = |cell: &[u8], kind| decode(Some(cell), kind, &[]).unwrap_err().message;
    assert_eq!(
        message(b"x", SortKind::Bool),
        "unparsable boolean sort key \"x\""
    );
    assert_eq!(
        message(b"1x", SortKind::Int),
        "unparsable integer sort key \"1x\": invalid digit found in string"
    );
    assert_eq!(
        message(b"99999999999999999999", SortKind::Int),
        "unparsable integer sort key \"99999999999999999999\": \
         number too large to fit in target type"
    );
    assert_eq!(
        message(b"\xff", SortKind::Int),
        "non-UTF-8 sort key from backend: invalid utf-8 sequence of 1 bytes from index 0"
    );
    assert_eq!(
        message(b"1.5", SortKind::Float),
        "unranked float sort key \"1.5\""
    );
    let bad = [FloatRank {
        text: "abc".into(),
        rank: Err("invalid float literal".into()),
    }];
    assert_eq!(
        decode(Some(b"abc"), SortKind::Float, &bad)
            .unwrap_err()
            .message,
        "unparsable float sort key \"abc\": invalid float literal"
    );
    assert_eq!(decode(None, SortKind::Int, &[]).unwrap(), SortValue::Null);
}

#[test]
fn integers_sort_numerically_not_by_bytes() {
    // The headline trap: by bytes "10" < "9"; numerically 10 > 9.
    let ten = decode(Some(b"10"), SortKind::Int, &[]).unwrap();
    let nine = decode(Some(b"9"), SortKind::Int, &[]).unwrap();
    assert_eq!(cmp_value(&ten, &nine, false, false), Ordering::Greater);
    assert_eq!(cmp_value(&ten, &nine, true, false), Ordering::Less); // DESC
}

#[test]
fn nulls_placement_is_independent_of_direction() {
    let null = SortValue::Null;
    let one = SortValue::Int(1);
    // NULLS FIRST: null sorts before a value regardless of ASC/DESC.
    assert_eq!(cmp_value(&null, &one, false, true), Ordering::Less);
    assert_eq!(cmp_value(&null, &one, true, true), Ordering::Less);
    // NULLS LAST: null sorts after a value regardless of ASC/DESC.
    assert_eq!(cmp_value(&null, &one, false, false), Ordering::Greater);
    assert_eq!(cmp_value(&null, &one, true, false), Ordering::Greater);
}

/// The ranks of the texts in PostgreSQL's order of the floats they denote: `NaN` above every
/// number, `-0.0` equal to `0.0`.
fn ranks(texts: &[String]) -> Vec<FloatRank> {
    let place = |x: f64, y: f64| match (x.is_nan(), y.is_nan()) {
        (true, true) => Ordering::Equal,
        (true, false) => Ordering::Greater,
        (false, true) => Ordering::Less,
        _ => x.partial_cmp(&y).unwrap(),
    };
    let value = |t: &String| t.parse::<f64>().unwrap();
    texts
        .iter()
        .map(|t| FloatRank {
            text: t.clone(),
            rank: Ok(texts
                .iter()
                .filter(|u| place(value(u), value(t)) == Ordering::Less)
                .count() as i64),
        })
        .collect()
}

#[test]
fn floats_order_like_postgres_with_nan_greatest() {
    let floats = ranks(&["NaN".to_owned(), "Infinity".to_owned(), "1.5".to_owned()]);
    let nan = decode(Some(b"NaN"), SortKind::Float, &floats).unwrap();
    let inf = decode(Some(b"Infinity"), SortKind::Float, &floats).unwrap();
    let one = decode(Some(b"1.5"), SortKind::Float, &floats).unwrap();
    assert_eq!(cmp_value(&nan, &inf, false, false), Ordering::Greater);
    assert_eq!(cmp_value(&nan, &nan, false, false), Ordering::Equal);
    assert_eq!(cmp_value(&one, &inf, false, false), Ordering::Less);
}

#[test]
fn unsupported_sort_types_are_rejected() {
    assert!(sort_kind(INT4).is_some());
    assert!(sort_kind(FLOAT8).is_some());
    assert!(sort_kind(BOOL).is_some());
    assert!(sort_kind(TEXT).is_none());
    assert!(sort_kind(NUMERIC).is_none());
    assert!(sort_kind(UUID).is_none());
    assert!(sort_kind(TIMESTAMP).is_none());
}

fn by(column: SortColumn) -> SortKey {
    SortKey {
        column,
        descending: false,
        nulls_first: false,
    }
}

#[test]
fn resolve_keys_maps_names_and_positions_and_rejects_the_rest() {
    let schema = vec![field("customer_id", INT4), field("note", TEXT)];
    // By name and by position both resolve to the int column.
    let by_name = resolve_keys(&schema, &[by(SortColumn::Name("customer_id".into()))]).unwrap();
    assert_eq!(by_name[0].index, 0);
    let by_pos = resolve_keys(
        &schema,
        &[SortKey {
            column: SortColumn::Position(1),
            descending: true,
            nulls_first: true,
        }],
    )
    .unwrap();
    assert_eq!(by_pos[0].index, 0);
    // A text sort column, an out-of-range position, and an unknown name all reject.
    for key in [
        SortColumn::Name("note".into()),
        SortColumn::Position(9),
        SortColumn::Name("missing".into()),
    ] {
        let err = resolve_keys(&schema, &[by(key)]).unwrap_err();
        assert_eq!(err.code, "0A000");
    }
}

#[test]
fn every_unresolvable_key_says_why() {
    let schema = vec![
        field("a", INT4),
        field("a", INT4),
        field("note", TEXT),
        field("odd", 999_999),
        Field {
            format: FieldFormat::Binary,
            ..field("raw", INT4)
        },
    ];
    let message = |c| resolve_keys(&schema, &[by(c)]).unwrap_err().message;
    assert_eq!(
        message(SortColumn::Position(0)),
        "ORDER BY position 0 is out of range for the result"
    );
    assert_eq!(
        message(SortColumn::Name("a".into())),
        "ORDER BY column \"a\" is ambiguous in the result"
    );
    assert_eq!(
        message(SortColumn::Name("missing".into())),
        "ORDER BY column \"missing\" is not in the SELECT list; \
         sorting by a non-output column is not supported in a scatter read"
    );
    assert_eq!(
        message(SortColumn::Name("note".into())),
        "cross-shard ORDER BY on a column of type text is not supported yet"
    );
    assert_eq!(
        message(SortColumn::Name("odd".into())),
        "cross-shard ORDER BY on a column of type unknown is not supported yet"
    );
    assert_eq!(
        message(SortColumn::Name("raw".into())),
        "cross-shard ORDER BY on a binary-format column is not supported"
    );
}

#[test]
fn merge_orders_rows_across_shards_numerically() {
    let schema = vec![field("id", INT4)];
    // Rows as they might arrive interleaved from two shards.
    let rows = vec![
        row(&[Some("2")]),
        row(&[Some("100")]),
        row(&[Some("9")]),
        row(&[Some("10")]),
    ];
    let keys = [by(SortColumn::Position(1))];
    let merged = merge_ordered(&schema, rows, &keys, &[]).unwrap();
    let ids: Vec<i64> = merged
        .iter()
        .map(|r| {
            std::str::from_utf8(field_bytes(r, 0).unwrap().unwrap())
                .unwrap()
                .parse()
                .unwrap()
        })
        .collect();
    assert_eq!(ids, vec![2, 9, 10, 100]);
}

#[test]
fn rows_equal_on_all_keys_keep_their_arrival_order() {
    let schema = vec![field("ok", BOOL), field("x", FLOAT8), field("tag", TEXT)];
    let cells = [
        ("t", "1.5", "a"),
        ("f", "NaN", "b"),
        ("t", "-0.0", "c"),
        ("f", "Infinity", "d"),
        ("t", "0", "e"),
        ("t", "1.5", "f"),
    ];
    let rows: Vec<DataRow> = cells
        .iter()
        .map(|(b, x, t)| row(&[Some(b), Some(x), Some(t)]))
        .collect();
    let keys = [
        SortKey {
            column: SortColumn::Name("ok".into()),
            descending: true,
            nulls_first: true,
        },
        by(SortColumn::Position(2)),
    ];
    let texts = float_texts(&schema, &rows, &keys);
    assert_eq!(texts, vec!["1.5", "NaN", "-0.0", "Infinity", "0", "1.5"]);
    let merged = merge_ordered(&schema, rows, &keys, &ranks(&texts)).unwrap();
    let tags: Vec<&[u8]> = merged
        .iter()
        .map(|r| field_bytes(r, 2).unwrap().unwrap())
        .collect();
    // TRUE first, its floats ascending with -0.0 beside 0, then FALSE with NaN last.
    assert_eq!(tags, vec![b"c", b"e", b"a", b"f", b"d", b"b"]);
    // No keys resolve, so nothing is to be ranked.
    assert!(float_texts(&schema, &vec![], &[by(SortColumn::Position(9))]).is_empty());
}
