use pgshard::copy::{
    copy_field_unescape, copy_filtered, quote_list, row_in_range, CopyAction, CopyError, CopyEvent,
    CopyOutcome, CopySpec, CopyState, RowFilter,
};
use pgshard::filter::{text_keyspace_id, FilterError};
use pgshard::keyspace::KeyRange;
use pgshard::quote::quote_ident;
use pgshard::shardfn::{shard_function, ScalarType, XxHash64V1};

#[test]
fn unescapes_copy_fields() {
    // Plain values pass through.
    assert_eq!(copy_field_unescape(b"123"), Some(b"123".to_vec()));
    assert_eq!(copy_field_unescape(b""), Some(Vec::new()));
    // Letter escapes decode to their control bytes.
    assert_eq!(copy_field_unescape(br"a\tb"), Some(b"a\tb".to_vec()));
    assert_eq!(copy_field_unescape(br"a\nb"), Some(b"a\nb".to_vec()));
    // A doubled backslash is one backslash — so a hex bytea value, shipped as
    // `\\xdead`, recovers to `\xdead`, exactly what the stream hashes.
    assert_eq!(copy_field_unescape(br"a\\b"), Some(br"a\b".to_vec()));
    assert_eq!(
        copy_field_unescape(br"\\xdeadbeef"),
        Some(br"\xdeadbeef".to_vec())
    );
    // The bare `\N` is NULL; an escaped backslash-then-N is the literal value.
    assert_eq!(copy_field_unescape(br"\N"), None);
    assert_eq!(copy_field_unescape(br"\\N"), Some(br"\N".to_vec()));
}

#[test]
fn quotes_identifiers() {
    assert_eq!(quote_ident("orders"), "\"orders\"");
    assert_eq!(quote_ident("weird\"name"), "\"weird\"\"name\"");
}

fn xxhash() -> XxHash64V1 {
    shard_function("xxhash64_v1").unwrap()
}

/// The range that holds the one id of an integer.
fn only(value: &str) -> KeyRange {
    let id = text_keyspace_id(value, ScalarType::Int, &xxhash()).unwrap();
    KeyRange::new(id.0, Some(id.0 + 1)).unwrap()
}

#[test]
fn rows_are_kept_by_their_key() {
    let f = xxhash();
    let range = only("7");
    assert_eq!(row_in_range(b"7\thello\n", 0, ScalarType::Int, &range, &f), Ok(true));
    assert_eq!(row_in_range(b"8\thello\n", 0, ScalarType::Int, &range, &f), Ok(false));
    assert_eq!(row_in_range(b"hello\t7\n", 1, ScalarType::Int, &range, &f), Ok(true));
    assert_eq!(
        row_in_range(b"7\n", 1, ScalarType::Int, &range, &f),
        Err(CopyError::Malformed("row has fewer than 2 columns".to_owned()))
    );
    assert_eq!(
        row_in_range(b"\\N\thello\n", 0, ScalarType::Int, &range, &f),
        Err(CopyError::Filter(FilterError::UnroutableCell))
    );
    assert_eq!(
        row_in_range(b"\xff\n", 0, ScalarType::Text, &range, &f),
        Err(CopyError::Filter(FilterError::InvalidUtf8))
    );
}

#[test]
fn a_filter_reassembles_rows_over_chunks() {
    let f = xxhash();
    let mut filter = RowFilter::new(0, ScalarType::Int, only("7"));
    let first = filter.feed(b"7\ta\n8\tb\n7", &f);
    assert_eq!(first.rows, vec![b"7\ta\n".to_vec()]);
    assert!(first.error.is_none());
    assert_eq!(
        filter.finish(),
        Err(CopyError::Malformed(
            "COPY stream ended without a final row terminator".to_owned()
        ))
    );
    let second = filter.feed(b"\tc\n", &f);
    assert_eq!(second.rows, vec![b"7\tc\n".to_vec()]);
    assert_eq!(filter.finish(), Ok(2));
}

#[test]
fn a_filter_stops_at_a_row_it_cannot_route() {
    let f = xxhash();
    let mut filter = RowFilter::new(0, ScalarType::Int, KeyRange::FULL());
    let out = filter.feed(b"1\n\\N\n2\n", &f);
    assert_eq!(out.rows, vec![b"1\n".to_vec()]);
    assert_eq!(out.error, Some(CopyError::Filter(FilterError::UnroutableCell)));
}

fn columns() -> Vec<String> {
    vec!["id".to_owned(), "na\"me".to_owned()]
}

fn spec_of<'a>(columns: &'a [String], key: &'a str) -> CopySpec<'a> {
    CopySpec {
        schema: "public",
        table: "orders",
        columns,
        shard_key_column: key,
        shard_key_type: ScalarType::Int,
        target_range: KeyRange::FULL(),
    }
}

#[test]
fn a_copy_commits_the_target_and_ends_the_source() {
    let cols = columns();
    assert_eq!(quote_list(&cols), "\"id\", \"na\"\"me\"");
    let mut run = copy_filtered("00000003-00000002-1", &spec_of(&cols, "id")).unwrap();
    assert_eq!(run.key_index, 0);
    let mut seen: Vec<CopyAction> = Vec::new();
    loop {
        let action = run.action();
        let event = match &action {
            CopyAction::Stop => break,
            CopyAction::Stream { .. } => CopyEvent::Streamed(12),
            _ => CopyEvent::Done,
        };
        seen.push(action);
        run = run.advance(event);
    }
    assert_eq!(seen.len(), 6);
    assert_eq!(
        seen[0],
        CopyAction::Source("BEGIN ISOLATION LEVEL REPEATABLE READ READ ONLY".to_owned())
    );
    match &seen[1] {
        CopyAction::Source(sql) => {
            assert!(sql.starts_with("SET TRANSACTION SNAPSHOT '00000003-00000002-1'; "))
        }
        other => panic!("{other:?}"),
    }
    assert_eq!(
        seen[3],
        CopyAction::Stream {
            from: "COPY \"public\".\"orders\" (\"id\", \"na\"\"me\") TO STDOUT".to_owned(),
            to: "COPY \"public\".\"orders\" (\"id\", \"na\"\"me\") FROM STDIN".to_owned(),
        }
    );
    assert_eq!(seen[4], CopyAction::Target("COMMIT".to_owned()));
    assert_eq!(seen[5], CopyAction::Source("ROLLBACK".to_owned()));
    assert!(matches!(run.state, CopyState::Done(CopyOutcome::Copied(12))));
}

#[test]
fn a_failed_copy_rolls_both_sides_back() {
    let cols = columns();
    let mut run = copy_filtered("00000003-00000002-1", &spec_of(&cols, "id")).unwrap();
    run = run.advance(CopyEvent::Done);
    run = run.advance(CopyEvent::Done);
    run = run.advance(CopyEvent::Done);
    run = run.advance(CopyEvent::Failed(CopyError::Source("gone".to_owned())));
    assert_eq!(run.action(), CopyAction::Target("ROLLBACK".to_owned()));
    run = run.advance(CopyEvent::Done);
    assert_eq!(run.action(), CopyAction::Source("ROLLBACK".to_owned()));
    run = run.advance(CopyEvent::Done);
    assert_eq!(run.action(), CopyAction::Stop);
    match run.state {
        CopyState::Done(CopyOutcome::Failed(CopyError::Source(m))) => assert_eq!(m, "gone"),
        _ => panic!("the copy has not failed"),
    }
}

#[test]
fn a_copy_checks_its_snapshot_and_key() {
    let cols = columns();
    assert!(matches!(
        copy_filtered("x'; DROP TABLE t; --", &spec_of(&cols, "id")),
        Err(CopyError::BadSnapshot(_))
    ));
    assert!(matches!(
        copy_filtered("00000003-00000002-1", &spec_of(&cols, "other")),
        Err(CopyError::NoShardKeyColumn(c)) if c == "other"
    ));
}

#[test]
fn copy_errors_are_readable() {
    assert_eq!(
        CopyError::Target("full".to_owned()).to_string(),
        "target database error: full"
    );
    assert_eq!(
        CopyError::NoShardKeyColumn("id".to_owned()).to_string(),
        "shard-key column \"id\" is not among the copied columns"
    );
}
