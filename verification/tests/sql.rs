//! Planning, filling sequence columns, routing and dispatching, on parsed statements. Each
//! statement stands beside the SQL that it is the parse of.

use pgshard::ast::{
    AExpr, BoolOp, ConflictAction, Const, ConstValue, DeleteStmt, ExprKind, IndexElem, InferClause,
    InsertStmt, JoinExpr, Node, OnConflict, Parsed, RangeVar, ResTarget, SelectStmt, SortBy,
    SortDir, SortNulls, StatementKind, UpdateStmt,
};
use pgshard::catalog::{ShardCatalog, ShardId};
use pgshard::keyspace::KeyRange;
use pgshard::plan::{plan_all, resolve_bound, Parameterized, Plan, CROSS_SHARD, UNDEFINED_TABLE};
use pgshard::sequence::{
    insert_sequence_injections, rewrite_insert, value_row_count, InjectedColumn, InsertEdit,
    RewriteError, SequenceInjection,
};
use pgshard::shardfn::{shard_function, ScalarType, ScalarValue, ShardFunction};
use pgshard::vschema::{SequenceBinding, TableDef, TableName, VSchema};

use pgshard::backend::{
    command_keyword, text_command_tag, text_result, Backend, BackendMessage, BackendResult,
    Collected, PgWireBackend, QueryMessage, ResultCollector, TokioPostgresBackend,
};
use pgshard::gate::{GateMatch, GateMode, GateSpec};
use pgshard::merge::{SortColumn, SortKey};
use pgshard::results::{field_bytes, user_error, DataRow, Field, FieldFormat, WireError, Origin};
use pgshard::router::{BuildError, Route, Router, Target, watch_topology};
use pgshard::topology::{
    Instance, Sequence, ShardEntry, ShardState, TableEntry, TableType, Topology,
};
use pgshard::wire::{
    allocation_error, allocation_task_error, classify_scatter, collect_scatter, command_tag,
    do_query, injection_error, is_transaction_control, ordered_response, parse_error,
    response_from, scatter_response, schemas_match, Action, Response, ScatterPlan, Session,
};

// ---- building statements ---------------------------------------------------------------

fn num(i: i32) -> Node {
    Node::Const(Const {
        isnull: false,
        val: Some(ConstValue::Integer(i)),
    })
}

fn text(s: &str) -> Node {
    Node::Const(Const {
        isnull: false,
        val: Some(ConstValue::Text(s.into())),
    })
}

fn truth() -> Node {
    Node::Const(Const {
        isnull: false,
        val: Some(ConstValue::Other),
    })
}

fn col(path: &str) -> Node {
    Node::Column(path.split('.').map(|p| Node::Name(p.into())).collect())
}

fn star() -> Node {
    Node::Column(vec![Node::Other(vec![])])
}

fn op(name: &str, l: Node, r: Node) -> Node {
    Node::Expr(Box::new(AExpr {
        kind: ExprKind::Op,
        name: vec![name.into()],
        lexpr: Some(l),
        rexpr: Some(r),
    }))
}

fn eq(l: Node, r: Node) -> Node {
    op("=", l, r)
}

fn any_of(l: Node, items: Vec<Node>) -> Node {
    Node::Expr(Box::new(AExpr {
        kind: ExprKind::In,
        name: vec!["=".into()],
        lexpr: Some(l),
        rexpr: Some(Node::List(items)),
    }))
}

fn and(args: Vec<Node>) -> Node {
    Node::Bool(BoolOp::And, args)
}

fn or(args: Vec<Node>) -> Node {
    Node::Bool(BoolOp::Or, args)
}

/// A function call or another expression, with its parts.
fn call(args: Vec<Node>) -> Node {
    Node::Other(args)
}

fn rel(name: &str) -> RangeVar {
    match name.split_once('.') {
        Some((s, t)) => RangeVar {
            schemaname: s.into(),
            relname: t.into(),
        },
        None => RangeVar {
            schemaname: String::new(),
            relname: name.into(),
        },
    }
}

fn table(name: &str) -> Node {
    Node::Table(rel(name))
}

fn join(l: Node, r: Node, quals: Node) -> Node {
    Node::Join(Box::new(JoinExpr {
        larg: Some(l),
        rarg: Some(r),
        quals: Some(quals),
    }))
}

fn target(name: &str, val: Option<Node>) -> Node {
    Node::Target(Box::new(ResTarget {
        name: name.into(),
        indirection: vec![],
        val,
    }))
}

fn outputs(vals: Vec<Node>) -> Vec<Node> {
    vals.into_iter().map(|v| target("", Some(v))).collect()
}

fn columns(names: &[&str]) -> Vec<Node> {
    names.iter().map(|n| target(n, None)).collect()
}

fn select() -> SelectStmt {
    SelectStmt {
        set_operation: false,
        larg: None,
        rarg: None,
        with_clause: None,
        distinct_clause: vec![],
        into_clause: false,
        target_list: vec![],
        from_clause: vec![],
        where_clause: None,
        group_clause: vec![],
        group_distinct: false,
        having_clause: None,
        window_clause: vec![],
        values_lists: vec![],
        sort_clause: vec![],
        limit_offset: None,
        limit_count: None,
        locking_clause: vec![],
    }
}

/// `SELECT vals FROM from WHERE cond`.
fn select_from(vals: Vec<Node>, from: Vec<Node>, cond: Option<Node>) -> SelectStmt {
    SelectStmt {
        target_list: outputs(vals),
        from_clause: from,
        where_clause: cond,
        ..select()
    }
}

/// `SELECT * FROM name WHERE cond`.
fn all_from(name: &str, cond: Option<Node>) -> SelectStmt {
    select_from(vec![star()], vec![table(name)], cond)
}

fn set_op(l: SelectStmt, r: SelectStmt) -> SelectStmt {
    SelectStmt {
        set_operation: true,
        larg: Some(Box::new(l)),
        rarg: Some(Box::new(r)),
        ..select()
    }
}

fn subquery(s: SelectStmt) -> Node {
    Node::SubLink(vec![Node::Select(Box::new(s))])
}

fn insert(name: &str, cols: &[&str], rows: Vec<Vec<Node>>) -> InsertStmt {
    InsertStmt {
        relation: Some(rel(name)),
        cols: columns(cols),
        select_stmt: Some(Node::Select(Box::new(SelectStmt {
            values_lists: rows.into_iter().map(Node::List).collect(),
            ..select()
        }))),
        on_conflict_clause: None,
        returning_list: vec![],
        with_clause: None,
    }
}

fn update(name: &str, sets: Vec<(&str, Node)>, cond: Option<Node>) -> UpdateStmt {
    UpdateStmt {
        relation: Some(rel(name)),
        target_list: sets.into_iter().map(|(n, v)| target(n, Some(v))).collect(),
        where_clause: cond,
        from_clause: vec![],
        returning_list: vec![],
        with_clause: None,
    }
}

fn delete(name: &str, cond: Option<Node>) -> DeleteStmt {
    DeleteStmt {
        relation: Some(rel(name)),
        using_clause: vec![],
        where_clause: cond,
        returning_list: vec![],
        with_clause: None,
    }
}

fn statement(kind: StatementKind, node: Node) -> Parsed {
    Parsed {
        kinds: vec![kind],
        stmts: vec![Some(node)],
    }
}

fn read(s: SelectStmt) -> Parsed {
    statement(StatementKind::Select, Node::Select(Box::new(s)))
}

fn inserted(s: InsertStmt) -> Parsed {
    statement(StatementKind::Insert, Node::Insert(Box::new(s)))
}

fn updated(s: UpdateStmt) -> Parsed {
    statement(StatementKind::Update, Node::Update(Box::new(s)))
}

fn deleted(s: DeleteStmt) -> Parsed {
    statement(StatementKind::Delete, Node::Delete(Box::new(s)))
}

fn other(kind: StatementKind) -> Parsed {
    statement(kind, Node::Other(vec![]))
}

fn key_is(v: Node) -> Option<Node> {
    Some(eq(col("customer_id"), v))
}

// ---- planning --------------------------------------------------------------------------

/// Four shards splitting the keyspace at 40/80/c0, each named by its range.
fn catalog() -> ShardCatalog {
    let shards = KeyRange::FULL()
        .split_evenly(4)
        .unwrap()
        .into_iter()
        .map(|r| (r, ShardId::new(&r.to_string())))
        .collect();
    ShardCatalog::new(shards).unwrap()
}

fn vschema_with_key_type(key_type: Option<ScalarType>) -> VSchema {
    let sharded = || TableDef::Sharded {
        shard_key_column: "customer_id".into(),
        shard_key_type: key_type,
        shard_function: "xxhash64_v1".into(),
        sequences: vec![SequenceBinding {
            column: "id".into(),
            sequence: "orders_id".into(),
        }],
    };
    let mut v = VSchema::default();
    v.insert(TableName::new("public", "orders"), sharded())
        .unwrap();
    v.insert(TableName::new("public", "line_items"), sharded())
        .unwrap();
    v.insert(TableName::new("public", "settings"), TableDef::Global)
        .unwrap();
    v
}

fn plan1_with(parsed: Parsed, key_type: Option<ScalarType>) -> Plan {
    plan_all(&parsed, &vschema_with_key_type(key_type), &catalog())
        .into_iter()
        .next()
        .expect("one statement")
}

fn plan1(parsed: Parsed) -> Plan {
    plan1_with(parsed, Some(ScalarType::Int))
}

/// The shard a text shard key routes to, computed the planner's way.
fn text_shard(val: &str) -> ShardId {
    let f = shard_function("xxhash64_v1").unwrap();
    catalog()
        .route(f.keyspace_id(&ScalarValue::Text(val.into())))
        .clone()
}

/// The shard an integer shard key routes to, computed the same way the
/// planner does — so the assertions never hardcode a hash output.
fn shard_of(val: i64) -> ShardId {
    let f = shard_function("xxhash64_v1").unwrap();
    catalog()
        .route(f.keyspace_id(&ScalarValue::Int64(val)))
        .clone()
}

fn is_reject(p: &Plan) -> bool {
    matches!(
        p,
        Plan::Reject {
            code: CROSS_SHARD,
            ..
        }
    )
}

#[test]
fn single_shard_read_on_literal_key() {
    // SELECT * FROM orders WHERE customer_id = 1
    assert_eq!(
        plan1(read(all_from("orders", key_is(num(1))))),
        Plan::SingleShard(shard_of(1))
    );
    // The key can appear on either side, buried in an AND chain.
    // SELECT * FROM orders WHERE status = 'new' AND 1 = customer_id
    assert_eq!(
        plan1(read(all_from(
            "orders",
            Some(and(vec![
                eq(col("status"), text("new")),
                eq(num(1), col("customer_id")),
            ]))
        ))),
        Plan::SingleShard(shard_of(1))
    );
}

#[test]
fn keyless_read_scatters_to_all_shards() {
    // SELECT * FROM orders
    assert_eq!(
        plan1(read(all_from("orders", None))),
        Plan::Scatter(catalog().all())
    );
    // A top-level OR is not mined, so the read scatters rather than risk
    // under-routing.
    // SELECT * FROM orders WHERE customer_id = 1 OR customer_id = 2
    assert_eq!(
        plan1(read(all_from(
            "orders",
            Some(or(vec![
                eq(col("customer_id"), num(1)),
                eq(col("customer_id"), num(2)),
            ]))
        ))),
        Plan::Scatter(catalog().all())
    );
}

#[test]
fn in_list_routes_to_the_covered_shards() {
    // 0 and 1 hash to different shards, so the read scatters across exactly
    // those two.
    // SELECT * FROM orders WHERE customer_id IN (0, 1)
    let Plan::Scatter(shards) = plan1(read(all_from(
        "orders",
        Some(any_of(col("customer_id"), vec![num(0), num(1)])),
    ))) else {
        panic!("expected scatter");
    };
    let mut expected = vec![shard_of(0), shard_of(1)];
    expected.sort();
    expected.dedup();
    assert_eq!(shards, expected);
    assert_ne!(shard_of(0), shard_of(1), "test relies on distinct shards");
}

#[test]
fn in_list_within_one_shard_is_single_shard() {
    // SELECT * FROM orders WHERE customer_id IN (7, 7)
    assert_eq!(
        plan1(read(all_from(
            "orders",
            Some(any_of(col("customer_id"), vec![num(7), num(7)])),
        ))),
        Plan::SingleShard(shard_of(7))
    );
}

#[test]
fn parameterized_key_defers_to_bind() {
    // SELECT * FROM orders WHERE customer_id = $1
    assert_eq!(
        plan1(read(all_from("orders", key_is(Node::Param(1))))),
        Plan::Parameterized(Parameterized {
            shard_function: "xxhash64_v1".into(),
            key_type: Some(ScalarType::Int),
            param_indices: vec![1],
            write: false,
        })
    );
}

fn param(indices: Vec<u32>, write: bool) -> Parameterized {
    Parameterized {
        shard_function: "xxhash64_v1".into(),
        key_type: None,
        param_indices: indices,
        write,
    }
}

#[test]
fn resolve_bound_completes_a_parameterized_plan() {
    let cat = catalog();
    // A single shard-key param routes to its one shard, read or write.
    assert_eq!(
        resolve_bound(&param(vec![1], true), &[ScalarValue::Int64(1)], &cat),
        Plan::SingleShard(shard_of(1))
    );
    // The value is hashed by its bound type — a text key routes by text.
    assert_eq!(
        resolve_bound(
            &param(vec![1], false),
            &[ScalarValue::Text("hello".into())],
            &cat
        ),
        {
            let f = shard_function("xxhash64_v1").unwrap();
            Plan::SingleShard(
                cat.route(f.keyspace_id(&ScalarValue::Text("hello".into())))
                    .clone(),
            )
        }
    );
}

#[test]
fn resolve_bound_reads_scatter_writes_reject_across_shards() {
    let cat = catalog();
    // $1=0 and $2=1 hash to different shards.
    assert_ne!(shard_of(0), shard_of(1));
    let vals = [ScalarValue::Int64(0), ScalarValue::Int64(1)];
    let mut expected = vec![shard_of(0), shard_of(1)];
    expected.sort();
    assert_eq!(
        resolve_bound(&param(vec![1, 2], false), &vals, &cat),
        Plan::Scatter(expected)
    );
    // The same spread as a write is a cross-shard rejection.
    assert!(matches!(
        resolve_bound(&param(vec![1, 2], true), &vals, &cat),
        Plan::Reject {
            code: CROSS_SHARD,
            ..
        }
    ));
}

#[test]
fn resolve_bound_rejects_a_missing_parameter() {
    // $2 referenced but only one value bound.
    assert!(matches!(
        resolve_bound(&param(vec![2], false), &[ScalarValue::Int64(1)], &catalog()),
        Plan::Reject { .. }
    ));
}

#[test]
fn resolve_bound_rejects_an_unknown_shard_function() {
    // A hand-built plan (public fields) with a bad function must not panic.
    let bad = Parameterized {
        shard_function: "md5".into(),
        key_type: None,
        param_indices: vec![1],
        write: false,
    };
    assert!(matches!(
        resolve_bound(&bad, &[ScalarValue::Int64(1)], &catalog()),
        Plan::Reject { .. }
    ));
}

#[test]
fn resolve_bound_coerces_bound_values_to_the_key_type() {
    let cat = catalog();
    let typed = |write| Parameterized {
        shard_function: "xxhash64_v1".into(),
        key_type: Some(ScalarType::Int),
        param_indices: vec![1],
        write,
    };
    // A text-format bound value coerces to the integer, landing on the same
    // shard as the bare integer and the integer literal — no asymmetry
    // between the literal and bind paths.
    assert_eq!(
        resolve_bound(&typed(false), &[ScalarValue::Text("2".into())], &cat),
        Plan::SingleShard(shard_of(2))
    );
    assert_eq!(
        resolve_bound(&typed(false), &[ScalarValue::Int64(2)], &cat),
        Plan::SingleShard(shard_of(2))
    );
    // A bound value that is not valid for the type is rejected, not routed
    // to a guessed shard.
    assert!(is_reject(&resolve_bound(
        &typed(true),
        &[ScalarValue::Text("abc".into())],
        &cat
    )));
}

#[test]
fn global_and_tableless_reads() {
    // SELECT * FROM settings
    assert_eq!(plan1(read(all_from("settings", None))), Plan::Unsharded);
    // SELECT 1
    assert_eq!(
        plan1(read(select_from(vec![num(1)], vec![], None))),
        Plan::RouterLocal
    );
    // A relation the schema does not know goes to the system database.
    // SELECT * FROM pg_catalog.pg_class
    assert_eq!(
        plan1(read(all_from("pg_catalog.pg_class", None))),
        Plan::Unsharded
    );
}

#[test]
fn joins_are_rejected_not_misrouted() {
    // Two sharded tables: rejected (co-located-join routing is out of
    // scope; routing by one table's key could under-route the other).
    // SELECT * FROM orders o JOIN line_items l ON l.order_id = o.id
    // WHERE o.customer_id = 5 AND l.customer_id = 5
    assert!(is_reject(&plan1(read(select_from(
        vec![star()],
        vec![join(
            table("orders"),
            table("line_items"),
            eq(col("l.order_id"), col("o.id"))
        )],
        Some(and(vec![
            eq(col("o.customer_id"), num(5)),
            eq(col("l.customer_id"), num(5)),
        ]))
    )))));
    // Sharded joined to a global table: also rejected (no reference tables).
    // SELECT * FROM orders o JOIN settings s ON s.k = o.status WHERE o.customer_id = 5
    assert!(is_reject(&plan1(read(select_from(
        vec![star()],
        vec![join(
            table("orders"),
            table("settings"),
            eq(col("s.k"), col("o.status"))
        )],
        Some(eq(col("o.customer_id"), num(5)))
    )))));
}

#[test]
fn single_table_qualified_key_still_routes() {
    // A table alias qualifier on the key resolves for the single-table case.
    // SELECT * FROM orders o WHERE o.customer_id = 9
    assert_eq!(
        plan1(read(all_from(
            "orders",
            Some(eq(col("o.customer_id"), num(9)))
        ))),
        Plan::SingleShard(shard_of(9))
    );
}

#[test]
fn insert_routes_by_values() {
    // INSERT INTO orders (customer_id, total) VALUES (1, 100)
    assert_eq!(
        plan1(inserted(insert(
            "orders",
            &["customer_id", "total"],
            vec![vec![num(1), num(100)]]
        ))),
        Plan::SingleShard(shard_of(1))
    );
    // Multi-row insert within one shard is fine.
    // INSERT INTO orders (customer_id) VALUES (7), (7)
    assert_eq!(
        plan1(inserted(insert(
            "orders",
            &["customer_id"],
            vec![vec![num(7)], vec![num(7)]]
        ))),
        Plan::SingleShard(shard_of(7))
    );
    // Parameterized value.
    // INSERT INTO orders (customer_id) VALUES ($1)
    assert_eq!(
        plan1(inserted(insert(
            "orders",
            &["customer_id"],
            vec![vec![Node::Param(1)]]
        ))),
        Plan::Parameterized(Parameterized {
            shard_function: "xxhash64_v1".into(),
            key_type: Some(ScalarType::Int),
            param_indices: vec![1],
            write: true,
        })
    );
}

/// `INSERT INTO orders (customer_id) SELECT id FROM name`.
fn insert_select(name: &str) -> InsertStmt {
    InsertStmt {
        select_stmt: Some(Node::Select(Box::new(select_from(
            vec![col("id")],
            vec![table(name)],
            None,
        )))),
        ..insert("orders", &["customer_id"], vec![])
    }
}

#[test]
fn insert_that_cannot_be_routed_is_rejected() {
    // Multi-row spanning shards.
    // INSERT INTO orders (customer_id) VALUES (0), (1)
    assert!(is_reject(&plan1(inserted(insert(
        "orders",
        &["customer_id"],
        vec![vec![num(0)], vec![num(1)]]
    )))));
    // No column list (positional): column order is unknown.
    // INSERT INTO orders VALUES (1, 100)
    assert!(is_reject(&plan1(inserted(insert(
        "orders",
        &[],
        vec![vec![num(1), num(100)]]
    )))));
    // INSERT ... SELECT: values are not literals here.
    // INSERT INTO orders (customer_id) SELECT id FROM other
    assert!(is_reject(&plan1(inserted(insert_select("other")))));
    // Column list without the shard key.
    // INSERT INTO orders (total) VALUES (100)
    assert!(is_reject(&plan1(inserted(insert(
        "orders",
        &["total"],
        vec![vec![num(100)]]
    )))));
    // DEFAULT in the shard-key position.
    // INSERT INTO orders (customer_id) VALUES (DEFAULT)
    assert!(is_reject(&plan1(inserted(insert(
        "orders",
        &["customer_id"],
        vec![vec![Node::Other(vec![])]]
    )))));
}

#[test]
fn insert_with_a_cte_or_a_values_subquery_is_rejected() {
    // A data-modifying CTE would run only on the INSERT's shard, executing
    // its writes against the wrong shard's rows.
    // WITH d AS (DELETE FROM orders WHERE customer_id = 1 RETURNING id)
    // INSERT INTO orders (customer_id, note) VALUES (0, 'x')
    let mut cte = insert(
        "orders",
        &["customer_id", "note"],
        vec![vec![num(0), text("x")]],
    );
    cte.with_clause = Some(vec![Node::Other(vec![Node::Delete(Box::new(DeleteStmt {
        returning_list: outputs(vec![col("id")]),
        ..delete("orders", key_is(num(1)))
    }))])]);
    assert!(is_reject(&plan1(inserted(cte))));
    // A subquery in a non-key VALUES cell would read the wrong shard's data,
    // whether bare or hidden inside a CASE (or another expression node).
    // INSERT INTO orders (customer_id, note)
    // VALUES (0, (SELECT note FROM orders WHERE customer_id = 1 LIMIT 1))
    assert!(is_reject(&plan1(inserted(insert(
        "orders",
        &["customer_id", "note"],
        vec![vec![
            num(0),
            subquery(SelectStmt {
                limit_count: Some(num(1)),
                ..select_from(vec![col("note")], vec![table("orders")], key_is(num(1)))
            })
        ]]
    )))));
    // INSERT INTO orders (customer_id, note) VALUES
    // (0, CASE WHEN true THEN (SELECT note FROM orders WHERE customer_id = 1) ELSE 'y' END)
    assert!(is_reject(&plan1(inserted(insert(
        "orders",
        &["customer_id", "note"],
        vec![vec![
            num(0),
            call(vec![
                call(vec![
                    truth(),
                    subquery(select_from(
                        vec![col("note")],
                        vec![table("orders")],
                        key_is(num(1))
                    ))
                ]),
                text("y"),
            ])
        ]]
    )))));
    // Without either, a plain INSERT (even omitting the sequence column)
    // still routes by its shard key.
    // INSERT INTO orders (customer_id, note) VALUES (0, 'x')
    assert_eq!(
        plan1(inserted(insert(
            "orders",
            &["customer_id", "note"],
            vec![vec![num(0), text("x")]]
        ))),
        Plan::SingleShard(shard_of(0))
    );
}

fn on_conflict(
    ins: InsertStmt,
    action: ConflictAction,
    infer: Option<InferClause>,
    sets: Vec<(&str, Node)>,
) -> Parsed {
    inserted(InsertStmt {
        on_conflict_clause: Some(OnConflict {
            action,
            infer,
            target_list: sets.into_iter().map(|(n, v)| target(n, Some(v))).collect(),
            where_clause: None,
        }),
        ..ins
    })
}

fn arbiter(names: &[&str]) -> Option<InferClause> {
    Some(InferClause {
        conname: String::new(),
        index_elems: names
            .iter()
            .map(|n| {
                Node::IndexElem(Box::new(IndexElem {
                    name: n.to_string(),
                    expr: None,
                }))
            })
            .collect(),
        where_clause: None,
    })
}

#[test]
fn insert_on_conflict_do_update_is_rejected_but_do_nothing_routes() {
    let one = || insert("orders", &["customer_id"], vec![vec![num(1)]]);
    let totalled = || {
        insert(
            "orders",
            &["customer_id", "total"],
            vec![vec![num(1), num(5)]],
        )
    };
    let with_id = || insert("orders", &["id", "customer_id"], vec![vec![num(7), num(1)]]);
    // DO NOTHING only affects the routed shard, so it still routes.
    // INSERT INTO orders (customer_id, total) VALUES (1, 5)
    // ON CONFLICT (customer_id) DO NOTHING
    assert_eq!(
        plan1(on_conflict(
            totalled(),
            ConflictAction::Nothing,
            arbiter(&["customer_id"]),
            vec![]
        )),
        Plan::SingleShard(shard_of(1))
    );
    // DO UPDATE is rejected wholesale: the conflicting row may live on
    // another shard and the SET may move the shard key.
    // ... ON CONFLICT (customer_id) DO UPDATE SET total = 9
    assert!(is_reject(&plan1(on_conflict(
        one(),
        ConflictAction::Update,
        arbiter(&["customer_id"]),
        vec![("total", num(9))]
    ))));
    // ... ON CONFLICT (id) DO UPDATE SET customer_id = 2
    assert!(is_reject(&plan1(on_conflict(
        with_id(),
        ConflictAction::Update,
        arbiter(&["id"]),
        vec![("customer_id", num(2))]
    ))));
    // DO NOTHING whose arbiter cannot be proven shard-local is rejected: a
    // non-shard-key unique constraint can conflict on ANOTHER shard, and the
    // routed insert would create a logical duplicate there invisibly.
    // Bare: matches any constraint, including cross-shard ones.
    assert!(is_reject(&plan1(on_conflict(
        one(),
        ConflictAction::Nothing,
        None,
        vec![]
    ))));
    // Arbiter without the shard key.
    assert!(is_reject(&plan1(on_conflict(
        with_id(),
        ConflictAction::Nothing,
        arbiter(&["id"]),
        vec![]
    ))));
    // Named constraint: its columns are unknown here.
    assert!(is_reject(&plan1(on_conflict(
        one(),
        ConflictAction::Nothing,
        Some(InferClause {
            conname: "orders_pk".into(),
            index_elems: vec![],
            where_clause: None,
        }),
        vec![]
    ))));
    // A compound arbiter including the shard key is still shard-local.
    // ... ON CONFLICT (customer_id, total) DO NOTHING
    assert_eq!(
        plan1(on_conflict(
            totalled(),
            ConflictAction::Nothing,
            arbiter(&["customer_id", "total"]),
            vec![]
        )),
        Plan::SingleShard(shard_of(1))
    );
}

#[test]
fn unknown_relations_are_rejected_not_routed_to_the_system_database() {
    // A typo'd or unconfigured relation must error, not read a same-named
    // table in the system database.
    for parsed in [
        // SELECT * FROM orderz
        read(all_from("orderz", None)),
        // SELECT * FROM orders o JOIN mystery m ON m.id = o.id WHERE o.customer_id = 1
        read(select_from(
            vec![star()],
            vec![join(
                table("orders"),
                table("mystery"),
                eq(col("m.id"), col("o.id")),
            )],
            Some(eq(col("o.customer_id"), num(1))),
        )),
        // SELECT * FROM settings UNION ALL SELECT * FROM mystery
        read(set_op(all_from("settings", None), all_from("mystery", None))),
    ] {
        assert!(matches!(&plan1(parsed), Plan::Reject { code, .. } if *code == UNDEFINED_TABLE));
    }
    // Qualified catalog reads keep routing like globals (they exist in every
    // database); unqualified ones fold to public and are unknown like any
    // other relation.
    assert_eq!(
        plan1(read(all_from("pg_catalog.pg_class", None))),
        Plan::Unsharded
    );
    assert_eq!(
        plan1(read(all_from("information_schema.tables", None))),
        Plan::Unsharded
    );
}

#[test]
fn mixed_literal_and_parameter_keys_never_single_shard() {
    let mixed = || Some(any_of(col("customer_id"), vec![num(1), Node::Param(1)]));
    // A read scatters (sound superset); the write is rejected.
    // SELECT * FROM orders WHERE customer_id IN (1, $1)
    assert_eq!(
        plan1(read(all_from("orders", mixed()))),
        Plan::Scatter(catalog().all())
    );
    // DELETE FROM orders WHERE customer_id IN (1, $1)
    assert!(is_reject(&plan1(deleted(delete("orders", mixed())))));
    // INSERT INTO orders (customer_id) VALUES (1), ($1)
    assert!(is_reject(&plan1(inserted(insert(
        "orders",
        &["customer_id"],
        vec![vec![num(1)], vec![Node::Param(1)]]
    )))));
}

#[test]
fn join_writes_and_subqueries_are_rejected() {
    let joined = || {
        Some(and(vec![
            eq(col("orders.customer_id"), num(5)),
            eq(col("line_items.id"), col("orders.id")),
        ]))
    };
    // UPDATE ... FROM / DELETE ... USING join another (sharded) relation.
    // UPDATE orders SET total = 1 FROM line_items
    // WHERE orders.customer_id = 5 AND line_items.id = orders.id
    assert!(is_reject(&plan1(updated(UpdateStmt {
        from_clause: vec![table("line_items")],
        ..update("orders", vec![("total", num(1))], joined())
    }))));
    // DELETE FROM orders USING line_items
    // WHERE orders.customer_id = 5 AND line_items.id = orders.id
    assert!(is_reject(&plan1(deleted(DeleteStmt {
        using_clause: vec![table("line_items")],
        ..delete("orders", joined())
    }))));
    // A subquery in the FROM hides a relation from the join guard.
    // SELECT * FROM orders o, (SELECT * FROM line_items) sub WHERE o.customer_id = 1
    assert!(is_reject(&plan1(read(select_from(
        vec![star()],
        vec![
            table("orders"),
            Node::Other(vec![Node::Select(Box::new(all_from("line_items", None)))]),
        ],
        Some(eq(col("o.customer_id"), num(1)))
    )))));
    // A subquery in the WHERE would run only on the routed shard.
    // SELECT * FROM orders WHERE customer_id = 5
    // AND id IN (SELECT order_id FROM line_items WHERE customer_id = 9)
    assert!(is_reject(&plan1(read(all_from(
        "orders",
        Some(and(vec![
            eq(col("customer_id"), num(5)),
            Node::SubLink(vec![
                col("id"),
                Node::Select(Box::new(select_from(
                    vec![col("order_id")],
                    vec![table("line_items")],
                    key_is(num(9))
                ))),
            ]),
        ]))
    )))));
    // DELETE FROM orders WHERE customer_id = 5
    // AND EXISTS (SELECT 1 FROM line_items WHERE line_items.id = orders.id)
    assert!(is_reject(&plan1(deleted(delete(
        "orders",
        Some(and(vec![
            eq(col("customer_id"), num(5)),
            subquery(select_from(
                vec![num(1)],
                vec![table("line_items")],
                Some(eq(col("line_items.id"), col("orders.id")))
            )),
        ]))
    )))));
}

#[test]
fn a_plain_in_list_is_not_a_subquery() {
    // `IN (values)` must not be mistaken for `IN (subquery)`.
    // SELECT * FROM orders WHERE customer_id = 5 AND status IN ('a', 'b')
    assert_eq!(
        plan1(read(all_from(
            "orders",
            Some(and(vec![
                eq(col("customer_id"), num(5)),
                any_of(col("status"), vec![text("a"), text("b")]),
            ]))
        ))),
        Plan::SingleShard(shard_of(5))
    );
}

fn count_star() -> Node {
    call(vec![])
}

fn count_of(name: &str) -> SelectStmt {
    select_from(vec![count_star()], vec![table(name)], None)
}

#[test]
fn keyed_routes_reject_a_subquery_anywhere_not_only_in_the_where() {
    // A subquery runs only on the routed shard, so a keyed route carrying one
    // is rejected wherever it sits — not just in the WHERE. Each of these
    // hides the subquery in a spot a walk that stopped at the WHERE, or that
    // enumerated only some node types, would let through as silently wrong
    // data.
    let rejected = [
        // A scalar subquery in the target list.
        // SELECT (SELECT count(*) FROM line_items), note FROM orders WHERE customer_id = 5
        read(select_from(
            vec![subquery(count_of("line_items")), col("note")],
            vec![table("orders")],
            key_is(num(5)),
        )),
        // A subquery inside an aggregate FILTER — reached only by descending
        // a function's filter clause.
        // SELECT count(*) FILTER (WHERE total > (SELECT avg(total) FROM line_items))
        // FROM orders WHERE customer_id = 5
        read(select_from(
            vec![call(vec![op(
                ">",
                col("total"),
                subquery(select_from(
                    vec![call(vec![col("total")])],
                    vec![table("line_items")],
                    None,
                )),
            )])],
            vec![table("orders")],
            key_is(num(5)),
        )),
        // A subquery in HAVING.
        // SELECT count(*) FROM orders WHERE customer_id = 5
        // HAVING count(*) > (SELECT count(*) FROM line_items)
        read(SelectStmt {
            having_clause: Some(op(">", count_star(), subquery(count_of("line_items")))),
            ..select_from(vec![count_star()], vec![table("orders")], key_is(num(5)))
        }),
        // A subquery buried in an array element in the WHERE.
        // SELECT * FROM orders WHERE customer_id = 5
        // AND status = ANY(ARRAY[(SELECT status FROM line_items LIMIT 1)])
        read(all_from(
            "orders",
            Some(and(vec![
                eq(col("customer_id"), num(5)),
                Node::Expr(Box::new(AExpr {
                    kind: ExprKind::Other,
                    name: vec!["=".into()],
                    lexpr: Some(col("status")),
                    rexpr: Some(call(vec![subquery(SelectStmt {
                        limit_count: Some(num(1)),
                        ..select_from(vec![col("status")], vec![table("line_items")], None)
                    })])),
                })),
            ])),
        )),
        // A subquery in an UPDATE's SET value rather than its WHERE.
        // UPDATE orders SET note = (SELECT note FROM line_items LIMIT 1) WHERE customer_id = 5
        updated(update(
            "orders",
            vec![(
                "note",
                subquery(SelectStmt {
                    limit_count: Some(num(1)),
                    ..select_from(vec![col("note")], vec![table("line_items")], None)
                }),
            )],
            key_is(num(5)),
        )),
        // A subquery in a RETURNING list.
        // DELETE FROM orders WHERE customer_id = 5 RETURNING (SELECT count(*) FROM line_items)
        deleted(DeleteStmt {
            returning_list: outputs(vec![subquery(count_of("line_items"))]),
            ..delete("orders", key_is(num(5)))
        }),
    ];
    for (i, parsed) in rejected.into_iter().enumerate() {
        assert!(is_reject(&plan1(parsed)), "should reject: {i}");
    }
    // The same statements without a subquery still route by their shard key.
    // SELECT count(*) FROM orders WHERE customer_id = 5
    assert_eq!(
        plan1(read(select_from(
            vec![count_star()],
            vec![table("orders")],
            key_is(num(5))
        ))),
        Plan::SingleShard(shard_of(5))
    );
    // UPDATE orders SET note = 'x' WHERE customer_id = 5
    assert_eq!(
        plan1(updated(update(
            "orders",
            vec![("note", text("x"))],
            key_is(num(5))
        ))),
        Plan::SingleShard(shard_of(5))
    );
}

fn with(n: Node) -> Option<Vec<Node>> {
    Some(vec![Node::Other(vec![n])])
}

#[test]
fn keyed_routes_reject_a_cte_which_is_not_a_subquery() {
    // A CTE is a statement of its own, not a sub-select in an expression, so the subquery
    // check does not see it — but it still reaches other shards. These must reject.
    let rejected = [
        // A CTE that *shadows* the sharded table name: the outer FROM looks
        // like base `orders` and routes by customer_id = 5, but PostgreSQL
        // resolves `orders` to the CTE, which reads line_items on shard 9.
        // WITH orders AS (SELECT 5 AS customer_id, note FROM line_items WHERE customer_id = 9)
        // SELECT * FROM orders WHERE customer_id = 5
        read(SelectStmt {
            with_clause: with(Node::Select(Box::new(select_from(
                vec![num(5), col("note")],
                vec![table("line_items")],
                key_is(num(9)),
            )))),
            ..all_from("orders", key_is(num(5)))
        }),
        // A read-only CTE alongside a keyed read still can't be routed.
        // WITH recent AS (SELECT id FROM line_items) SELECT * FROM orders WHERE customer_id = 5
        read(SelectStmt {
            with_clause: with(Node::Select(Box::new(select_from(
                vec![col("id")],
                vec![table("line_items")],
                None,
            )))),
            ..all_from("orders", key_is(num(5)))
        }),
        // Data-modifying CTEs on an UPDATE/DELETE target: the write runs on
        // the routed shard, not the rows' real shard.
        // WITH d AS (DELETE FROM line_items WHERE customer_id = 9 RETURNING id)
        // UPDATE orders SET note = 'x' WHERE customer_id = 5
        updated(UpdateStmt {
            with_clause: with(Node::Delete(Box::new(DeleteStmt {
                returning_list: outputs(vec![col("id")]),
                ..delete("line_items", key_is(num(9)))
            }))),
            ..update("orders", vec![("note", text("x"))], key_is(num(5)))
        }),
        // WITH u AS (UPDATE line_items SET note = 'z' WHERE customer_id = 9 RETURNING id)
        // DELETE FROM orders WHERE customer_id = 5
        deleted(DeleteStmt {
            with_clause: with(Node::Update(Box::new(UpdateStmt {
                returning_list: outputs(vec![col("id")]),
                ..update("line_items", vec![("note", text("z"))], key_is(num(9)))
            }))),
            ..delete("orders", key_is(num(5)))
        }),
    ];
    for (i, parsed) in rejected.into_iter().enumerate() {
        assert!(is_reject(&plan1(parsed)), "should reject: {i}");
    }
}

#[test]
fn set_operations_touching_a_sharded_table_are_rejected() {
    let one = |n: i32| select_from(vec![num(n)], vec![], None);
    let keys = |cond: Option<Node>| {
        select_from(vec![col("customer_id")], vec![table("orders")], cond)
    };
    // A set operation nests its arms with an empty top-level FROM. Its arms
    // may sit on different shards and its result needs a cross-shard merge,
    // so running it whole on one shard would silently drop the others' rows.
    let rejected = [
        // SELECT * FROM orders WHERE customer_id = 5
        // UNION SELECT * FROM orders WHERE customer_id = 6
        set_op(
            all_from("orders", key_is(num(5))),
            all_from("orders", key_is(num(6))),
        ),
        // SELECT id FROM orders EXCEPT SELECT id FROM line_items
        set_op(
            select_from(vec![col("id")], vec![table("orders")], None),
            select_from(vec![col("id")], vec![table("line_items")], None),
        ),
        // SELECT customer_id FROM orders WHERE customer_id = 5
        // INTERSECT SELECT customer_id FROM orders WHERE customer_id = 6
        set_op(keys(key_is(num(5))), keys(key_is(num(6)))),
        // A sharded table buried in a nested (second-level) set operation.
        // SELECT 1 UNION (SELECT 2 UNION SELECT customer_id FROM orders WHERE customer_id = 7)
        set_op(one(1), set_op(one(2), keys(key_is(num(7))))),
        // A sharded table hidden in an arm's expression subquery — invisible
        // to the leaf-FROM walk, so it must be caught as a subquery.
        // SELECT (SELECT count(*) FROM orders) UNION SELECT 0
        set_op(
            select_from(vec![subquery(count_of("orders"))], vec![], None),
            one(0),
        ),
        // A sharded table hidden in a CTE body, both on the whole set
        // operation and nested in a single arm.
        // WITH x AS (SELECT customer_id FROM orders) SELECT customer_id FROM x UNION SELECT 0
        SelectStmt {
            with_clause: with(Node::Select(Box::new(keys(None)))),
            ..set_op(
                select_from(vec![col("customer_id")], vec![table("x")], None),
                one(0),
            )
        },
        // SELECT 1
        // UNION (WITH y AS (SELECT customer_id FROM orders) SELECT customer_id FROM y)
        set_op(
            one(1),
            SelectStmt {
                with_clause: with(Node::Select(Box::new(keys(None)))),
                ..select_from(vec![col("customer_id")], vec![table("y")], None)
            },
        ),
    ];
    for (i, s) in rejected.into_iter().enumerate() {
        assert!(is_reject(&plan1(read(s))), "should reject: {i}");
    }
    // With no sharded arm, a set operation still routes: a global-only one
    // runs whole on the system database, a tableless one is session-local.
    // SELECT k, v FROM settings UNION SELECT k, v FROM settings
    let kv = || select_from(vec![col("k"), col("v")], vec![table("settings")], None);
    assert_eq!(plan1(read(set_op(kv(), kv()))), Plan::Unsharded);
    // SELECT 1 UNION SELECT 2
    assert_eq!(plan1(read(set_op(one(1), one(2)))), Plan::RouterLocal);
}

#[test]
fn tableless_select_hiding_a_sharded_reference_is_not_run_on_one_shard() {
    // A tableless statement with no subquery is session-local.
    // SELECT 1
    assert_eq!(
        plan1(read(select_from(vec![num(1)], vec![], None))),
        Plan::RouterLocal
    );
    // SELECT current_setting('x')
    assert_eq!(
        plan1(read(select_from(vec![call(vec![text("x")])], vec![], None))),
        Plan::RouterLocal
    );
    // But a target-list subquery or a CTE can reach a sharded table even with
    // no FROM. Such a statement must not run on one arbitrary shard (which
    // returns partial data); it routes to the system database, where a sharded
    // reference errors loudly instead of answering wrong.
    // SELECT (SELECT count(*) FROM orders)
    assert_eq!(
        plan1(read(select_from(
            vec![subquery(count_of("orders"))],
            vec![],
            None
        ))),
        Plan::Unsharded
    );
    // WITH x AS (SELECT customer_id FROM orders) SELECT (SELECT count(*) FROM x)
    assert_eq!(
        plan1(read(SelectStmt {
            with_clause: with(Node::Select(Box::new(select_from(
                vec![col("customer_id")],
                vec![table("orders")],
                None
            )))),
            ..select_from(vec![subquery(count_of("x"))], vec![], None)
        })),
        Plan::Unsharded
    );
    // A subquery over a global table is answered correctly on the system db.
    // SELECT (SELECT count(*) FROM settings)
    assert_eq!(
        plan1(read(select_from(
            vec![subquery(count_of("settings"))],
            vec![],
            None
        ))),
        Plan::Unsharded
    );
}

#[test]
fn insert_into_global_table_is_unsharded() {
    // INSERT INTO settings (k, v) VALUES ('x', 'y')
    assert_eq!(
        plan1(inserted(insert(
            "settings",
            &["k", "v"],
            vec![vec![text("x"), text("y")]]
        ))),
        Plan::Unsharded
    );
}

#[test]
fn update_and_delete_route_by_key() {
    // UPDATE orders SET total = 1 WHERE customer_id = 1
    assert_eq!(
        plan1(updated(update(
            "orders",
            vec![("total", num(1))],
            key_is(num(1))
        ))),
        Plan::SingleShard(shard_of(1))
    );
    // DELETE FROM orders WHERE customer_id = 1
    assert_eq!(
        plan1(deleted(delete("orders", key_is(num(1))))),
        Plan::SingleShard(shard_of(1))
    );
}

#[test]
fn keyless_writes_are_rejected() {
    // UPDATE orders SET total = 1
    assert!(is_reject(&plan1(updated(update(
        "orders",
        vec![("total", num(1))],
        None
    )))));
    // DELETE FROM orders
    assert!(is_reject(&plan1(deleted(delete("orders", None)))));
    // DELETE FROM orders WHERE customer_id IN (0, 1)
    assert!(is_reject(&plan1(deleted(delete(
        "orders",
        Some(any_of(col("customer_id"), vec![num(0), num(1)]))
    )))));
}

#[test]
fn updating_the_shard_key_is_rejected() {
    // UPDATE orders SET customer_id = 2 WHERE customer_id = 1
    let p = plan1(updated(update(
        "orders",
        vec![("customer_id", num(2))],
        key_is(num(1)),
    )));
    assert!(matches!(&p, Plan::Reject { reason, .. } if reason.contains("immutable")));
}

#[test]
fn unknown_table_write_is_rejected() {
    // INSERT INTO widgets (id) VALUES (1)
    let p = plan1(inserted(insert("widgets", &["id"], vec![vec![num(1)]])));
    assert!(matches!(&p, Plan::Reject { reason, .. } if reason.contains("sharding schema")));
}

#[test]
fn ddl_broadcasts_and_merge_copy_are_rejected() {
    // CREATE TABLE t (id int)
    assert_eq!(
        plan1(other(StatementKind::Ddl)),
        Plan::Broadcast(catalog().all())
    );
    // ALTER TABLE orders ADD COLUMN note text
    assert_eq!(
        plan1(statement(
            StatementKind::Ddl,
            Node::Other(vec![table("orders")])
        )),
        Plan::Broadcast(catalog().all())
    );
    // MERGE INTO orders o USING s ON o.id = s.id WHEN MATCHED THEN DO NOTHING
    assert!(is_reject(&plan1(statement(
        StatementKind::Merge,
        Node::Other(vec![table("orders"), table("s"), eq(col("o.id"), col("s.id"))])
    ))));
    // COPY orders FROM STDIN
    assert!(is_reject(&plan1(statement(
        StatementKind::Copy,
        Node::Other(vec![table("orders")])
    ))));
}

#[test]
fn session_statements_are_router_local() {
    // SET search_path = app; SHOW server_version; BEGIN; COMMIT
    for kind in [
        StatementKind::SetVariable,
        StatementKind::Show,
        StatementKind::TxnBegin,
        StatementKind::TxnCommit,
    ] {
        assert_eq!(plan1(other(kind)), Plan::RouterLocal, "{kind:?}");
    }
}

#[test]
fn quoted_integer_key_routes_like_a_bare_integer() {
    // A string literal against an integer key coerces to the
    // integer, so `'1'` and `1` hit the same shard — read, insert, delete.
    // SELECT * FROM orders WHERE customer_id = '1'
    assert_eq!(
        plan1(read(all_from("orders", key_is(text("1"))))),
        Plan::SingleShard(shard_of(1))
    );
    // INSERT INTO orders (customer_id) VALUES ('7')
    assert_eq!(
        plan1(inserted(insert(
            "orders",
            &["customer_id"],
            vec![vec![text("7")]]
        ))),
        Plan::SingleShard(shard_of(7))
    );
    // DELETE FROM orders WHERE customer_id = '7'
    assert_eq!(
        plan1(deleted(delete("orders", key_is(text("7"))))),
        Plan::SingleShard(shard_of(7))
    );
}

#[test]
fn non_integer_literal_against_an_integer_key_scatters_reads() {
    // 'abc' is no integer; scatter so PostgreSQL returns its own type error
    // rather than the planner hashing a shard the row could never be on.
    // SELECT * FROM orders WHERE customer_id = 'abc'
    assert_eq!(
        plan1(read(all_from("orders", key_is(text("abc"))))),
        Plan::Scatter(catalog().all())
    );
}

#[test]
fn non_integer_literal_against_an_integer_key_rejects_writes() {
    // INSERT INTO orders (customer_id) VALUES ('abc')
    assert!(is_reject(&plan1(inserted(insert(
        "orders",
        &["customer_id"],
        vec![vec![text("abc")]]
    )))));
    // DELETE FROM orders WHERE customer_id = 'abc'
    assert!(is_reject(&plan1(deleted(delete(
        "orders",
        key_is(text("abc"))
    )))));
}

#[test]
fn a_text_key_routes_by_text_and_rejects_bare_integers() {
    let t = Some(ScalarType::Text);
    // A string literal routes by its text bytes.
    // SELECT * FROM orders WHERE customer_id = '42'
    assert_eq!(
        plan1_with(read(all_from("orders", key_is(text("42")))), t),
        Plan::SingleShard(text_shard("42"))
    );
    // A bare integer has no `text = int` operator in PostgreSQL: a read
    // scatters and a write is rejected, never guessed.
    // SELECT * FROM orders WHERE customer_id = 42
    assert_eq!(
        plan1_with(read(all_from("orders", key_is(num(42)))), t),
        Plan::Scatter(catalog().all())
    );
    // INSERT INTO orders (customer_id) VALUES (42)
    assert!(is_reject(&plan1_with(
        inserted(insert("orders", &["customer_id"], vec![vec![num(42)]])),
        t
    )));
}

#[test]
fn an_untyped_key_hashes_the_literal_as_written() {
    // With no declared type, the
    // literal is hashed in the form written: '1' as text, 1 as an integer.
    // SELECT * FROM orders WHERE customer_id = '1'
    assert_eq!(
        plan1_with(read(all_from("orders", key_is(text("1")))), None),
        Plan::SingleShard(text_shard("1"))
    );
    // SELECT * FROM orders WHERE customer_id = 1
    assert_eq!(
        plan1_with(read(all_from("orders", key_is(num(1)))), None),
        Plan::SingleShard(shard_of(1))
    );
}

#[test]
fn an_integer_beyond_32_bits_is_read_from_its_digits() {
    // SELECT * FROM orders WHERE customer_id = 5000000000
    let big = Node::Const(Const {
        isnull: false,
        val: Some(ConstValue::Float("5000000000".into())),
    });
    assert_eq!(
        plan1(read(all_from("orders", key_is(big)))),
        Plan::SingleShard(shard_of(5_000_000_000))
    );
    // NULL matches no row that a key could name, so the read scatters.
    let null = Node::Const(Const {
        isnull: true,
        val: None,
    });
    assert_eq!(
        plan1(read(all_from("orders", key_is(null)))),
        Plan::Scatter(catalog().all())
    );
}

// ---- sequence columns ------------------------------------------------------------------

fn sequenced() -> VSchema {
    let mut v = VSchema::default();
    let def = |sequences| TableDef::Sharded {
        shard_key_column: "customer_id".into(),
        shard_key_type: Some(ScalarType::Int),
        shard_function: "xxhash64_v1".into(),
        sequences,
    };
    v.insert(
        TableName::new("public", "orders"),
        def(vec![SequenceBinding {
            column: "id".into(),
            sequence: "orders_id".into(),
        }]),
    )
    .unwrap();
    v.insert(TableName::new("public", "events"), def(Vec::new()))
        .unwrap();
    v
}

fn injections(s: InsertStmt) -> Vec<SequenceInjection> {
    insert_sequence_injections(&Node::Insert(Box::new(s)), &sequenced())
}

#[test]
fn detects_an_omitted_sequence_column() {
    // INSERT INTO orders (customer_id) VALUES (1)
    assert_eq!(
        injections(insert("orders", &["customer_id"], vec![vec![num(1)]])),
        vec![SequenceInjection {
            column: "id".into(),
            sequence: "orders_id".into(),
        }]
    );
}

#[test]
fn no_injection_when_the_column_is_listed() {
    // INSERT INTO orders (customer_id, id) VALUES (1, 5)
    assert!(injections(insert(
        "orders",
        &["customer_id", "id"],
        vec![vec![num(1), num(5)]]
    ))
    .is_empty());
}

#[test]
fn no_injection_for_tables_without_sequences_or_non_inserts() {
    // INSERT INTO events (customer_id) VALUES (1)
    assert!(injections(insert("events", &["customer_id"], vec![vec![num(1)]])).is_empty());
    // INSERT INTO widgets (customer_id) VALUES (1)
    assert!(injections(insert("widgets", &["customer_id"], vec![vec![num(1)]])).is_empty());
    // Positional and INSERT ... SELECT cannot be safely rewritten.
    // INSERT INTO orders VALUES (1, 2)
    assert!(injections(insert("orders", &[], vec![vec![num(1), num(2)]])).is_empty());
    // INSERT INTO orders (customer_id) SELECT id FROM t
    assert!(injections(insert_select("t")).is_empty());
    // SELECT * FROM orders
    assert!(insert_sequence_injections(
        &Node::Select(Box::new(all_from("orders", None))),
        &sequenced()
    )
    .is_empty());
}

#[test]
fn rewrite_fills_one_id_per_row() {
    // INSERT INTO orders (customer_id, note) VALUES (1, 'a'), (2, 'b') becomes
    // INSERT INTO orders (customer_id, note, id) VALUES (1, 'a', 100), (2, 'b', 101)
    let parsed = inserted(insert(
        "orders",
        &["customer_id", "note"],
        vec![vec![num(1), text("a")], vec![num(2), text("b")]],
    ));
    let edit = rewrite_insert(
        &parsed,
        &[InjectedColumn {
            column: "id".into(),
            ids: vec![100, 101],
        }],
    )
    .unwrap();
    assert_eq!(
        edit,
        InsertEdit {
            columns: vec!["id".into()],
            rows: vec![vec!["100".into()], vec!["101".into()]],
        }
    );
}

#[test]
fn rewrite_handles_ids_beyond_i32() {
    // INSERT INTO orders (customer_id) VALUES (1)
    let parsed = inserted(insert("orders", &["customer_id"], vec![vec![num(1)]]));
    let edit = rewrite_insert(
        &parsed,
        &[InjectedColumn {
            column: "id".into(),
            ids: vec![i64::MAX],
        }],
    )
    .unwrap();
    assert_eq!(edit.rows, vec![vec![format!("{}", i64::MAX)]]);
}

#[test]
fn rewrite_rejects_a_row_count_mismatch() {
    // INSERT INTO orders (customer_id) VALUES (1), (2)
    let parsed = inserted(insert(
        "orders",
        &["customer_id"],
        vec![vec![num(1)], vec![num(2)]],
    ));
    let err = rewrite_insert(
        &parsed,
        &[InjectedColumn {
            column: "id".into(),
            ids: vec![100],
        }],
    )
    .unwrap_err();
    assert!(matches!(
        err,
        RewriteError::RowCountMismatch {
            rows: 2,
            ids: 1,
            ..
        }
    ));
    assert_eq!(
        err.to_string(),
        "1 ids for column \"id\" but the INSERT has 2 value rows"
    );
}

#[test]
fn rewrite_leaves_other_statements_alone() {
    let id = || InjectedColumn {
        column: "id".into(),
        ids: vec![1],
    };
    assert_eq!(
        rewrite_insert(&read(all_from("orders", None)), &[id()]),
        Err(RewriteError::NotInjectable)
    );
    assert_eq!(
        rewrite_insert(&inserted(insert_select("t")), &[id()]),
        Err(RewriteError::NotInjectable)
    );
    assert_eq!(
        value_row_count(&Node::Insert(Box::new(insert(
            "orders",
            &["a"],
            vec![vec![num(1)], vec![num(2)], vec![num(3)]]
        )))),
        3
    );
}

// ---- routing ---------------------------------------------------------------------------

fn instance(pod: &str) -> Instance {
    Instance {
        pod: pod.to_owned(),
        host: format!("{pod}-host"),
        port: 5432,
        can_read: false,
    }
}

/// A target for shard `db` whose primary is pod `pod`.
fn at(db: &str, pod: &str) -> Target {
    Target {
        endpoint: instance(pod),
        database: db.to_owned(),
    }
}

fn shard(name: &str, range: &str, primary: Option<&str>) -> ShardEntry {
    ShardEntry {
        name: name.to_owned(),
        key_range: range.parse().unwrap(),
        state: ShardState::Serving,
        primary: primary.map(instance),
        replicas: Vec::new(),
    }
}

fn orders() -> TableEntry {
    TableEntry {
        schema: "public".into(),
        name: "orders".into(),
        table_type: TableType::Sharded,
        shard_key_column: Some("customer_id".into()),
        shard_key_type: None,
        sequences: vec![Sequence {
            column: "id".into(),
            sequence: "orders_id".into(),
        }],
    }
}

fn settings() -> TableEntry {
    TableEntry {
        schema: "public".into(),
        name: "settings".into(),
        table_type: TableType::Global,
        shard_key_column: None,
        shard_key_type: None,
        sequences: Vec::new(),
    }
}

fn topology(shards: Vec<ShardEntry>, tables: Vec<TableEntry>) -> Topology {
    Topology {
        epoch: 7,
        topology_generation: 1,
        write_lease_seconds: 10,
        hash_function: "xxhash64_v1".into(),
        shards,
        tables,
        gates: Vec::new(),
        sequence_endpoint: Some(instance("system")),
    }
}

fn router() -> Router {
    Router::build(&topology(
        vec![
            shard("s0", "-80", Some("s0p")),
            shard("s1", "80-", Some("s1p")),
        ],
        vec![orders(), settings()],
    ))
    .unwrap()
}

fn first(r: &Router, parsed: Parsed) -> Route {
    r.route(&parsed).into_iter().next().unwrap()
}

fn one(parsed: Parsed) -> Route {
    first(&router(), parsed)
}

#[test]
fn single_shard_resolves_to_that_shards_primary() {
    // customer_id=1 hashes into [80-) -> s1; =0 into [-80) -> s0.
    // SELECT * FROM orders WHERE customer_id = 1
    assert_eq!(
        one(read(all_from("orders", key_is(num(1))))),
        Route::Shard(at("s1", "s1p"))
    );
    // INSERT INTO orders (customer_id) VALUES (0)
    assert_eq!(
        one(inserted(insert(
            "orders",
            &["customer_id"],
            vec![vec![num(0)]]
        ))),
        Route::Shard(at("s0", "s0p"))
    );
}

#[test]
fn scatter_and_broadcast_resolve_to_primaries() {
    // SELECT * FROM orders
    assert_eq!(
        one(read(all_from("orders", None))),
        Route::Scatter(vec![at("s0", "s0p"), at("s1", "s1p")])
    );
    // CREATE TABLE t (id int)
    assert_eq!(
        one(other(StatementKind::Ddl)),
        Route::Broadcast(vec![at("s0", "s0p"), at("s1", "s1p")])
    );
}

#[test]
fn global_reads_go_to_the_system_endpoint() {
    // SELECT * FROM settings
    assert_eq!(
        one(read(all_from("settings", None))),
        Route::System(instance("system"))
    );
    // SELECT 1
    assert_eq!(
        one(read(select_from(vec![num(1)], vec![], None))),
        Route::Local
    );
}

#[test]
fn parameterized_and_reject_pass_through() {
    // SELECT * FROM orders WHERE customer_id = $1
    assert!(matches!(
        one(read(all_from("orders", key_is(Node::Param(1))))),
        Route::NeedsBind(_)
    ));
    // UPDATE orders SET total = 1
    assert!(matches!(
        one(updated(update("orders", vec![("total", num(1))], None))),
        Route::Reject { code: "0A000", .. }
    ));
}

#[test]
fn a_shard_without_a_primary_is_unavailable() {
    let r = Router::build(&topology(
        vec![
            shard("s0", "-80", Some("s0p")),
            shard("s1", "80-", None), // failing over
        ],
        vec![orders()],
    ))
    .unwrap();
    // customer_id=1 -> s1, which has no primary.
    // SELECT * FROM orders WHERE customer_id = 1
    assert_eq!(
        first(&r, read(all_from("orders", key_is(num(1))))),
        Route::Unavailable("shard s1 has no primary".into())
    );
    // A scatter also becomes unavailable if any covered shard lacks a primary.
    // SELECT * FROM orders
    assert!(matches!(
        first(&r, read(all_from("orders", None))),
        Route::Unavailable(_)
    ));
    // Session-local statements run on the first shard that has one.
    assert_eq!(r.any_shard_target(), Some(at("s0", "s0p")));
}

#[test]
fn a_topology_without_a_system_database_cannot_serve_global_tables() {
    let mut topo = topology(vec![shard("s0", "-", None)], vec![settings()]);
    topo.sequence_endpoint = None;
    let r = Router::build(&topo).unwrap();
    assert_eq!(
        first(&r, read(all_from("settings", None))),
        Route::Unavailable("system database has no endpoint".into())
    );
    assert_eq!(r.any_shard_target(), None);
    assert_eq!(r.epoch(), 7);
}

#[test]
fn non_serving_shards_are_excluded_from_routing() {
    // A buffered reshard target does not partition the space on its own; the
    // serving shards must still partition. Here the serving pair does.
    let mut extra = shard("target", "40-80", Some("tp"));
    extra.state = ShardState::Buffered;
    let r = Router::build(&topology(
        vec![
            shard("s0", "-80", Some("s0p")),
            shard("s1", "80-", Some("s1p")),
            extra,
        ],
        vec![orders()],
    ))
    .unwrap();
    // SELECT * FROM orders WHERE customer_id = 1
    assert_eq!(
        first(&r, read(all_from("orders", key_is(num(1))))),
        Route::Shard(at("s1", "s1p"))
    );
}

#[test]
fn build_rejects_bad_topologies() {
    // Serving shards that leave a gap are not a partition.
    let gap = topology(
        vec![shard("s0", "-40", Some("a")), shard("s1", "80-", Some("b"))],
        vec![orders()],
    );
    assert!(matches!(Router::build(&gap), Err(BuildError::Partition(_))));

    // A sharded table with no shard key.
    let mut bad_table = orders();
    bad_table.shard_key_column = None;
    let missing = topology(vec![shard("s0", "-", Some("a"))], vec![bad_table]);
    let err = Router::build(&missing).unwrap_err();
    assert!(matches!(err, BuildError::MissingShardKey(_)));
    assert_eq!(
        err.to_string(),
        "sharded table public.orders has no shard key column"
    );

    // An unknown hash function.
    let mut unknown = topology(vec![shard("s0", "-", Some("a"))], vec![orders()]);
    unknown.hash_function = "md5".into();
    assert!(matches!(
        Router::build(&unknown),
        Err(BuildError::VSchema(_))
    ));

    // Two serving shards with the same name.
    let dup = topology(
        vec![
            shard("dup", "-80", Some("a")),
            shard("dup", "80-", Some("b")),
        ],
        vec![orders()],
    );
    let err = Router::build(&dup).unwrap_err();
    assert!(matches!(err, BuildError::DuplicateShard(_)));
    assert_eq!(err.to_string(), "duplicate serving shard name \"dup\"");
}

#[test]
fn a_gated_topology_is_refused() {
    let mut gated = topology(vec![shard("s0", "-", Some("a"))], vec![orders()]);
    gated.gates.push(GateSpec {
        id: "cutover".into(),
        mode: GateMode::WritesOnly,
        matcher: GateMatch {
            all: true,
            tables: Vec::new(),
            key_ranges: Vec::new(),
        },
        deadline: 0,
        min_topology_generation: 0,
    });
    assert_eq!(Router::build(&gated).unwrap_err(), BuildError::Gated);
}

#[test]
fn a_valid_but_unsorted_shard_list_still_builds_and_routes() {
    // The topology layer accepts an unsorted-but-partitioning shard list, so
    // the router must too (sort before validating contiguity).
    let r = Router::build(&topology(
        vec![
            shard("s1", "80-", Some("s1p")),
            shard("s0", "-80", Some("s0p")),
        ],
        vec![orders()],
    ))
    .unwrap();
    // SELECT * FROM orders WHERE customer_id = 0
    assert_eq!(
        first(&r, read(all_from("orders", key_is(num(0))))),
        Route::Shard(at("s0", "s0p"))
    );
}

#[test]
fn the_write_lease_runs_out_and_is_renewed_by_the_active_epoch_alone() {
    let r = router();
    assert!(!r.lease_expired(0));
    assert!(!r.lease_expired(9_999));
    assert!(r.lease_expired(10_000));
    assert!(r.lease_expired(11_000));
    assert!(r.renews_lease(7));
    assert!(!r.renews_lease(8));
    assert!(r.check_poll_interval(9).is_ok());
    assert_eq!(
        r.check_poll_interval(10).unwrap_err(),
        "poll interval (10s) must be shorter than the topology's writeLeaseSeconds (10s): \
         a healthy router could not renew its write lease between polls"
    );
}

// ---- scatter reads ---------------------------------------------------------------------

fn sort_by(node: Node, dir: SortDir, nulls: SortNulls) -> Node {
    Node::SortBy(Box::new(SortBy {
        node: Some(node),
        dir,
        nulls,
    }))
}

fn ordered(s: SelectStmt, by: Vec<Node>) -> SelectStmt {
    SelectStmt {
        sort_clause: by,
        ..s
    }
}

fn asc(node: Node) -> Node {
    sort_by(node, SortDir::Default, SortNulls::Default)
}

#[test]
fn plain_projections_concatenate() {
    // SELECT * FROM orders
    assert!(matches!(
        classify_scatter(&read(all_from("orders", None))),
        ScatterPlan::Concat
    ));
    // SELECT id, note FROM orders WHERE note = 'x'
    assert!(matches!(
        classify_scatter(&read(select_from(
            vec![col("id"), col("note")],
            vec![table("orders")],
            Some(eq(col("note"), text("x")))
        ))),
        ScatterPlan::Concat
    ));
}

#[test]
fn an_order_by_over_resolvable_columns_is_a_merge() {
    // Sort keys parse to their output column, direction, and NULLS placement
    // (DESC defaults to NULLS FIRST; an explicit clause wins).
    // SELECT id, note FROM orders ORDER BY note DESC, 1 ASC NULLS LAST
    let ScatterPlan::Ordered(keys) = classify_scatter(&read(ordered(
        select_from(vec![col("id"), col("note")], vec![table("orders")], None),
        vec![
            sort_by(col("note"), SortDir::Desc, SortNulls::Default),
            sort_by(num(1), SortDir::Asc, SortNulls::Last),
        ],
    ))) else {
        panic!("expected an ordered merge");
    };
    assert_eq!(
        keys,
        vec![
            SortKey {
                column: SortColumn::Name("note".into()),
                descending: true,
                nulls_first: true,
            },
            SortKey {
                column: SortColumn::Position(1),
                descending: false,
                nulls_first: false,
            },
        ]
    );
}

#[test]
fn merges_that_need_more_than_sorting_are_unsupported() {
    let all = || all_from("orders", None);
    let note = || select_from(vec![col("note")], vec![table("orders")], None);
    let cases: Vec<(&str, Parsed)> = vec![
        (
            "SELECT * FROM orders LIMIT 10",
            read(SelectStmt {
                limit_count: Some(num(10)),
                ..all()
            }),
        ),
        (
            "SELECT * FROM orders ORDER BY id LIMIT 10",
            read(SelectStmt {
                limit_count: Some(num(10)),
                ..ordered(all(), vec![asc(col("id"))])
            }),
        ),
        (
            "SELECT * FROM orders OFFSET 5",
            read(SelectStmt {
                limit_offset: Some(num(5)),
                ..all()
            }),
        ),
        ("SELECT count(*) FROM orders", read(count_of("orders"))),
        (
            "SELECT DISTINCT note FROM orders",
            read(SelectStmt {
                distinct_clause: vec![Node::Other(vec![])],
                ..note()
            }),
        ),
        (
            "SELECT note FROM orders GROUP BY note",
            read(SelectStmt {
                group_clause: vec![col("note")],
                ..note()
            }),
        ),
        (
            "SELECT note FROM orders HAVING count(*) > 0",
            read(SelectStmt {
                having_clause: Some(op(">", count_star(), num(0))),
                ..note()
            }),
        ),
        (
            "SELECT lower(note) FROM orders",
            read(select_from(
                vec![call(vec![col("note")])],
                vec![table("orders")],
                None,
            )),
        ),
        (
            "SELECT * FROM orders ORDER BY lower(note)",
            read(ordered(all(), vec![asc(call(vec![col("note")]))])),
        ),
        // A qualified reference names a source column; resolving its trailing
        // name against the output schema could merge on a different column of
        // that name (e.g. an alias), so it is rejected as unsound.
        (
            "SELECT * FROM orders ORDER BY orders.id",
            read(ordered(all(), vec![asc(col("orders.id"))])),
        ),
        (
            "SELECT value AS sort_key FROM orders ORDER BY orders.sort_key",
            read(ordered(
                SelectStmt {
                    target_list: vec![target("sort_key", Some(col("value")))],
                    ..all()
                },
                vec![asc(col("orders.sort_key"))],
            )),
        ),
        (
            "SELECT * FROM orders ORDER BY id USING >",
            read(ordered(
                all(),
                vec![sort_by(col("id"), SortDir::Using, SortNulls::Default)],
            )),
        ),
        (
            "WITH orders AS (VALUES (1)) SELECT * FROM orders",
            read(SelectStmt {
                with_clause: with(Node::Select(Box::new(SelectStmt {
                    values_lists: vec![Node::List(vec![num(1)])],
                    ..select()
                }))),
                ..all()
            }),
        ),
        (
            "SELECT * FROM orders FOR UPDATE",
            read(SelectStmt {
                locking_clause: vec![Node::Other(vec![])],
                ..all()
            }),
        ),
        (
            "SELECT * FROM orders UNION SELECT * FROM orders",
            read(set_op(all(), all())),
        ),
        (
            "UPDATE orders SET note = 'x'",
            updated(update("orders", vec![("note", text("x"))], None)),
        ),
    ];
    for (query, parsed) in cases {
        assert!(
            matches!(classify_scatter(&parsed), ScatterPlan::Unsupported),
            "should be unsupported: {query}"
        );
    }
    // A sort position below one names no column; a write into a table is no read.
    assert_eq!(
        classify_scatter(&read(ordered(all(), vec![asc(num(0))]))),
        ScatterPlan::Unsupported
    );
    assert_eq!(
        classify_scatter(&read(SelectStmt {
            into_clause: true,
            ..all()
        })),
        ScatterPlan::Unsupported
    );
}

fn field(name: &str, type_oid: u32) -> Field {
    Field {
        name: name.into(),
        type_oid,
        format: FieldFormat::Text,
        origin: Origin::none(),
    }
}

const TEXT_OID: u32 = 25;
const INT4_OID: u32 = 23;

/// A row of text cells.
fn row(cells: &[Option<&str>]) -> DataRow {
    let mut data = Vec::new();
    for cell in cells {
        match cell {
            Some(s) => {
                data.extend_from_slice(&(s.len() as i32).to_be_bytes());
                data.extend_from_slice(s.as_bytes());
            }
            None => data.extend_from_slice(&(-1i32).to_be_bytes()),
        }
    }
    DataRow {
        data,
        field_count: cells.len() as i16,
    }
}

fn rows_of(type_oid: u32, notes: &[&str]) -> BackendResult {
    BackendResult::Rows {
        schema: vec![field("note", type_oid)],
        rows: notes.iter().map(|n| row(&[Some(n)])).collect(),
        command_tag: Some("SELECT".into()),
    }
}

#[test]
fn a_scatter_concatenates_rows_under_one_schema() {
    let answers = || {
        vec![
            Ok(vec![rows_of(TEXT_OID, &["from-sh0"])]),
            Ok(vec![
                BackendResult::Empty,
                rows_of(TEXT_OID, &["from-sh1", "too"]),
            ]),
        ]
    };
    let (schema, rows) = collect_scatter(answers()).unwrap().unwrap();
    assert_eq!(schema, vec![field("note", TEXT_OID)]);
    assert_eq!(
        rows,
        vec![
            row(&[Some("from-sh0")]),
            row(&[Some("from-sh1")]),
            row(&[Some("too")]),
        ]
    );
    assert!(matches!(
        scatter_response(answers()).unwrap(),
        Response::Query { rows, command_tag: None, .. } if rows.len() == 3
    ));
}

#[test]
fn a_scatter_where_shards_disagree_on_column_type_is_rejected() {
    let err = collect_scatter(vec![
        Ok(vec![rows_of(TEXT_OID, &["x"])]),
        Ok(vec![rows_of(INT4_OID, &["1"])]),
    ])
    .unwrap_err();
    assert_eq!(err.code, "0A000");
    assert_eq!(
        err.message,
        "shards returned different result schemas; a schema change may be mid-rollout"
    );
    assert!(schemas_match(
        &vec![field("a", 23)],
        &vec![field("a", 23)]
    ));
    assert!(!schemas_match(&vec![field("a", 23)], &vec![]));
    assert!(!schemas_match(
        &vec![field("a", 23)],
        &vec![field("b", 23)]
    ));
    let binary = Field {
        format: FieldFormat::Binary,
        ..field("a", 23)
    };
    assert!(!schemas_match(&vec![field("a", 23)], &vec![binary]));
}

#[test]
fn the_first_shard_error_fails_the_whole_scatter() {
    let err = collect_scatter(vec![
        Ok(vec![rows_of(TEXT_OID, &["x"])]),
        Err(user_error("42P01", "gone".to_owned())),
        Err(user_error("08006", "later".to_owned())),
    ])
    .unwrap_err();
    assert_eq!((err.code.as_str(), err.message.as_str()), ("42P01", "gone"));
    // No shard returned rows at all.
    assert_eq!(collect_scatter(vec![Ok(vec![])]).unwrap(), None);
    assert_eq!(
        scatter_response(vec![]).unwrap(),
        Response::Execution("SELECT 0".into())
    );
}

#[test]
fn an_ordered_scatter_merges_by_its_keys() {
    let keys = vec![SortKey {
        column: SortColumn::Name("id".into()),
        descending: true,
        nulls_first: true,
    }];
    let response = ordered_response(
        vec![field("id", INT4_OID)],
        vec![
            row(&[Some("9")]),
            row(&[Some("2")]),
            row(&[None]),
            row(&[Some("10")]),
        ],
        &keys,
        &vec![],
    )
    .unwrap();
    let Response::Query { rows, .. } = response else {
        panic!("expected rows");
    };
    assert_eq!(
        rows,
        vec![
            row(&[None]),
            row(&[Some("10")]),
            row(&[Some("9")]),
            row(&[Some("2")]),
        ]
    );
}

// ---- dispatching -----------------------------------------------------------------------

fn backend() -> Backend {
    Backend {
        user: "postgres".into(),
        password: "postgres".into(),
        system_database: "pgshard_system".into(),
    }
}

const FRESH: Session = Session {
    sequences: true,
    stale: false,
};

const STALE: Session = Session {
    sequences: true,
    stale: true,
};

fn act(parsed: Parsed, session: Session) -> Action {
    do_query(&router(), &parsed, &backend(), session)
}

fn refused(action: Action) -> WireError {
    match action {
        Action::Refuse(e) => e,
        other => panic!("expected a refusal, got {other:?}"),
    }
}

#[test]
fn a_keyed_statement_runs_on_its_shard() {
    // SELECT note FROM orders WHERE customer_id = 1
    assert_eq!(
        act(
            read(select_from(
                vec![col("note")],
                vec![table("orders")],
                key_is(num(1))
            )),
            FRESH
        ),
        Action::Run {
            target: at("s1", "s1p"),
            read_only: false,
        }
    );
    // A global table is served by the system database.
    assert_eq!(
        act(read(all_from("settings", None)), FRESH),
        Action::Run {
            target: at("pgshard_system", "system"),
            read_only: false,
        }
    );
    // A tableless read runs on a shard and returns a real row (liveness probe).
    assert_eq!(
        act(read(select_from(vec![num(1)], vec![], None)), FRESH),
        Action::Run {
            target: at("s0", "s0p"),
            read_only: false,
        }
    );
}

#[test]
fn what_is_not_supported_is_refused_by_its_sqlstate() {
    // A cross-shard write is rejected with SQLSTATE 0A000, not mis-routed.
    // UPDATE orders SET note = 'x'
    assert_eq!(
        refused(act(
            updated(update("orders", vec![("note", text("x"))], None)),
            FRESH
        ))
        .code,
        "0A000"
    );
    // Explicit transaction control is rejected, not silently autocommitted.
    for kind in [
        StatementKind::TxnBegin,
        StatementKind::TxnCommit,
        StatementKind::TxnRollback,
        StatementKind::TxnOther,
    ] {
        assert!(is_transaction_control(&other(kind)));
        let e = refused(act(other(kind), FRESH));
        assert_eq!(e.code, "0A000");
        assert_eq!(
            e.message,
            "transactions are not supported by this router version"
        );
    }
    assert_eq!(
        refused(act(other(StatementKind::Ddl), FRESH)).message,
        "broadcast (multi-shard DDL) is not supported yet"
    );
    assert_eq!(
        refused(act(
            read(all_from("orders", key_is(Node::Param(1)))),
            FRESH
        ))
        .message,
        "parameterized queries require the extended protocol"
    );
    assert_eq!(
        refused(act(read(count_of("orders")), FRESH)).message,
        "this scatter read needs limiting or aggregation that is not supported yet"
    );
    let two = Parsed {
        kinds: vec![StatementKind::Show, StatementKind::Show],
        stmts: vec![Some(Node::Other(vec![])), Some(Node::Other(vec![]))],
    };
    assert_eq!(
        refused(act(two, FRESH)).message,
        "multi-statement simple queries are not supported yet"
    );
}

#[test]
fn an_empty_query_gets_an_empty_response() {
    let none = Parsed {
        kinds: vec![],
        stmts: vec![],
    };
    assert_eq!(act(none, FRESH), Action::EmptyQuery);
}

#[test]
fn keyless_reads_scatter_to_every_shard() {
    // SELECT note FROM orders
    assert_eq!(
        act(
            read(select_from(vec![col("note")], vec![table("orders")], None)),
            FRESH
        ),
        Action::Scatter {
            targets: vec![at("s0", "s0p"), at("s1", "s1p")],
            keys: None,
            read_only: false,
        }
    );
    // SELECT note FROM orders ORDER BY note
    assert_eq!(
        act(
            read(ordered(
                select_from(vec![col("note")], vec![table("orders")], None),
                vec![asc(col("note"))]
            )),
            FRESH
        ),
        Action::Scatter {
            targets: vec![at("s0", "s0p"), at("s1", "s1p")],
            keys: Some(vec![SortKey {
                column: SortColumn::Name("note".into()),
                descending: false,
                nulls_first: false,
            }]),
            read_only: false,
        }
    );
}

/// INSERT INTO orders (customer_id, note) VALUES (1, 'x'), (1, 'y')
fn omitting_insert() -> Parsed {
    inserted(insert(
        "orders",
        &["customer_id", "note"],
        vec![vec![num(1), text("x")], vec![num(1), text("y")]],
    ))
}

#[test]
fn an_omitted_sequence_column_is_filled_before_the_insert_runs() {
    assert_eq!(
        act(omitting_insert(), FRESH),
        Action::Insert {
            target: at("s1", "s1p"),
            injections: vec![SequenceInjection {
                column: "id".into(),
                sequence: "orders_id".into(),
            }],
            rows: 2,
        }
    );
}

#[test]
fn an_insert_needing_a_sequence_is_refused_without_an_allocator() {
    // The INSERT omits the sequence-bound `id`, but no allocator is configured:
    // it fails loudly rather than routing a row with a missing id.
    let e = refused(act(
        omitting_insert(),
        Session {
            sequences: false,
            stale: false,
        },
    ));
    assert_eq!(e.code, "55000");
    assert_eq!(
        e.message,
        "cannot allocate sequence ids: the router has no system database"
    );
}

/// A topology whose only serving shard has no primary (failover in flight):
/// a session-local statement must fail like any unavailable route — never
/// return a fabricated CommandComplete for work that ran nowhere.
#[test]
fn no_primary_refuses_local_statements() {
    let r = Router::build(&topology(vec![shard("s0", "-", None)], vec![orders()])).unwrap();
    // SELECT 1
    let e = refused(do_query(
        &r,
        &read(select_from(vec![num(1)], vec![], None)),
        &backend(),
        FRESH,
    ));
    assert_eq!(e.code, "57P01");
}

#[test]
fn an_expired_lease_blocks_writes_but_not_reads() {
    // Stale beyond the lease: writes refuse, reads still answer.
    let e = refused(act(omitting_insert(), STALE));
    assert_eq!(e.code, "57P01");
    // DELETE FROM orders WHERE customer_id = 1
    assert_eq!(
        refused(act(deleted(delete("orders", key_is(num(1)))), STALE)).code,
        "57P01"
    );
    assert_eq!(
        act(read(all_from("orders", key_is(num(1)))), STALE),
        Action::Run {
            target: at("s1", "s1p"),
            read_only: true,
        }
    );
    // A stale read cannot smuggle a write through a function body: the
    // backend session is read-only, so PostgreSQL itself refuses.
    // SELECT sneaky_write()
    assert_eq!(
        act(read(select_from(vec![call(vec![])], vec![], None)), STALE),
        Action::Run {
            target: at("s0", "s0p"),
            read_only: true,
        }
    );
    assert!(matches!(
        act(read(all_from("orders", None)), STALE),
        Action::Scatter {
            read_only: true,
            ..
        }
    ));
}

#[test]
fn failures_are_answered_with_their_cause() {
    use_error(parse_error("syntax error"), "42601", "could not parse query: syntax error");
    use_error(
        allocation_task_error("cancelled"),
        "XX000",
        "sequence allocation task failed: cancelled",
    );
    use_error(
        allocation_error(&pgshard::reserve::SeqError::Backend("down".into())),
        "55000",
        "sequence allocation failed: sequence backend error: down",
    );
    use_error(
        injection_error(&RewriteError::NotInjectable),
        "XX000",
        "could not inject sequence ids: statement is not a single INSERT with VALUES rows",
    );
}

fn use_error(e: WireError, code: &str, message: &str) {
    assert_eq!((e.code.as_str(), e.message.as_str()), (code, message));
}

// ---- backends --------------------------------------------------------------------------

#[test]
fn command_tag_uses_the_leading_keyword() {
    assert_eq!(command_tag("  insert into t values (1)"), "INSERT");
    assert_eq!(command_tag("SET search_path = app"), "SET");
    assert_eq!(command_tag("begin;"), "BEGIN");
    assert_eq!(command_tag("CREATE(x"), "CREATE");
    assert_eq!(command_tag("   "), "OK");
}

#[test]
fn keywords_outside_ascii_are_uppercased_too() {
    assert_eq!(command_keyword("stra\u{df}e 1"), "STRASSE");
    assert_eq!(text_command_tag("insert into t", 3), "INSERT 0 3");
    assert_eq!(text_command_tag("update t", 3), "UPDATE 3");
}

#[test]
fn text_results_encode_their_rows() {
    let result = text_result(
        "SELECT a, b FROM t",
        vec![
            QueryMessage::RowDescription(vec!["old".into()]),
            QueryMessage::Row(vec![Some("dropped".into())]),
            QueryMessage::RowDescription(vec!["a".into(), "b".into()]),
            QueryMessage::Other,
            QueryMessage::Row(vec![Some("9".into()), None]),
            QueryMessage::Row(vec![Some("h\u{e9}".into()), Some(String::new())]),
            QueryMessage::CommandComplete(2),
        ],
    );
    let BackendResult::Rows {
        schema,
        rows,
        command_tag,
    } = result
    else {
        panic!("expected rows");
    };
    assert_eq!(schema, vec![field("a", 1043), field("b", 1043)]);
    assert_eq!(command_tag, None);
    // What is encoded reads back, NULL as NULL.
    assert_eq!(rows.len(), 2);
    assert_eq!(rows[0].field_count, 2);
    assert_eq!(rows[0].data, b"\x00\x00\x00\x019\xff\xff\xff\xff");
    assert_eq!(field_bytes(&rows[0], 0).unwrap(), Some(b"9".as_slice()));
    assert_eq!(field_bytes(&rows[0], 1).unwrap(), None);
    assert_eq!(
        field_bytes(&rows[1], 0).unwrap(),
        Some("h\u{e9}".as_bytes())
    );
    assert_eq!(field_bytes(&rows[1], 1).unwrap(), Some(b"".as_slice()));
}

#[test]
fn a_text_result_without_rows_is_a_tag() {
    assert_eq!(
        text_result(
            "delete from t",
            vec![QueryMessage::CommandComplete(4), QueryMessage::Other]
        ),
        BackendResult::Command {
            tag: "DELETE 4".into()
        }
    );
    assert_eq!(
        response_from(BackendResult::Command { tag: "SET".into() }),
        Response::Execution("SET".into())
    );
    assert_eq!(response_from(BackendResult::Empty), Response::EmptyQuery);
}

#[test]
fn the_collector_keeps_real_types_and_the_verbatim_tag() {
    let mut c = ResultCollector::new();
    assert_eq!(
        c.on_message(BackendMessage::RowDescription(vec![
            field("customer_id", INT4_OID),
            field("note", TEXT_OID)
        ])),
        Collected::Pending
    );
    assert_eq!(
        c.on_message(BackendMessage::DataRow(row(&[Some("1"), Some("one")]))),
        Collected::Pending
    );
    // A notice or a reported setting may come at any time.
    assert_eq!(
        c.on_message(BackendMessage::Asynchronous),
        Collected::Pending
    );
    c.on_message(BackendMessage::CommandComplete("INSERT 0 1".into()));
    c.on_message(BackendMessage::CommandComplete("DISCARD ALL".into()));
    c.on_message(BackendMessage::EmptyQueryResponse);
    let Collected::Ready(results) = c.on_message(BackendMessage::ReadyForQuery) else {
        panic!("expected results");
    };
    assert_eq!(
        results,
        vec![
            BackendResult::Rows {
                schema: vec![field("customer_id", INT4_OID), field("note", TEXT_OID)],
                rows: vec![row(&[Some("1"), Some("one")])],
                command_tag: Some("INSERT 0".into()),
            },
            BackendResult::Command {
                tag: "DISCARD ALL".into()
            },
            BackendResult::Empty,
        ]
    );
    // The next query starts from nothing.
    assert_eq!(
        c.on_message(BackendMessage::ReadyForQuery),
        Collected::Ready(vec![])
    );
}

#[test]
fn the_collector_refuses_rows_without_a_description() {
    let mut c = ResultCollector::new();
    assert_eq!(
        c.on_message(BackendMessage::DataRow(row(&[None]))),
        Collected::Unexpected
    );
    assert_eq!(c.on_message(BackendMessage::Other), Collected::Unexpected);
    assert_eq!(
        c.on_message(BackendMessage::ErrorResponse("42P01".into(), "gone".into())),
        Collected::Failed("42P01".into(), "gone".into())
    );
    // A tag without a count is kept whole.
    c.on_message(BackendMessage::RowDescription(vec![]));
    c.on_message(BackendMessage::CommandComplete("SHOW".into()));
    let Collected::Ready(results) = c.on_message(BackendMessage::ReadyForQuery) else {
        panic!("expected results");
    };
    assert!(matches!(
        &results[0],
        BackendResult::Rows { command_tag: Some(t), .. } if t == "SHOW"
    ));
}

#[test]
fn backends_connect_as_the_router() {
    let t = TokioPostgresBackend::new(backend()).config(&instance("s0p"), "s0", true);
    assert_eq!(
        (t.host.as_str(), t.port, t.user.as_str(), t.dbname.as_str()),
        ("s0p-host", 5432, "postgres", "s0")
    );
    assert_eq!(
        t.options.as_deref(),
        Some("-c default_transaction_read_only=on")
    );
    let w = PgWireBackend::new(backend()).config(&instance("s0p"), "s0", false);
    assert_eq!(w.password, "postgres");
    assert_eq!(w.options, None);
    use_error(
        pgshard::backend::backend_error(None, "refused"),
        "08006",
        "backend connection failed: refused",
    );
    use_error(
        pgshard::backend::backend_error(Some(("42601".into(), "no".into())), "x"),
        "42601",
        "no",
    );
}

#[test]
fn watch_topology_applies_higher_epochs_and_keeps_the_last_good_router() {
    let pair = || {
        vec![
            shard("s0", "-80", Some("s0p")),
            shard("s1", "80-", Some("s1p")),
        ]
    };
    let base = topology(pair(), vec![orders()]); // epoch 7
    let router = std::sync::Arc::new(Router::build(&base).unwrap());
    assert_eq!(router.epoch(), 7);

    // A higher-epoch valid topology is applied.
    let mut newer = topology(pair(), vec![orders()]);
    newer.epoch = 8;
    let (router, error) = watch_topology(router, &newer);
    assert_eq!(router.epoch(), 8);
    assert!(error.is_none());

    // A topology that fails to build (unknown hash function) is skipped; the
    // last good router stays serving.
    let mut broken = topology(pair(), vec![orders()]);
    broken.epoch = 9;
    broken.hash_function = "md5".into();
    let (router, error) = watch_topology(router, &broken);
    assert_eq!(
        router.epoch(),
        8,
        "a build error must keep the last good router"
    );
    assert!(matches!(error, Some(BuildError::VSchema(_))));
}
