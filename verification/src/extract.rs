//! Pulling shard-key values and table names out of a parsed statement.
//!
//! The guarantee every extractor keeps: the returned value set `V` is such that
//! *every row the statement can match has its shard key in `V`*. An empty set
//! means no such guarantee (the statement is unkeyed). This is what makes it
//! safe to route a read to the union of `V`'s shards and to reject a write
//! whose `V` spans shards — the planner never under-routes.
use crate::ast::{AExpr, BoolOp, Const, ConstValue, ExprKind, InsertStmt, Node, RangeVar};
use crate::shardfn::{KeyValue, ScalarValue};
use crate::text;
use crate::vschema::{TableKey, TableName};
use vstd::prelude::*;
use vstd::string::*;

verus! {

/// A shard-key value read from a statement.
#[derive(Debug, Clone, PartialEq, Eq)]
pub enum KeyVal {
    /// A literal, hashable now.
    Const(ScalarValue),
    /// A `$n` placeholder (1-based); its value is known only at Bind.
    Param(u32),
}

/// What a shard-key value is.
pub enum KeyRef {
    Const(KeyValue),
    Param(u32),
}

impl View for KeyVal {
    type V = KeyRef;

    open spec fn view(&self) -> KeyRef {
        match self {
            KeyVal::Const(v) => KeyRef::Const(v@),
            KeyVal::Param(n) => KeyRef::Param(*n),
        }
    }
}

pub open spec fn key_views(s: Seq<KeyVal>) -> Seq<KeyRef> {
    s.map_values(|v: KeyVal| v@)
}

/// The relation that a table reference names; an unqualified name is in `public`.
pub open spec fn table_of(rv: RangeVar) -> TableKey {
    (
        if rv.schemaname@.len() == 0 {
            "public"@
        } else {
            rv.schemaname@
        },
        rv.relname@,
    )
}

/// The relation name a `RangeVar` refers to, defaulting an unqualified name to
/// `public` (`search_path` is not modelled).
pub fn range_var_table(rv: &RangeVar) -> (r: TableName)
    ensures
        r@ == table_of(*rv),
{
    if rv.schemaname.as_str().is_empty() {
        TableName::new("public", rv.relname.as_str())
    } else {
        TableName::new(rv.schemaname.as_str(), rv.relname.as_str())
    }
}

/// The value of a literal that can be hashed: an integer or a string. A number that is no
/// 32-bit integer counts where it is a 64-bit one.
pub open spec fn const_value(c: Const) -> Option<KeyValue> {
    if c.isnull {
        None
    } else {
        match c.val {
            Some(ConstValue::Integer(i)) => Some(KeyValue::Int64(i as i64)),
            Some(ConstValue::Float(f)) => match text::parse_i64(f@) {
                Some(v) => Some(KeyValue::Int64(v)),
                None => None,
            },
            Some(ConstValue::Text(s)) => Some(KeyValue::Text(s@)),
            _ => None,
        }
    }
}

fn scalar_from_const(c: &Const) -> (r: Option<ScalarValue>)
    ensures
        match r {
            Some(v) => const_value(*c) == Some(v@),
            None => const_value(*c) is None,
        },
{
    if c.isnull {
        return None;
    }
    match &c.val {
        Some(ConstValue::Integer(i)) => Some(ScalarValue::Int64(*i as i64)),
        Some(ConstValue::Float(f)) => match text::read_i64(&text::chars(f.as_str())) {
            Some(v) => Some(ScalarValue::Int64(v)),
            None => None,
        },
        Some(ConstValue::Text(s)) => Some(ScalarValue::Text(s.clone())),
        _ => None,
    }
}

/// The value of an expression that can be read: a literal or a placeholder.
pub open spec fn node_value(n: Node) -> Option<KeyRef> {
    match n {
        Node::Const(c) => match const_value(c) {
            Some(v) => Some(KeyRef::Const(v)),
            None => None,
        },
        Node::Param(p) => if p > 0 {
            Some(KeyRef::Param(p as u32))
        } else {
            None
        },
        _ => None,
    }
}

/// A single value expression (a literal or `$n`) as a [`KeyVal`], or `None` for
/// anything the planner cannot pin (function calls, expressions, unsupported
/// literal types).
fn key_val(n: &Node) -> (r: Option<KeyVal>)
    ensures
        match r {
            Some(v) => node_value(*n) == Some(v@),
            None => node_value(*n) is None,
        },
{
    match n {
        Node::Const(c) => match scalar_from_const(c) {
            Some(v) => Some(KeyVal::Const(v)),
            None => None,
        },
        Node::Param(p) => if *p > 0 {
            Some(KeyVal::Param(*p as u32))
        } else {
            None
        },
        _ => None,
    }
}

/// Whether a node is a reference to the column, qualified or not.
pub open spec fn names_column(n: Node, column: Seq<char>) -> bool {
    match n {
        Node::Column(fields) => fields@.len() > 0 && (fields@.last() matches Node::Name(s) && s@
            == column),
        _ => false,
    }
}

/// True when `n` is a column reference naming `key_col`.
fn is_key_column(n: &Node, key_col: &str) -> (r: bool)
    ensures
        r == names_column(*n, key_col@),
{
    match n {
        Node::Column(fields) => {
            if fields.len() == 0 {
                return false;
            }
            match &fields[fields.len() - 1] {
                Node::Name(s) => text::same(s.as_str(), key_col),
                _ => false,
            }
        },
        _ => false,
    }
}

/// Whether the operator is `=`. `IN` also uses `=` as its element operator.
pub open spec fn is_equality(e: AExpr) -> bool {
    e.name@.len() == 1 && e.name@[0]@ == "="@
}

fn is_eq_operator(e: &AExpr) -> (r: bool)
    ensures
        r == is_equality(*e),
{
    e.name.len() == 1 && text::same(e.name[0].as_str(), "=")
}

/// The values of the elements of a list, where every one of them can be read.
pub open spec fn list_values(s: Seq<Node>) -> Option<Seq<KeyRef>>
    decreases s.len(),
{
    if s.len() == 0 {
        Some(Seq::empty())
    } else {
        match (list_values(s.drop_last()), node_value(s.last())) {
            (Some(vs), Some(v)) => Some(vs.push(v)),
            _ => None,
        }
    }
}

/// The values that a comparison admits for the column: one for `column = value`, those of
/// the list for `column IN (...)`. None where it says nothing that can be read.
pub open spec fn expr_values(e: AExpr, column: Seq<char>) -> Seq<KeyRef> {
    match (e.lexpr, e.rexpr) {
        (Some(l), Some(r)) => if e.kind == ExprKind::Op && is_equality(e) {
            let operand = if names_column(l, column) {
                node_value(r)
            } else if names_column(r, column) {
                node_value(l)
            } else {
                None
            };
            match operand {
                Some(v) => seq![v],
                None => Seq::empty(),
            }
        } else if e.kind == ExprKind::In && is_equality(e) && names_column(l, column) {
            match r {
                Node::List(items) => match list_values(items@) {
                    Some(vs) => vs,
                    None => Seq::empty(),
                },
                _ => Seq::empty(),
            }
        } else {
            Seq::empty()
        },
        _ => Seq::empty(),
    }
}

/// The values that the conjuncts of a list admit, in order.
pub open spec fn conjuncts_values(s: Seq<Node>, column: Seq<char>) -> Seq<KeyRef>
    decreases s,
{
    if s.len() == 0 {
        Seq::empty()
    } else {
        condition_values(s[0], column) + conjuncts_values(s.drop_first(), column)
    }
}

/// The values that a condition admits for the column, from its AND-reachable comparisons.
pub open spec fn condition_values(n: Node, column: Seq<char>) -> Seq<KeyRef>
    decreases n,
{
    match n {
        Node::Bool(BoolOp::And, args) => conjuncts_values(args@, column),
        Node::Expr(e) => expr_values(*e, column),
        _ => Seq::empty(),
    }
}

/// The values that a `WHERE` clause admits for the column.
pub open spec fn where_values(w: Option<Node>, column: Seq<char>) -> Seq<KeyRef> {
    match w {
        Some(n) => condition_values(n, column),
        None => Seq::empty(),
    }
}

/// Collect shard-key values guaranteed to bound the matching rows, from a WHERE
/// clause (or any boolean expression). Only AND-reachable `key = value` and
/// `key IN (...)` constraints contribute; OR/NOT subtrees are not descended, so
/// the result stays a sound over-approximation. An `IN` list contributes only
/// if every element is a value the planner can read.
pub fn where_key_values(where_clause: &Option<Node>, key_col: &str) -> (r: Vec<KeyVal>)
    ensures
        key_views(r@) == where_values(*where_clause, key_col@),
{
    let mut out: Vec<KeyVal> = Vec::new();
    if let Some(n) = where_clause {
        collect_and(n, key_col, &mut out);
    }
    proof {
        assert(key_views(out@) =~= where_values(*where_clause, key_col@));
    }
    out
}

fn collect_and(n: &Node, key_col: &str, out: &mut Vec<KeyVal>)
    ensures
        key_views(final(out)@) == key_views(old(out)@) + condition_values(*n, key_col@),
    decreases n,
{
    match n {
        Node::Bool(BoolOp::And, args) => collect_all(args, key_col, out),
        Node::Expr(e) => collect_a_expr(e, key_col, out),
        _ => {
            proof {
                assert(key_views(out@) + Seq::<KeyRef>::empty() =~= key_views(out@));
            }
        },
    }
}

fn collect_all(args: &Vec<Node>, key_col: &str, out: &mut Vec<KeyVal>)
    ensures
        key_views(final(out)@) == key_views(old(out)@) + conjuncts_values(args@, key_col@),
    decreases args,
{
    let mut i: usize = 0;
    let ghost start = key_views(out@);
    proof {
        assert(args@.skip(0) =~= args@);
        assert(start + Seq::<KeyRef>::empty() =~= start);
    }
    while i < args.len()
        invariant
            i <= args@.len(),
            key_views(out@) + conjuncts_values(args@.skip(i as int), key_col@) == start
                + conjuncts_values(args@, key_col@),
        decreases args@.len() - i,
    {
        let ghost before = key_views(out@);
        collect_and(&args[i], key_col, out);
        proof {
            let rest = args@.skip(i as int);
            assert(rest[0] == args@[i as int]);
            assert(rest.drop_first() =~= args@.skip(i + 1));
            let v = condition_values(rest[0], key_col@);
            let w = conjuncts_values(args@.skip(i + 1), key_col@);
            assert(before + (v + w) =~= (before + v) + w);
        }
        i += 1;
    }
    proof {
        assert(args@.skip(args@.len() as int) =~= Seq::<Node>::empty());
        assert(key_views(out@) + Seq::<KeyRef>::empty() =~= key_views(out@));
    }
}

fn collect_a_expr(e: &AExpr, key_col: &str, out: &mut Vec<KeyVal>)
    ensures
        key_views(final(out)@) == key_views(old(out)@) + expr_values(*e, key_col@),
{
    proof {
        assert(key_views(out@) + Seq::<KeyRef>::empty() =~= key_views(out@));
    }
    let (lhs, rhs) = match (&e.lexpr, &e.rexpr) {
        (Some(l), Some(r)) => (l, r),
        _ => return,
    };
    if e.kind == ExprKind::Op && is_eq_operator(e) {
        if is_key_column(lhs, key_col) {
            push_value(rhs, out);
        } else if is_key_column(rhs, key_col) {
            push_value(lhs, out);
        }
    } else if e.kind == ExprKind::In && is_eq_operator(e) && is_key_column(lhs, key_col) {
        if let Node::List(items) = rhs {
            if let Some(vals) = read_list(items) {
                let mut vals = vals;
                let ghost a = out@;
                let ghost b = vals@;
                out.append(&mut vals);
                proof {
                    assert(key_views(a + b) =~= key_views(a) + key_views(b));
                }
            }
        }
    }
}

/// The values of the elements, or `None` where one of them cannot be read: the set is then
/// unbounded from here, and the whole constraint is dropped.
fn read_list(items: &Vec<Node>) -> (r: Option<Vec<KeyVal>>)
    ensures
        match r {
            Some(v) => list_values(items@) == Some(key_views(v@)),
            None => list_values(items@) is None,
        },
{
    let mut vals: Vec<KeyVal> = Vec::new();
    let mut i: usize = 0;
    proof {
        assert(items@.take(0) =~= Seq::<Node>::empty());
        assert(key_views(vals@) =~= Seq::<KeyRef>::empty());
    }
    while i < items.len()
        invariant
            i <= items@.len(),
            list_values(items@.take(i as int)) == Some(key_views(vals@)),
        decreases items@.len() - i,
    {
        proof {
            assert(items@.take(i + 1).drop_last() =~= items@.take(i as int));
        }
        match key_val(&items[i]) {
            Some(v) => {
                let ghost before = vals@;
                vals.push(v);
                proof {
                    assert(key_views(vals@) =~= key_views(before).push(v@));
                }
            },
            None => {
                proof {
                    lemma_unreadable(items@, i as int);
                }
                return None;
            },
        }
        i += 1;
    }
    proof {
        assert(items@.take(items@.len() as int) =~= items@);
    }
    Some(vals)
}

/// A list with an element that cannot be read has no values.
proof fn lemma_unreadable(s: Seq<Node>, i: int)
    requires
        0 <= i < s.len(),
        node_value(s[i]) is None,
    ensures
        list_values(s) is None,
    decreases s.len(),
{
    if i < s.len() - 1 {
        lemma_unreadable(s.drop_last(), i);
    }
}

fn push_value(n: &Node, out: &mut Vec<KeyVal>)
    ensures
        key_views(final(out)@) == key_views(old(out)@) + (match node_value(*n) {
            Some(v) => seq![v],
            None => Seq::empty(),
        }),
{
    let ghost before = out@;
    if let Some(v) = key_val(n) {
        out.push(v);
        proof {
            assert(key_views(out@) =~= key_views(before) + seq![v@]);
        }
    } else {
        proof {
            assert(key_views(before) + Seq::<KeyRef>::empty() =~= key_views(before));
        }
    }
}

/// Whether an item of a column list or an assignment names the column.
pub open spec fn targets_column(n: Node, column: Seq<char>) -> bool {
    n matches Node::Target(t) && t.name@ == column
}

fn is_target_of(n: &Node, column: &str) -> (r: bool)
    ensures
        r == targets_column(*n, column@),
{
    match n {
        Node::Target(t) => text::same(t.name.as_str(), column),
        _ => false,
    }
}

/// The position of the first item that names the column, or the length.
pub open spec fn column_position(s: Seq<Node>, column: Seq<char>) -> int
    decreases s.len(),
{
    if s.len() == 0 || targets_column(s[0], column) {
        0
    } else {
        1 + column_position(s.drop_first(), column)
    }
}

/// The value in cell `at` of a row, where it can be read.
pub open spec fn cell_value(row: Node, at: int) -> Option<KeyRef> {
    match row {
        Node::List(items) => if 0 <= at < items@.len() {
            node_value(items@[at])
        } else {
            None
        },
        _ => None,
    }
}

/// The values in cell `at` of the rows, where every one of them can be read.
pub open spec fn cells_values(rows: Seq<Node>, at: int) -> Option<Seq<KeyRef>>
    decreases rows.len(),
{
    if rows.len() == 0 {
        Some(Seq::empty())
    } else {
        match (cells_values(rows.drop_last(), at), cell_value(rows.last(), at)) {
            (Some(vs), Some(v)) => Some(vs.push(v)),
            _ => None,
        }
    }
}

/// The shard-key value of each row that the statement inserts, where they can be read.
pub open spec fn insert_values(ins: InsertStmt, column: Seq<char>) -> Option<Seq<KeyRef>> {
    let at = column_position(ins.cols@, column);
    if at >= ins.cols@.len() {
        None
    } else {
        match ins.select_stmt {
            Some(Node::Select(sel)) => if sel.values_lists@.len() == 0 {
                None
            } else {
                cells_values(sel.values_lists@, at)
            },
            _ => None,
        }
    }
}

proof fn lemma_column_position(s: Seq<Node>, column: Seq<char>)
    ensures
        0 <= column_position(s, column) <= s.len(),
        column_position(s, column) < s.len() ==> targets_column(
            s[column_position(s, column)],
            column,
        ),
        forall|i: int|
            0 <= i < column_position(s, column) ==> !targets_column(#[trigger] s[i], column),
    decreases s.len(),
{
    if s.len() > 0 && !targets_column(s[0], column) {
        let t = s.drop_first();
        lemma_column_position(t, column);
        assert forall|i: int| 0 <= i < column_position(s, column) implies !targets_column(
            #[trigger] s[i],
            column,
        ) by {
            if i > 0 {
                assert(s[i] == t[i - 1]);
            }
        }
        if column_position(s, column) < s.len() {
            assert(t[column_position(t, column)] == s[column_position(t, column) + 1]);
        }
    }
}

proof fn lemma_unreadable_cell(rows: Seq<Node>, at: int, i: int)
    requires
        0 <= i < rows.len(),
        cell_value(rows[i], at) is None,
    ensures
        cells_values(rows, at) is None,
    decreases rows.len(),
{
    if i < rows.len() - 1 {
        lemma_unreadable_cell(rows.drop_last(), at, i);
    }
}

/// The shard-key values of an `INSERT`, one per row, or `None` when they cannot
/// be read: no explicit column list, the shard-key column absent, an
/// `INSERT ... SELECT`, or a row whose shard-key cell is not a literal/param
/// (e.g. `DEFAULT` or an expression). `None` forces the write to be rejected
/// rather than mis-routed.
pub fn insert_key_values(ins: &InsertStmt, key_col: &str) -> (r: Option<Vec<KeyVal>>)
    ensures
        match r {
            Some(v) => insert_values(*ins, key_col@) == Some(key_views(v@)),
            None => insert_values(*ins, key_col@) is None,
        },
{
    let mut at: usize = 0;
    while at < ins.cols.len() && !is_target_of(&ins.cols[at], key_col)
        invariant
            at <= ins.cols@.len(),
            forall|k: int| 0 <= k < at ==> !targets_column(#[trigger] ins.cols@[k], key_col@),
        decreases ins.cols@.len() - at,
    {
        at += 1;
    }
    proof {
        lemma_column_position(ins.cols@, key_col@);
        assert(at == column_position(ins.cols@, key_col@));
    }
    if at == ins.cols.len() {
        return None;
    }
    let sel = match &ins.select_stmt {
        Some(Node::Select(sel)) => sel,
        _ => return None,
    };
    let rows = &sel.values_lists;
    if rows.len() == 0 {
        return None;
    }
    let mut out: Vec<KeyVal> = Vec::new();
    let mut i: usize = 0;
    proof {
        assert(rows@.take(0) =~= Seq::<Node>::empty());
        assert(key_views(out@) =~= Seq::<KeyRef>::empty());
    }
    while i < rows.len()
        invariant
            i <= rows@.len(),
            cells_values(rows@.take(i as int), at as int) == Some(key_views(out@)),
            ins.select_stmt matches Some(Node::Select(sel)) && sel.values_lists@ == rows@,
            rows@.len() > 0,
            at == column_position(ins.cols@, key_col@),
            at < ins.cols@.len(),
        decreases rows@.len() - i,
    {
        proof {
            assert(rows@.take(i + 1).drop_last() =~= rows@.take(i as int));
        }
        let cell = match &rows[i] {
            Node::List(items) => if at < items.len() {
                key_val(&items[at])
            } else {
                None
            },
            _ => None,
        };
        assert(match cell {
            Some(v) => cell_value(rows@[i as int], at as int) == Some(v@),
            None => cell_value(rows@[i as int], at as int) is None,
        });
        match cell {
            Some(v) => {
                let ghost before = out@;
                out.push(v);
                proof {
                    assert(key_views(out@) =~= key_views(before).push(v@));
                }
            },
            None => {
                proof {
                    lemma_unreadable_cell(rows@, at as int, i as int);
                }
                return None;
            },
        }
        i += 1;
    }
    proof {
        assert(rows@.take(rows@.len() as int) =~= rows@);
    }
    Some(out)
}

/// True when a `SET` target list (UPDATE) assigns to `key_col`.
pub fn sets_column(target_list: &Vec<Node>, key_col: &str) -> (r: bool)
    ensures
        r == assigns(target_list@, key_col@),
{
    let mut i: usize = 0;
    while i < target_list.len()
        invariant
            i <= target_list@.len(),
            forall|k: int| 0 <= k < i ==> !targets_column(#[trigger] target_list@[k], key_col@),
        decreases target_list@.len() - i,
    {
        if is_target_of(&target_list[i], key_col) {
            assert(targets_column(target_list@[i as int], key_col@));
            return true;
        }
        i += 1;
    }
    false
}

/// Whether a list of assignments assigns to the column.
pub open spec fn assigns(s: Seq<Node>, column: Seq<char>) -> bool {
    exists|i: int| 0 <= i < s.len() && targets_column(#[trigger] s[i], column)
}

/// The relations of a FROM clause and whether every item is a plain table
/// reference. `all_plain` is false when any item is a subquery, function, or
/// other source that is no table: the planner cannot see which relations such an
/// item hides (a subquery may scan a sharded table on another shard), so it must
/// refuse to key-route past one.
pub struct FromClause {
    pub tables: Vec<TableName>,
    pub all_plain: bool,
}

pub open spec fn table_views(s: Seq<TableName>) -> Seq<TableKey> {
    s.map_values(|t: TableName| t@)
}

/// The tables that a FROM item names, in order.
pub open spec fn item_tables(n: Node) -> Seq<TableKey>
    decreases n,
{
    match n {
        Node::Table(rv) => seq![table_of(rv)],
        Node::Join(j) => side_tables(j.larg) + side_tables(j.rarg),
        _ => Seq::empty(),
    }
}

/// The tables that a side of a join names.
pub open spec fn side_tables(o: Option<Node>) -> Seq<TableKey>
    decreases o,
{
    match o {
        Some(n) => item_tables(n),
        None => Seq::empty(),
    }
}

/// Whether a FROM item consists of tables and joins of tables.
pub open spec fn item_plain(n: Node) -> bool
    decreases n,
{
    match n {
        Node::Table(rv) => true,
        Node::Join(j) => side_plain(j.larg) && side_plain(j.rarg),
        _ => false,
    }
}

pub open spec fn side_plain(o: Option<Node>) -> bool
    decreases o,
{
    match o {
        Some(n) => item_plain(n),
        None => true,
    }
}

/// The tables that a FROM clause names, in order.
pub open spec fn from_tables(s: Seq<Node>) -> Seq<TableKey>
    decreases s.len(),
{
    if s.len() == 0 {
        Seq::empty()
    } else {
        from_tables(s.drop_last()) + item_tables(s.last())
    }
}

/// Whether a FROM clause consists of tables and joins of tables.
pub open spec fn from_plain(s: Seq<Node>) -> bool {
    forall|i: int| 0 <= i < s.len() ==> item_plain(#[trigger] s[i])
}

pub fn analyze_from(from_clause: &Vec<Node>) -> (r: FromClause)
    ensures
        table_views(r.tables@) == from_tables(from_clause@),
        r.all_plain == from_plain(from_clause@),
{
    let mut fc = FromClause { tables: Vec::new(), all_plain: true };
    let mut i: usize = 0;
    proof {
        assert(from_clause@.take(0) =~= Seq::<Node>::empty());
        assert(table_views(fc.tables@) =~= Seq::<TableKey>::empty());
    }
    while i < from_clause.len()
        invariant
            i <= from_clause@.len(),
            table_views(fc.tables@) == from_tables(from_clause@.take(i as int)),
            fc.all_plain == (forall|k: int| 0 <= k < i ==> item_plain(#[trigger] from_clause@[k])),
        decreases from_clause@.len() - i,
    {
        proof {
            assert(from_clause@.take(i + 1).drop_last() =~= from_clause@.take(i as int));
        }
        collect_from(&from_clause[i], &mut fc);
        i += 1;
    }
    proof {
        assert(from_clause@.take(from_clause@.len() as int) =~= from_clause@);
    }
    fc
}

fn collect_from(n: &Node, fc: &mut FromClause)
    ensures
        table_views(final(fc).tables@) == table_views(old(fc).tables@) + item_tables(*n),
        final(fc).all_plain == (old(fc).all_plain && item_plain(*n)),
    decreases n,
{
    let ghost before = fc.tables@;
    match n {
        Node::Table(rv) => {
            let t = range_var_table(rv);
            fc.tables.push(t);
            proof {
                assert(table_views(fc.tables@) =~= table_views(before) + seq![table_of(*rv)]);
            }
        },
        Node::Join(j) => {
            collect_side(&j.larg, fc);
            collect_side(&j.rarg, fc);
            proof {
                assert((table_views(before) + side_tables(j.larg)) + side_tables(j.rarg)
                    =~= table_views(before) + (side_tables(j.larg) + side_tables(j.rarg)));
            }
        },
        // A subquery, function, or anything else in the FROM: its relations are
        // invisible to shard-key extraction.
        _ => {
            fc.all_plain = false;
            proof {
                assert(table_views(before) + Seq::<TableKey>::empty() =~= table_views(before));
            }
        },
    }
}

fn collect_side(o: &Option<Node>, fc: &mut FromClause)
    ensures
        table_views(final(fc).tables@) == table_views(old(fc).tables@) + side_tables(*o),
        final(fc).all_plain == (old(fc).all_plain && side_plain(*o)),
    decreases o,
{
    match o {
        Some(n) => collect_from(n, fc),
        None => {
            proof {
                assert(table_views(fc.tables@) + Seq::<TableKey>::empty() =~= table_views(
                    fc.tables@,
                ));
            }
        },
    }
}

// ---------------------------------------------------------------------------------------
// What the values mean.
// ---------------------------------------------------------------------------------------

/// Whether `truth` is a possible truth of conditions for one row whose column has the value
/// `stored`, where `value` gives what a literal or a placeholder is: a conjunction holds
/// only where its parts do, an equality with the column only where the values are the same,
/// and a membership only where the value is one of the list's.
pub open spec fn faithful<K>(
    truth: spec_fn(Node) -> bool,
    value: spec_fn(KeyRef) -> K,
    column: Seq<char>,
    stored: K,
) -> bool {
    &&& forall|args: Vec<Node>, i: int|
        #![trigger truth(Node::Bool(BoolOp::And, args)), args@[i]]
        truth(Node::Bool(BoolOp::And, args)) && 0 <= i < args@.len() ==> truth(args@[i])
    &&& forall|e: Box<AExpr>| #[trigger]
        truth(Node::Expr(e)) && e.kind == ExprKind::Op && is_equality(*e)
            && e.lexpr is Some && e.rexpr is Some ==> {
            &&& names_column(e.lexpr->0, column) && node_value(e.rexpr->0) is Some ==> stored
                == value(node_value(e.rexpr->0)->0)
            &&& names_column(e.rexpr->0, column) && node_value(e.lexpr->0) is Some ==> stored
                == value(node_value(e.lexpr->0)->0)
        }
    &&& forall|e: Box<AExpr>| #[trigger]
        truth(Node::Expr(e)) && e.kind == ExprKind::In && is_equality(*e) && e.lexpr
            is Some && names_column(e.lexpr->0, column) ==> match e.rexpr {
            Some(Node::List(items)) => match list_values(items@) {
                Some(vs) => exists|i: int| 0 <= i < vs.len() && value(#[trigger] vs[i]) == stored,
                None => true,
            },
            _ => true,
        }
}

/// Whether the value is one of those read.
pub open spec fn covered<K>(vs: Seq<KeyRef>, value: spec_fn(KeyRef) -> K, stored: K) -> bool {
    exists|i: int| 0 <= i < vs.len() && value(#[trigger] vs[i]) == stored
}

proof fn lemma_conjuncts_cover<K>(
    s: Seq<Node>,
    truth: spec_fn(Node) -> bool,
    value: spec_fn(KeyRef) -> K,
    column: Seq<char>,
    stored: K,
)
    requires
        faithful(truth, value, column, stored),
        forall|i: int| 0 <= i < s.len() ==> truth(#[trigger] s[i]),
        conjuncts_values(s, column).len() > 0,
    ensures
        covered(conjuncts_values(s, column), value, stored),
    decreases s,
{
    if s.len() > 0 {
        let a = condition_values(s[0], column);
        let b = conjuncts_values(s.drop_first(), column);
        if a.len() > 0 {
            law_values_cover_matching_rows(s[0], truth, value, column, stored);
            let i = choose|i: int| 0 <= i < a.len() && value(#[trigger] a[i]) == stored;
            assert((a + b)[i] == a[i]);
        } else {
            assert forall|i: int| 0 <= i < s.drop_first().len() implies truth(
                #[trigger] s.drop_first()[i],
            ) by {
                assert(s.drop_first()[i] == s[i + 1]);
            }
            assert(a + b =~= b);
            lemma_conjuncts_cover(s.drop_first(), truth, value, column, stored);
        }
    }
}

/// Every row that a condition can match has its shard key among the values read from it,
/// where any are read.
pub proof fn law_values_cover_matching_rows<K>(
    n: Node,
    truth: spec_fn(Node) -> bool,
    value: spec_fn(KeyRef) -> K,
    column: Seq<char>,
    stored: K,
)
    requires
        faithful(truth, value, column, stored),
        truth(n),
        condition_values(n, column).len() > 0,
    ensures
        covered(condition_values(n, column), value, stored),
    decreases n,
{
    match n {
        Node::Bool(BoolOp::And, args) => {
            assert forall|i: int| 0 <= i < args@.len() implies truth(#[trigger] args@[i]) by {}
            lemma_conjuncts_cover(args@, truth, value, column, stored);
        },
        Node::Expr(e) => {
            let vs = expr_values(*e, column);
            assert(n == Node::Expr(e));
            if e.kind == ExprKind::Op {
                assert(value(vs[0]) == stored);
            }
        },
        _ => {},
    }
}

// ---------------------------------------------------------------------------------------
// What is read.
// ---------------------------------------------------------------------------------------

/// A reference names its own relation: the schema it is qualified with, else `public`, and
/// never another table.
pub proof fn law_references_name_their_relation(a: RangeVar, b: RangeVar)
    ensures
        table_of(a).1 == a.relname@,
        a.schemaname@.len() > 0 ==> table_of(a).0 == a.schemaname@,
        a.schemaname@.len() == 0 ==> table_of(a).0 == "public"@,
        table_of(a) == table_of(b) ==> a.relname@ == b.relname@,
{
}

/// Literals and placeholders are read as what they say: integers of any width and strings as
/// themselves, `$n` as its number; a NULL, a placeholder without a number and any other
/// expression are not read.
pub proof fn law_literals_are_read_as_written(c: Const, n: i32, v: i64)
    ensures
        c.isnull ==> node_value(Node::Const(c)) is None,
        !c.isnull && c.val is None ==> node_value(Node::Const(c)) is None,
        !c.isnull ==> (match c.val {
            Some(ConstValue::Integer(i)) => node_value(Node::Const(c)) == Some(
                KeyRef::Const(KeyValue::Int64(i as i64)),
            ),
            Some(ConstValue::Text(s)) => node_value(Node::Const(c)) == Some(
                KeyRef::Const(KeyValue::Text(s@)),
            ),
            Some(ConstValue::Float(f)) => f@ == text::decimal(v as int) ==> node_value(
                Node::Const(c),
            ) == Some(KeyRef::Const(KeyValue::Int64(v))),
            Some(ConstValue::Other) => node_value(Node::Const(c)) is None,
            None => true,
        }),
        n > 0 ==> node_value(Node::Param(n)) == Some(KeyRef::Param(n as u32)),
        n <= 0 ==> node_value(Node::Param(n)) is None,
{
    text::law_integers_read_back(v, 0);
}

/// Only literals and placeholders have values that can be read.
pub proof fn law_only_literals_and_placeholders_are_read(n: Node)
    ensures
        node_value(n) is Some ==> n is Const || n is Param,
        node_value(n) matches Some(KeyRef::Const(_)) ==> n is Const,
        node_value(n) matches Some(KeyRef::Param(_)) ==> n is Param,
{
}

/// A column is named by the last part of its reference, qualified or not.
pub proof fn law_columns_go_by_their_last_name(fields: Vec<Node>, name: String, column: Seq<char>)
    requires
        fields@.len() > 0,
        fields@.last() == Node::Name(name),
    ensures
        names_column(Node::Column(fields), column) <==> name@ == column,
{
}

/// `column = value` constrains the column to the value, on either side of the sign; an
/// inequality, a comparison of other columns, and a value that cannot be read say nothing.
pub proof fn law_equalities_are_read(e: Box<AExpr>, l: Node, r: Node, v: KeyRef, column: Seq<char>)
    requires
        e.lexpr == Some(l),
        e.rexpr == Some(r),
        e.kind == ExprKind::Op,
    ensures
        e.name@.len() == 1 && e.name@[0]@ == "="@ && names_column(l, column) && node_value(r)
            == Some(v) ==> condition_values(Node::Expr(e), column) == seq![v],
        e.name@.len() == 1 && e.name@[0]@ == "="@ && !names_column(l, column) && names_column(
            r,
            column,
        ) && node_value(l) == Some(v) ==> condition_values(Node::Expr(e), column) == seq![v],
        !(e.name@.len() == 1 && e.name@[0]@ == "="@) ==> condition_values(
            Node::Expr(e),
            column,
        ).len() == 0,
        !names_column(l, column) && !names_column(r, column) ==> condition_values(
            Node::Expr(e),
            column,
        ).len() == 0,
{
}

proof fn lemma_list_values(s: Seq<Node>, i: int)
    ensures
        list_values(s) is Some ==> list_values(s)->0.len() == s.len(),
        list_values(s) is Some && 0 <= i < s.len() ==> node_value(s[i]) == Some(
            list_values(s)->0[i],
        ),
        list_values(s) is None ==> exists|k: int|
            0 <= k < s.len() && node_value(#[trigger] s[k]) is None,
    decreases s.len(),
{
    if s.len() > 0 {
        let t = s.drop_last();
        lemma_list_values(t, i);
        if list_values(s) is None {
            if list_values(t) is None {
                let k = choose|k: int| 0 <= k < t.len() && node_value(#[trigger] t[k]) is None;
                assert(node_value(s[k]) is None);
            } else {
                assert(node_value(s[s.len() - 1]) is None);
            }
        }
    }
}

/// `column IN (...)` constrains the column to every element of the list, and to nothing where
/// one of them cannot be read.
pub proof fn law_memberships_are_read(e: Box<AExpr>, l: Node, items: Vec<Node>, column: Seq<char>, i: int)
    requires
        e.lexpr == Some(l),
        e.rexpr == Some(Node::List(items)),
        e.kind == ExprKind::In,
        e.name@.len() == 1,
        e.name@[0]@ == "="@,
        names_column(l, column),
    ensures
        (forall|k: int| 0 <= k < items@.len() ==> node_value(#[trigger] items@[k]) is Some) ==> {
            &&& condition_values(Node::Expr(e), column).len() == items@.len()
            &&& 0 <= i < items@.len() ==> node_value(items@[i]) == Some(
                condition_values(Node::Expr(e), column)[i],
            )
        },
        0 <= i < items@.len() && node_value(items@[i]) is None ==> condition_values(
            Node::Expr(e),
            column,
        ).len() == 0,
{
    lemma_list_values(items@, i);
    if 0 <= i < items@.len() && node_value(items@[i]) is None {
        lemma_unreadable(items@, i);
    }
}

/// A conjunction says what its parts say, in their order; a disjunction, a negation and
/// everything else say nothing.
pub proof fn law_only_conjunctions_are_mined(args: Vec<Node>, n: Node, rest: Seq<Node>, column: Seq<char>)
    ensures
        condition_values(Node::Bool(BoolOp::And, args), column) == conjuncts_values(args@, column),
        conjuncts_values(Seq::empty(), column).len() == 0,
        conjuncts_values(seq![n] + rest, column) == condition_values(n, column) + conjuncts_values(
            rest,
            column,
        ),
        condition_values(Node::Bool(BoolOp::Or, args), column).len() == 0,
        condition_values(Node::Bool(BoolOp::Not, args), column).len() == 0,
        !(n is Bool) && !(n is Expr) ==> condition_values(n, column).len() == 0,
        where_values(Some(n), column) == condition_values(n, column),
        where_values(None, column).len() == 0,
{
    assert((seq![n] + rest).drop_first() =~= rest);
    assert((seq![n] + rest)[0] == n);
}

proof fn lemma_cells_values(rows: Seq<Node>, at: int, i: int)
    ensures
        cells_values(rows, at) is Some ==> cells_values(rows, at)->0.len() == rows.len(),
        cells_values(rows, at) is Some && 0 <= i < rows.len() ==> cell_value(rows[i], at) == Some(
            cells_values(rows, at)->0[i],
        ),
    decreases rows.len(),
{
    if rows.len() > 0 {
        lemma_cells_values(rows.drop_last(), at, i);
    }
}

/// The key of an inserted row is the value in the key column's cell of that row: one for each
/// row of `VALUES`, and none at all where the column is not listed, the rows are not written
/// out, or one of the cells cannot be read.
pub proof fn law_inserted_keys_are_the_key_cells(ins: InsertStmt, column: Seq<char>, i: int)
    ensures
        insert_values(ins, column) matches Some(vs) ==> {
            &&& ins.select_stmt matches Some(Node::Select(sel)) && vs.len()
                == sel.values_lists@.len() && vs.len() > 0
            &&& exists|at: int|
                0 <= at < ins.cols@.len() && targets_column(#[trigger] ins.cols@[at], column) && (
                forall|k: int|
                    0 <= k < at ==> !targets_column(#[trigger] ins.cols@[k], column)) && (0 <= i
                    < vs.len() ==> (ins.select_stmt matches Some(Node::Select(sel)) && (
                sel.values_lists@[i] matches Node::List(cells) && at < cells@.len() && node_value(
                    cells@[at],
                ) == Some(vs[i]))))
        },
        (forall|k: int| 0 <= k < ins.cols@.len() ==> !targets_column(#[trigger] ins.cols@[k], column))
            ==> insert_values(ins, column) is None,
        !(ins.select_stmt matches Some(Node::Select(_))) ==> insert_values(ins, column) is None,
{
    lemma_column_position(ins.cols@, column);
    let at = column_position(ins.cols@, column);
    if insert_values(ins, column) is Some {
        if let Some(Node::Select(sel)) = ins.select_stmt {
            lemma_cells_values(sel.values_lists@, at, i);
            assert(targets_column(ins.cols@[at], column));
            if 0 <= i < sel.values_lists@.len() {
                assert(cell_value(sel.values_lists@[i], at) is Some);
            }
        }
    }
}

/// An assignment assigns to the column that it names.
pub proof fn law_assignments_name_their_column(
    t: Box<crate::ast::ResTarget>,
    before: Seq<Node>,
    rest: Seq<Node>,
    column: Seq<char>,
)
    ensures
        assigns(before + seq![Node::Target(t)] + rest, column) <==> t.name@ == column || assigns(
            before,
            column,
        ) || assigns(rest, column),
        !assigns(Seq::empty(), column),
{
    let all = before + seq![Node::Target(t)] + rest;
    let n = before.len() as int;
    assert(all[n] == Node::Target(t));
    if t.name@ == column {
        assert(targets_column(all[n], column));
    }
    if assigns(before, column) {
        let i = choose|i: int| 0 <= i < before.len() && targets_column(#[trigger] before[i], column);
        assert(targets_column(all[i], column));
    }
    if assigns(rest, column) {
        let i = choose|i: int| 0 <= i < rest.len() && targets_column(#[trigger] rest[i], column);
        assert(targets_column(all[n + 1 + i], column));
    }
    if assigns(all, column) {
        let i = choose|i: int| 0 <= i < all.len() && targets_column(#[trigger] all[i], column);
        if i < n {
            assert(targets_column(before[i], column));
        } else if i > n {
            assert(targets_column(rest[i - n - 1], column));
        }
    }
}

/// A FROM clause reads from the tables that its items name, those of a join from left to
/// right, and it is plain only where every item is a table or a join of such.
pub proof fn law_from_clauses_name_their_tables(
    rv: RangeVar,
    j: Box<crate::ast::JoinExpr>,
    n: Node,
    rest: Seq<Node>,
)
    ensures
        item_tables(Node::Table(rv)) == seq![table_of(rv)],
        item_plain(Node::Table(rv)),
        item_tables(Node::Join(j)) == side_tables(j.larg) + side_tables(j.rarg),
        item_plain(Node::Join(j)) <==> side_plain(j.larg) && side_plain(j.rarg),
        side_tables(Some(n)) == item_tables(n),
        side_plain(Some(n)) == item_plain(n),
        !(n is Table) && !(n is Join) ==> !item_plain(n) && item_tables(n).len() == 0,
        from_tables(rest.push(n)) == from_tables(rest) + item_tables(n),
        from_tables(Seq::empty()).len() == 0,
        from_plain(rest.push(n)) <==> from_plain(rest) && item_plain(n),
        from_plain(Seq::empty()),
{
    let all = rest.push(n);
    assert(all.drop_last() =~= rest);
    if from_plain(all) {
        assert(item_plain(all[rest.len() as int]));
        assert forall|i: int| 0 <= i < rest.len() implies item_plain(#[trigger] rest[i]) by {
            assert(item_plain(all[i]));
        }
    }
    if from_plain(rest) && item_plain(n) {
        assert forall|i: int| 0 <= i < all.len() implies item_plain(#[trigger] all[i]) by {
            if i < rest.len() {
                assert(all[i] == rest[i]);
            }
        }
    }
}

} // verus!
