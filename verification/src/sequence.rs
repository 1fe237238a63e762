//! Filling omitted global-sequence columns into an INSERT.
//!
//! A table can bind a column to a global sequence (e.g. `id`). When a client
//! omits that column, the router allocates the next id(s) from the sequence and
//! extends the statement by them — the sharded equivalent of a serial
//! default, but with ids that never collide across shards.
//!
//! Detection ([`insert_sequence_injections`]) needs only the sharding schema; the router
//! allocates the ids and calls [`rewrite_insert`] to learn what is added to the column
//! list and to each row. Only an INSERT with an explicit column list and literal `VALUES`
//! rows is extended; anything else (positional, `INSERT ... SELECT`, or a
//! column already listed) is left untouched — and when it involves the shard
//! key it was already rejected upstream, so such an INSERT always carries
//! its shard key and routes by it.
use crate::ast::{InsertStmt, Node, Parsed};
use crate::extract::{self, range_var_table};
use crate::text;
use crate::vschema::{SequenceBinding, TableDef, VSchema};
use vstd::prelude::*;
use vstd::string::*;

verus! {

/// A sequence-bound column omitted from an INSERT, to be filled by the router.
#[derive(Debug, Clone, PartialEq, Eq)]
pub struct SequenceInjection {
    pub column: String,
    pub sequence: String,
}

/// The column and the sequence of an injection.
pub open spec fn injection_views(s: Seq<SequenceInjection>) -> Seq<(Seq<char>, Seq<char>)> {
    s.map_values(|i: SequenceInjection| (i.column@, i.sequence@))
}

/// The rows of a `VALUES` list, where the statement has one.
pub open spec fn value_rows(ins: InsertStmt) -> Seq<Node> {
    match ins.select_stmt {
        Some(Node::Select(s)) => s.values_lists@,
        _ => Seq::empty(),
    }
}

/// Whether a column list names the column.
pub open spec fn lists(cols: Seq<Node>, column: Seq<char>) -> bool {
    extract::assigns(cols, column)
}

/// Whether a column list names any column.
pub open spec fn lists_any(cols: Seq<Node>) -> bool {
    exists|i: int| 0 <= i < cols.len() && (#[trigger] cols[i]) is Target
}

/// The bindings whose column the list does not name, in order.
pub open spec fn unlisted(
    bindings: Seq<SequenceBinding>,
    cols: Seq<Node>,
) -> Seq<(Seq<char>, Seq<char>)>
    decreases bindings.len(),
{
    if bindings.len() == 0 {
        Seq::empty()
    } else {
        let rest = unlisted(bindings.drop_last(), cols);
        let b = bindings.last();
        if lists(cols, b.column@) {
            rest
        } else {
            rest.push((b.column@, b.sequence@))
        }
    }
}

/// What the router fills in: the unlisted columns that the table binds to sequences, where
/// the statement has a column list and `VALUES` rows.
pub open spec fn injections(n: Node, v: VSchema) -> Seq<(Seq<char>, Seq<char>)> {
    match n {
        Node::Insert(ins) => match ins.relation {
            Some(rv) => match v.definition(extract::table_of(rv)) {
                Some(
                    TableDef::Sharded {
                        shard_key_column,
                        shard_function,
                        shard_key_type,
                        sequences,
                    },
                ) => if value_rows(*ins).len() > 0 && lists_any(ins.cols@) {
                    unlisted(sequences@, ins.cols@)
                } else {
                    Seq::empty()
                },
                _ => Seq::empty(),
            },
            None => Seq::empty(),
        },
        _ => Seq::empty(),
    }
}

fn has_value_rows(ins: &InsertStmt) -> (r: bool)
    ensures
        r == (value_rows(*ins).len() > 0),
{
    match &ins.select_stmt {
        Some(Node::Select(s)) => s.values_lists.len() > 0,
        _ => false,
    }
}

fn has_listed_column(cols: &Vec<Node>) -> (r: bool)
    ensures
        r == lists_any(cols@),
{
    let mut i: usize = 0;
    while i < cols.len()
        invariant
            i <= cols@.len(),
            forall|k: int| 0 <= k < i ==> !((#[trigger] cols@[k]) is Target),
        decreases cols@.len() - i,
    {
        if let Node::Target(_) = &cols[i] {
            assert(cols@[i as int] is Target);
            return true;
        }
        i += 1;
    }
    false
}

/// The (column, sequence) pairs an INSERT omits and the router should fill.
/// Empty unless the statement is an INSERT into a sharded table with sequence
/// bindings, an explicit column list, and literal `VALUES` rows, where at least
/// one bound column is not listed.
pub fn insert_sequence_injections(node: &Node, vschema: &VSchema) -> (r: Vec<SequenceInjection>)
    ensures
        injection_views(r@) == injections(*node, *vschema),
{
    let mut out: Vec<SequenceInjection> = Vec::new();
    proof {
        assert(injection_views(out@) =~= Seq::<(Seq<char>, Seq<char>)>::empty());
    }
    let ins = match node {
        Node::Insert(ins) => ins,
        _ => return out,
    };
    let table = match &ins.relation {
        Some(rv) => range_var_table(rv),
        None => return out,
    };
    let sequences = match vschema.get(&table) {
        Some(TableDef::Sharded { shard_key_column, shard_function, shard_key_type, sequences }) =>
        sequences,
        _ => return out,
    };
    // A positional INSERT (no column list) gives no place to add a column, and
    // one into a sharded table was already rejected upstream.
    if !has_value_rows(ins) || !has_listed_column(&ins.cols) {
        return out;
    }
    let mut i: usize = 0;
    proof {
        assert(sequences@.take(0) =~= Seq::<SequenceBinding>::empty());
    }
    while i < sequences.len()
        invariant
            i <= sequences@.len(),
            injection_views(out@) == unlisted(sequences@.take(i as int), ins.cols@),
        decreases sequences@.len() - i,
    {
        proof {
            assert(sequences@.take(i + 1).drop_last() =~= sequences@.take(i as int));
        }
        let b = &sequences[i];
        if !extract::sets_column(&ins.cols, b.column.as_str()) {
            let ghost before = out@;
            out.push(
                SequenceInjection { column: b.column.clone(), sequence: b.sequence.clone() },
            );
            proof {
                assert(injection_views(out@) =~= injection_views(before).push(
                    (b.column@, b.sequence@),
                ));
            }
        }
        i += 1;
    }
    proof {
        assert(sequences@.take(sequences@.len() as int) =~= sequences@);
    }
    out
}

/// The number of `VALUES` rows in an INSERT, so the router allocates one id per
/// row. Zero for anything that is not an INSERT with a `VALUES` list.
pub fn value_row_count(node: &Node) -> (r: usize)
    ensures
        r == (match *node {
            Node::Insert(ins) => value_rows(*ins).len(),
            _ => 0,
        }),
{
    match node {
        Node::Insert(ins) => match &ins.select_stmt {
            Some(Node::Select(s)) => s.values_lists.len(),
            _ => 0,
        },
        _ => 0,
    }
}

/// One column to splice into an INSERT, with the id for each `VALUES` row.
#[derive(Debug, Clone, PartialEq, Eq)]
pub struct InjectedColumn {
    pub column: String,
    /// One id per `VALUES` row, in row order.
    pub ids: Vec<i64>,
}

#[derive(Debug, PartialEq, Eq)]
pub enum RewriteError {
    /// The statement is not a single INSERT with VALUES rows.
    NotInjectable,
    /// There is not one id per row.
    RowCountMismatch { column: String, ids: usize, rows: usize },
    /// The extended statement could not be written as SQL.
    Deparse(String),
}

/// What is added to an INSERT: columns at the end of its column list and, at the end of
/// each row, one number per column. The numbers are written in decimal, since a literal of
/// 32 bits cannot hold every id.
#[derive(Debug, PartialEq, Eq)]
pub struct InsertEdit {
    pub columns: Vec<String>,
    pub rows: Vec<Vec<String>>,
}

/// The statement that is extended: the only one, an INSERT with `VALUES` rows.
pub open spec fn injectable(p: Parsed) -> Option<InsertStmt> {
    if p.stmts@.len() == 1 {
        match p.stmts@[0] {
            Some(Node::Insert(ins)) => if value_rows(*ins).len() > 0 {
                Some(*ins)
            } else {
                None
            },
            _ => None,
        }
    } else {
        None
    }
}

/// Whether every row is a list of cells.
pub open spec fn rows_are_lists(rows: Seq<Node>) -> bool {
    forall|i: int| 0 <= i < rows.len() ==> (#[trigger] rows[i]) is List
}

fn all_lists(rows: &Vec<Node>) -> (r: bool)
    ensures
        r == rows_are_lists(rows@),
{
    let mut i: usize = 0;
    while i < rows.len()
        invariant
            i <= rows@.len(),
            forall|k: int| 0 <= k < i ==> (#[trigger] rows@[k]) is List,
        decreases rows@.len() - i,
    {
        match &rows[i] {
            Node::List(_) => {},
            _ => {
                assert(!(rows@[i as int] is List));
                return false;
            },
        }
        i += 1;
    }
    true
}

/// The numbers that row `row` gets.
fn row_ids(injected: &[InjectedColumn], row: usize) -> (r: Vec<String>)
    requires
        forall|k: int| 0 <= k < injected@.len() ==> row < (#[trigger] injected@[k]).ids@.len(),
    ensures
        r@.len() == injected@.len(),
        forall|k: int|
            0 <= k < r@.len() ==> (#[trigger] r@[k])@ == text::decimal(
                injected@[k].ids@[row as int] as int,
            ),
{
    let mut out: Vec<String> = Vec::new();
    let mut i: usize = 0;
    while i < injected.len()
        invariant
            i <= injected@.len(),
            forall|k: int| 0 <= k < injected@.len() ==> row < (#[trigger] injected@[k]).ids@.len(),
            out@.len() == i,
            forall|k: int|
                0 <= k < i ==> (#[trigger] out@[k])@ == text::decimal(
                    injected@[k].ids@[row as int] as int,
                ),
        decreases injected@.len() - i,
    {
        let inj = &injected[i];
        assert(row < injected@[i as int].ids@.len());
        let id: i64 = inj.ids[row];
        out.push(text::decimal_i64(id));
        i += 1;
    }
    out
}

/// What each injected column and its per-row ids add to the single INSERT in `parsed`. Ids
/// must already be allocated (one per `VALUES` row). A shape mismatch yields no edit, so
/// the router never forwards a half-extended statement.
pub fn rewrite_insert(parsed: &Parsed, injected: &[InjectedColumn]) -> (r: Result<
    InsertEdit,
    RewriteError,
>)
    ensures
        match r {
            Ok(e) => {
                &&& injectable(*parsed) is Some
                &&& forall|k: int|
                    0 <= k < injected@.len() ==> (#[trigger] injected@[k]).ids@.len()
                        == value_rows(injectable(*parsed)->0).len()
                &&& injected@.len() > 0 ==> rows_are_lists(value_rows(injectable(*parsed)->0))
                &&& e.columns@.len() == injected@.len()
                &&& forall|k: int|
                    0 <= k < e.columns@.len() ==> (#[trigger] e.columns@[k])@
                        == injected@[k].column@
                &&& e.rows@.len() == value_rows(injectable(*parsed)->0).len()
                &&& forall|i: int|
                    0 <= i < e.rows@.len() ==> (#[trigger] e.rows@[i])@.len() == injected@.len()
                &&& forall|i: int, k: int|
                    0 <= i < e.rows@.len() && 0 <= k < injected@.len()
                        ==> (#[trigger] e.rows@[i]@[k])@ == text::decimal(
                        injected@[k].ids@[i] as int,
                    )
            },
            Err(RewriteError::NotInjectable) => {
                ||| injectable(*parsed) is None
                ||| (injected@.len() > 0 && !rows_are_lists(value_rows(injectable(*parsed)->0))
                    && forall|k: int|
                    0 <= k < injected@.len() ==> (#[trigger] injected@[k]).ids@.len()
                        == value_rows(injectable(*parsed)->0).len())
            },
            Err(RewriteError::RowCountMismatch { column, ids, rows }) => {
                &&& injectable(*parsed) is Some
                &&& rows == value_rows(injectable(*parsed)->0).len()
                &&& exists|k: int|
                    0 <= k < injected@.len() && (#[trigger] injected@[k]).ids@.len() == ids && ids
                        != rows && column@ == injected@[k].column@ && forall|j: int|
                        0 <= j < k ==> (#[trigger] injected@[j]).ids@.len() == rows
            },
            Err(RewriteError::Deparse(_)) => false,
        },
{
    if parsed.stmts.len() != 1 {
        return Err(RewriteError::NotInjectable);
    }
    let ins = match &parsed.stmts[0] {
        Some(Node::Insert(ins)) => ins,
        _ => return Err(RewriteError::NotInjectable),
    };
    let lists = match &ins.select_stmt {
        Some(Node::Select(s)) => &s.values_lists,
        _ => return Err(RewriteError::NotInjectable),
    };
    let rows: usize = lists.len();
    if rows == 0 {
        return Err(RewriteError::NotInjectable);
    }
    assert(injectable(*parsed) == Some(**ins));
    assert(value_rows(**ins) == lists@);
    let mut i: usize = 0;
    while i < injected.len()
        invariant
            i <= injected@.len(),
            rows == lists@.len(),
            injectable(*parsed) is Some,
            value_rows(injectable(*parsed)->0) == lists@,
            forall|k: int| 0 <= k < i ==> (#[trigger] injected@[k]).ids@.len() == rows,
        decreases injected@.len() - i,
    {
        if injected[i].ids.len() != rows {
            return Err(
                RewriteError::RowCountMismatch {
                    column: injected[i].column.clone(),
                    ids: injected[i].ids.len(),
                    rows,
                },
            );
        }
        i += 1;
    }
    if injected.len() > 0 && !all_lists(lists) {
        return Err(RewriteError::NotInjectable);
    }
    let mut columns: Vec<String> = Vec::new();
    let mut c: usize = 0;
    while c < injected.len()
        invariant
            c <= injected@.len(),
            columns@.len() == c,
            forall|k: int| 0 <= k < c ==> (#[trigger] columns@[k])@ == injected@[k].column@,
        decreases injected@.len() - c,
    {
        columns.push(injected[c].column.clone());
        c += 1;
    }
    let mut out: Vec<Vec<String>> = Vec::new();
    let mut row: usize = 0;
    while row < rows
        invariant
            row <= rows,
            forall|k: int| 0 <= k < injected@.len() ==> (#[trigger] injected@[k]).ids@.len() == rows,
            out@.len() == row,
            forall|i: int| 0 <= i < row ==> (#[trigger] out@[i])@.len() == injected@.len(),
            forall|i: int, k: int|
                0 <= i < row && 0 <= k < injected@.len() ==> (#[trigger] out@[i]@[k])@
                    == text::decimal(injected@[k].ids@[i] as int),
        decreases rows - row,
    {
        let cells = row_ids(injected, row);
        out.push(cells);
        row += 1;
    }
    Ok(InsertEdit { columns, rows: out })
}

/// A column that is filled in is never one that the statement lists, and every bound column
/// that it does not list is filled in.
pub proof fn law_injections_are_the_unlisted(
    bindings: Seq<SequenceBinding>,
    cols: Seq<Node>,
    column: Seq<char>,
)
    ensures
        (exists|k: int|
            0 <= k < unlisted(bindings, cols).len() && (#[trigger] unlisted(bindings, cols)[k]).0
                == column) <==> (!lists(cols, column) && exists|k: int|
            0 <= k < bindings.len() && (#[trigger] bindings[k]).column@ == column),
    decreases bindings.len(),
{
    let u = unlisted(bindings, cols);
    if bindings.len() > 0 {
        let t = bindings.drop_last();
        let b = bindings.last();
        let rest = unlisted(t, cols);
        law_injections_are_the_unlisted(t, cols, column);
        if exists|k: int| 0 <= k < u.len() && (#[trigger] u[k]).0 == column {
            let k = choose|k: int| 0 <= k < u.len() && (#[trigger] u[k]).0 == column;
            if k < rest.len() {
                assert(rest[k].0 == column);
                let j = choose|j: int| 0 <= j < t.len() && (#[trigger] t[j]).column@ == column;
                assert(bindings[j].column@ == column);
            } else {
                assert(bindings[bindings.len() - 1].column@ == column);
            }
        }
        if !lists(cols, column) && exists|k: int|
            0 <= k < bindings.len() && (#[trigger] bindings[k]).column@ == column {
            let k = choose|k: int|
                0 <= k < bindings.len() && (#[trigger] bindings[k]).column@ == column;
            if k < t.len() {
                assert(t[k].column@ == column);
                let j = choose|j: int| 0 <= j < rest.len() && (#[trigger] rest[j]).0 == column;
                assert(u[j].0 == column);
            } else {
                assert(u[u.len() - 1].0 == column);
            }
        }
    }
}

/// What an error says.
pub open spec fn fault_text(e: RewriteError) -> Seq<char> {
    match e {
        RewriteError::NotInjectable => "statement is not a single INSERT with VALUES rows"@,
        RewriteError::RowCountMismatch { column, ids, rows } => text::decimal(ids as int)
            + " ids for column "@ + text::debug_text(column@) + " but the INSERT has "@
            + text::decimal(rows as int) + " value rows"@,
        RewriteError::Deparse(m) => "deparse failed: "@ + m@,
    }
}

impl RewriteError {
    pub fn to_string(&self) -> (r: String)
        ensures
            r@ == fault_text(*self),
    {
        match self {
            RewriteError::NotInjectable => {
                "statement is not a single INSERT with VALUES rows".to_owned()
            },
            RewriteError::RowCountMismatch { column, ids, rows } => {
                let head = text::concat4(
                    text::decimal_u64(*ids as u64).as_str(),
                    " ids for column ",
                    text::debug_string(column.as_str()).as_str(),
                    " but the INSERT has ",
                );
                text::concat3(
                    head.as_str(),
                    text::decimal_u64(*rows as u64).as_str(),
                    " value rows",
                )
            },
            RewriteError::Deparse(m) => text::concat2("deparse failed: ", m.as_str()),
        }
    }
}

/// A column is filled from the sequence that it is bound to.
pub proof fn law_injections_keep_their_sequence(
    bindings: Seq<SequenceBinding>,
    cols: Seq<Node>,
    k: int,
)
    requires
        0 <= k < unlisted(bindings, cols).len(),
    ensures
        exists|j: int|
            0 <= j < bindings.len() && unlisted(bindings, cols)[k] == (
                (#[trigger] bindings[j]).column@,
                bindings[j].sequence@,
            ),
    decreases bindings.len(),
{
    if bindings.len() > 0 {
        let t = bindings.drop_last();
        let rest = unlisted(t, cols);
        if k < rest.len() {
            law_injections_keep_their_sequence(t, cols, k);
            let j = choose|j: int|
                0 <= j < t.len() && rest[k] == ((#[trigger] t[j]).column@, t[j].sequence@);
            assert(bindings[j] == t[j]);
        } else {
            assert(bindings[bindings.len() - 1] == bindings.last());
        }
    }
}

/// Only an insert into a sharded table with a column list and written-out rows is filled in,
/// and such an insert always is: by exactly the bound columns that it does not list.
pub proof fn law_only_written_out_inserts_are_filled(ins: Box<InsertStmt>, n: Node, v: VSchema)
    ensures
        !(n is Insert) ==> injections(n, v).len() == 0,
        ins.relation is None ==> injections(Node::Insert(ins), v).len() == 0,
        value_rows(*ins).len() == 0 ==> injections(Node::Insert(ins), v).len() == 0,
        (forall|i: int| 0 <= i < ins.cols@.len() ==> !((#[trigger] ins.cols@[i]) is Target))
            ==> injections(Node::Insert(ins), v).len() == 0,
        ins.relation matches Some(rv) ==> (match v.definition(extract::table_of(rv)) {
            Some(TableDef::Sharded { sequences, .. }) => (value_rows(*ins).len() > 0 && exists|i: int|
                0 <= i < ins.cols@.len() && (#[trigger] ins.cols@[i]) is Target) ==> injections(
                Node::Insert(ins),
                v,
            ) == unlisted(sequences@, ins.cols@),
            _ => injections(Node::Insert(ins), v).len() == 0,
        }),
        ins.select_stmt matches Some(Node::Select(s)) ==> value_rows(*ins) == s.values_lists@,
        !(ins.select_stmt matches Some(Node::Select(_))) ==> value_rows(*ins).len() == 0,
{
}

/// Only a query that is one insert with written-out rows can be extended.
pub proof fn law_only_one_insert_is_extended(p: Parsed)
    ensures
        injectable(p) matches Some(ins) ==> p.stmts@.len() == 1 && (p.stmts@[0] matches Some(
            Node::Insert(i),
        ) && *i == ins) && value_rows(ins).len() > 0,
        p.stmts@.len() == 1 && (p.stmts@[0] matches Some(Node::Insert(i)) && value_rows(*i).len()
            > 0) ==> injectable(p) is Some,
{
}

} // verus!
