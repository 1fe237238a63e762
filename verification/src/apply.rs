//! Transactional apply of a decoded logical-replication stream to a target
//! database, with an exactly-once checkpoint.
//!
//! The applier consumes decoded [`LogicalRepMsg`]s, buffers each source transaction, and at
//! its commit hands out the statements of one target transaction ([`ApplyTxn`]), which also
//! advances a checkpoint row (`pgshard.repl_progress`). Whoever holds the connection runs
//! that transaction and reports it with [`Applier::applied`]. On restart the applier starts
//! from that checkpoint and skips any commit at or before it — so a slot replay after a
//! crash re-applies exactly the un-committed tail, no loss and no duplication.
//!
//! Inserts, updates, and deletes are applied (updates and deletes match by the
//! table's replica-identity key). Truncate and streamed/two-phase transactions
//! are rejected (fail closed) rather than silently skipped, so the target never
//! diverges.
use crate::bytes;
use crate::copy;
use crate::lsn::Lsn;
use crate::pgoutput::{self, LogicalRepMsg, Oid, Relation, TupleColumn, TupleData};
use crate::quote;
use crate::text;
use std::collections::HashMap;
use vstd::prelude::*;
use vstd::string::*;

verus! {

broadcast use vstd::std_specs::hash::group_hash_axioms;

/// What readies the target session and the progress table. The pinned settings are those
/// that the literal quoting depends on, replica semantics keep the target's ordinary
/// triggers from firing on replicated rows, and the output styles are those of the source.
pub const SETUP_SQL: &'static str = "SET session_replication_role = replica;
                 SET standard_conforming_strings = on;
                 SET client_encoding = 'UTF8';
                 SET DateStyle = 'ISO';
                 SET IntervalStyle = 'postgres';
                 CREATE SCHEMA IF NOT EXISTS pgshard;
                 CREATE TABLE IF NOT EXISTS pgshard.repl_progress (
                     consumer text PRIMARY KEY,
                     lsn bigint NOT NULL,
                     end_lsn bigint NOT NULL DEFAULT 0
                 );
                 ALTER TABLE pgshard.repl_progress
                     ADD COLUMN IF NOT EXISTS end_lsn bigint NOT NULL DEFAULT 0";

/// What reads the consumer's progress.
pub const LOAD_PROGRESS_SQL: &'static str =
    "SELECT lsn, end_lsn FROM pgshard.repl_progress WHERE consumer = $1";

/// What records the consumer's progress, in the transaction of the changes.
pub const SAVE_PROGRESS_SQL: &'static str =
    "INSERT INTO pgshard.repl_progress (consumer, lsn, end_lsn) VALUES ($1, $2, $3) ON CONFLICT (consumer) DO UPDATE SET lsn = EXCLUDED.lsn, end_lsn = EXCLUDED.end_lsn";

/// Why applying a change failed.
#[derive(Debug, PartialEq, Eq)]
pub enum ApplyError {
    /// No Relation message has described the relation.
    UnknownRelation(Oid),
    ColumnCountMismatch { relation: String, expected: usize, actual: usize },
    InvalidUtf8,
    /// A change did not affect exactly one target row: the target has diverged.
    RowCountMismatch { affected: u64 },
    Unsupported(&'static str),
}

/// What an error says.
#[verifier::ext_equal]
pub enum ApplyFault {
    UnknownRelation(Oid),
    ColumnCountMismatch { relation: Seq<char>, expected: int, actual: int },
    InvalidUtf8,
    RowCountMismatch { affected: u64 },
    Unsupported(Seq<char>),
}

impl View for ApplyError {
    type V = ApplyFault;

    open spec fn view(&self) -> ApplyFault {
        match self {
            ApplyError::UnknownRelation(o) => ApplyFault::UnknownRelation(*o),
            ApplyError::ColumnCountMismatch { relation, expected, actual } =>
            ApplyFault::ColumnCountMismatch {
                relation: relation@,
                expected: *expected as int,
                actual: *actual as int,
            },
            ApplyError::InvalidUtf8 => ApplyFault::InvalidUtf8,
            ApplyError::RowCountMismatch { affected } => ApplyFault::RowCountMismatch {
                affected: *affected,
            },
            ApplyError::Unsupported(s) => ApplyFault::Unsupported(s@),
        }
    }
}

/// A published relation's identity, learned from a Relation message.
#[derive(Debug, PartialEq, Eq)]
pub struct RelationInfo {
    pub schema: String,
    pub table: String,
    pub columns: Vec<String>,
    /// `relreplident`: `d` default (PK), `i` index, `f` full, `n` nothing.
    pub replica_identity: u8,
    /// Indices into `columns` of the replica-identity key columns — the `WHERE`
    /// of an update or delete.
    pub key_columns: Vec<usize>,
}

impl RelationInfo {
    pub open spec fn wf(self) -> bool {
        forall|i: int|
            0 <= i < self.key_columns@.len() ==> (#[trigger] self.key_columns@[i])
                < self.columns@.len()
    }
}

/// A column value buffered for apply. `Text` is the pgoutput text form, applied
/// as an unknown-typed literal the target column coerces back to its type;
/// `Unchanged` is a TOASTed value an update did not ship (the stored value stays).
#[derive(Debug, PartialEq, Eq)]
pub enum Cell {
    Null,
    Text(Vec<u8>),
    Unchanged,
}

impl View for Cell {
    type V = pgoutput::Cell;

    open spec fn view(&self) -> pgoutput::Cell {
        match self {
            Cell::Null => pgoutput::Cell::Null,
            Cell::Text(b) => pgoutput::Cell::Text(b@),
            Cell::Unchanged => pgoutput::Cell::UnchangedToast,
        }
    }
}

pub open spec fn cell_views(s: Seq<Cell>) -> Seq<pgoutput::Cell> {
    s.map_values(|c: Cell| c@)
}

// ---------------------------------------------------------------------------------------
// Statements.
// ---------------------------------------------------------------------------------------

/// A value as SQL.
pub open spec fn rendered(c: pgoutput::Cell) -> Result<Seq<char>, ApplyFault> {
    match c {
        pgoutput::Cell::Null => Ok("NULL"@),
        pgoutput::Cell::Text(b) => match bytes::text_of(b) {
            Some(s) => Ok(quote::literal(s)),
            None => Err(ApplyFault::InvalidUtf8),
        },
        _ => Err(ApplyFault::Unsupported("unshipped TOAST value in a full row"@)),
    }
}

pub fn render_cell(cell: &Cell) -> (r: Result<String, ApplyError>)
    ensures
        match r {
            Ok(s) => rendered(cell@) == Ok::<Seq<char>, ApplyFault>(s@),
            Err(e) => rendered(cell@) == Err::<Seq<char>, ApplyFault>(e@),
        },
{
    match cell {
        Cell::Null => Ok("NULL".to_owned()),
        Cell::Text(b) => match bytes::utf8_str(b.as_slice()) {
            Some(s) => Ok(quote::quote_literal(s)),
            None => Err(ApplyError::InvalidUtf8),
        },
        Cell::Unchanged => Err(ApplyError::Unsupported("unshipped TOAST value in a full row")),
    }
}

/// What is wrong with a row that has not one value per column.
pub open spec fn count_fault(rel: RelationInfo, n: int) -> ApplyFault {
    ApplyFault::ColumnCountMismatch {
        relation: rel.schema@ + "."@ + rel.table@,
        expected: rel.columns@.len() as int,
        actual: n,
    }
}

/// Error unless `cells` has one entry per relation column.
fn check_len(relation: &RelationInfo, cells: &[Cell]) -> (r: Result<(), ApplyError>)
    ensures
        match r {
            Ok(_) => cells@.len() == relation.columns@.len(),
            Err(e) => cells@.len() != relation.columns@.len() && e@ == count_fault(
                *relation,
                cells@.len() as int,
            ),
        },
{
    if cells.len() != relation.columns.len() {
        return Err(
            ApplyError::ColumnCountMismatch {
                relation: text::concat3(relation.schema.as_str(), ".", relation.table.as_str()),
                expected: relation.columns.len(),
                actual: cells.len(),
            },
        );
    }
    Ok(())
}

/// The values as SQL, where all can be written.
pub open spec fn rendered_all(cells: Seq<pgoutput::Cell>) -> Result<Seq<Seq<char>>, ApplyFault>
    decreases cells.len(),
{
    if cells.len() == 0 {
        Ok(Seq::empty())
    } else {
        match rendered_all(cells.drop_last()) {
            Err(e) => Err(e),
            Ok(v) => match rendered(cells.last()) {
                Err(e) => Err(e),
                Ok(s) => Ok(v.push(s)),
            },
        }
    }
}

proof fn lemma_rendered_error(cells: Seq<pgoutput::Cell>, i: int)
    requires
        0 <= i <= cells.len(),
        rendered_all(cells.take(i)) is Err,
    ensures
        rendered_all(cells) == rendered_all(cells.take(i)),
    decreases cells.len() - i,
{
    if i == cells.len() {
        assert(cells.take(i) =~= cells);
    } else {
        assert(cells.take(i + 1).drop_last() =~= cells.take(i));
        lemma_rendered_error(cells, i + 1);
    }
}

fn render_all(cells: &[Cell]) -> (r: Result<Vec<String>, ApplyError>)
    ensures
        match r {
            Ok(v) => rendered_all(cell_views(cells@)) == Ok::<Seq<Seq<char>>, ApplyFault>(
                text::views(v@),
            ),
            Err(e) => rendered_all(cell_views(cells@)) == Err::<Seq<Seq<char>>, ApplyFault>(e@),
        },
{
    let ghost cs = cell_views(cells@);
    let mut out: Vec<String> = Vec::new();
    let mut i: usize = 0;
    proof {
        assert(cs.take(0) =~= Seq::<pgoutput::Cell>::empty());
        assert(text::views(out@) =~= Seq::<Seq<char>>::empty());
    }
    while i < cells.len()
        invariant
            i <= cells@.len(),
            cs == cell_views(cells@),
            rendered_all(cs.take(i as int)) == Ok::<Seq<Seq<char>>, ApplyFault>(text::views(out@)),
        decreases cells@.len() - i,
    {
        proof {
            assert(cs.take(i + 1).drop_last() =~= cs.take(i as int));
            assert(cs.take(i + 1).last() == cells@[i as int]@);
        }
        match render_cell(&cells[i]) {
            Ok(s) => {
                let ghost before = out@;
                out.push(s);
                proof {
                    assert(text::views(out@) =~= text::views(before).push(s@));
                }
            },
            Err(e) => {
                proof {
                    lemma_rendered_error(cs, i + 1);
                }
                return Err(e);
            },
        }
        i += 1;
    }
    proof {
        assert(cs.take(cs.len() as int) =~= cs);
    }
    Ok(out)
}

/// The statement that inserts a row.
pub open spec fn insert_sql(rel: RelationInfo, row: Seq<pgoutput::Cell>) -> Result<
    Seq<char>,
    ApplyFault,
> {
    if row.len() != rel.columns@.len() {
        Err(count_fault(rel, row.len() as int))
    } else {
        match rendered_all(row) {
            Err(e) => Err(e),
            Ok(values) => Ok(
                "INSERT INTO "@ + quote::qualified(rel.schema@, rel.table@) + " ("@
                    + copy::ident_list(rel.columns@) + ") VALUES ("@ + text::joined(values, ", "@)
                    + ")"@,
            ),
        }
    }
}

pub fn build_insert(relation: &RelationInfo, values: &[Cell]) -> (r: Result<String, ApplyError>)
    ensures
        match r {
            Ok(s) => insert_sql(*relation, cell_views(values@)) == Ok::<Seq<char>, ApplyFault>(s@),
            Err(e) => insert_sql(*relation, cell_views(values@)) == Err::<Seq<char>, ApplyFault>(
                e@,
            ),
        },
{
    proof {
        assert(cell_views(values@).len() == values@.len());
    }
    check_len(relation, values)?;
    let cells = render_all(values)?;
    let columns = copy::quote_list(relation.columns.as_slice());
    let list = text::join(&cells, ", ");
    let table = quote::quote_qualified(relation.schema.as_str(), relation.table.as_str());
    let mut out = text::concat5("INSERT INTO ", table.as_str(), " (", columns.as_str(), ") VALUES (");
    out.append(list.as_str());
    out.append(")");
    Ok(out)
}

/// The assignments of an update: one per column whose value was shipped.
pub open spec fn assignments(cols: Seq<String>, row: Seq<pgoutput::Cell>) -> Result<
    Seq<Seq<char>>,
    ApplyFault,
>
    decreases row.len(),
{
    if row.len() == 0 {
        Ok(Seq::empty())
    } else {
        let n = row.len() - 1;
        match assignments(cols, row.drop_last()) {
            Err(e) => Err(e),
            Ok(v) => if row.last() == pgoutput::Cell::UnchangedToast {
                Ok(v)
            } else {
                match rendered(row.last()) {
                    Err(e) => Err(e),
                    Ok(s) => Ok(v.push(quote::ident(cols[n]@) + " = "@ + s)),
                }
            },
        }
    }
}

proof fn lemma_assignments_error(cols: Seq<String>, row: Seq<pgoutput::Cell>, i: int)
    requires
        0 <= i <= row.len(),
        assignments(cols, row.take(i)) is Err,
    ensures
        assignments(cols, row) == assignments(cols, row.take(i)),
    decreases row.len() - i,
{
    if i == row.len() {
        assert(row.take(i) =~= row);
    } else {
        assert(row.take(i + 1).drop_last() =~= row.take(i));
        lemma_assignments_error(cols, row, i + 1);
    }
}

fn build_assignments(cols: &Vec<String>, row: &[Cell]) -> (r: Result<Vec<String>, ApplyError>)
    requires
        cols@.len() == row@.len(),
    ensures
        match r {
            Ok(v) => assignments(cols@, cell_views(row@)) == Ok::<Seq<Seq<char>>, ApplyFault>(
                text::views(v@),
            ),
            Err(e) => assignments(cols@, cell_views(row@)) == Err::<Seq<Seq<char>>, ApplyFault>(e@),
        },
{
    let ghost cs = cell_views(row@);
    let mut out: Vec<String> = Vec::new();
    let mut i: usize = 0;
    proof {
        assert(cs.take(0) =~= Seq::<pgoutput::Cell>::empty());
        assert(text::views(out@) =~= Seq::<Seq<char>>::empty());
    }
    while i < row.len()
        invariant
            i <= row@.len() == cols@.len(),
            cs == cell_views(row@),
            assignments(cols@, cs.take(i as int)) == Ok::<Seq<Seq<char>>, ApplyFault>(
                text::views(out@),
            ),
        decreases row@.len() - i,
    {
        proof {
            assert(cs.take(i + 1).drop_last() =~= cs.take(i as int));
            assert(cs.take(i + 1).last() == row@[i as int]@);
        }
        // A TOASTed value the update did not ship keeps its stored value.
        let shipped = match &row[i] {
            Cell::Unchanged => false,
            _ => true,
        };
        if shipped {
            match render_cell(&row[i]) {
                Ok(s) => {
                    let name = quote::quote_ident(cols[i].as_str());
                    let item = text::concat3(name.as_str(), " = ", s.as_str());
                    let ghost before = out@;
                    out.push(item);
                    proof {
                        assert(text::views(out@) =~= text::views(before).push(item@));
                    }
                },
                Err(e) => {
                    proof {
                        lemma_assignments_error(cols@, cs, i + 1);
                    }
                    return Err(e);
                },
            }
        }
        i += 1;
    }
    proof {
        assert(cs.take(cs.len() as int) =~= cs);
    }
    Ok(out)
}

/// The conditions that the key columns have the values of a row.
pub open spec fn conditions(
    cols: Seq<String>,
    keys: Seq<usize>,
    row: Seq<pgoutput::Cell>,
) -> Result<Seq<Seq<char>>, ApplyFault>
    decreases keys.len(),
{
    if keys.len() == 0 {
        Ok(Seq::empty())
    } else {
        let i = keys.last() as int;
        match conditions(cols, keys.drop_last(), row) {
            Err(e) => Err(e),
            Ok(v) => match row[i] {
                pgoutput::Cell::Null => Err(
                    ApplyFault::Unsupported("null replica-identity key"@),
                ),
                pgoutput::Cell::UnchangedToast => Err(
                    ApplyFault::Unsupported("unshipped replica-identity key"@),
                ),
                c => match rendered(c) {
                    Err(e) => Err(e),
                    Ok(s) => Ok(v.push(quote::ident(cols[i]@) + " = "@ + s)),
                },
            },
        }
    }
}

proof fn lemma_conditions_error(
    cols: Seq<String>,
    keys: Seq<usize>,
    row: Seq<pgoutput::Cell>,
    i: int,
)
    requires
        0 <= i <= keys.len(),
        conditions(cols, keys.take(i), row) is Err,
    ensures
        conditions(cols, keys, row) == conditions(cols, keys.take(i), row),
    decreases keys.len() - i,
{
    if i == keys.len() {
        assert(keys.take(i) =~= keys);
    } else {
        assert(keys.take(i + 1).drop_last() =~= keys.take(i));
        lemma_conditions_error(cols, keys, row, i + 1);
    }
}

/// The `WHERE` matching a row by its replica-identity key columns. Only a key-based identity
/// (default = PK, or an explicit index) matches a single row unambiguously.
pub open spec fn where_sql(rel: RelationInfo, row: Seq<pgoutput::Cell>) -> Result<
    Seq<char>,
    ApplyFault,
> {
    if rel.replica_identity != 0x64 && rel.replica_identity != 0x69 {
        Err(
            ApplyFault::Unsupported(
                "update/delete requires REPLICA IDENTITY DEFAULT or an index (full/nothing not supported)"@,
            ),
        )
    } else if rel.key_columns@.len() == 0 {
        Err(
            ApplyFault::Unsupported("update/delete on a table with no replica-identity key"@),
        )
    } else {
        match conditions(rel.columns@, rel.key_columns@, row) {
            Err(e) => Err(e),
            Ok(v) => Ok(text::joined(v, " AND "@)),
        }
    }
}

fn build_where(relation: &RelationInfo, key_source: &[Cell]) -> (r: Result<String, ApplyError>)
    requires
        relation.wf(),
        key_source@.len() == relation.columns@.len(),
    ensures
        match r {
            Ok(s) => where_sql(*relation, cell_views(key_source@)) == Ok::<Seq<char>, ApplyFault>(
                s@,
            ),
            Err(e) => where_sql(*relation, cell_views(key_source@)) == Err::<
                Seq<char>,
                ApplyFault,
            >(e@),
        },
{
    if relation.replica_identity != 0x64 && relation.replica_identity != 0x69 {
        return Err(
            ApplyError::Unsupported(
                "update/delete requires REPLICA IDENTITY DEFAULT or an index (full/nothing not supported)",
            ),
        );
    }
    if relation.key_columns.len() == 0 {
        return Err(
            ApplyError::Unsupported("update/delete on a table with no replica-identity key"),
        );
    }
    let ghost cs = cell_views(key_source@);
    let ghost keys = relation.key_columns@;
    let ghost cols = relation.columns@;
    let mut out: Vec<String> = Vec::new();
    let mut i: usize = 0;
    proof {
        assert(keys.take(0) =~= Seq::<usize>::empty());
        assert(text::views(out@) =~= Seq::<Seq<char>>::empty());
    }
    while i < relation.key_columns.len()
        invariant
            i <= keys.len(),
            keys == relation.key_columns@,
            cols == relation.columns@,
            cs == cell_views(key_source@),
            relation.wf(),
            keys.len() > 0,
            relation.replica_identity == 0x64 || relation.replica_identity == 0x69,
            key_source@.len() == relation.columns@.len(),
            conditions(cols, keys.take(i as int), cs) == Ok::<Seq<Seq<char>>, ApplyFault>(
                text::views(out@),
            ),
        decreases keys.len() - i,
    {
        let k: usize = relation.key_columns[i];
        proof {
            assert(keys.take(i + 1).drop_last() =~= keys.take(i as int));
            assert(keys.take(i + 1).last() == k);
            assert(k < relation.columns@.len());
            assert(cs[k as int] == key_source@[k as int]@);
        }
        let item = match &key_source[k] {
            // A key column is never null or an unshipped TOAST value.
            Cell::Null => Err(ApplyError::Unsupported("null replica-identity key")),
            Cell::Unchanged => Err(ApplyError::Unsupported("unshipped replica-identity key")),
            Cell::Text(_) => render_cell(&key_source[k]),
        };
        match item {
            Ok(s) => {
                let name = quote::quote_ident(relation.columns[k].as_str());
                let condition = text::concat3(name.as_str(), " = ", s.as_str());
                let ghost before = out@;
                out.push(condition);
                proof {
                    assert(text::views(out@) =~= text::views(before).push(condition@));
                }
            },
            Err(e) => {
                proof {
                    lemma_conditions_error(cols, keys, cs, i + 1);
                }
                return Err(e);
            },
        }
        i += 1;
    }
    proof {
        assert(keys.take(keys.len() as int) =~= keys);
    }
    Ok(text::join(&out, " AND "))
}

/// The statement that updates a row, or none where nothing was shipped that could be set.
pub open spec fn update_sql(
    rel: RelationInfo,
    key: Seq<pgoutput::Cell>,
    row: Seq<pgoutput::Cell>,
) -> Result<Option<Seq<char>>, ApplyFault> {
    if key.len() != rel.columns@.len() {
        Err(count_fault(rel, key.len() as int))
    } else if row.len() != rel.columns@.len() {
        Err(count_fault(rel, row.len() as int))
    } else {
        match assignments(rel.columns@, row) {
            Err(e) => Err(e),
            Ok(sets) => if sets.len() == 0 {
                Ok(None)
            } else {
                match where_sql(rel, key) {
                    Err(e) => Err(e),
                    Ok(w) => Ok(
                        Some(
                            "UPDATE "@ + quote::qualified(rel.schema@, rel.table@) + " SET "@
                                + text::joined(sets, ", "@) + " WHERE "@ + w,
                        ),
                    ),
                }
            },
        }
    }
}

/// Build an `UPDATE`, or `None` when the row image shipped no changed values
/// (only unchanged-TOAST columns) and there is nothing to set.
pub fn build_update(relation: &RelationInfo, key_source: &[Cell], new: &[Cell]) -> (r: Result<
    Option<String>,
    ApplyError,
>)
    requires
        relation.wf(),
    ensures
        match r {
            Ok(None) => update_sql(*relation, cell_views(key_source@), cell_views(new@)) == Ok::<
                Option<Seq<char>>,
                ApplyFault,
            >(None),
            Ok(Some(s)) => update_sql(*relation, cell_views(key_source@), cell_views(new@)) == Ok::<
                Option<Seq<char>>,
                ApplyFault,
            >(Some(s@)),
            Err(e) => update_sql(*relation, cell_views(key_source@), cell_views(new@)) == Err::<
                Option<Seq<char>>,
                ApplyFault,
            >(e@),
        },
{
    proof {
        assert(cell_views(key_source@).len() == key_source@.len());
        assert(cell_views(new@).len() == new@.len());
    }
    check_len(relation, key_source)?;
    check_len(relation, new)?;
    let sets = build_assignments(&relation.columns, new)?;
    proof {
        assert(text::views(sets@).len() == sets@.len());
    }
    if sets.len() == 0 {
        return Ok(None);
    }
    let w = build_where(relation, key_source)?;
    let table = quote::quote_qualified(relation.schema.as_str(), relation.table.as_str());
    let list = text::join(&sets, ", ");
    let mut out = text::concat5("UPDATE ", table.as_str(), " SET ", list.as_str(), " WHERE ");
    out.append(w.as_str());
    Ok(Some(out))
}

/// The statement that deletes a row.
pub open spec fn delete_sql(rel: RelationInfo, key: Seq<pgoutput::Cell>) -> Result<
    Seq<char>,
    ApplyFault,
> {
    if key.len() != rel.columns@.len() {
        Err(count_fault(rel, key.len() as int))
    } else {
        match where_sql(rel, key) {
            Err(e) => Err(e),
            Ok(w) => Ok(
                "DELETE FROM "@ + quote::qualified(rel.schema@, rel.table@) + " WHERE "@ + w,
            ),
        }
    }
}

pub fn build_delete(relation: &RelationInfo, key_source: &[Cell]) -> (r: Result<String, ApplyError>)
    requires
        relation.wf(),
    ensures
        match r {
            Ok(s) => delete_sql(*relation, cell_views(key_source@)) == Ok::<Seq<char>, ApplyFault>(
                s@,
            ),
            Err(e) => delete_sql(*relation, cell_views(key_source@)) == Err::<
                Seq<char>,
                ApplyFault,
            >(e@),
        },
{
    proof {
        assert(cell_views(key_source@).len() == key_source@.len());
    }
    check_len(relation, key_source)?;
    let w = build_where(relation, key_source)?;
    let table = quote::quote_qualified(relation.schema.as_str(), relation.table.as_str());
    Ok(text::concat4("DELETE FROM ", table.as_str(), " WHERE ", w.as_str()))
}

// ---------------------------------------------------------------------------------------
// Changes.
// ---------------------------------------------------------------------------------------

/// One buffered change awaiting its transaction's commit.
#[derive(Debug, PartialEq, Eq)]
pub enum PendingChange {
    Insert { rel_oid: Oid, new: Vec<Cell> },
    Update {
        rel_oid: Oid,
        /// The tuple to read the old key from: the `K`/`O` sub-message, or the new
        /// tuple when the key did not change.
        key_source: Vec<Cell>,
        new: Vec<Cell>,
    },
    Delete { rel_oid: Oid, key_source: Vec<Cell> },
}

/// What a change is.
#[verifier::ext_equal]
#[allow(inconsistent_fields)]
pub enum Change {
    Insert { rel_oid: Oid, row: Seq<pgoutput::Cell> },
    Update { rel_oid: Oid, key: Seq<pgoutput::Cell>, row: Seq<pgoutput::Cell> },
    Delete { rel_oid: Oid, key: Seq<pgoutput::Cell> },
}

impl View for PendingChange {
    type V = Change;

    open spec fn view(&self) -> Change {
        match self {
            PendingChange::Insert { rel_oid, new } => Change::Insert {
                rel_oid: *rel_oid,
                row: cell_views(new@),
            },
            PendingChange::Update { rel_oid, key_source, new } => Change::Update {
                rel_oid: *rel_oid,
                key: cell_views(key_source@),
                row: cell_views(new@),
            },
            PendingChange::Delete { rel_oid, key_source } => Change::Delete {
                rel_oid: *rel_oid,
                key: cell_views(key_source@),
            },
        }
    }
}

pub open spec fn change_views(s: Seq<PendingChange>) -> Seq<Change> {
    s.map_values(|c: PendingChange| c@)
}

/// A row that can be buffered: one without a value in binary format.
pub open spec fn bufferable(row: Seq<pgoutput::Cell>) -> bool {
    forall|i: int| 0 <= i < row.len() ==> !((#[trigger] row[i]) is Binary)
}

pub open spec fn binary_fault() -> ApplyFault {
    ApplyFault::Unsupported("binary-format value"@)
}

fn tuple_cells(tuple: &TupleData<'_>) -> (r: Result<Vec<Cell>, ApplyError>)
    ensures
        match r {
            Ok(v) => bufferable(tuple@) && cell_views(v@) == tuple@,
            Err(e) => !bufferable(tuple@) && e@ == binary_fault(),
        },
{
    let mut out: Vec<Cell> = Vec::new();
    let mut i: usize = 0;
    while i < tuple.columns.len()
        invariant
            i <= tuple.columns@.len(),
            tuple@.len() == tuple.columns@.len(),
            cell_views(out@) == tuple@.take(i as int),
            forall|k: int| 0 <= k < i ==> !((#[trigger] tuple@[k]) is Binary),
        decreases tuple.columns@.len() - i,
    {
        assert(tuple@[i as int] == tuple.columns@[i as int]@);
        let cell = match &tuple.columns[i] {
            TupleColumn::Null => Cell::Null,
            TupleColumn::Text(b) => Cell::Text(vstd::slice::slice_to_vec(*b)),
            TupleColumn::UnchangedToast => Cell::Unchanged,
            TupleColumn::Binary(_) => {
                assert(tuple@[i as int] is Binary);
                return Err(ApplyError::Unsupported("binary-format value"));
            },
        };
        let ghost before = out@;
        proof {
            if let pgoutput::Cell::Text(b) = tuple@[i as int] {
                assert(b.subrange(0, b.len() as int) =~= b);
            }
            assert(cell@ == tuple@[i as int]);
        }
        out.push(cell);
        proof {
            assert(cell_views(out@) =~= cell_views(before).push(cell@));
            assert(tuple@.take(i + 1) =~= tuple@.take(i as int).push(tuple@[i as int]));
        }
        i += 1;
    }
    proof {
        assert(tuple@.take(tuple@.len() as int) =~= tuple@);
    }
    Ok(out)
}

/// The change that a message makes, where it makes one. The old key comes from the key or
/// full image of the old row when there is one, else from the new row.
pub open spec fn change_of(m: pgoutput::Event) -> Option<Result<Change, ApplyFault>> {
    match m {
        pgoutput::Event::Insert { rel_oid, new_tuple, .. } => Some(
            if bufferable(new_tuple) {
                Ok(Change::Insert { rel_oid, row: new_tuple })
            } else {
                Err(binary_fault())
            },
        ),
        pgoutput::Event::Update { rel_oid, key, before, new_tuple, .. } => {
            let source = if key is Some {
                key->0
            } else if before is Some {
                before->0
            } else {
                new_tuple
            };
            Some(
                if bufferable(source) && bufferable(new_tuple) {
                    Ok(Change::Update { rel_oid, key: source, row: new_tuple })
                } else {
                    Err(binary_fault())
                },
            )
        },
        pgoutput::Event::Delete { rel_oid, key, before, .. } => Some(
            if key is None && before is None {
                Err(ApplyFault::Unsupported("delete without a replica-identity key"@))
            } else {
                let source = if key is Some {
                    key->0
                } else {
                    before->0
                };
                if bufferable(source) {
                    Ok(Change::Delete { rel_oid, key: source })
                } else {
                    Err(binary_fault())
                }
            },
        ),
        _ => None,
    }
}

/// The statement of a change, where it needs one.
pub open spec fn change_sql(c: Change, rels: Map<u32, RelationInfo>) -> Result<
    Option<Seq<char>>,
    ApplyFault,
> {
    let oid = match c {
        Change::Insert { rel_oid, .. } => rel_oid,
        Change::Update { rel_oid, .. } => rel_oid,
        Change::Delete { rel_oid, .. } => rel_oid,
    };
    if !rels.contains_key(oid) {
        Err(ApplyFault::UnknownRelation(oid))
    } else {
        match c {
            Change::Insert { row, .. } => match insert_sql(rels[oid], row) {
                Ok(s) => Ok(Some(s)),
                Err(e) => Err(e),
            },
            Change::Update { key, row, .. } => update_sql(rels[oid], key, row),
            Change::Delete { key, .. } => match delete_sql(rels[oid], key) {
                Ok(s) => Ok(Some(s)),
                Err(e) => Err(e),
            },
        }
    }
}

/// The statements of a transaction, in order, or why the first change that cannot be applied
/// cannot.
pub open spec fn statements_of(cs: Seq<Change>, rels: Map<u32, RelationInfo>) -> Result<
    Seq<Seq<char>>,
    ApplyFault,
>
    decreases cs.len(),
{
    if cs.len() == 0 {
        Ok(Seq::empty())
    } else {
        match statements_of(cs.drop_last(), rels) {
            Err(e) => Err(e),
            Ok(v) => match change_sql(cs.last(), rels) {
                Err(e) => Err(e),
                Ok(None) => Ok(v),
                Ok(Some(s)) => Ok(v.push(s)),
            },
        }
    }
}

proof fn lemma_statements_error(cs: Seq<Change>, rels: Map<u32, RelationInfo>, i: int)
    requires
        0 <= i <= cs.len(),
        statements_of(cs.take(i), rels) is Err,
    ensures
        statements_of(cs, rels) == statements_of(cs.take(i), rels),
    decreases cs.len() - i,
{
    if i == cs.len() {
        assert(cs.take(i) =~= cs);
    } else {
        assert(cs.take(i + 1).drop_last() =~= cs.take(i));
        lemma_statements_error(cs, rels, i + 1);
    }
}

// ---------------------------------------------------------------------------------------
// The applier.
// ---------------------------------------------------------------------------------------

/// One target transaction: its statements, each of which affects exactly one row, and the
/// progress to record in it.
#[derive(Debug, PartialEq, Eq)]
pub struct ApplyTxn {
    pub statements: Vec<String>,
    pub commit_lsn: Lsn,
    pub end_lsn: Lsn,
}

/// Applies a decoded logical-replication stream to a target database.
pub struct Applier {
    relations: HashMap<u32, RelationInfo>,
    consumer: String,
    checkpoint: Lsn,
    /// The durable end of the last applied (or replay-skipped) transaction —
    /// the position to acknowledge to the server. Distinct from `checkpoint`
    /// (the commit LSN used for de-duplication): acknowledging only the commit
    /// LSN leaves the final transaction eternally re-sendable and pins the
    /// slot's WAL horizon behind what is actually durable here.
    ack: Lsn,
    pending: Vec<PendingChange>,
}

/// The larger of two positions.
pub open spec fn later(a: Lsn, b: Lsn) -> Lsn {
    if a.0 >= b.0 {
        a
    } else {
        b
    }
}

fn later_of(a: Lsn, b: Lsn) -> (r: Lsn)
    ensures
        r == later(a, b),
{
    if a.0 >= b.0 {
        a
    } else {
        b
    }
}

/// Whether the description is that of a Relation message.
pub open spec fn describes(
    info: RelationInfo,
    namespace: Seq<char>,
    name: Seq<char>,
    replica_identity: u8,
    columns: Seq<pgoutput::ColumnDecl>,
) -> bool {
    &&& info.schema@ == namespace
    &&& info.table@ == name
    &&& info.replica_identity == replica_identity
    &&& info.columns@.len() == columns.len()
    &&& forall|i: int| 0 <= i < columns.len() ==> (#[trigger] info.columns@[i])@ == columns[i].name
    &&& info.key_columns@.map_values(|i: usize| i as int) == key_positions(columns)
}

/// The positions of the key columns.
pub open spec fn key_positions(columns: Seq<pgoutput::ColumnDecl>) -> Seq<int>
    decreases columns.len(),
{
    if columns.len() == 0 {
        Seq::empty()
    } else if columns.last().flags % 2 == 1 {
        key_positions(columns.drop_last()).push(columns.len() - 1)
    } else {
        key_positions(columns.drop_last())
    }
}

fn relation_info(r: &Relation<'_>) -> (info: RelationInfo)
    ensures
        describes(
            info,
            r.namespace@,
            r.name@,
            r.replica_identity,
            pgoutput::column_views(r.columns@),
        ),
        info.wf(),
{
    let ghost decls = pgoutput::column_views(r.columns@);
    let mut columns: Vec<String> = Vec::new();
    let mut key_columns: Vec<usize> = Vec::new();
    let mut i: usize = 0;
    proof {
        assert(decls.take(0) =~= Seq::<pgoutput::ColumnDecl>::empty());
        assert(key_columns@.map_values(|i: usize| i as int) =~= Seq::<int>::empty());
    }
    while i < r.columns.len()
        invariant
            i <= r.columns@.len(),
            decls == pgoutput::column_views(r.columns@),
            columns@.len() == i,
            forall|k: int| 0 <= k < i ==> (#[trigger] columns@[k])@ == decls[k].name,
            key_columns@.map_values(|i: usize| i as int) == key_positions(decls.take(i as int)),
            forall|k: int| 0 <= k < key_columns@.len() ==> (#[trigger] key_columns@[k]) < i,
        decreases r.columns@.len() - i,
    {
        let c = &r.columns[i];
        proof {
            assert(decls.take(i + 1).drop_last() =~= decls.take(i as int));
            assert(decls.take(i + 1).last() == c@);
        }
        columns.push(c.name.to_owned());
        if c.is_key() {
            let ghost before = key_columns@;
            key_columns.push(i);
            proof {
                assert(key_columns@.map_values(|i: usize| i as int) =~= before.map_values(
                    |i: usize| i as int,
                ).push(i as int));
            }
        }
        i += 1;
    }
    proof {
        assert(decls.take(decls.len() as int) =~= decls);
    }
    RelationInfo {
        schema: r.namespace.to_owned(),
        table: r.name.to_owned(),
        columns,
        replica_identity: r.replica_identity,
        key_columns,
    }
}

impl Applier {
    /// The relations described so far.
    pub closed spec fn known(self) -> Map<u32, RelationInfo> {
        self.relations@
    }

    /// The changes of the transaction that is being received.
    pub closed spec fn buffered(self) -> Seq<Change> {
        change_views(self.pending@)
    }

    pub closed spec fn durable(self) -> Lsn {
        self.checkpoint
    }

    pub closed spec fn acknowledged(self) -> Lsn {
        self.ack
    }

    pub closed spec fn id(self) -> Seq<char> {
        self.consumer@
    }

    pub open spec fn wf(self) -> bool {
        forall|oid: u32| self.known().contains_key(oid) ==> (#[trigger] self.known()[oid]).wf()
    }

    /// An applier for the given `consumer` id, from what the progress table holds for it:
    /// the commit position and the end position of its last transaction. A row that was
    /// written before there was an end position has 0 there; what is acknowledged is never
    /// below the commit position that is known to be durable.
    pub fn new(consumer: &str, progress: Option<(i64, i64)>) -> (r: Applier)
        ensures
            r.wf(),
            r.id() == consumer@,
            r.known() == Map::<u32, RelationInfo>::empty(),
            r.buffered().len() == 0,
            match progress {
                None => r.durable() == Lsn(0) && r.acknowledged() == Lsn(0),
                Some((lsn, end)) => r.durable() == Lsn(bytes::bits64(lsn)) && r.acknowledged()
                    == later(Lsn(bytes::bits64(end)), Lsn(bytes::bits64(lsn))),
            },
    {
        let (checkpoint, ack) = match progress {
            Some((lsn, end)) => {
                let lsn = Lsn(bytes::to_bits64(lsn));
                let end = Lsn(bytes::to_bits64(end));
                (lsn, later_of(end, lsn))
            },
            None => (Lsn(0), Lsn(0)),
        };
        Applier {
            relations: HashMap::new(),
            consumer: consumer.to_owned(),
            checkpoint,
            ack,
            pending: Vec::new(),
        }
    }

    pub fn consumer(&self) -> (r: &str)
        ensures
            r@ == self.id(),
    {
        self.consumer.as_str()
    }

    /// The last durably-applied commit LSN — the de-duplication watermark. For
    /// what to report to the server, use [`Self::ack_lsn`].
    pub fn checkpoint(&self) -> (r: Lsn)
        ensures
            r == self.durable(),
    {
        self.checkpoint
    }

    /// The position to acknowledge: the
    /// durable end of the last applied (or already-applied and skipped)
    /// transaction. Acknowledging the end rather than the commit LSN lets the
    /// slot release the transaction's WAL and stops it re-sending an
    /// already-applied final transaction on every reconnect.
    pub fn ack_lsn(&self) -> (r: Lsn)
        ensures
            r == self.acknowledged(),
    {
        self.ack
    }

    /// Handle one decoded message: track relations, buffer changes, and hand out the target
    /// transaction at commit. Rejects anything it cannot apply soundly rather than skipping
    /// it.
    pub fn handle(&mut self, msg: &LogicalRepMsg<'_>) -> (r: Result<Option<ApplyTxn>, ApplyError>)
        requires
            old(self).wf(),
        ensures
            final(self).wf(),
            final(self).id() == old(self).id(),
            final(self).durable() == old(self).durable(),
            match msg@ {
                pgoutput::Event::Relation {
                    oid,
                    namespace,
                    name,
                    replica_identity,
                    columns,
                    ..
                } => {
                    &&& r matches Ok(None)
                    &&& final(self).known().contains_key(oid)
                    &&& describes(
                        final(self).known()[oid],
                        namespace,
                        name,
                        replica_identity,
                        columns,
                    )
                    &&& final(self).known() == old(self).known().insert(
                        oid,
                        final(self).known()[oid],
                    )
                },
                _ => final(self).known() == old(self).known(),
            },
            match msg@ {
                pgoutput::Event::Begin(_) => r matches Ok(None) && final(self).buffered().len()
                    == 0,
                pgoutput::Event::Commit(c) => if c.commit_lsn.0 <= old(self).durable().0 {
                    r matches Ok(None) && final(self).buffered().len() == 0
                } else {
                    &&& final(self).buffered() == old(self).buffered()
                    &&& match statements_of(old(self).buffered(), old(self).known()) {
                        Ok(v) => r matches Ok(Some(t)) && text::views(t.statements@) == v
                            && t.commit_lsn == c.commit_lsn && t.end_lsn == c.end_lsn,
                        Err(e) => r matches Err(f) && f@ == e,
                    }
                },
                m => match change_of(m) {
                    Some(Ok(c)) => r matches Ok(None) && final(self).buffered() == old(self).buffered().push(c),
                    Some(Err(e)) => r matches Err(f) && f@ == e && final(self).buffered() == old(self).buffered(),
                    None => {
                        &&& final(self).buffered() == old(self).buffered()
                        &&& match m {
                            pgoutput::Event::Relation { .. } => true,
                            pgoutput::Event::Origin { .. } => r matches Ok(None),
                            pgoutput::Event::Type { .. } => r matches Ok(None),
                            pgoutput::Event::Message { .. } => r matches Ok(None),
                            pgoutput::Event::Truncate { .. } => r matches Err(f) && f@
                                == ApplyFault::Unsupported("TRUNCATE apply"@),
                            _ => r matches Err(f) && f@ == ApplyFault::Unsupported(
                                "streamed or two-phase transactions"@,
                            ),
                        }
                    },
                },
            },
            match msg@ {
                pgoutput::Event::Commit(c) if c.commit_lsn.0 <= old(self).durable().0 => final(self).acknowledged() == later(old(self).acknowledged(), c.end_lsn),
                _ => final(self).acknowledged() == old(self).acknowledged(),
            },
    {
        match msg {
            LogicalRepMsg::Relation(rel) => {
                let info = relation_info(rel);
                self.relations.insert(rel.oid, info);
                Ok(None)
            },
            LogicalRepMsg::Begin(_) => {
                self.pending.clear();
                Ok(None)
            },
            LogicalRepMsg::Insert(insert) => {
                let new = tuple_cells(&insert.new_tuple)?;
                self.push(PendingChange::Insert { rel_oid: insert.rel_oid, new });
                Ok(None)
            },
            LogicalRepMsg::Update(update) => {
                let source = match (&update.key, &update.old) {
                    (Some(key), _) => key,
                    (None, Some(prior)) => prior,
                    (None, None) => &update.new_tuple,
                };
                let key_source = tuple_cells(source)?;
                let new = tuple_cells(&update.new_tuple)?;
                self.push(PendingChange::Update { rel_oid: update.rel_oid, key_source, new });
                Ok(None)
            },
            LogicalRepMsg::Delete(delete) => {
                let source = match (&delete.key, &delete.old) {
                    (Some(key), _) => key,
                    (None, Some(prior)) => prior,
                    (None, None) => {
                        return Err(
                            ApplyError::Unsupported("delete without a replica-identity key"),
                        );
                    },
                };
                let key_source = tuple_cells(source)?;
                self.push(PendingChange::Delete { rel_oid: delete.rel_oid, key_source });
                Ok(None)
            },
            LogicalRepMsg::Commit(commit) => self.commit(commit.commit_lsn, commit.end_lsn),
            // Metadata the apply path does not act on directly.
            LogicalRepMsg::Origin(_) => Ok(None),
            LogicalRepMsg::Type(_) => Ok(None),
            LogicalRepMsg::Message(_) => Ok(None),
            // Fail closed rather than silently diverge.
            LogicalRepMsg::Truncate(_) => Err(ApplyError::Unsupported("TRUNCATE apply")),
            _ => Err(ApplyError::Unsupported("streamed or two-phase transactions")),
        }
    }

    fn push(&mut self, c: PendingChange)
        ensures
            final(self).relations == old(self).relations,
            final(self).consumer == old(self).consumer,
            final(self).checkpoint == old(self).checkpoint,
            final(self).ack == old(self).ack,
            final(self).buffered() == old(self).buffered().push(c@),
    {
        let ghost before = self.pending@;
        self.pending.push(c);
        proof {
            assert(change_views(self.pending@) =~= change_views(before).push(c@));
        }
    }

    fn commit(&mut self, commit_lsn: Lsn, end_lsn: Lsn) -> (r: Result<Option<ApplyTxn>, ApplyError>)
        requires
            old(self).wf(),
        ensures
            final(self).relations == old(self).relations,
            final(self).consumer == old(self).consumer,
            final(self).checkpoint == old(self).checkpoint,
            commit_lsn.0 <= old(self).durable().0 ==> {
                &&& r matches Ok(None)
                &&& final(self).buffered().len() == 0
                &&& final(self).acknowledged() == later(old(self).acknowledged(), end_lsn)
            },
            commit_lsn.0 > old(self).durable().0 ==> {
                &&& final(self).pending == old(self).pending
                &&& final(self).ack == old(self).ack
                &&& match statements_of(old(self).buffered(), old(self).known()) {
                    Ok(v) => r matches Ok(Some(t)) && text::views(t.statements@) == v
                        && t.commit_lsn == commit_lsn && t.end_lsn == end_lsn,
                    Err(e) => r matches Err(f) && f@ == e,
                }
            },
    {
        // Exactly-once: skip a commit at or before the durable checkpoint — it was
        // already applied and the slot replayed it after a restart. The comparison
        // must be `<=`, not `<`: PostgreSQL only skips a transaction whose commit
        // LSN is strictly below the slot's confirmed-flush, so the last-applied
        // transaction (LSN == checkpoint) is re-sent and must be de-duplicated here.
        if commit_lsn.0 <= self.checkpoint.0 {
            // Already durably applied — still safe (and necessary) to acknowledge
            // its end so the replay stops recurring.
            self.ack = later_of(self.ack, end_lsn);
            self.pending.clear();
            return Ok(None);
        }
        match self.statements() {
            Ok(statements) => Ok(Some(ApplyTxn { statements, commit_lsn, end_lsn })),
            Err(e) => Err(e),
        }
    }

    fn statement(&self, change: &PendingChange) -> (r: Result<Option<String>, ApplyError>)
        requires
            self.wf(),
        ensures
            match r {
                Ok(None) => change_sql(change@, self.known()) == Ok::<
                    Option<Seq<char>>,
                    ApplyFault,
                >(None),
                Ok(Some(s)) => change_sql(change@, self.known()) == Ok::<
                    Option<Seq<char>>,
                    ApplyFault,
                >(Some(s@)),
                Err(e) => change_sql(change@, self.known()) == Err::<Option<Seq<char>>, ApplyFault>(
                    e@,
                ),
            },
    {
        match change {
            PendingChange::Insert { rel_oid, new } => match self.relations.get(rel_oid) {
                Some(rel) => match build_insert(rel, new.as_slice()) {
                    Ok(s) => Ok(Some(s)),
                    Err(e) => Err(e),
                },
                None => Err(ApplyError::UnknownRelation(*rel_oid)),
            },
            PendingChange::Update { rel_oid, key_source, new } => match self.relations.get(
                rel_oid,
            ) {
                Some(rel) => {
                    assert(self.known()[*rel_oid].wf());
                    build_update(rel, key_source.as_slice(), new.as_slice())
                },
                None => Err(ApplyError::UnknownRelation(*rel_oid)),
            },
            PendingChange::Delete { rel_oid, key_source } => match self.relations.get(rel_oid) {
                Some(rel) => {
                    assert(self.known()[*rel_oid].wf());
                    match build_delete(rel, key_source.as_slice()) {
                        Ok(s) => Ok(Some(s)),
                        Err(e) => Err(e),
                    }
                },
                None => Err(ApplyError::UnknownRelation(*rel_oid)),
            },
        }
    }

    fn statements(&self) -> (r: Result<Vec<String>, ApplyError>)
        requires
            self.wf(),
        ensures
            match r {
                Ok(v) => statements_of(self.buffered(), self.known()) == Ok::<
                    Seq<Seq<char>>,
                    ApplyFault,
                >(text::views(v@)),
                Err(e) => statements_of(self.buffered(), self.known()) == Err::<
                    Seq<Seq<char>>,
                    ApplyFault,
                >(e@),
            },
    {
        let ghost cs = change_views(self.pending@);
        let ghost rels = self.relations@;
        let mut out: Vec<String> = Vec::new();
        let mut i: usize = 0;
        proof {
            assert(cs.take(0) =~= Seq::<Change>::empty());
            assert(text::views(out@) =~= Seq::<Seq<char>>::empty());
        }
        while i < self.pending.len()
            invariant
                i <= self.pending@.len(),
                cs == change_views(self.pending@),
                rels == self.relations@,
                self.wf(),
                statements_of(cs.take(i as int), rels) == Ok::<Seq<Seq<char>>, ApplyFault>(
                    text::views(out@),
                ),
            decreases self.pending@.len() - i,
        {
            proof {
                assert(cs.take(i + 1).drop_last() =~= cs.take(i as int));
                assert(cs.take(i + 1).last() == self.pending@[i as int]@);
            }
            match self.statement(&self.pending[i]) {
                Ok(Some(s)) => {
                    let ghost before = out@;
                    out.push(s);
                    proof {
                        assert(text::views(out@) =~= text::views(before).push(s@));
                    }
                },
                // An update that changed only unshipped-TOAST columns has nothing to set.
                Ok(None) => {},
                Err(e) => {
                    proof {
                        lemma_statements_error(cs, rels, i + 1);
                    }
                    return Err(e);
                },
            }
            i += 1;
        }
        proof {
            assert(cs.take(cs.len() as int) =~= cs);
        }
        Ok(out)
    }

    /// Records that the target transaction has committed.
    pub fn applied(&mut self, txn: &ApplyTxn)
        requires
            old(self).wf(),
        ensures
            final(self).wf(),
            final(self).id() == old(self).id(),
            final(self).known() == old(self).known(),
            final(self).durable() == txn.commit_lsn,
            final(self).acknowledged() == later(old(self).acknowledged(), txn.end_lsn),
            final(self).buffered().len() == 0,
    {
        self.checkpoint = txn.commit_lsn;
        self.ack = later_of(self.ack, txn.end_lsn);
        self.pending.clear();
        assert(self.known() == old(self).known());
    }
}

/// Each statement targets exactly one row (insert, or update/delete matched by the
/// replica-identity key). A different count means the target diverged from the source — a
/// missing row, or a duplicate under a key that should be unique.
pub fn check_affected(affected: u64) -> (r: Result<(), ApplyError>)
    ensures
        affected == 1 ==> r is Ok,
        affected != 1 ==> (r matches Err(e) && e@ == ApplyFault::RowCountMismatch { affected }),
{
    if affected != 1 {
        return Err(ApplyError::RowCountMismatch { affected });
    }
    Ok(())
}

/// The numbers to record as progress.
pub fn progress_values(txn: &ApplyTxn) -> (r: (i64, i64))
    ensures
        r.0 == bytes::signed64(txn.commit_lsn.0),
        r.1 == bytes::signed64(txn.end_lsn.0),
{
    (bytes::to_signed64(txn.commit_lsn.0), bytes::to_signed64(txn.end_lsn.0))
}

/// What is recorded as progress reads back as the position.
pub proof fn law_progress_round_trips(v: u64)
    ensures
        bytes::bits64(bytes::signed64(v)) == v,
{
}

/// What is applied of a stream of commits, from a checkpoint on: each commit after the
/// checkpoint, which then is the checkpoint.
pub open spec fn applied_from(checkpoint: u64, commits: Seq<u64>) -> Seq<u64>
    decreases commits.len(),
{
    if commits.len() == 0 {
        Seq::empty()
    } else if commits[0] <= checkpoint {
        applied_from(checkpoint, commits.drop_first())
    } else {
        seq![commits[0]] + applied_from(commits[0], commits.drop_first())
    }
}

proof fn lemma_all_new(checkpoint: u64, commits: Seq<u64>)
    requires
        forall|i: int, j: int| 0 <= i < j < commits.len() ==> commits[i] < commits[j],
        forall|i: int| 0 <= i < commits.len() ==> checkpoint < commits[i],
    ensures
        applied_from(checkpoint, commits) == commits,
    decreases commits.len(),
{
    if commits.len() > 0 {
        let t = commits.drop_first();
        lemma_all_new(commits[0], t);
        assert(seq![commits[0]] + t =~= commits);
    } else {
        assert(applied_from(checkpoint, commits) =~= commits);
    }
}

/// Exactly once across a replay: where the first `done` commits of a source have been applied
/// and the slot sends again from any of them on, exactly the rest is applied, each once and
/// in order.
pub proof fn law_replay_applies_exactly_the_tail(commits: Seq<u64>, done: int, from: int)
    requires
        forall|i: int, j: int| 0 <= i < j < commits.len() ==> commits[i] < commits[j],
        0 <= from <= done <= commits.len(),
        done == 0 ==> commits.len() == 0 || commits[0] > 0,
    ensures
        applied_from(
            if done == 0 {
                0
            } else {
                commits[done - 1]
            },
            commits.skip(from),
        ) == commits.skip(done),
    decreases done - from,
{
    let checkpoint = if done == 0 {
        0
    } else {
        commits[done - 1]
    };
    let s = commits.skip(from);
    if from == done {
        lemma_all_new(checkpoint, s);
    } else {
        assert(s[0] == commits[from]);
        assert(s.drop_first() =~= commits.skip(from + 1));
        law_replay_applies_exactly_the_tail(commits, done, from + 1);
    }
}

/// What an error says.
pub open spec fn fault_text(e: ApplyFault) -> Seq<char> {
    match e {
        ApplyFault::UnknownRelation(oid) => "change references unknown relation oid "@
            + text::decimal(oid as int) + " (no Relation message seen)"@,
        ApplyFault::ColumnCountMismatch { relation, expected, actual } => "relation "@ + relation
            + " has "@ + text::decimal(expected) + " columns but the row has "@ + text::decimal(
            actual,
        ),
        ApplyFault::InvalidUtf8 => "non-UTF-8 value in a text column"@,
        ApplyFault::RowCountMismatch { affected } => "a change affected "@ + text::decimal(
            affected as int,
        ) + " target rows, expected exactly 1 (target diverged)"@,
        ApplyFault::Unsupported(what) => what + " is not supported yet"@,
    }
}

impl ApplyError {
    pub fn to_string(&self) -> (r: String)
        ensures
            r@ == fault_text(self@),
    {
        match self {
            ApplyError::UnknownRelation(oid) => text::concat3(
                "change references unknown relation oid ",
                text::decimal_u64(*oid as u64).as_str(),
                " (no Relation message seen)",
            ),
            ApplyError::ColumnCountMismatch { relation, expected, actual } => {
                let head = text::concat4(
                    "relation ",
                    relation.as_str(),
                    " has ",
                    text::decimal_u64(*expected as u64).as_str(),
                );
                text::concat3(
                    head.as_str(),
                    " columns but the row has ",
                    text::decimal_u64(*actual as u64).as_str(),
                )
            },
            ApplyError::InvalidUtf8 => "non-UTF-8 value in a text column".to_owned(),
            ApplyError::RowCountMismatch { affected } => text::concat3(
                "a change affected ",
                text::decimal_u64(*affected).as_str(),
                " target rows, expected exactly 1 (target diverged)",
            ),
            ApplyError::Unsupported(what) => text::concat2(what, " is not supported yet"),
        }
    }
}

// ---------------------------------------------------------------------------------------
// What the statements say.
// ---------------------------------------------------------------------------------------

/// The text of a cell; a NULL has none.
pub open spec fn cell_text(c: pgoutput::Cell) -> Option<Seq<char>> {
    match c {
        pgoutput::Cell::Text(b) => bytes::text_of(b),
        _ => None,
    }
}

/// NULL is written as the keyword, which no text is written as: two cells that are written
/// alike are one cell.
pub proof fn law_cells_are_written_apart(a: pgoutput::Cell, b: pgoutput::Cell)
    ensures
        rendered(pgoutput::Cell::Null) == Ok::<Seq<char>, ApplyFault>("NULL"@),
        a is Text && rendered(a) is Ok ==> rendered(a)->Ok_0 != "NULL"@,
        rendered(a) is Ok && rendered(a) == rendered(b) ==> a == b,
        rendered(a) is Ok <==> (a is Null || (a is Text && cell_text(a) is Some)),
        rendered(a) is Ok ==> (forall|rest: Seq<char>|
            quote::plain_start(rest) ==> #[trigger] quote::value_after(rendered(a)->Ok_0 + rest)
                == Some((cell_text(a), rest))),
{
    if a is Text && rendered(a) is Ok {
        quote::law_null_is_no_literal(cell_text(a)->0, cell_text(a)->0);
    }
    if b is Text && rendered(b) is Ok {
        quote::law_null_is_no_literal(cell_text(b)->0, cell_text(b)->0);
    }
    if a is Text && b is Text && rendered(a) is Ok && rendered(a) == rendered(b) {
        let s = cell_text(a)->0;
        let t = cell_text(b)->0;
        quote::law_null_is_no_literal(s, t);
        bytes::law_text_is_its_encoding(s, a->Text_0);
        bytes::law_text_is_its_encoding(s, b->Text_0);
    }
    if rendered(a) is Ok {
        assert forall|rest: Seq<char>| quote::plain_start(rest) implies #[trigger]
            quote::value_after(rendered(a)->Ok_0 + rest) == Some((cell_text(a), rest)) by {
            let v = if a is Text {
                cell_text(a)->0
            } else {
                Seq::empty()
            };
            quote::law_names_and_literals_read_back(v, v, v, rest);
        }
    }
}

pub open spec fn cell_texts(row: Seq<pgoutput::Cell>) -> Seq<Option<Seq<char>>> {
    row.map_values(|c: pgoutput::Cell| cell_text(c))
}

/// An `INSERT` as it reads: the schema, the table, the columns and the values.
pub open spec fn read_insert(s: Seq<char>, n: nat) -> Option<
    ((Seq<char>, Seq<char>), Seq<Seq<char>>, Seq<Option<Seq<char>>>),
> {
    match quote::after(s, "INSERT INTO "@) {
        Some(t) => match quote::qualified_after(t) {
            Some((table, u)) => match quote::after(u, " ("@) {
                Some(w) => match quote::items_after(
                    w,
                    n,
                    ", "@,
                    |x: Seq<char>| quote::ident_after(x),
                ) {
                    Some((columns, x)) => match quote::after(x, ") VALUES ("@) {
                        Some(y) => match quote::items_after(
                            y,
                            n,
                            ", "@,
                            |x: Seq<char>| quote::value_after(x),
                        ) {
                            Some((values, z)) => if z == ")"@ {
                                Some((table, columns, values))
                            } else {
                                None
                            },
                            None => None,
                        },
                        None => None,
                    },
                    None => None,
                },
                None => None,
            },
            None => None,
        },
        None => None,
    }
}

proof fn lemma_rendered_all(cells: Seq<pgoutput::Cell>, i: int)
    requires
        rendered_all(cells) is Ok,
    ensures
        rendered_all(cells)->Ok_0.len() == cells.len(),
        0 <= i < cells.len() ==> rendered(cells[i]) == Ok::<Seq<char>, ApplyFault>(
            rendered_all(cells)->Ok_0[i],
        ),
    decreases cells.len(),
{
    if cells.len() > 0 {
        lemma_rendered_all(cells.drop_last(), i);
    }
}

/// An `INSERT` inserts the row that was replicated: read as SQL, it names the relation's
/// table and its columns, and each column gets its cell, text for text and NULL for NULL.
pub proof fn law_inserts_say_the_row(rel: RelationInfo, row: Seq<pgoutput::Cell>)
    ensures
        insert_sql(rel, row) matches Ok(s) ==> row.len() == rel.columns@.len() && read_insert(
            s,
            row.len(),
        ) == Some(((rel.schema@, rel.table@), text::views(rel.columns@), cell_texts(row))),
        insert_sql(rel, row) is Ok <==> row.len() == rel.columns@.len() && forall|i: int|
            0 <= i < row.len() ==> rendered(#[trigger] row[i]) is Ok,
{
    lemma_rendered_all_ok(row);
    if insert_sql(rel, row) is Ok {
        reveal_strlit("INSERT INTO ");
        reveal_strlit(" (");
        reveal_strlit(") VALUES (");
        reveal_strlit(")");
        reveal_strlit(", ");
        let values = rendered_all(row)->Ok_0;
        let cols = text::views(rel.columns@);
        let names = rel.columns@.map_values(|c: String| quote::ident(c@));
        let s6 = text::joined(values, ", "@) + ")"@;
        let s5 = ") VALUES ("@ + s6;
        let s4 = text::joined(names, ", "@) + s5;
        let s3 = " ("@ + s4;
        let s2 = quote::qualified(rel.schema@, rel.table@) + s3;
        assert(insert_sql(rel, row)->Ok_0 =~= "INSERT INTO "@ + s2);
        quote::lemma_after("INSERT INTO "@, s2);
        quote::law_names_and_literals_read_back(rel.schema@, rel.table@, rel.table@, s3);
        quote::lemma_after(" ("@, s4);
        let read_name = |x: Seq<char>| quote::ident_after(x);
        assert forall|i: int, u: Seq<char>| 0 <= i < names.len() && quote::plain_start(u) implies #[trigger]
            read_name(names[i] + u) == Some((cols[i], u)) by {
            quote::law_names_and_literals_read_back(cols[i], cols[i], cols[i], u);
        }
        quote::lemma_items(names, cols, ", "@, read_name, s5);
        quote::lemma_after(") VALUES ("@, s6);
        let read_value = |x: Seq<char>| quote::value_after(x);
        lemma_rendered_all(row, 0);
        assert forall|i: int, u: Seq<char>| 0 <= i < values.len() && quote::plain_start(
            u,
        ) implies #[trigger] read_value(values[i] + u) == Some((cell_texts(row)[i], u)) by {
            lemma_rendered_all(row, i);
            law_cells_are_written_apart(row[i], row[i]);
        }
        quote::lemma_items(values, cell_texts(row), ", "@, read_value, ")"@);
    }
}

proof fn lemma_rendered_all_ok(row: Seq<pgoutput::Cell>)
    ensures
        rendered_all(row) is Ok <==> forall|i: int|
            0 <= i < row.len() ==> rendered(#[trigger] row[i]) is Ok,
    decreases row.len(),
{
    if row.len() > 0 {
        let t = row.drop_last();
        lemma_rendered_all_ok(t);
        if rendered_all(row) is Ok {
            assert forall|i: int| 0 <= i < row.len() implies rendered(#[trigger] row[i]) is Ok by {
                lemma_rendered_all(row, i);
            }
        }
        if forall|i: int| 0 <= i < row.len() ==> rendered(#[trigger] row[i]) is Ok {
            assert forall|i: int| 0 <= i < t.len() implies rendered(#[trigger] t[i]) is Ok by {
                assert(t[i] == row[i]);
            }
            assert(rendered(row[row.len() - 1]) is Ok);
        }
    }
}

/// The columns whose values an update ships, each with its value.
pub open spec fn shipped(cols: Seq<String>, row: Seq<pgoutput::Cell>) -> Seq<
    (Seq<char>, Option<Seq<char>>),
>
    decreases row.len(),
{
    if row.len() == 0 {
        Seq::empty()
    } else {
        let rest = shipped(cols, row.drop_last());
        if row.last() is UnchangedToast {
            rest
        } else {
            rest.push((cols[row.len() - 1]@, cell_text(row.last())))
        }
    }
}

/// The key columns, each with its value.
pub open spec fn identified(cols: Seq<String>, keys: Seq<usize>, row: Seq<pgoutput::Cell>) -> Seq<
    (Seq<char>, Option<Seq<char>>),
> {
    keys.map_values(|k: usize| (cols[k as int]@, cell_text(row[k as int])))
}

/// Whether parts are written pairs, in front of anything that begins with no quote.
spec fn are_pairs(parts: Seq<Seq<char>>, pairs: Seq<(Seq<char>, Option<Seq<char>>)>) -> bool {
    &&& parts.len() == pairs.len()
    &&& forall|i: int, u: Seq<char>|
        0 <= i < parts.len() && quote::plain_start(u) ==> #[trigger] quote::pair_after(parts[i] + u)
            == Some((pairs[i], u))
}

proof fn lemma_written_pair(name: Seq<char>, c: pgoutput::Cell, u: Seq<char>)
    requires
        rendered(c) is Ok,
        quote::plain_start(u),
    ensures
        quote::pair_after(quote::ident(name) + " = "@ + rendered(c)->Ok_0 + u) == Some(
            ((name, cell_text(c)), u),
        ),
{
    quote::lemma_pair(name, rendered(c)->Ok_0, cell_text(c), u);
}

proof fn lemma_pushed_pair(
    parts: Seq<Seq<char>>,
    pairs: Seq<(Seq<char>, Option<Seq<char>>)>,
    name: Seq<char>,
    c: pgoutput::Cell,
)
    requires
        are_pairs(parts, pairs),
        rendered(c) is Ok,
    ensures
        are_pairs(
            parts.push(quote::ident(name) + " = "@ + rendered(c)->Ok_0),
            pairs.push((name, cell_text(c))),
        ),
{
    let p = parts.push(quote::ident(name) + " = "@ + rendered(c)->Ok_0);
    let q = pairs.push((name, cell_text(c)));
    assert forall|i: int, u: Seq<char>| 0 <= i < p.len() && quote::plain_start(u) implies #[trigger]
        quote::pair_after(p[i] + u) == Some((q[i], u)) by {
        if i < parts.len() {
            assert(p[i] == parts[i]);
            assert(quote::pair_after(parts[i] + u) == Some((pairs[i], u)));
        } else {
            lemma_written_pair(name, c, u);
        }
    }
}

proof fn lemma_assigned(cols: Seq<String>, row: Seq<pgoutput::Cell>)
    ensures
        assignments(cols, row) is Ok ==> are_pairs(assignments(cols, row)->Ok_0, shipped(cols, row)),
        assignments(cols, row) is Ok <==> forall|i: int|
            0 <= i < row.len() ==> (#[trigger] row[i]) is UnchangedToast || rendered(row[i]) is Ok,
    decreases row.len(),
{
    if row.len() > 0 {
        let t = row.drop_last();
        lemma_assigned(cols, t);
        if forall|i: int|
            0 <= i < row.len() ==> (#[trigger] row[i]) is UnchangedToast || rendered(row[i]) is Ok {
            assert forall|i: int| 0 <= i < t.len() implies (#[trigger] t[i]) is UnchangedToast
                || rendered(t[i]) is Ok by {
                assert(t[i] == row[i]);
            }
            assert(row[row.len() - 1] is UnchangedToast || rendered(row[row.len() - 1]) is Ok);
        }
        if assignments(cols, row) is Ok {
            assert forall|i: int| 0 <= i < row.len() implies (#[trigger] row[i]) is UnchangedToast
                || rendered(row[i]) is Ok by {
                if i < t.len() {
                    assert(t[i] == row[i]);
                }
            }
            if !(row.last() is UnchangedToast) {
                lemma_pushed_pair(
                    assignments(cols, t)->Ok_0,
                    shipped(cols, t),
                    cols[row.len() - 1]@,
                    row.last(),
                );
            }
        }
    }
}

proof fn lemma_conditioned(cols: Seq<String>, keys: Seq<usize>, row: Seq<pgoutput::Cell>)
    ensures
        conditions(cols, keys, row) is Ok ==> are_pairs(
            conditions(cols, keys, row)->Ok_0,
            identified(cols, keys, row),
        ),
        conditions(cols, keys, row) is Ok <==> forall|i: int|
            0 <= i < keys.len() ==> row[(#[trigger] keys[i]) as int] is Text && rendered(
                row[keys[i] as int],
            ) is Ok,
    decreases keys.len(),
{
    if keys.len() > 0 {
        let t = keys.drop_last();
        lemma_conditioned(cols, t, row);
        let c = row[keys.last() as int];
        if forall|i: int|
            0 <= i < keys.len() ==> row[(#[trigger] keys[i]) as int] is Text && rendered(
                row[keys[i] as int],
            ) is Ok {
            assert forall|i: int| 0 <= i < t.len() implies row[(#[trigger] t[i]) as int] is Text
                && rendered(row[t[i] as int]) is Ok by {
                assert(t[i] == keys[i]);
            }
            assert(row[keys[keys.len() - 1] as int] is Text);
        }
        if conditions(cols, keys, row) is Ok {
            assert forall|i: int| 0 <= i < keys.len() implies row[(
            #[trigger] keys[i]) as int] is Text && rendered(row[keys[i] as int]) is Ok by {
                if i < t.len() {
                    assert(t[i] == keys[i]);
                }
            }
            lemma_pushed_pair(
                conditions(cols, t, row)->Ok_0,
                identified(cols, t, row),
                cols[keys.last() as int]@,
                c,
            );
            assert(identified(cols, keys, row) =~= identified(cols, t, row).push(
                (cols[keys.last() as int]@, cell_text(c)),
            ));
        }
    }
}

/// An `UPDATE` as it reads: the table, what is set, and the condition.
pub open spec fn read_update(s: Seq<char>, sets: nat, keys: nat) -> Option<
    (
        (Seq<char>, Seq<char>),
        Seq<(Seq<char>, Option<Seq<char>>)>,
        Seq<(Seq<char>, Option<Seq<char>>)>,
    ),
> {
    match quote::after(s, "UPDATE "@) {
        Some(t) => match quote::qualified_after(t) {
            Some((table, u)) => match quote::after(u, " SET "@) {
                Some(w) => match quote::items_after(
                    w,
                    sets,
                    ", "@,
                    |x: Seq<char>| quote::pair_after(x),
                ) {
                    Some((set, x)) => match read_where(x, keys) {
                        Some(found) => Some((table, set, found)),
                        None => None,
                    },
                    None => None,
                },
                None => None,
            },
            None => None,
        },
        None => None,
    }
}

/// A `WHERE` as it reads, up to the end of the statement.
pub open spec fn read_where(s: Seq<char>, keys: nat) -> Option<
    Seq<(Seq<char>, Option<Seq<char>>)>,
> {
    match quote::after(s, " WHERE "@) {
        Some(y) => match quote::items_after(
            y,
            keys,
            " AND "@,
            |x: Seq<char>| quote::pair_after(x),
        ) {
            Some((found, z)) => if z.len() == 0 {
                Some(found)
            } else {
                None
            },
            None => None,
        },
        None => None,
    }
}

/// A `DELETE` as it reads: the table and the condition.
pub open spec fn read_delete(s: Seq<char>, keys: nat) -> Option<
    ((Seq<char>, Seq<char>), Seq<(Seq<char>, Option<Seq<char>>)>),
> {
    match quote::after(s, "DELETE FROM "@) {
        Some(t) => match quote::qualified_after(t) {
            Some((table, u)) => match read_where(u, keys) {
                Some(found) => Some((table, found)),
                None => None,
            },
            None => None,
        },
        None => None,
    }
}

proof fn lemma_where(rel: RelationInfo, key: Seq<pgoutput::Cell>)
    requires
        where_sql(rel, key) is Ok,
    ensures
        read_where(" WHERE "@ + where_sql(rel, key)->Ok_0, rel.key_columns@.len()) == Some(
            identified(rel.columns@, rel.key_columns@, key),
        ),
{
    reveal_strlit(" WHERE ");
    reveal_strlit(" AND ");
    let parts = conditions(rel.columns@, rel.key_columns@, key)->Ok_0;
    let pairs = identified(rel.columns@, rel.key_columns@, key);
    lemma_conditioned(rel.columns@, rel.key_columns@, key);
    let w = text::joined(parts, " AND "@);
    quote::lemma_after(" WHERE "@, w);
    let read = |x: Seq<char>| quote::pair_after(x);
    assert forall|i: int, u: Seq<char>| 0 <= i < parts.len() && quote::plain_start(u) implies #[trigger]
        read(parts[i] + u) == Some((pairs[i], u)) by {
        assert(quote::pair_after(parts[i] + u) == Some((pairs[i], u)));
    }
    let none = Seq::<char>::empty();
    quote::lemma_items(parts, pairs, " AND "@, read, none);
    assert(w + none =~= w);
}

/// An `UPDATE` changes the row that was replicated: read as SQL, it names the relation's
/// table, sets every column whose value was shipped to its cell and no other, and finds the
/// row by its replica-identity key columns with their old values. Nothing is written only
/// where nothing was shipped; a key that is NULL or was not shipped, and an identity that
/// does not name one row, are refused.
pub proof fn law_updates_say_the_change(
    rel: RelationInfo,
    key: Seq<pgoutput::Cell>,
    row: Seq<pgoutput::Cell>,
)
    ensures
        update_sql(rel, key, row) matches Ok(Some(s)) ==> read_update(
            s,
            shipped(rel.columns@, row).len(),
            rel.key_columns@.len(),
        ) == Some(
            (
                (rel.schema@, rel.table@),
                shipped(rel.columns@, row),
                identified(rel.columns@, rel.key_columns@, key),
            ),
        ),
        update_sql(rel, key, row) matches Ok(None) ==> shipped(rel.columns@, row).len() == 0,
        update_sql(rel, key, row) is Ok && shipped(rel.columns@, row).len() > 0 ==> {
            &&& update_sql(rel, key, row)->Ok_0 is Some
            &&& rel.replica_identity == 0x64 || rel.replica_identity == 0x69
            &&& rel.key_columns@.len() > 0
            &&& forall|i: int|
                0 <= i < rel.key_columns@.len() ==> key[(
                #[trigger] rel.key_columns@[i]) as int] is Text
        },
        update_sql(rel, key, row) is Ok ==> key.len() == rel.columns@.len() && row.len()
            == rel.columns@.len(),
{
    lemma_assigned(rel.columns@, row);
    lemma_conditioned(rel.columns@, rel.key_columns@, key);
    if update_sql(rel, key, row) is Ok && update_sql(rel, key, row)->Ok_0 is Some {
        reveal_strlit("UPDATE ");
        reveal_strlit(" SET ");
        reveal_strlit(", ");
        reveal_strlit(" WHERE ");
        let sets = assignments(rel.columns@, row)->Ok_0;
        let pairs = shipped(rel.columns@, row);
        let s4 = " WHERE "@ + where_sql(rel, key)->Ok_0;
        let s3 = text::joined(sets, ", "@) + s4;
        let s2 = " SET "@ + s3;
        let s1 = quote::qualified(rel.schema@, rel.table@) + s2;
        assert(update_sql(rel, key, row)->Ok_0->0 =~= "UPDATE "@ + s1);
        quote::lemma_after("UPDATE "@, s1);
        quote::law_names_and_literals_read_back(rel.schema@, rel.table@, rel.table@, s2);
        quote::lemma_after(" SET "@, s3);
        let read = |x: Seq<char>| quote::pair_after(x);
        assert forall|i: int, u: Seq<char>| 0 <= i < sets.len() && quote::plain_start(u) implies #[trigger]
            read(sets[i] + u) == Some((pairs[i], u)) by {
            assert(quote::pair_after(sets[i] + u) == Some((pairs[i], u)));
        }
        quote::lemma_items(sets, pairs, ", "@, read, s4);
        lemma_where(rel, key);
    }
}

/// A `DELETE` deletes the row that was replicated: read as SQL, it names the relation's table
/// and finds the row by its replica-identity key columns with their old values.
pub proof fn law_deletes_say_the_row(rel: RelationInfo, key: Seq<pgoutput::Cell>)
    ensures
        delete_sql(rel, key) matches Ok(s) ==> read_delete(s, rel.key_columns@.len()) == Some(
            ((rel.schema@, rel.table@), identified(rel.columns@, rel.key_columns@, key)),
        ),
        delete_sql(rel, key) is Ok <==> {
            &&& key.len() == rel.columns@.len()
            &&& rel.replica_identity == 0x64 || rel.replica_identity == 0x69
            &&& rel.key_columns@.len() > 0
            &&& forall|i: int|
                0 <= i < rel.key_columns@.len() ==> key[(
                #[trigger] rel.key_columns@[i]) as int] is Text && rendered(
                    key[rel.key_columns@[i] as int],
                ) is Ok
        },
{
    lemma_conditioned(rel.columns@, rel.key_columns@, key);
    if delete_sql(rel, key) is Ok {
        reveal_strlit("DELETE FROM ");
        reveal_strlit(" WHERE ");
        let s2 = " WHERE "@ + where_sql(rel, key)->Ok_0;
        let s1 = quote::qualified(rel.schema@, rel.table@) + s2;
        assert(delete_sql(rel, key)->Ok_0 =~= "DELETE FROM "@ + s1);
        quote::lemma_after("DELETE FROM "@, s1);
        quote::law_names_and_literals_read_back(rel.schema@, rel.table@, rel.table@, s2);
        lemma_where(rel, key);
    }
}

/// Every column that a replicated update changes is set: a shipped cell is among those set,
/// under its own column's name, and an unshipped one is not.
pub proof fn law_shipped_columns_are_set(cols: Seq<String>, row: Seq<pgoutput::Cell>, i: int)
    requires
        0 <= i < row.len() <= cols.len(),
    ensures
        !(row[i] is UnchangedToast) ==> shipped(cols, row).contains((cols[i]@, cell_text(row[i]))),
        forall|p: (Seq<char>, Option<Seq<char>>)|
            #[trigger] shipped(cols, row).contains(p) ==> exists|k: int|
                0 <= k < row.len() && !((#[trigger] row[k]) is UnchangedToast) && p == (
                    cols[k]@,
                    cell_text(row[k]),
                ),
    decreases row.len(),
{
    let t = row.drop_last();
    let all = shipped(cols, row);
    let rest = shipped(cols, t);
    if t.len() > 0 {
        law_shipped_columns_are_set(
            cols,
            t,
            if i < t.len() {
                i
            } else {
                0
            },
        );
    } else {
        assert(rest.len() == 0);
    }
    if !(row[i] is UnchangedToast) {
        let p = (cols[i]@, cell_text(row[i]));
        if i < t.len() {
            assert(t[i] == row[i]);
            let k = rest.index_of(p);
            assert(all[k] == p);
        } else {
            assert(all[all.len() - 1] == p);
        }
    }
    assert forall|p: (Seq<char>, Option<Seq<char>>)| #[trigger] all.contains(p) implies exists|
        k: int,
    |
        0 <= k < row.len() && !((#[trigger] row[k]) is UnchangedToast) && p == (
            cols[k]@,
            cell_text(row[k]),
        ) by {
        let q = all.index_of(p);
        if q < rest.len() {
            assert(rest[q] == p);
            assert(rest.contains(p));
            let k = choose|k: int|
                0 <= k < t.len() && !((#[trigger] t[k]) is UnchangedToast) && p == (
                    cols[k]@,
                    cell_text(t[k]),
                );
            assert(row[k] == t[k]);
        } else {
            assert(row[row.len() - 1] == row.last());
        }
    }
}

/// A change keeps what the source said: an insert its row, an update its new row and the old
/// key where one was sent, a deletion its old key; a value in binary format is refused.
pub proof fn law_changes_keep_the_rows(
    xid: Option<u32>,
    rel_oid: Oid,
    key: Option<Seq<pgoutput::Cell>>,
    before: Option<Seq<pgoutput::Cell>>,
    row: Seq<pgoutput::Cell>,
    i: int,
)
    ensures
        change_of(pgoutput::Event::Insert { xid, rel_oid, new_tuple: row }) matches Some(Ok(c))
            ==> c == (Change::Insert { rel_oid, row }),
        change_of(pgoutput::Event::Insert { xid, rel_oid, new_tuple: row }) is Some,
        change_of(pgoutput::Event::Update { xid, rel_oid, key, before, new_tuple: row }) is Some,
        change_of(pgoutput::Event::Update { xid, rel_oid, key, before, new_tuple: row }) matches Some(
            Ok(Change::Update { rel_oid: o, key: k, row: r }),
        ) ==> o == rel_oid && r == row && (key is Some ==> k == key->0) && (key is None && before
            is Some ==> k == before->0) && (key is None && before is None ==> k == row),
        change_of(pgoutput::Event::Update { xid, rel_oid, key, before, new_tuple: row }) matches Some(
            Ok(c),
        ) ==> c is Update,
        change_of(pgoutput::Event::Delete { xid, rel_oid, key, before }) is Some,
        change_of(pgoutput::Event::Delete { xid, rel_oid, key, before }) matches Some(Ok(c)) ==> c
            is Delete,
        change_of(pgoutput::Event::Delete { xid, rel_oid, key, before }) matches Some(
            Ok(Change::Delete { rel_oid: o, key: k }),
        ) ==> o == rel_oid && (key is Some ==> k == key->0) && (key is None ==> before == Some(k)),
        0 <= i < row.len() && row[i] is Binary ==> change_of(
            pgoutput::Event::Insert { xid, rel_oid, new_tuple: row },
        )->0 is Err && change_of(
            pgoutput::Event::Update { xid, rel_oid, key, before, new_tuple: row },
        )->0 is Err,
        (forall|k: int| 0 <= k < row.len() ==> !((#[trigger] row[k]) is Binary)) ==> change_of(
            pgoutput::Event::Insert { xid, rel_oid, new_tuple: row },
        )->0 is Ok,
{
}

/// The statements of a transaction are those of its changes, in their order; a change that
/// needs none adds none.
pub proof fn law_statements_follow_the_changes(
    cs: Seq<Change>,
    c: Change,
    rels: Map<u32, RelationInfo>,
)
    ensures
        statements_of(Seq::empty(), rels) == Ok::<Seq<Seq<char>>, ApplyFault>(Seq::empty()),
        match (statements_of(cs, rels), change_sql(c, rels)) {
            (Ok(v), Ok(Some(s))) => statements_of(cs.push(c), rels) == Ok::<
                Seq<Seq<char>>,
                ApplyFault,
            >(v.push(s)),
            (Ok(v), Ok(None)) => statements_of(cs.push(c), rels) == Ok::<
                Seq<Seq<char>>,
                ApplyFault,
            >(v),
            (Ok(_), Err(e)) => statements_of(cs.push(c), rels) == Err::<
                Seq<Seq<char>>,
                ApplyFault,
            >(e),
            (Err(e), _) => statements_of(cs.push(c), rels) == Err::<Seq<Seq<char>>, ApplyFault>(e),
        },
{
    assert(cs.push(c).drop_last() =~= cs);
}

/// A change goes to the relation that it names: an insert inserts, an update updates and a
/// deletion deletes there, and a relation that was not described is refused.
pub proof fn law_changes_go_to_their_relation(
    oid: Oid,
    key: Seq<pgoutput::Cell>,
    row: Seq<pgoutput::Cell>,
    rels: Map<u32, RelationInfo>,
)
    ensures
        !rels.contains_key(oid) ==> {
            &&& change_sql(Change::Insert { rel_oid: oid, row }, rels) is Err
            &&& change_sql(Change::Update { rel_oid: oid, key, row }, rels) is Err
            &&& change_sql(Change::Delete { rel_oid: oid, key }, rels) is Err
        },
        rels.contains_key(oid) ==> {
            &&& match insert_sql(rels[oid], row) {
                Ok(s) => change_sql(Change::Insert { rel_oid: oid, row }, rels) == Ok::<
                    Option<Seq<char>>,
                    ApplyFault,
                >(Some(s)),
                Err(e) => change_sql(Change::Insert { rel_oid: oid, row }, rels) == Err::<
                    Option<Seq<char>>,
                    ApplyFault,
                >(e),
            }
            &&& change_sql(Change::Update { rel_oid: oid, key, row }, rels) == update_sql(
                rels[oid],
                key,
                row,
            )
            &&& match delete_sql(rels[oid], key) {
                Ok(s) => change_sql(Change::Delete { rel_oid: oid, key }, rels) == Ok::<
                    Option<Seq<char>>,
                    ApplyFault,
                >(Some(s)),
                Err(e) => change_sql(Change::Delete { rel_oid: oid, key }, rels) == Err::<
                    Option<Seq<char>>,
                    ApplyFault,
                >(e),
            }
        },
{
}

/// The key columns are those that the source marked, in their order.
pub proof fn law_key_columns_are_the_marked_ones(columns: Seq<pgoutput::ColumnDecl>, i: int)
    ensures
        key_positions(columns).contains(i) <==> 0 <= i < columns.len() && columns[i].flags % 2 == 1,
        forall|a: int, b: int|
            0 <= a < b < key_positions(columns).len() ==> #[trigger] key_positions(columns)[a]
                < #[trigger] key_positions(columns)[b],
        forall|a: int|
            0 <= a < key_positions(columns).len() ==> 0 <= #[trigger] key_positions(columns)[a]
                < columns.len(),
    decreases columns.len(),
{
    if columns.len() > 0 {
        let t = columns.drop_last();
        law_key_columns_are_the_marked_ones(t, i);
        let rest = key_positions(t);
        let all = key_positions(columns);
        if rest.contains(i) {
            let k = rest.index_of(i);
            assert(all[k] == i);
        }
        if all.contains(i) {
            let k = all.index_of(i);
            if k < rest.len() {
                assert(rest[k] == i);
                assert(rest.contains(i));
            }
        }
        if i == columns.len() - 1 && columns[i].flags % 2 == 1 {
            assert(all[all.len() - 1] == i);
        }
    }
}

/// What is acknowledged never goes back.
pub proof fn law_the_later_position_wins(a: Lsn, b: Lsn)
    ensures
        later(a, b).0 >= a.0,
        later(a, b).0 >= b.0,
        later(a, b) == a || later(a, b) == b,
{
}

} // verus!
