//! Route a parsed statement to shards.
//!
//! Given one parsed statement, the sharding schema ([`VSchema`]), and the
//! database's [`ShardCatalog`], [`plan`] returns a [`Plan`] telling the router
//! where the statement goes: one shard, a scatter of shards, every shard, the
//! unsharded system database, or a rejection.
//!
//! # Scope and guarantees
//!
//! The planner never *under-routes*: the shards it targets always cover every
//! row the statement can touch. Within that guarantee it is deliberately
//! conservative:
//!
//! - Shard keys are read from top-level `key = value` / `key IN (...)`
//!   constraints (AND-reachable); OR/NOT subtrees are not mined, so such a read
//!   scatters and such a write is rejected.
//! - Literal shard keys are coerced to the column's declared type before hashing,
//!   so different spellings of one value route identically. A literal that is not
//!   a valid value of the type is unroutable: the read scatters and the write
//!   is rejected. When the column's type is not declared, the literal is hashed in
//!   the form it was written.
//! - A `$n` shard key yields a [`Plan::Parameterized`]: the value is known only
//!   at Bind. A predicate that mixes a literal and a parameter is not
//!   parameterizable soundly — the read scatters and the write is rejected.
//! - Cross-shard writes, keyless writes, updates of the shard key (including via
//!   `ON CONFLICT DO UPDATE`), `UPDATE ... FROM` / `DELETE ... USING`, and
//!   MERGE/COPY are rejected with SQLSTATE `0A000`.
//! - `search_path` is not modeled: an unqualified relation defaults to `public`.
//! - Joins, subqueries, CTEs, and set operations over sharded tables are
//!   rejected, not routed.
//! - A function body is opaque to the router.
use crate::ast::{
    self, ConflictAction, DeleteStmt, Feature, InsertStmt, Node, OnConflict, Parsed, SelectStmt,
    StatementKind, UpdateStmt,
};
use crate::catalog::{self, ShardCatalog, ShardId};
use crate::extract::{self, analyze_from, range_var_table, where_key_values, FromClause, KeyRef,
    KeyVal};
use crate::shardfn::{self, shard_function, KeyValue, ScalarType, ScalarValue, ShardFunction};
use crate::text;
use crate::vschema::{self, TableDef, TableKey, TableName, VSchema};
use vstd::prelude::*;
use vstd::string::*;

verus! {

/// SQLSTATE `feature_not_supported`: what a statement the router cannot route
/// (a cross-shard write, an unsupported form) is rejected with.
pub const CROSS_SHARD: &'static str = "0A000";

/// SQLSTATE `undefined_table`.
pub const UNDEFINED_TABLE: &'static str = "42P01";

/// Where the router should send a statement.
#[derive(Debug, PartialEq, Eq)]
pub enum Plan {
    /// Exactly one shard: every shard key resolved to the same shard.
    SingleShard(ShardId),
    /// Fan a read out to these shards and merge the results.
    Scatter(Vec<ShardId>),
    /// Run on every shard (schema/DDL change).
    Broadcast(Vec<ShardId>),
    /// The unsharded system database (only global tables are involved).
    Unsharded,
    /// Not shard-routed: the router's session layer handles it (SET, SHOW,
    /// transaction control, PREPARE/EXECUTE, empty statement).
    RouterLocal,
    /// The shard key is a bind parameter; routing finishes at Bind.
    Parameterized(Parameterized),
    /// The statement cannot be routed; the router returns this SQLSTATE.
    Reject { code: &'static str, reason: String },
}

/// A plan whose shard key is only known once bind parameters arrive. The
/// executor re-resolves it against the bound values before running.
#[derive(Debug, PartialEq, Eq)]
pub struct Parameterized {
    /// Shard function that maps each bound shard-key value to a keyspace id.
    pub shard_function: String,
    /// The shard-key column's type, so a bound value is coerced the same way a
    /// literal is before hashing. `None` hashes the value as delivered.
    pub key_type: Option<ScalarType>,
    /// The 1-based `$n` positions that supply shard-key values.
    pub param_indices: Vec<u32>,
    /// True for INSERT/UPDATE/DELETE: at Bind every value must land on one
    /// shard or the write is rejected as cross-shard.
    pub write: bool,
}

/// What a plan says.
#[verifier::ext_equal]
pub enum PlanView {
    SingleShard(Seq<char>),
    Scatter(Seq<Seq<char>>),
    Broadcast(Seq<Seq<char>>),
    Unsharded,
    RouterLocal,
    Parameterized(ParamView),
    Reject { code: Seq<char>, reason: Seq<char> },
}

#[verifier::ext_equal]
pub struct ParamView {
    pub shard_function: Seq<char>,
    pub key_type: Option<ScalarType>,
    pub param_indices: Seq<u32>,
    pub write: bool,
}

impl View for Parameterized {
    type V = ParamView;

    open spec fn view(&self) -> ParamView {
        ParamView {
            shard_function: self.shard_function@,
            key_type: self.key_type,
            param_indices: self.param_indices@,
            write: self.write,
        }
    }
}

impl View for Plan {
    type V = PlanView;

    open spec fn view(&self) -> PlanView {
        match self {
            Plan::SingleShard(s) => PlanView::SingleShard(s@),
            Plan::Scatter(v) => PlanView::Scatter(catalog::id_views(v@)),
            Plan::Broadcast(v) => PlanView::Broadcast(catalog::id_views(v@)),
            Plan::Unsharded => PlanView::Unsharded,
            Plan::RouterLocal => PlanView::RouterLocal,
            Plan::Parameterized(p) => PlanView::Parameterized(p@),
            Plan::Reject { code, reason } => PlanView::Reject { code: code@, reason: reason@ },
        }
    }
}

pub open spec fn rejected(reason: Seq<char>) -> PlanView {
    PlanView::Reject { code: "0A000"@, reason }
}

/// The answer to a relation that the schema does not know.
pub open spec fn rejected_unknown(t: TableKey) -> PlanView {
    PlanView::Reject {
        code: "42P01"@,
        reason: "relation "@ + vschema::table_text(t)
            + " is not in the sharding configuration; qualify catalog reads with pg_catalog"@,
    }
}

// ---------------------------------------------------------------------------------------
// Resolving shard-key values.
// ---------------------------------------------------------------------------------------

/// The keyspace id of a literal or bound value of a column of the given type. A value that
/// is none of the type has no id; without a type the value is hashed as it stands.
pub open spec fn value_id(v: KeyValue, key_type: Option<ScalarType>) -> Option<u64> {
    match key_type {
        Some(t) => match shardfn::coerced(t, v) {
            Some(c) => Some(shardfn::xxhash64_v1_id(c)),
            None => None,
        },
        None => Some(shardfn::xxhash64_v1_id(v)),
    }
}

/// How a set of shard-key values resolves against the catalog.
pub enum Resolution {
    /// No usable shard-key constraint was found.
    Unkeyed,
    /// Every value is a bind parameter; carries each `$n` seen.
    Params(Vec<u32>),
    /// A mix of literal and bind-parameter values. The literal shards cannot be
    /// dropped (they may differ from where the params land), and bind-time
    /// resolution sees only the params, so neither `Shards` nor `Params` is
    /// sound: the caller must scatter (read) or reject (write).
    Mixed,
    /// A literal shard key that is not a valid value of the column's declared
    /// type, so it cannot be hashed. Handled like `Mixed`.
    Uncoercible,
    /// All values are literals; carries the distinct shards they hit.
    Shards(Vec<ShardId>),
}

pub enum ResolutionView {
    Unkeyed,
    Params(Seq<u32>),
    Mixed,
    Uncoercible,
    Shards(Seq<Seq<char>>),
}

impl View for Resolution {
    type V = ResolutionView;

    open spec fn view(&self) -> ResolutionView {
        match self {
            Resolution::Unkeyed => ResolutionView::Unkeyed,
            Resolution::Params(p) => ResolutionView::Params(p@),
            Resolution::Mixed => ResolutionView::Mixed,
            Resolution::Uncoercible => ResolutionView::Uncoercible,
            Resolution::Shards(v) => ResolutionView::Shards(catalog::id_views(v@)),
        }
    }
}

/// The placeholder number of a value that is one.
pub open spec fn param_number(v: KeyRef) -> u32 {
    match v {
        KeyRef::Param(n) => n,
        _ => 0,
    }
}

/// The keyspace id of a value that is a literal with one.
pub open spec fn const_id(v: KeyRef, key_type: Option<ScalarType>) -> Option<u64> {
    match v {
        KeyRef::Const(k) => value_id(k, key_type),
        _ => None,
    }
}

/// The shard of each value.
pub open spec fn value_shards(
    values: Seq<KeyRef>,
    key_type: Option<ScalarType>,
    c: ShardCatalog,
) -> Seq<Seq<char>> {
    values.map_values(|v: KeyRef| c.shard_of(const_id(v, key_type)->0))
}

pub open spec fn has_param(values: Seq<KeyRef>) -> bool {
    exists|i: int| 0 <= i < values.len() && (#[trigger] values[i]) is Param
}

pub open spec fn has_const(values: Seq<KeyRef>) -> bool {
    exists|i: int| 0 <= i < values.len() && (#[trigger] values[i]) is Const
}

/// What shard-key values come to: nothing, placeholders, a mix, a literal that is not of
/// the type, or the shards that the literals hit.
pub open spec fn resolution(
    values: Seq<KeyRef>,
    key_type: Option<ScalarType>,
    c: ShardCatalog,
) -> ResolutionView {
    if values.len() == 0 {
        ResolutionView::Unkeyed
    } else if has_param(values) && has_const(values) {
        ResolutionView::Mixed
    } else if has_param(values) {
        ResolutionView::Params(values.map_values(|v: KeyRef| param_number(v)))
    } else if exists|i: int|
        0 <= i < values.len() && const_id(#[trigger] values[i], key_type) is None {
        ResolutionView::Uncoercible
    } else {
        ResolutionView::Shards(catalog::sorted_ids(value_shards(values, key_type, c)))
    }
}

fn value_keyspace_id(value: &ScalarValue, key_type: Option<ScalarType>) -> (r: Option<u64>)
    ensures
        r == value_id(value@, key_type),
{
    match key_type {
        Some(t) => match t.coerce(value) {
            Some(canonical) => Some(shardfn::XXHASH64_V1.keyspace_id(&canonical).0),
            None => None,
        },
        None => Some(shardfn::XXHASH64_V1.keyspace_id(value).0),
    }
}

/// Resolves shard-key values against the catalog.
pub fn route_values(
    values: &Vec<KeyVal>,
    key_type: Option<ScalarType>,
    shards: &ShardCatalog,
) -> (r: Resolution)
    ensures
        r@ == resolution(extract::key_views(values@), key_type, *shards),
{
    let ghost vs = extract::key_views(values@);
    if values.len() == 0 {
        return Resolution::Unkeyed;
    }
    let mut params: Vec<u32> = Vec::new();
    let mut found_const: bool = false;
    let mut i: usize = 0;
    while i < values.len()
        invariant
            i <= values@.len(),
            vs == extract::key_views(values@),
            found_const == (exists|k: int| 0 <= k < i && (#[trigger] vs[k]) is Const),
            !found_const ==> params@ == vs.take(i as int).map_values(|v: KeyRef| param_number(v)),
            params@.len() > 0 <==> (exists|k: int| 0 <= k < i && (#[trigger] vs[k]) is Param),
        decreases values@.len() - i,
    {
        assert(vs[i as int] == values@[i as int]@);
        match &values[i] {
            KeyVal::Param(n) => {
                params.push(*n);
                proof {
                    assert(vs.take(i + 1).map_values(|v: KeyRef| param_number(v)) =~= vs.take(
                        i as int,
                    ).map_values(|v: KeyRef| param_number(v)).push(*n));
                }
            },
            KeyVal::Const(_) => {
                found_const = true;
            },
        }
        i += 1;
    }
    proof {
        assert(vs.take(vs.len() as int) =~= vs);
        assert(found_const == has_const(vs));
        assert(params@.len() > 0 <==> has_param(vs));
    }
    if params.len() > 0 {
        if found_const {
            return Resolution::Mixed;
        }
        return Resolution::Params(params);
    }
    let mut hit: Vec<ShardId> = Vec::new();
    let mut j: usize = 0;
    let ghost all = value_shards(vs, key_type, *shards);
    proof {
        assert(all.take(0) =~= Seq::<Seq<char>>::empty());
        assert(catalog::id_views(hit@) =~= Seq::<Seq<char>>::empty());
    }
    while j < values.len()
        invariant
            j <= values@.len(),
            vs == extract::key_views(values@),
            vs.len() > 0,
            !has_param(vs),
            all == value_shards(vs, key_type, *shards),
            forall|k: int| 0 <= k < j ==> const_id(#[trigger] vs[k], key_type) is Some,
            catalog::id_views(hit@) == catalog::sorted_ids(all.take(j as int)),
        decreases values@.len() - j,
    {
        assert(vs[j as int] == values@[j as int]@);
        match &values[j] {
            KeyVal::Const(sv) => {
                match value_keyspace_id(sv, key_type) {
                    Some(id) => {
                        let owner = shards.route(crate::keyspace::KeyspaceId(id));
                        proof {
                            assert(all.take(j + 1).drop_last() =~= all.take(j as int));
                            assert(all.take(j + 1).last() == owner@);
                        }
                        catalog::insert_id(&mut hit, owner);
                    },
                    None => {
                        assert(const_id(vs[j as int], key_type) is None);
                        return Resolution::Uncoercible;
                    },
                }
            },
            KeyVal::Param(_) => {
                assert(vs[j as int] is Param);
                assert(false);
            },
        }
        j += 1;
    }
    proof {
        assert(all.take(all.len() as int) =~= all);
    }
    Resolution::Shards(hit)
}

// ---------------------------------------------------------------------------------------
// Placing tables.
// ---------------------------------------------------------------------------------------

/// The sharded/global classification of a referenced table.
pub enum Placement<'a> {
    Sharded { key: &'a str, key_type: Option<ScalarType>, shard_fn: &'a str },
    Global,
    Unknown,
}

pub enum PlacementView {
    Sharded { key: Seq<char>, key_type: Option<ScalarType> },
    Global,
    Unknown,
}

/// How the schema places a table.
pub open spec fn placed(v: VSchema, t: TableKey) -> PlacementView {
    match v.definition(t) {
        Some(TableDef::Sharded { shard_key_column, shard_function, shard_key_type, sequences }) =>
        PlacementView::Sharded { key: shard_key_column@, key_type: shard_key_type },
        Some(TableDef::Global) => PlacementView::Global,
        None => PlacementView::Unknown,
    }
}

pub open spec fn is_sharded(v: VSchema, t: TableKey) -> bool {
    placed(v, t) is Sharded
}

fn placement<'a>(v: &'a VSchema, table: &TableName) -> (r: Placement<'a>)
    ensures
        match (r, placed(*v, table@)) {
            (
                Placement::Sharded { key, key_type, shard_fn },
                PlacementView::Sharded { key: k, key_type: t },
            ) => key@ == k && key_type == t && shard_fn@ == "xxhash64_v1"@,
            (Placement::Global, PlacementView::Global) => true,
            (Placement::Unknown, PlacementView::Unknown) => true,
            _ => false,
        },
{
    match v.get(table) {
        Some(TableDef::Sharded { shard_key_column, shard_function, shard_key_type, sequences }) =>
        Placement::Sharded {
            key: shard_key_column.as_str(),
            key_type: *shard_key_type,
            shard_fn: shard_function.as_str(),
        },
        Some(TableDef::Global) => Placement::Global,
        None => Placement::Unknown,
    }
}

/// System catalog schemas exist in every database and hold no user rows, so a
/// read over them routes like a global table rather than being rejected as
/// unknown.
pub open spec fn in_catalog_schema(t: TableKey) -> bool {
    t.0 == "pg_catalog"@ || t.0 == "information_schema"@
}

fn is_catalog_schema(t: &TableName) -> (r: bool)
    ensures
        r == in_catalog_schema(t@),
{
    text::same(t.schema.as_str(), "pg_catalog") || text::same(
        t.schema.as_str(),
        "information_schema",
    )
}

/// Whether a read of the table cannot be routed because nothing says where it is.
pub open spec fn is_unknown(v: VSchema, t: TableKey) -> bool {
    !in_catalog_schema(t) && placed(v, t) is Unknown
}

/// The first table that cannot be routed.
pub open spec fn first_unknown(s: Seq<TableKey>, v: VSchema) -> Option<TableKey>
    decreases s.len(),
{
    if s.len() == 0 {
        None
    } else if is_unknown(v, s[0]) {
        Some(s[0])
    } else {
        first_unknown(s.drop_first(), v)
    }
}

fn find_unknown(tables: &Vec<TableName>, v: &VSchema) -> (r: Option<usize>)
    ensures
        match r {
            Some(i) => i < tables@.len() && first_unknown(extract::table_views(tables@), *v)
                == Some(tables@[i as int]@),
            None => first_unknown(extract::table_views(tables@), *v) is None,
        },
{
    let ghost ts = extract::table_views(tables@);
    let mut i: usize = 0;
    proof {
        assert(ts.skip(0) =~= ts);
    }
    while i < tables.len()
        invariant
            i <= tables@.len(),
            ts == extract::table_views(tables@),
            first_unknown(ts, *v) == first_unknown(ts.skip(i as int), *v),
        decreases tables@.len() - i,
    {
        proof {
            assert(ts.skip(i as int)[0] == tables@[i as int]@);
            assert(ts.skip(i as int).drop_first() =~= ts.skip(i + 1));
        }
        let known = is_catalog_schema(&tables[i]) || match placement(v, &tables[i]) {
            Placement::Unknown => false,
            _ => true,
        };
        if !known {
            return Some(i);
        }
        i += 1;
    }
    None
}

/// The positions of the sharded tables.
pub open spec fn sharded_positions(s: Seq<TableKey>, v: VSchema) -> Seq<int>
    decreases s.len(),
{
    if s.len() == 0 {
        Seq::empty()
    } else {
        let rest = sharded_positions(s.drop_last(), v);
        if is_sharded(v, s.last()) {
            rest.push(s.len() - 1)
        } else {
            rest
        }
    }
}

fn find_sharded(tables: &Vec<TableName>, v: &VSchema) -> (r: Vec<usize>)
    ensures
        r@.map_values(|i: usize| i as int) == sharded_positions(
            extract::table_views(tables@),
            *v,
        ),
        forall|k: int| 0 <= k < r@.len() ==> (#[trigger] r@[k]) < tables@.len(),
        forall|k: int|
            0 <= k < r@.len() ==> is_sharded(*v, tables@[(#[trigger] r@[k]) as int]@),
{
    let ghost ts = extract::table_views(tables@);
    let mut out: Vec<usize> = Vec::new();
    let mut i: usize = 0;
    proof {
        assert(ts.take(0) =~= Seq::<TableKey>::empty());
        assert(out@.map_values(|i: usize| i as int) =~= Seq::<int>::empty());
    }
    while i < tables.len()
        invariant
            i <= tables@.len(),
            ts == extract::table_views(tables@),
            out@.map_values(|i: usize| i as int) == sharded_positions(ts.take(i as int), *v),
            forall|k: int| 0 <= k < out@.len() ==> (#[trigger] out@[k]) < tables@.len(),
            forall|k: int|
                0 <= k < out@.len() ==> is_sharded(*v, tables@[(#[trigger] out@[k]) as int]@),
        decreases tables@.len() - i,
    {
        proof {
            assert(ts.take(i + 1).drop_last() =~= ts.take(i as int));
            assert(ts.take(i + 1).last() == tables@[i as int]@);
        }
        if let Placement::Sharded { .. } = placement(v, &tables[i]) {
            let ghost before = out@;
            out.push(i);
            proof {
                assert(out@.map_values(|i: usize| i as int) =~= before.map_values(
                    |i: usize| i as int,
                ).push(i as int));
            }
        }
        i += 1;
    }
    proof {
        assert(ts.take(ts.len() as int) =~= ts);
    }
    out
}

fn reject(reason: &str) -> (r: Plan)
    ensures
        r@ == rejected(reason@),
{
    Plan::Reject { code: "0A000", reason: reason.to_owned() }
}

/// A relation the sharding schema does not know cannot be routed by guesswork:
/// sending it to the system database would return that database's same-named
/// table if one exists — plausible wrong rows instead of an error.
fn reject_unknown(t: &TableName) -> (r: Plan)
    ensures
        r@ == rejected_unknown(t@),
{
    let name = t.to_string();
    Plan::Reject {
        code: "42P01",
        reason: text::concat3(
            "relation ",
            name.as_str(),
            " is not in the sharding configuration; qualify catalog reads with pg_catalog",
        ),
    }
}

// ---------------------------------------------------------------------------------------
// Reads.
// ---------------------------------------------------------------------------------------

/// The plan of a read whose shard key has resolved.
pub open spec fn read_plan(
    r: ResolutionView,
    key_type: Option<ScalarType>,
    c: ShardCatalog,
) -> PlanView {
    match r {
        ResolutionView::Params(p) => PlanView::Parameterized(
            ParamView {
                shard_function: "xxhash64_v1"@,
                key_type,
                param_indices: p,
                write: false,
            },
        ),
        ResolutionView::Shards(hit) => if hit.len() == 1 {
            PlanView::SingleShard(hit[0])
        } else {
            PlanView::Scatter(hit)
        },
        _ => PlanView::Scatter(c.ids()),
    }
}

/// Where a `SELECT` goes.
pub open spec fn select_plan(s: SelectStmt, v: VSchema, c: ShardCatalog) -> PlanView {
    let tables = extract::from_tables(s.from_clause@);
    let plain = extract::from_plain(s.from_clause@);
    let sharded = sharded_positions(tables, v);
    if s.set_operation {
        set_operation_plan(s, v)
    } else if first_unknown(tables, v) is Some {
        rejected_unknown(first_unknown(tables, v)->0)
    } else if sharded.len() == 0 {
        if tables.len() == 0 && plain && !ast::select_has(s, Feature::SubLink) && !ast::select_has(
            s,
            Feature::With,
        ) {
            PlanView::RouterLocal
        } else {
            PlanView::Unsharded
        }
    } else if sharded.len() > 1 {
        rejected("SELECT joining multiple sharded tables is not supported in M1"@)
    } else if tables.len() > 1 || !plain {
        rejected("SELECT joining a sharded table with another relation is not supported in M1"@)
    } else if s.with_clause is Some {
        rejected("SELECT with a CTE (WITH) on a sharded table is not supported in M1"@)
    } else if ast::select_has(s, Feature::SubLink) {
        rejected("SELECT with a subquery on a sharded table is not supported in M1"@)
    } else {
        match placed(v, tables[0]) {
            PlacementView::Sharded { key, key_type } => read_plan(
                resolution(extract::where_values(s.where_clause, key), key_type, c),
                key_type,
                c,
            ),
            _ => PlanView::Unsharded,
        }
    }
}

/// The tables that the arms of a set operation name.
pub open spec fn arms_tables(s: SelectStmt) -> Seq<TableKey>
    decreases s,
{
    if !s.set_operation {
        extract::from_tables(s.from_clause@)
    } else {
        arm_tables(s.larg) + arm_tables(s.rarg)
    }
}

pub open spec fn arm_tables(a: Option<Box<SelectStmt>>) -> Seq<TableKey>
    decreases a,
{
    match a {
        Some(s) => arms_tables(*s),
        None => Seq::empty(),
    }
}

/// Whether every arm of a set operation reads from tables alone.
pub open spec fn arms_plain(s: SelectStmt) -> bool
    decreases s,
{
    if !s.set_operation {
        extract::from_plain(s.from_clause@)
    } else {
        arm_plain(s.larg) && arm_plain(s.rarg)
    }
}

pub open spec fn arm_plain(a: Option<Box<SelectStmt>>) -> bool
    decreases a,
{
    match a {
        Some(s) => arms_plain(*s),
        None => true,
    }
}

/// Where a set operation goes.
pub open spec fn set_operation_plan(s: SelectStmt, v: VSchema) -> PlanView {
    let tables = arms_tables(s);
    if ast::select_has(s, Feature::SubLink) {
        rejected("a set operation with a subquery is not supported in M1"@)
    } else if ast::select_has(s, Feature::With) {
        rejected("a set operation with a CTE (WITH) is not supported in M1"@)
    } else if !arms_plain(s) {
        rejected("a set operation with a subquery or function in a FROM is not supported in M1"@)
    } else if sharded_positions(tables, v).len() > 0 {
        rejected(
            "a set operation (UNION/INTERSECT/EXCEPT) over a sharded table is not supported in M1"@,
        )
    } else if first_unknown(tables, v) is Some {
        rejected_unknown(first_unknown(tables, v)->0)
    } else if tables.len() == 0 {
        PlanView::RouterLocal
    } else {
        PlanView::Unsharded
    }
}

/// Turn a resolved literal shard set into a read plan.
fn read_from_shards(hit: Vec<ShardId>) -> (r: Plan)
    ensures
        r@ == if hit@.len() == 1 {
            PlanView::SingleShard(hit@[0]@)
        } else {
            PlanView::Scatter(catalog::id_views(hit@))
        },
{
    if hit.len() == 1 {
        Plan::SingleShard(hit[0].clone())
    } else {
        Plan::Scatter(hit)
    }
}

fn plan_select(s: &SelectStmt, v: &VSchema, shards: &ShardCatalog) -> (r: Plan)
    ensures
        r@ == select_plan(*s, *v, *shards),
{
    // A set operation nests its operands in larg/rarg and leaves the top-level FROM
    // empty; the key-routing path would mistake it for a session-local read.
    if s.set_operation {
        return plan_set_op(s, v);
    }
    let from = analyze_from(&s.from_clause);
    let ghost tables = extract::from_tables(s.from_clause@);
    proof {
        assert(extract::table_views(from.tables@).len() == from.tables@.len());
    }
    // Fail loud on a relation the schema does not know (a typo, or a table
    // missing from the config): falling through to the system database could
    // return a same-named table's rows there instead of an error.
    if let Some(i) = find_unknown(&from.tables, v) {
        return reject_unknown(&from.tables[i]);
    }
    let sharded = find_sharded(&from.tables, v);
    proof {
        assert(sharded_positions(tables, *v).len() == sharded@.len());
    }
    if sharded.len() == 0 {
        // A tableless statement with no subquery is session-local. A subquery or CTE
        // could still reach a sharded table; such a statement goes to the system
        // database, where a sharded reference errors loudly.
        let session_local = from.tables.len() == 0 && from.all_plain && !ast::find_in_select(
            s,
            Feature::SubLink,
        ) && !ast::find_in_select(s, Feature::With);
        return if session_local {
            Plan::RouterLocal
        } else {
            Plan::Unsharded
        };
    }
    // Only a single plain sharded table can be key-routed.
    if sharded.len() > 1 {
        return reject("SELECT joining multiple sharded tables is not supported in M1");
    }
    if from.tables.len() > 1 || !from.all_plain {
        return reject(
            "SELECT joining a sharded table with another relation is not supported in M1",
        );
    }
    // A `WITH` clause can *shadow* the sharded table name, and a data-modifying CTE
    // runs its writes on the routed shard regardless.
    if s.with_clause.is_some() {
        return reject("SELECT with a CTE (WITH) on a sharded table is not supported in M1");
    }
    // A subquery anywhere in the statement would run only on the routed shard yet
    // could reference rows on others.
    if ast::find_in_select(s, Feature::SubLink) {
        return reject("SELECT with a subquery on a sharded table is not supported in M1");
    }
    proof {
        assert(sharded@[0] < from.tables@.len());
        assert(from.tables@[0]@ == tables[0]);
    }
    match placement(v, &from.tables[0]) {
        Placement::Sharded { key, key_type, shard_fn } => {
            let values = where_key_values(&s.where_clause, key);
            match route_values(&values, key_type, shards) {
                Resolution::Params(param_indices) => Plan::Parameterized(
                    Parameterized {
                        shard_function: shard_fn.to_owned(),
                        key_type,
                        param_indices,
                        write: false,
                    },
                ),
                Resolution::Shards(hit) => {
                    proof {
                        assert(catalog::id_views(hit@).len() == hit@.len());
                    }
                    read_from_shards(hit)
                },
                // An uncoercible literal matches no row of the column's type; scattering
                // lets PostgreSQL return its own type error rather than guess a shard.
                _ => Plan::Scatter(shards.all()),
            }
        },
        _ => Plan::Unsharded,
    }
}

/// Plan a set operation (`UNION`/`INTERSECT`/`EXCEPT`). Its arms may target
/// different shards and its result needs a cross-shard merge, so one that touches a
/// sharded table cannot be routed. A set operation purely over global tables
/// runs whole on the system database; a tableless one (`SELECT 1 UNION SELECT 2`)
/// is session-local.
fn plan_set_op(s: &SelectStmt, v: &VSchema) -> (r: Plan)
    ensures
        r@ == set_operation_plan(*s, *v),
{
    if ast::find_in_select(s, Feature::SubLink) {
        return reject("a set operation with a subquery is not supported in M1");
    }
    if ast::find_in_select(s, Feature::With) {
        return reject("a set operation with a CTE (WITH) is not supported in M1");
    }
    let from = set_op_from(s);
    proof {
        assert(extract::table_views(from.tables@).len() == from.tables@.len());
    }
    if !from.all_plain {
        return reject(
            "a set operation with a subquery or function in a FROM is not supported in M1",
        );
    }
    let sharded = find_sharded(&from.tables, v);
    proof {
        assert(sharded_positions(arms_tables(*s), *v).len() == sharded@.len());
    }
    if sharded.len() > 0 {
        return reject(
            "a set operation (UNION/INTERSECT/EXCEPT) over a sharded table is not supported in M1",
        );
    }
    if let Some(i) = find_unknown(&from.tables, v) {
        return reject_unknown(&from.tables[i]);
    }
    if from.tables.len() == 0 {
        Plan::RouterLocal
    } else {
        Plan::Unsharded
    }
}

/// The FROM relations of every arm of a (possibly nested) set operation, and
/// whether every arm's FROM is plain.
fn set_op_from(s: &SelectStmt) -> (r: FromClause)
    ensures
        extract::table_views(r.tables@) == arms_tables(*s),
        r.all_plain == arms_plain(*s),
    decreases s,
{
    if !s.set_operation {
        return analyze_from(&s.from_clause);
    }
    let mut left = set_op_arm(&s.larg);
    let mut right = set_op_arm(&s.rarg);
    let ghost a = left.tables@;
    let ghost b = right.tables@;
    let all_plain = left.all_plain && right.all_plain;
    let mut tables = left.tables;
    let mut more = right.tables;
    tables.append(&mut more);
    proof {
        assert(extract::table_views(a + b) =~= extract::table_views(a) + extract::table_views(b));
    }
    FromClause { tables, all_plain }
}

fn set_op_arm(a: &Option<Box<SelectStmt>>) -> (r: FromClause)
    ensures
        extract::table_views(r.tables@) == arm_tables(*a),
        r.all_plain == arm_plain(*a),
    decreases a,
{
    match a {
        Some(s) => set_op_from(s),
        None => {
            let tables: Vec<TableName> = Vec::new();
            proof {
                assert(extract::table_views(tables@) =~= Seq::<TableKey>::empty());
            }
            FromClause { tables, all_plain: true }
        },
    }
}

// ---------------------------------------------------------------------------------------
// Writes.
// ---------------------------------------------------------------------------------------

/// The plan of a write whose literal shard keys hit these shards.
pub open spec fn shards_write(hit: Seq<Seq<char>>, t: TableKey) -> PlanView {
    if hit.len() == 1 {
        PlanView::SingleShard(hit[0])
    } else {
        rejected(
            "write to sharded table "@ + vschema::table_text(t) + " spans "@ + text::decimal(
                hit.len() as int,
            ) + " shards; cross-shard writes are not supported"@,
        )
    }
}

pub open spec fn params_write(params: Seq<u32>, key_type: Option<ScalarType>) -> PlanView {
    PlanView::Parameterized(
        ParamView {
            shard_function: "xxhash64_v1"@,
            key_type,
            param_indices: params,
            write: true,
        },
    )
}

/// Whether a conflict target names the column.
pub open spec fn arbiter_names(oc: OnConflict, key: Seq<char>) -> bool {
    match oc.infer {
        Some(inf) => inf.conname@.len() == 0 && exists|i: int|
            0 <= i < inf.index_elems@.len() && (#[trigger] inf.index_elems@[i] matches Node::IndexElem(
                e,
            ) && e.name@ == key),
        None => false,
    }
}

/// Where an `INSERT` into a sharded table goes.
pub open spec fn sharded_insert_plan(
    s: InsertStmt,
    t: TableKey,
    key: Seq<char>,
    key_type: Option<ScalarType>,
    c: ShardCatalog,
) -> PlanView {
    let name = vschema::table_text(t);
    if s.on_conflict_clause matches Some(oc) && oc.action == ConflictAction::Update {
        rejected(
            "INSERT into sharded table "@ + name
                + " with ON CONFLICT DO UPDATE is not supported in M1"@,
        )
    } else if s.on_conflict_clause matches Some(oc) && !arbiter_names(oc, key) {
        rejected(
            "INSERT into sharded table "@ + name
                + " with ON CONFLICT requires a conflict target listing the shard key column "@
                + key,
        )
    } else {
        match extract::insert_values(s, key) {
            None => rejected(
                "INSERT into sharded table "@ + name + " must list column "@ + key
                    + " with a literal or bind-parameter value"@,
            ),
            Some(values) => match resolution(values, key_type, c) {
                ResolutionView::Unkeyed => rejected(
                    "INSERT into sharded table "@ + name + " does not set shard key "@ + key,
                ),
                ResolutionView::Mixed => rejected(
                    "INSERT into sharded table "@ + name
                        + " mixes literal and parameter shard keys across rows"@,
                ),
                ResolutionView::Uncoercible => rejected(
                    "INSERT into sharded table "@ + name + " has a shard key "@ + key
                        + " value that is not valid for the column type"@,
                ),
                ResolutionView::Params(p) => params_write(p, key_type),
                ResolutionView::Shards(hit) => shards_write(hit, t),
            },
        }
    }
}

/// Where an `INSERT` goes.
pub open spec fn insert_plan(s: InsertStmt, v: VSchema, c: ShardCatalog) -> PlanView {
    match s.relation {
        None => rejected("INSERT without a target relation"@),
        Some(rv) => {
            let t = extract::table_of(rv);
            let name = vschema::table_text(t);
            if s.with_clause is Some {
                rejected("INSERT into "@ + name + " with a CTE (WITH) is not supported in M1"@)
            } else if ast::insert_has(s, Feature::SubLink) {
                rejected("INSERT into "@ + name + " with a subquery is not supported in M1"@)
            } else {
                match placed(v, t) {
                    PlacementView::Global => PlanView::Unsharded,
                    PlacementView::Unknown => rejected(
                        "table "@ + name + " is not in the sharding schema"@,
                    ),
                    PlacementView::Sharded { key, key_type } => sharded_insert_plan(
                        s,
                        t,
                        key,
                        key_type,
                        c,
                    ),
                }
            }
        },
    }
}

/// The plan of an `UPDATE` or `DELETE` that constrains the shard key to these values.
pub open spec fn keyed_write_plan(
    r: ResolutionView,
    t: TableKey,
    key: Seq<char>,
    key_type: Option<ScalarType>,
    verb: Seq<char>,
) -> PlanView {
    let name = vschema::table_text(t);
    match r {
        ResolutionView::Unkeyed => rejected(
            verb + " of sharded table "@ + name + " must constrain shard key "@ + key,
        ),
        ResolutionView::Mixed => rejected(
            verb + " of sharded table "@ + name + " mixes literal and parameter shard keys"@,
        ),
        ResolutionView::Uncoercible => rejected(
            verb + " of sharded table "@ + name + " has a shard key "@ + key
                + " value that is not valid for the column type"@,
        ),
        ResolutionView::Params(p) => params_write(p, key_type),
        ResolutionView::Shards(hit) => shards_write(hit, t),
    }
}

/// Where an `UPDATE` goes.
pub open spec fn update_plan(s: UpdateStmt, v: VSchema, c: ShardCatalog) -> PlanView {
    match s.relation {
        None => rejected("UPDATE without a target relation"@),
        Some(rv) => {
            let t = extract::table_of(rv);
            let name = vschema::table_text(t);
            match placed(v, t) {
                PlacementView::Global => PlanView::Unsharded,
                PlacementView::Unknown => rejected(
                    "table "@ + name + " is not in the sharding schema"@,
                ),
                PlacementView::Sharded { key, key_type } => if extract::assigns(
                    s.target_list@,
                    key,
                ) {
                    rejected("shard key "@ + key + " of "@ + name + " is immutable"@)
                } else if s.from_clause@.len() > 0 {
                    rejected(
                        "UPDATE "@ + name + " ... FROM another relation is not supported in M1"@,
                    )
                } else if s.with_clause is Some {
                    rejected("UPDATE "@ + name + " with a CTE (WITH) is not supported in M1"@)
                } else if ast::update_has(s, Feature::SubLink) {
                    rejected("UPDATE "@ + name + " with a subquery is not supported in M1"@)
                } else {
                    keyed_write_plan(
                        resolution(extract::where_values(s.where_clause, key), key_type, c),
                        t,
                        key,
                        key_type,
                        "UPDATE"@,
                    )
                },
            }
        },
    }
}

/// Where a `DELETE` goes.
pub open spec fn delete_plan(s: DeleteStmt, v: VSchema, c: ShardCatalog) -> PlanView {
    match s.relation {
        None => rejected("DELETE without a target relation"@),
        Some(rv) => {
            let t = extract::table_of(rv);
            let name = vschema::table_text(t);
            match placed(v, t) {
                PlacementView::Global => PlanView::Unsharded,
                PlacementView::Unknown => rejected(
                    "table "@ + name + " is not in the sharding schema"@,
                ),
                PlacementView::Sharded { key, key_type } => if s.using_clause@.len() > 0 {
                    rejected(
                        "DELETE FROM "@ + name
                            + " ... USING another relation is not supported in M1"@,
                    )
                } else if s.with_clause is Some {
                    rejected("DELETE FROM "@ + name + " with a CTE (WITH) is not supported in M1"@)
                } else if ast::delete_has(s, Feature::SubLink) {
                    rejected("DELETE FROM "@ + name + " with a subquery is not supported in M1"@)
                } else {
                    keyed_write_plan(
                        resolution(extract::where_values(s.where_clause, key), key_type, c),
                        t,
                        key,
                        key_type,
                        "DELETE"@,
                    )
                },
            }
        },
    }
}

fn write_to_shards(hit: Vec<ShardId>, table: &TableName) -> (r: Plan)
    ensures
        r@ == shards_write(catalog::id_views(hit@), table@),
{
    if hit.len() == 1 {
        Plan::SingleShard(hit[0].clone())
    } else {
        let name = table.to_string();
        let n = text::decimal_u64(hit.len() as u64);
        let reason = text::concat5(
            "write to sharded table ",
            name.as_str(),
            " spans ",
            n.as_str(),
            " shards; cross-shard writes are not supported",
        );
        reject(reason.as_str())
    }
}

/// True when the conflict target lists the shard key: conflicting rows then share the key
/// value and live on the routed shard.
fn arbiter_includes_key(oc: &OnConflict, key: &str) -> (r: bool)
    ensures
        r == arbiter_names(*oc, key@),
{
    match &oc.infer {
        Some(inf) => {
            if !inf.conname.as_str().is_empty() {
                return false;
            }
            let mut i: usize = 0;
            while i < inf.index_elems.len()
                invariant
                    i <= inf.index_elems@.len(),
                    oc.infer == Some(*inf),
                    inf.conname@.len() == 0,
                    forall|k: int|
                        0 <= k < i ==> !(#[trigger] inf.index_elems@[k] matches Node::IndexElem(e)
                            && e.name@ == key@),
                decreases inf.index_elems@.len() - i,
            {
                if let Node::IndexElem(e) = &inf.index_elems[i] {
                    if text::same(e.name.as_str(), key) {
                        assert(inf.index_elems@[i as int] matches Node::IndexElem(e) && e.name@
                            == key@);
                        return true;
                    }
                }
                i += 1;
            }
            false
        },
        None => false,
    }
}

fn plan_sharded_insert(
    s: &InsertStmt,
    table: &TableName,
    key: &str,
    key_type: Option<ScalarType>,
    shards: &ShardCatalog,
) -> (r: Plan)
    ensures
        r@ == sharded_insert_plan(*s, table@, key@, key_type, *shards),
{
    let name = table.to_string();
    // `ON CONFLICT ... DO UPDATE` runs only on the shard the INSERT routes to, but the
    // conflicting row may live on another shard, and the SET may even move the shard key.
    // DO NOTHING is only shard-local when its conflict target provably holds the
    // shard key.
    if let Some(oc) = &s.on_conflict_clause {
        if oc.action == ConflictAction::Update {
            let reason = text::concat3(
                "INSERT into sharded table ",
                name.as_str(),
                " with ON CONFLICT DO UPDATE is not supported in M1",
            );
            return reject(reason.as_str());
        }
        if !arbiter_includes_key(oc, key) {
            let reason = text::concat4(
                "INSERT into sharded table ",
                name.as_str(),
                " with ON CONFLICT requires a conflict target listing the shard key column ",
                key,
            );
            return reject(reason.as_str());
        }
    }
    let values = match extract::insert_key_values(s, key) {
        Some(values) => values,
        None => {
            let reason = text::concat5(
                "INSERT into sharded table ",
                name.as_str(),
                " must list column ",
                key,
                " with a literal or bind-parameter value",
            );
            return reject(reason.as_str());
        },
    };
    match route_values(&values, key_type, shards) {
        Resolution::Unkeyed => {
            let reason = text::concat4(
                "INSERT into sharded table ",
                name.as_str(),
                " does not set shard key ",
                key,
            );
            reject(reason.as_str())
        },
        Resolution::Mixed => {
            let reason = text::concat3(
                "INSERT into sharded table ",
                name.as_str(),
                " mixes literal and parameter shard keys across rows",
            );
            reject(reason.as_str())
        },
        Resolution::Uncoercible => {
            let reason = text::concat5(
                "INSERT into sharded table ",
                name.as_str(),
                " has a shard key ",
                key,
                " value that is not valid for the column type",
            );
            reject(reason.as_str())
        },
        Resolution::Params(param_indices) => Plan::Parameterized(
            Parameterized {
                shard_function: "xxhash64_v1".to_owned(),
                key_type,
                param_indices,
                write: true,
            },
        ),
        Resolution::Shards(hit) => write_to_shards(hit, table),
    }
}

fn plan_insert(s: &InsertStmt, v: &VSchema, shards: &ShardCatalog) -> (r: Plan)
    ensures
        r@ == insert_plan(*s, *v, *shards),
{
    let table = match &s.relation {
        Some(rv) => range_var_table(rv),
        None => return reject("INSERT without a target relation"),
    };
    let name = table.to_string();
    // A CTE (`WITH`, possibly data-modifying) or a subquery anywhere in the
    // statement (a VALUES cell, RETURNING, ON CONFLICT) can read or write rows on
    // other shards, but would run only on the shard this INSERT routes to.
    if s.with_clause.is_some() {
        let reason = text::concat3(
            "INSERT into ",
            name.as_str(),
            " with a CTE (WITH) is not supported in M1",
        );
        return reject(reason.as_str());
    }
    if ast::find_in_insert(s, Feature::SubLink) {
        let reason = text::concat3(
            "INSERT into ",
            name.as_str(),
            " with a subquery is not supported in M1",
        );
        return reject(reason.as_str());
    }
    match placement(v, &table) {
        Placement::Global => Plan::Unsharded,
        Placement::Unknown => {
            let reason = text::concat3("table ", name.as_str(), " is not in the sharding schema");
            reject(reason.as_str())
        },
        Placement::Sharded { key, key_type, shard_fn } => plan_sharded_insert(
            s,
            &table,
            key,
            key_type,
            shards,
        ),
    }
}

fn plan_update(s: &UpdateStmt, v: &VSchema, shards: &ShardCatalog) -> (r: Plan)
    ensures
        r@ == update_plan(*s, *v, *shards),
{
    let table = match &s.relation {
        Some(rv) => range_var_table(rv),
        None => return reject("UPDATE without a target relation"),
    };
    let name = table.to_string();
    match placement(v, &table) {
        Placement::Global => Plan::Unsharded,
        Placement::Unknown => {
            let reason = text::concat3("table ", name.as_str(), " is not in the sharding schema");
            reject(reason.as_str())
        },
        Placement::Sharded { key, key_type, shard_fn } => {
            if extract::sets_column(&s.target_list, key) {
                let reason = text::concat5("shard key ", key, " of ", name.as_str(), " is immutable");
                return reject(reason.as_str());
            }
            // `UPDATE ... FROM other` joins another relation whose rows may live
            // on other shards; running it on the target's shard alone matches the
            // wrong set. A subquery anywhere has the same problem.
            if s.from_clause.len() > 0 {
                let reason = text::concat3(
                    "UPDATE ",
                    name.as_str(),
                    " ... FROM another relation is not supported in M1",
                );
                return reject(reason.as_str());
            }
            // A data-modifying CTE is not a subquery, yet its writes execute against the
            // routed shard rather than the rows' real shards.
            if s.with_clause.is_some() {
                let reason = text::concat3(
                    "UPDATE ",
                    name.as_str(),
                    " with a CTE (WITH) is not supported in M1",
                );
                return reject(reason.as_str());
            }
            if ast::find_in_update(s, Feature::SubLink) {
                let reason = text::concat3(
                    "UPDATE ",
                    name.as_str(),
                    " with a subquery is not supported in M1",
                );
                return reject(reason.as_str());
            }
            let values = where_key_values(&s.where_clause, key);
            plan_keyed_write(values, key_type, shards, &table, key, "UPDATE")
        },
    }
}

fn plan_delete(s: &DeleteStmt, v: &VSchema, shards: &ShardCatalog) -> (r: Plan)
    ensures
        r@ == delete_plan(*s, *v, *shards),
{
    let table = match &s.relation {
        Some(rv) => range_var_table(rv),
        None => return reject("DELETE without a target relation"),
    };
    let name = table.to_string();
    match placement(v, &table) {
        Placement::Global => Plan::Unsharded,
        Placement::Unknown => {
            let reason = text::concat3("table ", name.as_str(), " is not in the sharding schema");
            reject(reason.as_str())
        },
        Placement::Sharded { key, key_type, shard_fn } => {
            // `DELETE ... USING other` and a subquery (in the WHERE or RETURNING)
            // both bring in rows that may live on other shards.
            if s.using_clause.len() > 0 {
                let reason = text::concat3(
                    "DELETE FROM ",
                    name.as_str(),
                    " ... USING another relation is not supported in M1",
                );
                return reject(reason.as_str());
            }
            if s.with_clause.is_some() {
                let reason = text::concat3(
                    "DELETE FROM ",
                    name.as_str(),
                    " with a CTE (WITH) is not supported in M1",
                );
                return reject(reason.as_str());
            }
            if ast::find_in_delete(s, Feature::SubLink) {
                let reason = text::concat3(
                    "DELETE FROM ",
                    name.as_str(),
                    " with a subquery is not supported in M1",
                );
                return reject(reason.as_str());
            }
            let values = where_key_values(&s.where_clause, key);
            plan_keyed_write(values, key_type, shards, &table, key, "DELETE")
        },
    }
}

fn plan_keyed_write(
    values: Vec<KeyVal>,
    key_type: Option<ScalarType>,
    shards: &ShardCatalog,
    table: &TableName,
    key: &str,
    verb: &str,
) -> (r: Plan)
    ensures
        r@ == keyed_write_plan(
            resolution(extract::key_views(values@), key_type, *shards),
            table@,
            key@,
            key_type,
            verb@,
        ),
{
    let name = table.to_string();
    match route_values(&values, key_type, shards) {
        Resolution::Unkeyed => {
            let reason = text::concat5(
                verb,
                " of sharded table ",
                name.as_str(),
                " must constrain shard key ",
                key,
            );
            reject(reason.as_str())
        },
        Resolution::Mixed => {
            let reason = text::concat4(
                verb,
                " of sharded table ",
                name.as_str(),
                " mixes literal and parameter shard keys",
            );
            reject(reason.as_str())
        },
        Resolution::Uncoercible => {
            let mut reason = text::concat5(
                verb,
                " of sharded table ",
                name.as_str(),
                " has a shard key ",
                key,
            );
            reason.append(" value that is not valid for the column type");
            reject(reason.as_str())
        },
        Resolution::Params(param_indices) => Plan::Parameterized(
            Parameterized {
                shard_function: "xxhash64_v1".to_owned(),
                key_type,
                param_indices,
                write: true,
            },
        ),
        Resolution::Shards(hit) => write_to_shards(hit, table),
    }
}

// ---------------------------------------------------------------------------------------
// Statements.
// ---------------------------------------------------------------------------------------

/// Where a statement goes.
pub open spec fn planned(kind: StatementKind, n: Node, v: VSchema, c: ShardCatalog) -> PlanView {
    match (kind, n) {
        (StatementKind::Select, Node::Select(s)) => select_plan(*s, v, c),
        (StatementKind::Insert, Node::Insert(s)) => insert_plan(*s, v, c),
        (StatementKind::Update, Node::Update(s)) => update_plan(*s, v, c),
        (StatementKind::Delete, Node::Delete(s)) => delete_plan(*s, v, c),
        (StatementKind::Ddl, _) => PlanView::Broadcast(c.ids()),
        (StatementKind::Merge, _) => rejected("MERGE is not supported in M1"@),
        (StatementKind::Copy, _) => rejected(
            "COPY to a sharded table is not supported in M1"@,
        ),
        (StatementKind::Other, _) => rejected(
            "data-modifying CTEs and this statement form are not supported in M1"@,
        ),
        _ => PlanView::RouterLocal,
    }
}

/// Plan a single statement. `kind` is its classification, `node` its root.
pub fn plan(kind: StatementKind, node: &Node, vschema: &VSchema, shards: &ShardCatalog) -> (r: Plan)
    ensures
        r@ == planned(kind, *node, *vschema, *shards),
{
    match (kind, node) {
        (StatementKind::Select, Node::Select(s)) => plan_select(s, vschema, shards),
        (StatementKind::Insert, Node::Insert(s)) => plan_insert(s, vschema, shards),
        (StatementKind::Update, Node::Update(s)) => plan_update(s, vschema, shards),
        (StatementKind::Delete, Node::Delete(s)) => plan_delete(s, vschema, shards),
        (StatementKind::Ddl, _) => Plan::Broadcast(shards.all()),
        (StatementKind::Merge, _) => reject("MERGE is not supported in M1"),
        (StatementKind::Copy, _) => reject("COPY to a sharded table is not supported in M1"),
        (StatementKind::Other, _) => reject(
            "data-modifying CTEs and this statement form are not supported in M1",
        ),
        // SET / SHOW / transaction control / PREPARE / EXECUTE / empty.
        _ => Plan::RouterLocal,
    }
}

/// The plan of statement `i` of a query.
pub open spec fn planned_at(parsed: Parsed, i: int, v: VSchema, c: ShardCatalog) -> PlanView {
    let kind = if i < parsed.kinds@.len() {
        parsed.kinds@[i]
    } else {
        StatementKind::Other
    };
    match parsed.stmts@[i] {
        Some(n) => planned(kind, n, v, c),
        None => PlanView::RouterLocal,
    }
}

/// Plan every statement of a parsed (possibly multi-statement) query.
pub fn plan_all(parsed: &Parsed, vschema: &VSchema, shards: &ShardCatalog) -> (r: Vec<Plan>)
    ensures
        r@.len() == parsed.stmts@.len(),
        forall|i: int|
            0 <= i < r@.len() ==> (#[trigger] r@[i])@ == planned_at(*parsed, i, *vschema, *shards),
{
    let mut out: Vec<Plan> = Vec::new();
    let mut i: usize = 0;
    while i < parsed.stmts.len()
        invariant
            i <= parsed.stmts@.len(),
            out@.len() == i,
            forall|k: int|
                0 <= k < i ==> (#[trigger] out@[k])@ == planned_at(*parsed, k, *vschema, *shards),
        decreases parsed.stmts@.len() - i,
    {
        let kind = if i < parsed.kinds.len() {
            parsed.kinds[i]
        } else {
            StatementKind::Other
        };
        let p = match &parsed.stmts[i] {
            Some(node) => plan(kind, node, vschema, shards),
            None => Plan::RouterLocal,
        };
        out.push(p);
        i += 1;
    }
    out
}

// ---------------------------------------------------------------------------------------
// Bind.
// ---------------------------------------------------------------------------------------

pub open spec fn value_views(s: Seq<ScalarValue>) -> Seq<KeyValue> {
    s.map_values(|v: ScalarValue| v@)
}

/// The shards of the bound shard-key parameters, or why the first that has none has none.
pub open spec fn bound_shards(
    indices: Seq<u32>,
    values: Seq<KeyValue>,
    key_type: Option<ScalarType>,
    c: ShardCatalog,
) -> Result<Seq<Seq<char>>, Seq<char>>
    decreases indices.len(),
{
    if indices.len() == 0 {
        Ok(Seq::empty())
    } else {
        match bound_shards(indices.drop_last(), values, key_type, c) {
            Err(e) => Err(e),
            Ok(shards) => {
                let n = indices.last();
                if n == 0 || n > values.len() {
                    Err(
                        "bind parameter $"@ + text::decimal(n as int)
                            + " for the shard key is missing"@,
                    )
                } else {
                    match value_id(values[n - 1], key_type) {
                        None => Err(
                            "bind parameter $"@ + text::decimal(n as int)
                                + " is not a valid value for the shard key type"@,
                        ),
                        Some(id) => Ok(shards.push(c.shard_of(id))),
                    }
                }
            },
        }
    }
}

/// Where a statement goes once its shard-key parameters are bound.
pub open spec fn bound_plan(p: ParamView, values: Seq<KeyValue>, c: ShardCatalog) -> PlanView {
    if p.shard_function != "xxhash64_v1"@ {
        rejected("unknown shard function "@ + text::debug_text(p.shard_function))
    } else {
        match bound_shards(p.param_indices, values, p.key_type, c) {
            Err(reason) => rejected(reason),
            Ok(shards) => {
                let hit = catalog::sorted_ids(shards);
                if hit.len() == 0 {
                    rejected("parameterized plan named no shard-key parameters"@)
                } else if hit.len() == 1 {
                    PlanView::SingleShard(hit[0])
                } else if !p.write {
                    PlanView::Scatter(hit)
                } else {
                    rejected(
                        "write resolves to "@ + text::decimal(hit.len() as int)
                            + " shards; cross-shard writes are not supported"@,
                    )
                }
            },
        }
    }
}

proof fn lemma_bound_error(
    indices: Seq<u32>,
    i: int,
    values: Seq<KeyValue>,
    key_type: Option<ScalarType>,
    c: ShardCatalog,
)
    requires
        0 <= i <= indices.len(),
        bound_shards(indices.take(i), values, key_type, c) is Err,
    ensures
        bound_shards(indices, values, key_type, c) == bound_shards(
            indices.take(i),
            values,
            key_type,
            c,
        ),
    decreases indices.len() - i,
{
    if i == indices.len() {
        assert(indices.take(i) =~= indices);
    } else {
        assert(indices.take(i + 1).drop_last() =~= indices.take(i));
        lemma_bound_error(indices, i + 1, values, key_type, c);
    }
}

/// Complete a [`Parameterized`] plan once its bind parameters are known.
///
/// `values` are the statement's bound parameters, 0-indexed (`$1` = `values[0]`).
/// Each shard-key parameter is coerced to the plan's key type and hashed with the plan's
/// shard function — the same decision the planner makes for literals, so a bound `"1"` and
/// a bound `1` route alike for an integer key. A value that is not valid for the type is
/// rejected rather than routed to a guessed shard. One shard → [`Plan::SingleShard`]; a
/// read spanning several → [`Plan::Scatter`]; a write spanning several → rejected as
/// cross-shard.
pub fn resolve_bound(param: &Parameterized, values: &[ScalarValue], shards: &ShardCatalog) -> (r:
    Plan)
    ensures
        r@ == bound_plan(param@, value_views(values@), *shards),
{
    if shard_function(param.shard_function.as_str()).is_err() {
        let quoted = text::debug_string(param.shard_function.as_str());
        let reason = text::concat2("unknown shard function ", quoted.as_str());
        return reject(reason.as_str());
    }
    let ghost vs = value_views(values@);
    let ghost idx = param.param_indices@;
    let mut hit: Vec<ShardId> = Vec::new();
    let mut i: usize = 0;
    proof {
        assert(idx.take(0) =~= Seq::<u32>::empty());
        assert(catalog::id_views(hit@) =~= Seq::<Seq<char>>::empty());
    }
    while i < param.param_indices.len()
        invariant
            i <= idx.len(),
            idx == param.param_indices@,
            vs == value_views(values@),
            param.shard_function@ == "xxhash64_v1"@,
            bound_shards(idx.take(i as int), vs, param.key_type, *shards) is Ok,
            catalog::id_views(hit@) == catalog::sorted_ids(
                bound_shards(idx.take(i as int), vs, param.key_type, *shards)->Ok_0,
            ),
        decreases idx.len() - i,
    {
        let n: u32 = param.param_indices[i];
        let ghost done = bound_shards(idx.take(i as int), vs, param.key_type, *shards)->Ok_0;
        proof {
            assert(idx.take(i + 1).drop_last() =~= idx.take(i as int));
            assert(idx.take(i + 1).last() == n);
        }
        let at: usize = n as usize;
        if at == 0 || at > values.len() {
            let number = text::decimal_u64(n as u64);
            let reason = text::concat3(
                "bind parameter $",
                number.as_str(),
                " for the shard key is missing",
            );
            proof {
                lemma_bound_error(idx, i + 1, vs, param.key_type, *shards);
            }
            return reject(reason.as_str());
        }
        proof {
            assert(vs[at - 1] == values@[at - 1]@);
        }
        match value_keyspace_id(&values[at - 1], param.key_type) {
            Some(id) => {
                let owner = shards.route(crate::keyspace::KeyspaceId(id));
                proof {
                    assert(done.push(owner@).drop_last() =~= done);
                }
                catalog::insert_id(&mut hit, owner);
            },
            None => {
                let number = text::decimal_u64(n as u64);
                let reason = text::concat3(
                    "bind parameter $",
                    number.as_str(),
                    " is not a valid value for the shard key type",
                );
                proof {
                    lemma_bound_error(idx, i + 1, vs, param.key_type, *shards);
                }
                return reject(reason.as_str());
            },
        }
        i += 1;
    }
    proof {
        assert(idx.take(idx.len() as int) =~= idx);
        assert(catalog::id_views(hit@).len() == hit@.len());
    }
    if hit.len() == 0 {
        return reject("parameterized plan named no shard-key parameters");
    }
    if hit.len() == 1 {
        return Plan::SingleShard(hit[0].clone());
    }
    if !param.write {
        return Plan::Scatter(hit);
    }
    let n = text::decimal_u64(hit.len() as u64);
    let reason = text::concat3(
        "write resolves to ",
        n.as_str(),
        " shards; cross-shard writes are not supported",
    );
    reject(reason.as_str())
}

// ---------------------------------------------------------------------------------------
// Laws.
// ---------------------------------------------------------------------------------------

/// The shards that a plan runs a statement on.
pub open spec fn targets(p: PlanView) -> Seq<Seq<char>> {
    match p {
        PlanView::SingleShard(s) => seq![s],
        PlanView::Scatter(v) => v,
        PlanView::Broadcast(v) => v,
        _ => Seq::empty(),
    }
}

/// The keyspace id of a value read from a statement, where `bound` gives those of the
/// placeholders.
pub open spec fn ref_id(
    v: KeyRef,
    key_type: Option<ScalarType>,
    bound: spec_fn(u32) -> Option<u64>,
) -> Option<u64> {
    match v {
        KeyRef::Const(k) => value_id(k, key_type),
        KeyRef::Param(n) => bound(n),
    }
}

/// Whether a row whose shard key has the keyspace id can match the condition: some truth of
/// conditions that gives the column that value makes it true.
pub open spec fn can_match(
    w: Option<Node>,
    truth: spec_fn(Node) -> bool,
    key: Seq<char>,
    key_type: Option<ScalarType>,
    bound: spec_fn(u32) -> Option<u64>,
    id: u64,
) -> bool {
    &&& extract::faithful(truth, |v: KeyRef| ref_id(v, key_type, bound), key, Some(id))
    &&& w matches Some(n) ==> truth(n)
}

proof fn lemma_hit_covers(
    w: Option<Node>,
    truth: spec_fn(Node) -> bool,
    key: Seq<char>,
    key_type: Option<ScalarType>,
    bound: spec_fn(u32) -> Option<u64>,
    id: u64,
    c: ShardCatalog,
)
    requires
        c.wf(),
        can_match(w, truth, key, key_type, bound, id),
        resolution(extract::where_values(w, key), key_type, c) is Shards,
    ensures
        resolution(extract::where_values(w, key), key_type, c)->Shards_0.contains(c.shard_of(id)),
{
    let values = extract::where_values(w, key);
    let value = |v: KeyRef| ref_id(v, key_type, bound);
    extract::law_values_cover_matching_rows(w->0, truth, value, key, Some(id));
    let i = choose|i: int| 0 <= i < values.len() && value(#[trigger] values[i]) == Some(id);
    assert(!(values[i] is Param)) by {
        assert(!has_param(values));
    }
    let all = value_shards(values, key_type, c);
    assert(all[i] == c.shard_of(id));
    catalog::lemma_sorted_ids(all);
    assert(all.contains(c.shard_of(id)));
}

/// A read never under-routes: the shards that it is sent to hold every row that it can match.
pub proof fn law_read_covers_matching_rows(
    s: SelectStmt,
    v: VSchema,
    c: ShardCatalog,
    truth: spec_fn(Node) -> bool,
    key: Seq<char>,
    key_type: Option<ScalarType>,
    bound: spec_fn(u32) -> Option<u64>,
    id: u64,
)
    requires
        c.wf(),
        select_plan(s, v, c) is SingleShard || select_plan(s, v, c) is Scatter,
        placed(v, extract::from_tables(s.from_clause@)[0]) == (PlacementView::Sharded {
            key,
            key_type,
        }),
        can_match(s.where_clause, truth, key, key_type, bound, id),
    ensures
        targets(select_plan(s, v, c)).contains(c.shard_of(id)),
{
    let r = resolution(extract::where_values(s.where_clause, key), key_type, c);
    catalog::lemma_owner(c, id);
    if r is Shards {
        lemma_hit_covers(s.where_clause, truth, key, key_type, bound, id, c);
        let hit = r->Shards_0;
        if hit.len() == 1 {
            assert(targets(select_plan(s, v, c))[0] == hit[0]);
        }
    }
}

/// A read that is routed at Bind does not under-route either: where every placeholder has the
/// keyspace id of the value bound to it, the shards hold every row that can match.
pub proof fn law_bound_read_covers_matching_rows(
    s: SelectStmt,
    v: VSchema,
    c: ShardCatalog,
    values: Seq<KeyValue>,
    truth: spec_fn(Node) -> bool,
    key: Seq<char>,
    key_type: Option<ScalarType>,
    bound: spec_fn(u32) -> Option<u64>,
    id: u64,
)
    requires
        c.wf(),
        select_plan(s, v, c) is Parameterized,
        placed(v, extract::from_tables(s.from_clause@)[0]) == (PlacementView::Sharded {
            key,
            key_type,
        }),
        forall|n: u32|
            0 < n <= values.len() ==> #[trigger] bound(n) == value_id(values[n - 1], key_type),
        can_match(s.where_clause, truth, key, key_type, bound, id),
        bound_plan(select_plan(s, v, c)->Parameterized_0, values, c) is SingleShard || bound_plan(
            select_plan(s, v, c)->Parameterized_0,
            values,
            c,
        ) is Scatter,
    ensures
        targets(bound_plan(select_plan(s, v, c)->Parameterized_0, values, c)).contains(
            c.shard_of(id),
        ),
{
    let keys = extract::where_values(s.where_clause, key);
    let value = |x: KeyRef| ref_id(x, key_type, bound);
    let p = select_plan(s, v, c)->Parameterized_0;
    extract::law_values_cover_matching_rows(s.where_clause->0, truth, value, key, Some(id));
    let i = choose|i: int| 0 <= i < keys.len() && value(#[trigger] keys[i]) == Some(id);
    assert(keys[i] is Param) by {
        assert(!has_const(keys));
    }
    assert(p.param_indices[i] == param_number(keys[i]));
    lemma_bound_at(p.param_indices, i, values, key_type, c);
    let n = param_number(keys[i]);
    assert(bound(n) == value_id(values[n - 1], key_type));
    let shards = bound_shards(p.param_indices, values, key_type, c)->Ok_0;
    assert(shards[i] == c.shard_of(id));
    assert(shards.contains(c.shard_of(id)));
    catalog::lemma_sorted_ids(shards);
    let hit = catalog::sorted_ids(shards);
    assert(hit.contains(c.shard_of(id)));
    if hit.len() == 1 {
        assert(targets(bound_plan(p, values, c))[0] == hit[0]);
    }
}

/// What stands at position `i` of the shards of bound parameters.
proof fn lemma_bound_at(
    indices: Seq<u32>,
    i: int,
    values: Seq<KeyValue>,
    key_type: Option<ScalarType>,
    c: ShardCatalog,
)
    requires
        0 <= i < indices.len(),
        bound_shards(indices, values, key_type, c) is Ok,
    ensures
        bound_shards(indices, values, key_type, c)->Ok_0.len() == indices.len(),
        0 < indices[i] <= values.len(),
        value_id(values[indices[i] - 1], key_type) is Some,
        bound_shards(indices, values, key_type, c)->Ok_0[i] == c.shard_of(
            value_id(values[indices[i] - 1], key_type)->0,
        ),
    decreases indices.len(),
{
    let t = indices.drop_last();
    assert(bound_shards(t, values, key_type, c) is Ok);
    if t.len() == 0 {
        assert(bound_shards(t, values, key_type, c)->Ok_0 =~= Seq::<Seq<char>>::empty());
    }
    if t.len() > 0 {
        lemma_bound_at(
            t,
            if i < t.len() {
                i
            } else {
                0
            },
            values,
            key_type,
            c,
        );
    }
}

/// A write that is routed runs on one shard, and every row that it can match is there; a
/// write never goes to several shards.
pub proof fn law_update_stays_on_one_shard(
    s: UpdateStmt,
    v: VSchema,
    c: ShardCatalog,
    truth: spec_fn(Node) -> bool,
    key: Seq<char>,
    key_type: Option<ScalarType>,
    bound: spec_fn(u32) -> Option<u64>,
    id: u64,
)
    requires
        c.wf(),
        s.relation is Some,
        placed(v, extract::table_of(s.relation->0)) == (PlacementView::Sharded { key, key_type }),
        can_match(s.where_clause, truth, key, key_type, bound, id),
    ensures
        !(update_plan(s, v, c) is Scatter),
        !(update_plan(s, v, c) is Broadcast),
        update_plan(s, v, c) matches PlanView::SingleShard(x) ==> x == c.shard_of(id),
{
    let r = resolution(extract::where_values(s.where_clause, key), key_type, c);
    if r is Shards {
        lemma_hit_covers(s.where_clause, truth, key, key_type, bound, id, c);
    }
}

/// The same of a `DELETE`.
pub proof fn law_delete_stays_on_one_shard(
    s: DeleteStmt,
    v: VSchema,
    c: ShardCatalog,
    truth: spec_fn(Node) -> bool,
    key: Seq<char>,
    key_type: Option<ScalarType>,
    bound: spec_fn(u32) -> Option<u64>,
    id: u64,
)
    requires
        c.wf(),
        s.relation is Some,
        placed(v, extract::table_of(s.relation->0)) == (PlacementView::Sharded { key, key_type }),
        can_match(s.where_clause, truth, key, key_type, bound, id),
    ensures
        !(delete_plan(s, v, c) is Scatter),
        !(delete_plan(s, v, c) is Broadcast),
        delete_plan(s, v, c) matches PlanView::SingleShard(x) ==> x == c.shard_of(id),
{
    let r = resolution(extract::where_values(s.where_clause, key), key_type, c);
    if r is Shards {
        lemma_hit_covers(s.where_clause, truth, key, key_type, bound, id, c);
    }
}

/// An `INSERT` into a sharded table that is routed puts every row on the shard that owns its
/// shard key; it never goes to several shards.
pub proof fn law_insert_stays_on_one_shard(
    s: InsertStmt,
    v: VSchema,
    c: ShardCatalog,
    key: Seq<char>,
    key_type: Option<ScalarType>,
    row: int,
)
    requires
        c.wf(),
        s.relation is Some,
        placed(v, extract::table_of(s.relation->0)) == (PlacementView::Sharded { key, key_type }),
    ensures
        !(insert_plan(s, v, c) is Scatter),
        !(insert_plan(s, v, c) is Broadcast),
        insert_plan(s, v, c) matches PlanView::SingleShard(x) ==> {
            &&& extract::insert_values(s, key) is Some
            &&& 0 <= row < extract::insert_values(s, key)->0.len() ==> const_id(
                extract::insert_values(s, key)->0[row],
                key_type,
            ) is Some && x == c.shard_of(
                const_id(extract::insert_values(s, key)->0[row], key_type)->0,
            )
        },
{
    if insert_plan(s, v, c) is SingleShard {
        let values = extract::insert_values(s, key)->0;
        let all = value_shards(values, key_type, c);
        catalog::lemma_sorted_ids(all);
        if 0 <= row < values.len() {
            assert(const_id(values[row], key_type) is Some);
            assert(all[row] == c.shard_of(const_id(values[row], key_type)->0));
            assert(all.contains(all[row]));
            assert(catalog::sorted_ids(all).contains(all[row]));
        }
    }
}

/// The placeholders `$1` to `$n`.
pub open spec fn first_params(n: nat) -> Seq<u32> {
    Seq::new(n, |i: int| (i + 1) as u32)
}

proof fn lemma_bound_is_literal(
    n: nat,
    values: Seq<KeyValue>,
    key_type: Option<ScalarType>,
    c: ShardCatalog,
)
    requires
        n <= values.len() <= u32::MAX,
    ensures
        (forall|i: int| 0 <= i < n ==> value_id(#[trigger] values[i], key_type) is Some)
            ==> bound_shards(first_params(n), values, key_type, c) == Ok::<_, Seq<char>>(
            values.take(n as int).map_values(|k: KeyValue| c.shard_of(value_id(k, key_type)->0)),
        ),
        (exists|i: int| 0 <= i < n && value_id(#[trigger] values[i], key_type) is None)
            ==> bound_shards(first_params(n), values, key_type, c) is Err,
    decreases n,
{
    let f = |k: KeyValue| c.shard_of(value_id(k, key_type)->0);
    if n == 0 {
        assert(values.take(0).map_values(f) =~= Seq::<Seq<char>>::empty());
    } else {
        let m = (n - 1) as nat;
        lemma_bound_is_literal(m, values, key_type, c);
        assert(first_params(n).drop_last() =~= first_params(m));
        assert(first_params(n).last() == n);
        if forall|i: int| 0 <= i < n ==> value_id(#[trigger] values[i], key_type) is Some {
            assert(value_id(values[m as int], key_type) is Some);
            assert(values.take(n as int).map_values(f) =~= values.take(m as int).map_values(
                f,
            ).push(f(values[m as int])));
        }
        if exists|i: int| 0 <= i < n && value_id(#[trigger] values[i], key_type) is None {
            let i = choose|i: int| 0 <= i < n && value_id(#[trigger] values[i], key_type) is None;
            if i < m {
                assert(exists|i: int|
                    0 <= i < m && value_id(#[trigger] values[i], key_type) is None);
            }
        }
    }
}

/// Bound values route as literals do: a read or write with placeholders goes, once they are
/// bound, where it would go with the values written in their place. A value that is not of
/// the column's type is refused.
pub proof fn law_bound_values_route_like_literals(
    values: Seq<KeyValue>,
    key_type: Option<ScalarType>,
    c: ShardCatalog,
    write: bool,
)
    requires
        1 <= values.len() <= u32::MAX,
    ensures
        ({
            let p = ParamView {
                shard_function: "xxhash64_v1"@,
                key_type,
                param_indices: first_params(values.len()),
                write,
            };
            match resolution(
                values.map_values(|k: KeyValue| KeyRef::Const(k)),
                key_type,
                c,
            ) {
                ResolutionView::Shards(hit) => if hit.len() == 1 {
                    bound_plan(p, values, c) == PlanView::SingleShard(hit[0])
                } else if !write {
                    bound_plan(p, values, c) == PlanView::Scatter(hit)
                } else {
                    bound_plan(p, values, c) is Reject
                },
                ResolutionView::Uncoercible => bound_plan(p, values, c) is Reject,
                _ => false,
            }
        }),
{
    let refs = values.map_values(|k: KeyValue| KeyRef::Const(k));
    let n = values.len();
    lemma_bound_is_literal(n, values, key_type, c);
    assert(values.take(n as int) =~= values);
    assert forall|i: int| 0 <= i < n implies const_id(#[trigger] refs[i], key_type) == value_id(
        values[i],
        key_type,
    ) && refs[i] is Const by {}
    assert(refs[0] is Const);
    let f = |k: KeyValue| c.shard_of(value_id(k, key_type)->0);
    assert(value_shards(refs, key_type, c) =~= values.map_values(f));
    catalog::lemma_sorted_ids(values.map_values(f));
    if exists|i: int| 0 <= i < refs.len() && const_id(#[trigger] refs[i], key_type) is None {
        let i = choose|i: int| 0 <= i < refs.len() && const_id(#[trigger] refs[i], key_type) is None;
        assert(value_id(values[i], key_type) is None);
    } else {
        assert forall|i: int| 0 <= i < n implies value_id(#[trigger] values[i], key_type) is Some by {
            assert(const_id(refs[i], key_type) is Some);
        }
    }
}

// ---------------------------------------------------------------------------------------
// Where tables live.
// ---------------------------------------------------------------------------------------

/// The relations that a statement reads from or writes to.
pub open spec fn relations(kind: StatementKind, n: Node) -> Seq<TableKey> {
    match (kind, n) {
        (StatementKind::Select, Node::Select(s)) => arms_tables(*s),
        (StatementKind::Insert, Node::Insert(s)) => match s.relation {
            Some(rv) => seq![extract::table_of(rv)],
            None => Seq::empty(),
        },
        (StatementKind::Update, Node::Update(s)) => match s.relation {
            Some(rv) => seq![extract::table_of(rv)],
            None => Seq::empty(),
        },
        (StatementKind::Delete, Node::Delete(s)) => match s.relation {
            Some(rv) => seq![extract::table_of(rv)],
            None => Seq::empty(),
        },
        _ => Seq::empty(),
    }
}

proof fn lemma_sharded_positions(s: Seq<TableKey>, v: VSchema, i: int)
    ensures
        sharded_positions(s, v).contains(i) <==> 0 <= i < s.len() && is_sharded(v, s[i]),
    decreases s.len(),
{
    if s.len() > 0 {
        let t = s.drop_last();
        lemma_sharded_positions(t, v, i);
        let rest = sharded_positions(t, v);
        let all = sharded_positions(s, v);
        if rest.contains(i) {
            let k = rest.index_of(i);
            assert(all[k] == i);
        }
        if all.contains(i) {
            let k = all.index_of(i);
            if k < rest.len() {
                assert(rest[k] == i);
                assert(rest.contains(i));
            }
        }
        if i == s.len() - 1 && is_sharded(v, s[i]) {
            assert(all[all.len() - 1] == i);
        }
    }
}

proof fn lemma_none_sharded(s: Seq<TableKey>, v: VSchema)
    requires
        forall|i: int| 0 <= i < s.len() ==> !is_sharded(v, #[trigger] s[i]),
    ensures
        sharded_positions(s, v).len() == 0,
{
    let p = sharded_positions(s, v);
    if p.len() > 0 {
        lemma_sharded_positions(s, v, p[0]);
        assert(p.contains(p[0]));
    }
}

proof fn lemma_first_unknown(s: Seq<TableKey>, v: VSchema)
    ensures
        first_unknown(s, v) is None <==> forall|i: int|
            0 <= i < s.len() ==> !is_unknown(v, #[trigger] s[i]),
        first_unknown(s, v) matches Some(t) ==> is_unknown(v, t) && s.contains(t),
    decreases s.len(),
{
    if s.len() > 0 {
        let t = s.drop_first();
        lemma_first_unknown(t, v);
        if !is_unknown(v, s[0]) {
            if first_unknown(t, v) is None {
                assert forall|i: int| 0 <= i < s.len() implies !is_unknown(v, #[trigger] s[i]) by {
                    if i > 0 {
                        assert(s[i] == t[i - 1]);
                    }
                }
            } else {
                let u = first_unknown(t, v)->0;
                let k = t.index_of(u);
                assert(s[k + 1] == u);
            }
        }
    }
}

/// Global tables live in the system database: a statement all of whose relations are global
/// runs there or is refused; it is never run on shards, nor taken for one without relations.
pub proof fn law_global_relations_stay_in_the_system_database(
    kind: StatementKind,
    n: Node,
    v: VSchema,
    c: ShardCatalog,
)
    requires
        relations(kind, n).len() > 0,
        forall|i: int|
            0 <= i < relations(kind, n).len() ==> v.definition(#[trigger] relations(kind, n)[i])
                == Some(TableDef::Global),
    ensures
        planned(kind, n, v, c) is Unsharded || planned(kind, n, v, c) is Reject,
{
    let ts = relations(kind, n);
    assert forall|i: int| 0 <= i < ts.len() implies !is_sharded(v, #[trigger] ts[i]) && !is_unknown(
        v,
        ts[i],
    ) by {
        assert(v.definition(ts[i]) == Some(TableDef::Global));
    }
    lemma_none_sharded(ts, v);
    lemma_first_unknown(ts, v);
    assert(v.definition(ts[0]) == Some(TableDef::Global));
}

/// Updates and deletions of a global table always run in the system database, and so does a
/// read of it: what is written is where it is read. An insert does too, unless it has a CTE or
/// a subquery, which is refused.
pub proof fn law_global_writes_land_where_they_are_read(
    rv: ast::RangeVar,
    s: Box<SelectStmt>,
    i: Box<InsertStmt>,
    u: Box<UpdateStmt>,
    d: Box<DeleteStmt>,
    v: VSchema,
    c: ShardCatalog,
)
    requires
        v.definition(extract::table_of(rv)) == Some(TableDef::Global),
        !s.set_operation,
        s.from_clause@ == seq![Node::Table(rv)],
        i.relation == Some(rv),
        u.relation == Some(rv),
        d.relation == Some(rv),
    ensures
        planned(StatementKind::Select, Node::Select(s), v, c) is Unsharded,
        planned(StatementKind::Update, Node::Update(u), v, c) is Unsharded,
        planned(StatementKind::Delete, Node::Delete(d), v, c) is Unsharded,
        i.with_clause is None && !ast::insert_has(*i, Feature::SubLink) ==> planned(
            StatementKind::Insert,
            Node::Insert(i),
            v,
            c,
        ) is Unsharded,
{
    let ts = extract::from_tables(s.from_clause@);
    extract::law_from_clauses_name_their_tables(
        rv,
        arbitrary(),
        Node::Table(rv),
        Seq::<Node>::empty(),
    );
    assert(s.from_clause@ =~= Seq::<Node>::empty().push(Node::Table(rv)));
    assert(ts =~= seq![extract::table_of(rv)]);
    lemma_none_sharded(ts, v);
    lemma_first_unknown(ts, v);
}

/// Sharded tables live on the shards: a statement with a sharded relation never runs in the
/// system database and is never taken for one without relations. A write runs on one shard,
/// waits for its parameters, or is refused; it is never sent to several shards.
pub proof fn law_sharded_relations_stay_on_the_shards(
    kind: StatementKind,
    n: Node,
    v: VSchema,
    c: ShardCatalog,
    i: int,
)
    requires
        0 <= i < relations(kind, n).len(),
        v.definition(relations(kind, n)[i]) matches Some(TableDef::Sharded { .. }),
    ensures
        !(planned(kind, n, v, c) is Unsharded),
        !(planned(kind, n, v, c) is RouterLocal),
        !(planned(kind, n, v, c) is Broadcast),
        kind != StatementKind::Select ==> !(planned(kind, n, v, c) is Scatter),
{
    let ts = relations(kind, n);
    lemma_sharded_positions(ts, v, i);
    assert(is_sharded(v, ts[i]));
    assert(sharded_positions(ts, v).contains(i));
    if kind == StatementKind::Select {
        if let Node::Select(s) = n {
            let p = sharded_positions(ts, v);
            assert(p.len() > 0);
            if !s.set_operation && ts.len() == 1 {
                assert(i == 0);
            }
        }
    }
}

/// A relation that the schema does not know is not guessed at: a statement with one is
/// refused. Only reads of the catalog schemas need no entry.
pub proof fn law_unknown_relations_are_refused(
    kind: StatementKind,
    n: Node,
    v: VSchema,
    c: ShardCatalog,
    i: int,
)
    requires
        0 <= i < relations(kind, n).len(),
        v.definition(relations(kind, n)[i]) is None,
        kind == StatementKind::Select ==> relations(kind, n)[i].0 != "pg_catalog"@ && relations(
            kind,
            n,
        )[i].0 != "information_schema"@,
    ensures
        planned(kind, n, v, c) is Reject,
{
    let ts = relations(kind, n);
    lemma_first_unknown(ts, v);
    assert(kind == StatementKind::Select ==> is_unknown(v, ts[i]));
}

/// Each other kind of statement has its place: a schema change runs on every shard, session
/// statements stay in the router, and what cannot be routed is refused as not supported.
pub proof fn law_other_statements_have_their_place(
    kind: StatementKind,
    n: Node,
    v: VSchema,
    c: ShardCatalog,
    id: u64,
)
    requires
        c.wf(),
        kind != StatementKind::Select,
        kind != StatementKind::Insert,
        kind != StatementKind::Update,
        kind != StatementKind::Delete,
    ensures
        kind == StatementKind::Ddl <==> planned(kind, n, v, c) is Broadcast,
        kind == StatementKind::Ddl ==> targets(planned(kind, n, v, c)).contains(c.shard_of(id)),
        kind == StatementKind::Merge || kind == StatementKind::Copy || kind == StatementKind::Other
            <==> (planned(kind, n, v, c) matches PlanView::Reject { code, .. } && code
            == "0A000"@),
        planned(kind, n, v, c) is Broadcast || planned(kind, n, v, c) is Reject || planned(
            kind,
            n,
            v,
            c,
        ) is RouterLocal,
{
    catalog::lemma_owner(c, id);
}

/// Literals resolve to exactly the shards that own them: no shard is left out and none is
/// added.
pub proof fn law_literals_resolve_to_their_shards(
    values: Seq<KeyRef>,
    key_type: Option<ScalarType>,
    c: ShardCatalog,
    x: Seq<char>,
)
    ensures
        resolution(values, key_type, c) matches ResolutionView::Shards(hit) ==> {
            &&& hit.len() > 0
            &&& forall|i: int| 0 <= i < values.len() ==> (#[trigger] values[i]) is Const
            &&& hit.contains(x) <==> exists|i: int|
                0 <= i < values.len() && (#[trigger] values[i] matches KeyRef::Const(k) && value_id(
                    k,
                    key_type,
                ) is Some && x == c.shard_of(value_id(k, key_type)->0))
        },
        values.len() > 0 && (forall|i: int|
            0 <= i < values.len() ==> (#[trigger] values[i] matches KeyRef::Const(k) && value_id(
                k,
                key_type,
            ) is Some)) ==> resolution(values, key_type, c) is Shards,
        resolution(values, key_type, c) is Unkeyed <==> values.len() == 0,
{
    let all = value_shards(values, key_type, c);
    catalog::lemma_sorted_ids(all);
    if values.len() > 0 && (forall|i: int|
        0 <= i < values.len() ==> (#[trigger] values[i] matches KeyRef::Const(k) && value_id(
            k,
            key_type,
        ) is Some)) {
        assert(!has_param(values)) by {
            if has_param(values) {
                let i = choose|i: int| 0 <= i < values.len() && (#[trigger] values[i]) is Param;
                assert(values[i] matches KeyRef::Const(k));
            }
        }
        assert forall|i: int| 0 <= i < values.len() implies const_id(
            #[trigger] values[i],
            key_type,
        ) is Some by {
            assert(values[i] matches KeyRef::Const(k) && value_id(k, key_type) is Some);
        }
    }
    if let ResolutionView::Shards(hit) = resolution(values, key_type, c) {
        assert forall|i: int| 0 <= i < values.len() implies (#[trigger] values[i]) is Const by {
            assert(!has_param(values));
        }
        assert forall|i: int| 0 <= i < values.len() implies const_id(
            #[trigger] values[i],
            key_type,
        ) is Some by {}
        if hit.contains(x) {
            assert(all.contains(x));
            let i = all.index_of(x);
            assert(values[i] is Const && const_id(values[i], key_type) is Some);
        }
        if exists|i: int|
            0 <= i < values.len() && (#[trigger] values[i] matches KeyRef::Const(k) && value_id(
                k,
                key_type,
            ) is Some && x == c.shard_of(value_id(k, key_type)->0)) {
            let i = choose|i: int|
                0 <= i < values.len() && (#[trigger] values[i] matches KeyRef::Const(k)
                    && value_id(k, key_type) is Some && x == c.shard_of(value_id(k, key_type)->0));
            assert(all[i] == x);
            assert(all.contains(x));
        }
    }
}

/// Placeholders are kept, each with its number; a mix of placeholders and literals, and a
/// literal that is no value of the column, resolve to no shard.
pub proof fn law_placeholders_are_kept(
    values: Seq<KeyRef>,
    key_type: Option<ScalarType>,
    c: ShardCatalog,
    i: int,
)
    requires
        0 <= i < values.len(),
    ensures
        resolution(values, key_type, c) matches ResolutionView::Params(p) ==> p.len()
            == values.len() && values[i] == KeyRef::Param(p[i]),
        (forall|k: int| 0 <= k < values.len() ==> (#[trigger] values[k]) is Param) ==> resolution(
            values,
            key_type,
            c,
        ) is Params,
        (exists|k: int| 0 <= k < values.len() && (#[trigger] values[k]) is Param) && (exists|k: int|
            0 <= k < values.len() && (#[trigger] values[k]) is Const) <==> resolution(
            values,
            key_type,
            c,
        ) is Mixed,
        resolution(values, key_type, c) is Uncoercible ==> exists|k: int|
            0 <= k < values.len() && (#[trigger] values[k] matches KeyRef::Const(x) && value_id(
                x,
                key_type,
            ) is None),
{
    if forall|k: int| 0 <= k < values.len() ==> (#[trigger] values[k]) is Param {
        assert(values[i] is Param);
    }
    if let ResolutionView::Params(p) = resolution(values, key_type, c) {
        assert(!has_const(values));
        assert(!(values[i] is Const));
    }
    if resolution(values, key_type, c) is Uncoercible {
        let k = choose|k: int| 0 <= k < values.len() && const_id(#[trigger] values[k], key_type) is None;
        assert(!(values[k] is Param)) by {
            assert(!has_param(values));
        }
        assert(values[k] is Const);
    }
}

/// The id of a value is that of what the column would store: it does not depend on how the
/// value is spelled, and a spelling that is no value of the type has none.
pub proof fn law_values_hash_as_they_are_stored(a: KeyValue, b: KeyValue, ty: ScalarType)
    ensures
        value_id(a, Some(ty)) is Some <==> shardfn::coerced(ty, a) is Some,
        shardfn::coerced(ty, a) is Some && shardfn::coerced(ty, a) == shardfn::coerced(ty, b)
            ==> value_id(a, Some(ty)) == value_id(b, Some(ty)),
        shardfn::coerced(ty, a) is Some ==> value_id(a, Some(ty)) == value_id(
            shardfn::coerced(ty, a)->0,
            None,
        ),
        value_id(a, None) is Some,
{
}

/// Whether a statement on one table has nothing beside its condition that could take it to
/// another: no other relation, no `WITH`, no subquery.
pub open spec fn is_plain_select(s: SelectStmt, rv: ast::RangeVar) -> bool {
    &&& !s.set_operation
    &&& s.from_clause@ == seq![Node::Table(rv)]
    &&& s.with_clause is None
    &&& !ast::select_has(s, Feature::SubLink)
}

pub open spec fn is_plain_update(s: UpdateStmt, rv: ast::RangeVar, key: Seq<char>) -> bool {
    &&& s.relation == Some(rv)
    &&& !extract::assigns(s.target_list@, key)
    &&& s.from_clause@.len() == 0
    &&& s.with_clause is None
    &&& !ast::update_has(s, Feature::SubLink)
}

pub open spec fn is_plain_delete(s: DeleteStmt, rv: ast::RangeVar) -> bool {
    &&& s.relation == Some(rv)
    &&& s.using_clause@.len() == 0
    &&& s.with_clause is None
    &&& !ast::delete_has(s, Feature::SubLink)
}

proof fn lemma_plain_select(s: SelectStmt, rv: ast::RangeVar, v: VSchema)
    requires
        is_plain_select(s, rv),
        is_sharded(v, extract::table_of(rv)),
    ensures
        extract::from_tables(s.from_clause@) == seq![extract::table_of(rv)],
        extract::from_plain(s.from_clause@),
        sharded_positions(extract::from_tables(s.from_clause@), v).len() == 1,
        first_unknown(extract::from_tables(s.from_clause@), v) is None,
{
    let ts = extract::from_tables(s.from_clause@);
    extract::law_from_clauses_name_their_tables(
        rv,
        arbitrary(),
        Node::Table(rv),
        Seq::<Node>::empty(),
    );
    assert(s.from_clause@ =~= Seq::<Node>::empty().push(Node::Table(rv)));
    assert(ts =~= seq![extract::table_of(rv)]);
    assert(ts.drop_last() =~= Seq::<TableKey>::empty());
    assert(sharded_positions(ts.drop_last(), v).len() == 0);
    lemma_first_unknown(ts, v);
}

/// A statement that pins the shard key to a literal runs on the shard that owns it, and on no
/// other: a read, an update and a deletion alike.
pub proof fn law_a_keyed_statement_runs_on_its_shard(
    rv: ast::RangeVar,
    s: SelectStmt,
    u: UpdateStmt,
    d: DeleteStmt,
    v: VSchema,
    c: ShardCatalog,
    key: Seq<char>,
    key_type: Option<ScalarType>,
    k: KeyValue,
    id: u64,
)
    requires
        placed(v, extract::table_of(rv)) == (PlacementView::Sharded { key, key_type }),
        value_id(k, key_type) == Some(id),
    ensures
        is_plain_select(s, rv) && extract::where_values(s.where_clause, key) == seq![
            KeyRef::Const(k),
        ] ==> select_plan(s, v, c) == PlanView::SingleShard(c.shard_of(id)),
        is_plain_update(u, rv, key) && extract::where_values(u.where_clause, key) == seq![
            KeyRef::Const(k),
        ] ==> update_plan(u, v, c) == PlanView::SingleShard(c.shard_of(id)),
        is_plain_delete(d, rv) && extract::where_values(d.where_clause, key) == seq![
            KeyRef::Const(k),
        ] ==> delete_plan(d, v, c) == PlanView::SingleShard(c.shard_of(id)),
{
    let values = seq![KeyRef::Const(k)];
    assert(values[0] is Const);
    law_literals_resolve_to_their_shards(values, key_type, c, c.shard_of(id));
    let all = value_shards(values, key_type, c);
    assert(all =~= seq![c.shard_of(id)]);
    assert(all.drop_last() =~= Seq::<Seq<char>>::empty());
    assert(catalog::sorted_ids(all.drop_last()) =~= Seq::<Seq<char>>::empty());
    assert(catalog::sorted_ids(all) =~= seq![c.shard_of(id)]);
    if is_plain_select(s, rv) {
        lemma_plain_select(s, rv, v);
    }
}

/// A statement that pins the shard key to placeholders alone waits for their values: it keeps
/// their numbers and the column's type, and whether it writes.
pub proof fn law_parameterized_statements_wait_for_their_values(
    rv: ast::RangeVar,
    s: SelectStmt,
    u: UpdateStmt,
    d: DeleteStmt,
    v: VSchema,
    c: ShardCatalog,
    key: Seq<char>,
    key_type: Option<ScalarType>,
    n: u32,
)
    requires
        placed(v, extract::table_of(rv)) == (PlacementView::Sharded { key, key_type }),
    ensures
        is_plain_select(s, rv) && extract::where_values(s.where_clause, key) == seq![
            KeyRef::Param(n),
        ] ==> (select_plan(s, v, c) matches PlanView::Parameterized(p) && p.param_indices == seq![n]
            && !p.write && p.key_type == key_type && p.shard_function == "xxhash64_v1"@),
        is_plain_update(u, rv, key) && extract::where_values(u.where_clause, key) == seq![
            KeyRef::Param(n),
        ] ==> (update_plan(u, v, c) matches PlanView::Parameterized(p) && p.param_indices == seq![n]
            && p.write && p.key_type == key_type && p.shard_function == "xxhash64_v1"@),
        is_plain_delete(d, rv) && extract::where_values(d.where_clause, key) == seq![
            KeyRef::Param(n),
        ] ==> (delete_plan(d, v, c) matches PlanView::Parameterized(p) && p.param_indices == seq![n]
            && p.write && p.key_type == key_type && p.shard_function == "xxhash64_v1"@),
{
    let values = seq![KeyRef::Param(n)];
    assert(values[0] is Param);
    assert(has_param(values));
    assert(!has_const(values));
    assert(values.map_values(|v: KeyRef| param_number(v)) =~= seq![n]);
    if is_plain_select(s, rv) {
        lemma_plain_select(s, rv, v);
    }
}

/// Every plan that waits for parameters is that of its statement: it writes unless the
/// statement is a read.
pub proof fn law_parameterized_plans_know_whether_they_write(
    kind: StatementKind,
    n: Node,
    v: VSchema,
    c: ShardCatalog,
)
    ensures
        planned(kind, n, v, c) matches PlanView::Parameterized(p) ==> (p.write <==> kind
            != StatementKind::Select) && p.shard_function == "xxhash64_v1"@,
{
}

/// A read without a usable key is sent to every shard, so that no row is missed; a write
/// without one is refused.
pub proof fn law_unkeyed_statements(
    rv: ast::RangeVar,
    s: SelectStmt,
    u: UpdateStmt,
    d: DeleteStmt,
    v: VSchema,
    c: ShardCatalog,
    key: Seq<char>,
    key_type: Option<ScalarType>,
    id: u64,
)
    requires
        c.wf(),
        placed(v, extract::table_of(rv)) == (PlacementView::Sharded { key, key_type }),
    ensures
        ({
            let r = resolution(extract::where_values(s.where_clause, key), key_type, c);
            is_plain_select(s, rv) && !(r is Shards) && !(r is Params) ==> select_plan(
                s,
                v,
                c,
            ) is Scatter && targets(select_plan(s, v, c)).contains(c.shard_of(id))
        }),
        ({
            let r = resolution(extract::where_values(u.where_clause, key), key_type, c);
            u.relation == Some(rv) && !(r is Shards) && !(r is Params) ==> update_plan(
                u,
                v,
                c,
            ) is Reject
        }),
        ({
            let r = resolution(extract::where_values(d.where_clause, key), key_type, c);
            d.relation == Some(rv) && !(r is Shards) && !(r is Params) ==> delete_plan(
                d,
                v,
                c,
            ) is Reject
        }),
{
    catalog::lemma_owner(c, id);
    if is_plain_select(s, rv) {
        lemma_plain_select(s, rv, v);
    }
}

/// What the router cannot route soundly on a sharded table is refused: a change of the shard
/// key, another relation beside the table, a `WITH`, a subquery, and an insert that could
/// update a row of another shard or whose conflict target does not name the key.
pub proof fn law_unsound_statements_are_refused(
    rv: ast::RangeVar,
    s: SelectStmt,
    i: InsertStmt,
    u: UpdateStmt,
    d: DeleteStmt,
    v: VSchema,
    c: ShardCatalog,
    key: Seq<char>,
    key_type: Option<ScalarType>,
)
    requires
        placed(v, extract::table_of(rv)) == (PlacementView::Sharded { key, key_type }),
    ensures
        u.relation == Some(rv) && (extract::assigns(u.target_list@, key) || u.from_clause@.len() > 0
            || u.with_clause is Some || ast::update_has(u, Feature::SubLink)) ==> update_plan(
            u,
            v,
            c,
        ) is Reject,
        d.relation == Some(rv) && (d.using_clause@.len() > 0 || d.with_clause is Some
            || ast::delete_has(d, Feature::SubLink)) ==> delete_plan(d, v, c) is Reject,
        i.relation == Some(rv) && (i.with_clause is Some || ast::insert_has(i, Feature::SubLink))
            ==> insert_plan(i, v, c) is Reject,
        i.relation == Some(rv) && (i.on_conflict_clause matches Some(oc) && (oc.action
            == ConflictAction::Update || oc.infer is None || oc.infer->0.conname@.len() > 0 || (
        forall|k: int|
            0 <= k < oc.infer->0.index_elems@.len() ==> !(
            #[trigger] oc.infer->0.index_elems@[k] matches Node::IndexElem(e) && e.name@ == key))))
            ==> insert_plan(i, v, c) is Reject,
        i.relation == Some(rv) && extract::insert_values(i, key) is None ==> insert_plan(
            i,
            v,
            c,
        ) is Reject,
        !s.set_operation && extract::from_tables(s.from_clause@).contains(extract::table_of(rv)) && (
        s.from_clause@ != seq![Node::Table(rv)] && (extract::from_tables(s.from_clause@).len() > 1
            || !extract::from_plain(s.from_clause@)) || s.with_clause is Some || ast::select_has(
            s,
            Feature::SubLink,
        )) ==> select_plan(s, v, c) is Reject,
        s.set_operation && arms_tables(s).contains(extract::table_of(rv)) ==> select_plan(
            s,
            v,
            c,
        ) is Reject,
{
    let ts = extract::from_tables(s.from_clause@);
    let t = extract::table_of(rv);
    if !s.set_operation && ts.contains(t) {
        lemma_sharded_positions(ts, v, ts.index_of(t));
        assert(sharded_positions(ts, v).contains(ts.index_of(t)));
    }
    if s.set_operation && arms_tables(s).contains(t) {
        let all = arms_tables(s);
        lemma_sharded_positions(all, v, all.index_of(t));
        assert(sharded_positions(all, v).contains(all.index_of(t)));
    }
}

/// An insert whose rows all have one owner runs there; one whose rows have two is refused.
pub proof fn law_inserts_go_to_the_owner_of_their_rows(
    s: InsertStmt,
    rv: ast::RangeVar,
    v: VSchema,
    c: ShardCatalog,
    key: Seq<char>,
    key_type: Option<ScalarType>,
    values: Seq<KeyRef>,
    x: Seq<char>,
)
    requires
        s.relation == Some(rv),
        placed(v, extract::table_of(rv)) == (PlacementView::Sharded { key, key_type }),
        s.with_clause is None,
        !ast::insert_has(s, Feature::SubLink),
        s.on_conflict_clause is None,
        extract::insert_values(s, key) == Some(values),
        values.len() > 0,
        forall|i: int|
            0 <= i < values.len() ==> (#[trigger] values[i] matches KeyRef::Const(k) && value_id(
                k,
                key_type,
            ) is Some),
    ensures
        (forall|i: int|
            0 <= i < values.len() ==> c.shard_of(const_id(#[trigger] values[i], key_type)->0) == x)
            ==> insert_plan(s, v, c) == PlanView::SingleShard(x),
        (exists|i: int|
            0 <= i < values.len() && c.shard_of(const_id(#[trigger] values[i], key_type)->0)
                != c.shard_of(const_id(values[0], key_type)->0)) ==> insert_plan(s, v, c) is Reject,
{
    law_literals_resolve_to_their_shards(values, key_type, c, x);
    let all = value_shards(values, key_type, c);
    catalog::lemma_sorted_ids(all);
    let hit = catalog::sorted_ids(all);
    if forall|i: int|
        0 <= i < values.len() ==> c.shard_of(const_id(#[trigger] values[i], key_type)->0) == x {
        assert forall|i: int| 0 <= i < hit.len() implies hit[i] == x by {
            assert(hit.contains(hit[i]));
            assert(all.contains(hit[i]));
            let k = all.index_of(hit[i]);
            assert(c.shard_of(const_id(values[k], key_type)->0) == x);
        }
        if hit.len() > 1 {
            assert(text::before(hit[0], hit[1]));
            text::lemma_before_irreflexive(x);
        }
    }
    if exists|i: int|
        0 <= i < values.len() && c.shard_of(const_id(#[trigger] values[i], key_type)->0)
            != c.shard_of(const_id(values[0], key_type)->0) {
        let i = choose|i: int|
            0 <= i < values.len() && c.shard_of(const_id(#[trigger] values[i], key_type)->0)
                != c.shard_of(const_id(values[0], key_type)->0);
        assert(all[i] != all[0]);
        assert(all.contains(all[i]) && all.contains(all[0]));
        assert(hit.contains(all[i]) && hit.contains(all[0]));
    }
}

/// Once bound, a write stays on one shard or is refused, and the shard is the one that owns
/// every value bound to its key; a value that is missing or is none of the column's type is
/// refused.
pub proof fn law_bound_writes_stay_on_one_shard(
    p: ParamView,
    values: Seq<KeyValue>,
    c: ShardCatalog,
    i: int,
)
    requires
        0 <= i < p.param_indices.len(),
    ensures
        p.write ==> bound_plan(p, values, c) is SingleShard || bound_plan(p, values, c) is Reject,
        bound_plan(p, values, c) is SingleShard || bound_plan(p, values, c) is Scatter || bound_plan(
            p,
            values,
            c,
        ) is Reject,
        bound_plan(p, values, c) matches PlanView::SingleShard(x) ==> {
            &&& 0 < p.param_indices[i] <= values.len()
            &&& value_id(values[p.param_indices[i] - 1], p.key_type) is Some
            &&& x == c.shard_of(value_id(values[p.param_indices[i] - 1], p.key_type)->0)
        },
        p.param_indices[i] == 0 || p.param_indices[i] > values.len() ==> bound_plan(
            p,
            values,
            c,
        ) is Reject,
        0 < p.param_indices[i] <= values.len() && value_id(
            values[p.param_indices[i] - 1],
            p.key_type,
        ) is None ==> bound_plan(p, values, c) is Reject,
{
    if bound_shards(p.param_indices, values, p.key_type, c) is Ok {
        lemma_bound_at(p.param_indices, i, values, p.key_type, c);
        let shards = bound_shards(p.param_indices, values, p.key_type, c)->Ok_0;
        catalog::lemma_sorted_ids(shards);
        assert(shards.contains(shards[i]));
        assert(catalog::sorted_ids(shards).contains(shards[i]));
    }
}

/// Every statement of a query is planned by its own kind and its own text; an empty statement
/// stays in the router.
pub proof fn law_each_statement_has_its_own_plan(parsed: Parsed, i: int, v: VSchema, c: ShardCatalog)
    requires
        0 <= i < parsed.stmts@.len(),
    ensures
        parsed.stmts@[i] is None ==> planned_at(parsed, i, v, c) is RouterLocal,
        parsed.stmts@[i] is Some && i < parsed.kinds@.len() ==> planned_at(parsed, i, v, c)
            == planned(parsed.kinds@[i], parsed.stmts@[i]->0, v, c),
        parsed.stmts@[i] is Some && i >= parsed.kinds@.len() ==> planned_at(parsed, i, v, c) is Reject,
{
}

/// A `SELECT` without a FROM clause stays in the router, unless it has a subquery or a `WITH`,
/// which the router cannot see into.
pub proof fn law_constant_reads_stay_in_the_router(s: SelectStmt, v: VSchema, c: ShardCatalog)
    requires
        !s.set_operation,
        s.from_clause@.len() == 0,
    ensures
        !ast::select_has(s, Feature::SubLink) && !ast::select_has(s, Feature::With) ==> select_plan(
            s,
            v,
            c,
        ) is RouterLocal,
        ast::select_has(s, Feature::SubLink) || ast::select_has(s, Feature::With) ==> select_plan(
            s,
            v,
            c,
        ) is Unsharded,
{
}

/// The sharding schema places a table as it defines it.
pub proof fn law_tables_are_placed_as_defined(v: VSchema, t: TableKey)
    ensures
        placed(v, t) is Global <==> v.definition(t) == Some(TableDef::Global),
        placed(v, t) is Unknown <==> v.definition(t) is None,
        placed(v, t) matches PlacementView::Sharded { key, key_type } ==> (v.definition(
            t,
        ) matches Some(TableDef::Sharded { shard_key_column, shard_key_type, .. })
            && shard_key_column@ == key && shard_key_type == key_type),
{
}

} // verus!
