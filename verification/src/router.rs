//! The router's routing layer: turn a compiled [`Topology`] into an executable
//! [`Router`], then route statements to concrete [`Target`]s (a node endpoint plus the
//! shard's database, since each shard is its own database on a shared node). A [`Router`]
//! is an immutable snapshot built from one epoch's topology.
//!
//! # Scope
//!
//! The routable shard set is the topology's `Serving` shards, which must
//! partition the keyspace (they do at steady state; a transient reshard state
//! that does not is a build error, so the caller keeps the previous snapshot).
//! Writes and single-shard reads go to a shard's primary; a scatter read fans to
//! the primaries of the covered shards. A shard with no current primary (mid-failover)
//! resolves to [`Route::Unavailable`] rather than a wrong endpoint.
use crate::ast::Parsed;
use crate::catalog::{self, ShardCatalog, ShardId};
use crate::keyspace::{self, KeyRange, PartitionError};
use crate::plan::{self, ParamView, Parameterized, Plan, PlanView};
use crate::text;
use crate::topology::{self, ShardEntry, ShardState, TableEntry, TableType, Topology};
use crate::vschema::{
    self, SequenceBinding, TableDef, TableKey, TableName, VSchema, VSchemaError,
};
use std::sync::Arc;
use vstd::prelude::*;
use vstd::string::*;

verus! {

/// Where a node is reached.
pub type Endpoint = topology::Instance;

#[derive(Debug, PartialEq, Eq)]
pub enum BuildError {
    /// A sharded table has no shard key column.
    MissingShardKey(TableName),
    /// Two serving shards have one name.
    DuplicateShard(String),
    VSchema(VSchemaError),
    /// The serving shards do not partition the keyspace.
    Partition(PartitionError),
    /// The topology holds traffic back at a gate, which a snapshot cannot honor.
    Gated,
}

/// What an error says.
pub open spec fn fault_text(e: BuildError) -> Seq<char> {
    match e {
        BuildError::MissingShardKey(t) => "sharded table "@ + vschema::table_text(t@)
            + " has no shard key column"@,
        BuildError::DuplicateShard(s) => "duplicate serving shard name "@ + text::debug_text(s@),
        BuildError::VSchema(v) => vschema::fault_text(v),
        BuildError::Partition(p) => "serving shards do not partition the keyspace: "@
            + keyspace::partition_fault_text(p),
        BuildError::Gated => "the topology carries gates"@,
    }
}

impl BuildError {
    pub fn to_string(&self) -> (r: String)
        ensures
            r@ == fault_text(*self),
    {
        match self {
            BuildError::MissingShardKey(t) => text::concat3(
                "sharded table ",
                t.to_string().as_str(),
                " has no shard key column",
            ),
            BuildError::DuplicateShard(s) => text::concat2(
                "duplicate serving shard name ",
                text::debug_string(s.as_str()).as_str(),
            ),
            BuildError::VSchema(v) => v.to_string(),
            BuildError::Partition(p) => text::concat2(
                "serving shards do not partition the keyspace: ",
                p.to_string().as_str(),
            ),
            BuildError::Gated => "the topology carries gates".to_owned(),
        }
    }
}

// ---------------------------------------------------------------------------------------
// Tables.
// ---------------------------------------------------------------------------------------

/// A table's name.
pub open spec fn entry_key(t: TableEntry) -> TableKey {
    (t.schema@, t.name@)
}

/// Whether a table's name stands before position `i`.
pub open spec fn named_before(tables: Seq<TableEntry>, i: int) -> bool {
    exists|j: int| 0 <= j < i && entry_key(#[trigger] tables[j]) == entry_key(tables[i])
}

/// Whether a column is bound before position `j`.
pub open spec fn bound_before(sequences: Seq<topology::Sequence>, j: int) -> bool {
    exists|i: int| 0 <= i < j && (#[trigger] sequences[i]).column@ == sequences[j].column@
}

/// Whether no column is bound to two sequences.
pub open spec fn columns_distinct(sequences: Seq<topology::Sequence>) -> bool {
    forall|j: int| 0 <= j < sequences.len() ==> !#[trigger] bound_before(sequences, j)
}

/// Whether a sharded table can be routed.
pub open spec fn shardable(t: TableEntry, hash: Seq<char>) -> bool {
    &&& t.shard_key_column is Some
    &&& t.shard_key_column->0@.len() > 0
    &&& hash == "xxhash64_v1"@
    &&& columns_distinct(t.sequences@)
}

/// Whether table `i` can stand in the schema.
pub open spec fn entry_ok(tables: Seq<TableEntry>, i: int, hash: Seq<char>) -> bool {
    let t = tables[i];
    &&& t.schema@.len() > 0
    &&& t.name@.len() > 0
    &&& !named_before(tables, i)
    &&& t.table_type == TableType::Global || shardable(t, hash)
}

/// Whether an error is what table `i`, which cannot stand in the schema, is refused with.
pub open spec fn entry_error(
    tables: Seq<TableEntry>,
    i: int,
    hash: Seq<char>,
    e: BuildError,
) -> bool {
    let t = tables[i];
    let sharded = t.table_type == TableType::Sharded;
    let named = t.schema@.len() > 0 && t.name@.len() > 0;
    match e {
        BuildError::MissingShardKey(n) => n@ == entry_key(t) && sharded && t.shard_key_column
            is None,
        BuildError::VSchema(v) => {
            &&& !(sharded && t.shard_key_column is None)
            &&& match v {
                VSchemaError::EmptyTableName(s, n) => s@ == t.schema@ && n@ == t.name@ && !named,
                VSchemaError::DuplicateTable(n) => n@ == entry_key(t) && named && named_before(
                    tables,
                    i,
                ),
                VSchemaError::EmptyShardKey(n) => n@ == entry_key(t) && named && !named_before(
                    tables,
                    i,
                ) && sharded && t.shard_key_column->0@.len() == 0,
                VSchemaError::UnknownShardFunction(n, f) => n@ == entry_key(t) && f@ == hash
                    && named && !named_before(tables, i) && sharded
                    && t.shard_key_column->0@.len() > 0 && hash != "xxhash64_v1"@,
                VSchemaError::DuplicateSequenceColumn(n, c) => n@ == entry_key(t) && named
                    && !named_before(tables, i) && sharded && t.shard_key_column->0@.len() > 0
                    && hash == "xxhash64_v1"@ && exists|j: int|
                    0 <= j < t.sequences@.len() && #[trigger] bound_before(t.sequences@, j) && c@
                        == t.sequences@[j].column@ && forall|k: int|
                        0 <= k < j ==> !#[trigger] bound_before(t.sequences@, k),
            }
        },
        _ => false,
    }
}

/// Whether a definition is what a table's entry says.
pub open spec fn def_of(def: TableDef, t: TableEntry, hash: Seq<char>) -> bool {
    match (t.table_type, def) {
        (TableType::Global, TableDef::Global) => true,
        (
            TableType::Sharded,
            TableDef::Sharded { shard_key_column, shard_function, shard_key_type, sequences },
        ) => {
            &&& t.shard_key_column is Some
            &&& shard_key_column@ == t.shard_key_column->0@
            &&& shard_function@ == hash
            &&& shard_key_type == t.shard_key_type
            &&& sequences@.len() == t.sequences@.len()
            &&& forall|i: int|
                0 <= i < sequences@.len() ==> (#[trigger] sequences@[i]).column@
                    == t.sequences@[i].column@ && sequences@[i].sequence@
                    == t.sequences@[i].sequence@
        },
        _ => false,
    }
}

/// Whether a schema gives a table what its entry says.
pub open spec fn defines_entry(v: VSchema, t: TableEntry, hash: Seq<char>) -> bool {
    exists|def: TableDef| #[trigger] v.defines(entry_key(t), def) && def_of(def, t, hash)
}

/// Whether a schema holds exactly the tables.
pub open spec fn schema_of(v: VSchema, tables: Seq<TableEntry>, hash: Seq<char>) -> bool {
    &&& v.entries().len() == tables.len()
    &&& forall|i: int|
        0 <= i < tables.len() ==> defines_entry(v, #[trigger] tables[i], hash)
}

fn bindings(sequences: &Vec<topology::Sequence>) -> (r: Vec<SequenceBinding>)
    ensures
        r@.len() == sequences@.len(),
        forall|i: int|
            0 <= i < r@.len() ==> (#[trigger] r@[i]).column@ == sequences@[i].column@
                && r@[i].sequence@ == sequences@[i].sequence@,
{
    let mut out: Vec<SequenceBinding> = Vec::new();
    let mut i: usize = 0;
    while i < sequences.len()
        invariant
            i <= sequences@.len(),
            out@.len() == i,
            forall|k: int|
                0 <= k < i ==> (#[trigger] out@[k]).column@ == sequences@[k].column@
                    && out@[k].sequence@ == sequences@[k].sequence@,
        decreases sequences@.len() - i,
    {
        out.push(
            SequenceBinding {
                column: sequences[i].column.clone(),
                sequence: sequences[i].sequence.clone(),
            },
        );
        i += 1;
    }
    out
}

proof fn lemma_bound_before(a: Seq<SequenceBinding>, b: Seq<topology::Sequence>, j: int)
    requires
        a.len() == b.len(),
        0 <= j < a.len(),
        forall|i: int| 0 <= i < a.len() ==> (#[trigger] a[i]).column@ == b[i].column@,
    ensures
        vschema::bound_before(a, j) == bound_before(b, j),
{
    if vschema::bound_before(a, j) {
        let i = choose|i: int| 0 <= i < j && (#[trigger] a[i]).column@ == a[j].column@;
        assert(b[i].column@ == b[j].column@);
    }
    if bound_before(b, j) {
        let i = choose|i: int| 0 <= i < j && (#[trigger] b[i]).column@ == b[j].column@;
        assert(a[i].column@ == a[j].column@);
    }
}

fn table_def(t: &TableEntry, hash: &str) -> (r: Option<TableDef>)
    ensures
        match r {
            Some(def) => def_of(def, *t, hash@) && (vschema::valid_def(def) <==> t.table_type
                == TableType::Global || shardable(*t, hash@)),
            None => t.table_type == TableType::Sharded && t.shard_key_column is None,
        },
        match r {
            Some(TableDef::Sharded { sequences, .. }) => forall|j: int|
                0 <= j < t.sequences@.len() ==> vschema::bound_before(sequences@, j)
                    == #[trigger] bound_before(t.sequences@, j),
            _ => true,
        },
{
    match t.table_type {
        TableType::Global => Some(TableDef::Global),
        TableType::Sharded => match &t.shard_key_column {
            None => None,
            Some(column) => {
                let sequences = bindings(&t.sequences);
                proof {
                    assert forall|j: int| 0 <= j < t.sequences@.len() implies vschema::bound_before(
                        sequences@,
                        j,
                    ) == #[trigger] bound_before(t.sequences@, j) by {
                        lemma_bound_before(sequences@, t.sequences@, j);
                    }
                    if vschema::columns_distinct(sequences@) {
                        assert forall|j: int| 0 <= j < t.sequences@.len() implies !
                        #[trigger] bound_before(t.sequences@, j) by {
                            assert(!vschema::bound_before(sequences@, j));
                        }
                    }
                    if columns_distinct(t.sequences@) {
                        assert forall|j: int| 0 <= j < sequences@.len() implies !
                        #[trigger] vschema::bound_before(sequences@, j) by {
                            assert(!bound_before(t.sequences@, j));
                        }
                    }
                }
                Some(
                    TableDef::Sharded {
                        shard_key_column: column.clone(),
                        shard_function: hash.to_owned(),
                        shard_key_type: t.shard_key_type,
                        sequences,
                    },
                )
            },
        },
    }
}

proof fn lemma_has(v: VSchema, tables: Seq<TableEntry>, n: int, hash: Seq<char>, k: TableKey)
    requires
        0 <= n <= tables.len(),
        forall|i: int| 0 <= i < n ==> defines_entry(v, #[trigger] tables[i], hash),
        forall|t: TableKey|
            #[trigger] v.has(t) ==> exists|i: int|
                0 <= i < n && entry_key(#[trigger] tables[i]) == t,
    ensures
        v.has(k) <==> exists|i: int| 0 <= i < n && entry_key(#[trigger] tables[i]) == k,
{
    if exists|i: int| 0 <= i < n && entry_key(#[trigger] tables[i]) == k {
        let i = choose|i: int| 0 <= i < n && entry_key(#[trigger] tables[i]) == k;
        assert(defines_entry(v, tables[i], hash));
        let def = choose|def: TableDef|
            #[trigger] v.defines(entry_key(tables[i]), def) && def_of(def, tables[i], hash);
        assert(v.defines(k, def));
        let p = choose|p: int|
            0 <= p < v.entries().len() && (#[trigger] v.entries()[p]).0@ == k && v.entries()[p].1
                == def;
        assert(v.entries()[p].0@ == k);
    }
}

/// The schema of a topology's tables, or the first table's error.
#[verifier::rlimit(40)]
fn build_vschema(tables: &Vec<TableEntry>, hash: &str) -> (r: Result<VSchema, BuildError>)
    ensures
        r is Ok <==> forall|i: int|
            0 <= i < tables@.len() ==> #[trigger] entry_ok(tables@, i, hash@),
        match r {
            Ok(v) => schema_of(v, tables@, hash@),
            Err(e) => exists|i: int|
                0 <= i < tables@.len() && !(#[trigger] entry_ok(tables@, i, hash@)) && (forall|
                    k: int,
                |
                    0 <= k < i ==> #[trigger] entry_ok(tables@, k, hash@)) && entry_error(
                    tables@,
                    i,
                    hash@,
                    e,
                ),
        },
{
    let mut v = VSchema::default();
    let mut i: usize = 0;
    proof {
        assert forall|t: TableKey| #[trigger] v.has(t) implies exists|j: int|
            0 <= j < i && entry_key(#[trigger] tables@[j]) == t by {
            assert(v.entries().len() == 0);
        }
    }
    while i < tables.len()
        invariant
            i <= tables@.len(),
            v.entries().len() == i,
            forall|k: int| 0 <= k < i ==> #[trigger] entry_ok(tables@, k, hash@),
            forall|k: int| 0 <= k < i ==> defines_entry(v, #[trigger] tables@[k], hash@),
            forall|t: TableKey|
                #[trigger] v.has(t) ==> exists|j: int|
                    0 <= j < i && entry_key(#[trigger] tables@[j]) == t,
        decreases tables@.len() - i,
    {
        let t = &tables[i];
        let ghost before = v;
        proof {
            lemma_has(v, tables@, i as int, hash@, entry_key(*t));
        }
        let name = TableName::new(t.schema.as_str(), t.name.as_str());
        let def = match table_def(t, hash) {
            Some(def) => def,
            None => {
                proof {
                    assert(!entry_ok(tables@, i as int, hash@));
                    assert(entry_error(
                        tables@,
                        i as int,
                        hash@,
                        BuildError::MissingShardKey(name),
                    ));
                }
                return Err(BuildError::MissingShardKey(name));
            },
        };
        let ghost given = def;
        let ghost key = name@;
        match v.insert(name, def) {
            Ok(()) => {
                proof {
                    assert(entry_ok(tables@, i as int, hash@));
                    lemma_step(before, v, tables@, i as int, hash@, given);
                }
            },
            Err(e) => {
                proof {
                    assert(!entry_ok(tables@, i as int, hash@));
                    lemma_entry_error(before, tables@, i as int, hash@, given, name, e);
                }
                return Err(BuildError::VSchema(e));
            },
        }
        i += 1;
    }
    Ok(v)
}

/// The schema after one more table.
proof fn lemma_step(
    before: VSchema,
    after: VSchema,
    tables: Seq<TableEntry>,
    n: int,
    hash: Seq<char>,
    def: TableDef,
)
    requires
        0 <= n < tables.len(),
        forall|k: int| 0 <= k <= n ==> #[trigger] entry_ok(tables, k, hash),
        forall|k: int| 0 <= k < n ==> defines_entry(before, #[trigger] tables[k], hash),
        forall|t: TableKey|
            #[trigger] before.has(t) ==> exists|j: int|
                0 <= j < n && entry_key(#[trigger] tables[j]) == t,
        def_of(def, tables[n], hash),
        after.defines(entry_key(tables[n]), def),
        forall|t: TableKey, d: TableDef|
            t != entry_key(tables[n]) ==> (#[trigger] after.defines(t, d) <==> before.defines(
                t,
                d,
            )),
    ensures
        forall|k: int| 0 <= k <= n ==> defines_entry(after, #[trigger] tables[k], hash),
        forall|t: TableKey|
            #[trigger] after.has(t) ==> exists|j: int|
                0 <= j <= n && entry_key(#[trigger] tables[j]) == t,
{
    assert forall|k: int| 0 <= k <= n implies defines_entry(after, #[trigger] tables[k], hash) by {
        if k < n {
            assert(entry_ok(tables, n, hash));
            assert(entry_key(tables[k]) != entry_key(tables[n]));
            let d = choose|d: TableDef|
                #[trigger] before.defines(entry_key(tables[k]), d) && def_of(d, tables[k], hash);
            assert(after.defines(entry_key(tables[k]), d));
        } else {
            assert(after.defines(entry_key(tables[n]), def));
        }
    }
    assert forall|t: TableKey| #[trigger] after.has(t) implies exists|j: int|
        0 <= j <= n && entry_key(#[trigger] tables[j]) == t by {
        if t == entry_key(tables[n]) {
            assert(entry_key(tables[n]) == t);
        } else {
            let p = choose|p: int|
                0 <= p < after.entries().len() && (#[trigger] after.entries()[p]).0@ == t;
            let d = after.entries()[p].1;
            assert(after.defines(t, d));
            assert(before.defines(t, d));
            let q = choose|q: int|
                0 <= q < before.entries().len() && (#[trigger] before.entries()[q]).0@ == t
                    && before.entries()[q].1 == d;
            assert(before.entries()[q].0@ == t);
            assert(before.has(t));
            let j = choose|j: int| 0 <= j < n && entry_key(#[trigger] tables[j]) == t;
            assert(entry_key(tables[j]) == t);
        }
    }
}

/// The schema's refusal of a table is the entry's error.
proof fn lemma_entry_error(
    before: VSchema,
    tables: Seq<TableEntry>,
    n: int,
    hash: Seq<char>,
    def: TableDef,
    name: TableName,
    e: VSchemaError,
)
    requires
        0 <= n < tables.len(),
        name@ == entry_key(tables[n]),
        def_of(def, tables[n], hash),
        def matches TableDef::Sharded { sequences, .. } ==> forall|j: int|
            0 <= j < tables[n].sequences@.len() ==> vschema::bound_before(sequences@, j)
                == #[trigger] bound_before(tables[n].sequences@, j),
        before.has(entry_key(tables[n])) <==> named_before(tables, n),
        match e {
            VSchemaError::EmptyTableName(s, n) => s == name.schema && n == name.name && (s@.len()
                == 0 || n@.len() == 0),
            VSchemaError::DuplicateTable(t) => t == name && name.schema@.len() > 0
                && name.name@.len() > 0 && before.has(name@),
            VSchemaError::EmptyShardKey(t) => t == name && name.schema@.len() > 0
                && name.name@.len() > 0 && !before.has(name@) && (def matches TableDef::Sharded {
                shard_key_column,
                ..
            } && shard_key_column@.len() == 0),
            VSchemaError::UnknownShardFunction(t, f) => t == name && name.schema@.len() > 0
                && name.name@.len() > 0 && !before.has(name@) && (def matches TableDef::Sharded {
                shard_key_column,
                shard_function,
                ..
            } && shard_key_column@.len() > 0 && f == shard_function && f@ != "xxhash64_v1"@),
            VSchemaError::DuplicateSequenceColumn(t, c) => t == name && name.schema@.len() > 0
                && name.name@.len() > 0 && !before.has(name@) && (def matches TableDef::Sharded {
                shard_key_column,
                shard_function,
                sequences,
                ..
            } && shard_key_column@.len() > 0 && shard_function@ == "xxhash64_v1"@ && exists|j: int|
                0 <= j < sequences@.len() && #[trigger] vschema::bound_before(sequences@, j) && c
                    == sequences@[j].column && forall|k: int|
                    0 <= k < j ==> !#[trigger] vschema::bound_before(sequences@, k)),
        },
    ensures
        entry_error(tables, n, hash, BuildError::VSchema(e)),
{
    let t = tables[n];
    match e {
        VSchemaError::DuplicateSequenceColumn(_, c) => {
            match def {
                TableDef::Sharded { sequences, .. } => {
                    let j = choose|j: int|
                        0 <= j < sequences@.len() && #[trigger] vschema::bound_before(
                            sequences@,
                            j,
                        ) && c == sequences@[j].column && forall|k: int|
                            0 <= k < j ==> !#[trigger] vschema::bound_before(sequences@, k);
                    assert(bound_before(t.sequences@, j));
                    assert(c@ == t.sequences@[j].column@);
                    assert forall|k: int| 0 <= k < j implies !#[trigger] bound_before(
                        t.sequences@,
                        k,
                    ) by {
                        assert(!vschema::bound_before(sequences@, k));
                    }
                },
                _ => {},
            }
        },
        _ => {},
    }
}

// ---------------------------------------------------------------------------------------
// Shards.
// ---------------------------------------------------------------------------------------

/// The shards that take traffic.
pub open spec fn serving(shards: Seq<ShardEntry>) -> Seq<ShardEntry>
    decreases shards.len(),
{
    if shards.len() == 0 {
        Seq::empty()
    } else {
        let head = serving(shards.drop_last());
        if shards.last().state == ShardState::Serving {
            head.push(shards.last())
        } else {
            head
        }
    }
}

/// A shard's range and name.
pub open spec fn placement(e: ShardEntry) -> (KeyRange, ShardId) {
    (e.key_range, ShardId(e.name))
}

/// The shards' ranges and names.
pub open spec fn placements(s: Seq<ShardEntry>) -> Seq<(KeyRange, ShardId)> {
    s.map_values(|e: ShardEntry| placement(e))
}

/// Whether a shard's name stands before position `j`.
pub open spec fn shard_before(s: Seq<ShardEntry>, j: int) -> bool {
    exists|i: int| 0 <= i < j && (#[trigger] s[i]).name@ == s[j].name@
}

/// The first name that stands a second time.
pub open spec fn repeated_name(s: Seq<ShardEntry>) -> Option<Seq<char>>
    decreases s.len(),
{
    if s.len() == 0 {
        None
    } else if repeated_name(s.drop_last()) is Some {
        repeated_name(s.drop_last())
    } else if shard_before(s, s.len() - 1) {
        Some(s.last().name@)
    } else {
        None
    }
}

/// Where a placement goes among others that stand in the order of their starts: before the
/// first that starts after it.
pub open spec fn slot_for(s: Seq<(KeyRange, ShardId)>, start: u64) -> int
    decreases s.len(),
{
    if s.len() == 0 || s[0].0.lower() > start {
        0
    } else {
        1 + slot_for(s.drop_first(), start)
    }
}

/// Placements in the order of their starts; those with one start stay in their order.
pub open spec fn by_start(s: Seq<(KeyRange, ShardId)>) -> Seq<(KeyRange, ShardId)>
    decreases s.len(),
{
    if s.len() == 0 {
        Seq::empty()
    } else {
        let head = by_start(s.drop_last());
        head.insert(slot_for(head, s.last().0.lower()), s.last())
    }
}

proof fn lemma_slot_for(s: Seq<(KeyRange, ShardId)>, start: u64, p: int)
    requires
        0 <= p <= s.len(),
        p < s.len() ==> s[p].0.lower() > start,
        forall|k: int| 0 <= k < p ==> (#[trigger] s[k]).0.lower() <= start,
    ensures
        slot_for(s, start) == p,
    decreases s.len(),
{
    if p > 0 {
        assert(s[0].0.lower() <= start);
        let t = s.drop_first();
        assert forall|k: int| 0 <= k < p - 1 implies (#[trigger] t[k]).0.lower() <= start by {
            assert(t[k] == s[k + 1]);
        }
        lemma_slot_for(t, start, p - 1);
    }
}

proof fn lemma_slot_bounds(s: Seq<(KeyRange, ShardId)>, start: u64)
    ensures
        0 <= slot_for(s, start) <= s.len(),
        slot_for(s, start) < s.len() ==> s[slot_for(s, start)].0.lower() > start,
        forall|k: int| 0 <= k < slot_for(s, start) ==> (#[trigger] s[k]).0.lower() <= start,
    decreases s.len(),
{
    if s.len() > 0 && s[0].0.lower() <= start {
        let t = s.drop_first();
        lemma_slot_bounds(t, start);
        assert forall|k: int| 0 <= k < slot_for(s, start) implies (#[trigger] s[k]).0.lower()
            <= start by {
            if k > 0 {
                assert(t[k - 1] == s[k]);
            }
        }
        assert(slot_for(s, start) < s.len() ==> s[slot_for(s, start)] == t[slot_for(t, start)]);
    }
}

/// The shard list's order does not matter to what is routed: the placements are put in the
/// order of their starts, and none is lost or added.
pub proof fn law_placements_are_sorted(s: Seq<(KeyRange, ShardId)>)
    ensures
        by_start(s).to_multiset() == s.to_multiset(),
        by_start(s).len() == s.len(),
        forall|i: int, j: int|
            0 <= i < j < by_start(s).len() ==> (#[trigger] by_start(s)[i]).0.lower() <= (
            #[trigger] by_start(s)[j]).0.lower(),
    decreases s.len(),
{
    broadcast use vstd::seq_lib::group_to_multiset_ensures;

    if s.len() > 0 {
        let head = by_start(s.drop_last());
        let e = s.last();
        let p = slot_for(head, e.0.lower());
        law_placements_are_sorted(s.drop_last());
        lemma_slot_bounds(head, e.0.lower());
        let r = head.insert(p, e);
        assert forall|i: int, j: int| 0 <= i < j < r.len() implies (#[trigger] r[i]).0.lower() <= (
        #[trigger] r[j]).0.lower() by {
            let a = if i < p {
                i
            } else {
                i - 1
            };
            let b = if j < p {
                j
            } else {
                j - 1
            };
            if i == p {
                assert(r[j] == head[j - 1]);
                if p < head.len() && p < j - 1 {
                    assert(head[p].0.lower() <= head[j - 1].0.lower());
                }
            } else if j == p {
                assert(r[i] == head[i]);
            } else {
                assert(r[i] == head[a] && r[j] == head[b]);
            }
        }
        assert(s =~= s.drop_last().push(e));
        assert(r.to_multiset() =~= head.to_multiset().insert(e)) by {
            lemma_insert_multiset(head, p, e);
        }
    } else {
        assert(s =~= Seq::<(KeyRange, ShardId)>::empty());
    }
}

proof fn lemma_insert_multiset(s: Seq<(KeyRange, ShardId)>, p: int, e: (KeyRange, ShardId))
    requires
        0 <= p <= s.len(),
    ensures
        s.insert(p, e).to_multiset() =~= s.to_multiset().insert(e),
{
    broadcast use vstd::seq_lib::group_to_multiset_ensures;

    let a = s.take(p);
    let b = s.skip(p);
    assert(s =~= a + b);
    assert(s.insert(p, e) =~= a.push(e) + b);
    vstd::seq_lib::lemma_multiset_commutative(a, b);
    vstd::seq_lib::lemma_multiset_commutative(a.push(e), b);
}

/// The primary of a shard, by its name.
pub open spec fn primary_at(
    primaries: Seq<(ShardId, Option<Endpoint>)>,
    id: Seq<char>,
) -> Option<Option<Endpoint>>
    decreases primaries.len(),
{
    if primaries.len() == 0 {
        None
    } else if primaries[0].0@ == id {
        Some(primaries[0].1)
    } else {
        primary_at(primaries.drop_first(), id)
    }
}

proof fn lemma_primary_at(
    primaries: Seq<(ShardId, Option<Endpoint>)>,
    id: Seq<char>,
    p: int,
)
    requires
        0 <= p <= primaries.len(),
        p < primaries.len() ==> primaries[p].0@ == id,
        forall|k: int| 0 <= k < p ==> (#[trigger] primaries[k]).0@ != id,
    ensures
        primary_at(primaries, id) == (if p < primaries.len() {
            Some(primaries[p].1)
        } else {
            None
        }),
    decreases primaries.len(),
{
    if p > 0 {
        assert(primaries[0].0@ != id);
        let t = primaries.drop_first();
        assert forall|k: int| 0 <= k < p - 1 implies (#[trigger] t[k]).0@ != id by {
            assert(t[k] == primaries[k + 1]);
        }
        lemma_primary_at(t, id, p - 1);
    }
}

/// Whether the names stand in order, each once.
pub open spec fn names_in_order(primaries: Seq<(ShardId, Option<Endpoint>)>) -> bool {
    forall|i: int, j: int|
        0 <= i < j < primaries.len() ==> text::before(
            (#[trigger] primaries[i]).0@,
            (#[trigger] primaries[j]).0@,
        )
}

/// Whether the primaries are exactly those of the shards.
pub open spec fn primaries_of(
    primaries: Seq<(ShardId, Option<Endpoint>)>,
    shards: Seq<ShardEntry>,
) -> bool {
    &&& primaries.len() == shards.len()
    &&& forall|i: int|
        0 <= i < shards.len() ==> primaries.contains(
            (ShardId((#[trigger] shards[i]).name), shards[i].primary),
        )
}

/// An immutable routing snapshot for one topology epoch.
#[derive(Debug)]
pub struct Router {
    pub epoch: u64,
    pub write_lease_seconds: u64,
    pub vschema: VSchema,
    pub catalog: ShardCatalog,
    /// Every serving shard's current primary, if it has one, in the order of the names.
    pub primaries: Vec<(ShardId, Option<Endpoint>)>,
    /// The system (unsharded) database endpoint, if known.
    pub system: Option<Endpoint>,
}

fn clone_endpoint(e: &Option<Endpoint>) -> (r: Option<Endpoint>)
    ensures
        r == *e,
{
    match e {
        Some(e) => Some(e.clone()),
        None => None,
    }
}

/// Inserts a placement in the order of the starts.
fn place(shards: &mut Vec<(KeyRange, ShardId)>, e: (KeyRange, ShardId))
    ensures
        final(shards)@ == old(shards)@.insert(slot_for(old(shards)@, e.0.lower()), e),
        0 <= slot_for(old(shards)@, e.0.lower()) <= old(shards)@.len(),
{
    let start: u64 = e.0.start();
    let mut i: usize = 0;
    while i < shards.len() && shards[i].0.start() <= start
        invariant
            i <= shards@.len(),
            start == e.0.lower(),
            forall|k: int| 0 <= k < i ==> (#[trigger] shards@[k]).0.lower() <= start,
        decreases shards@.len() - i,
    {
        i += 1;
    }
    proof {
        lemma_slot_for(shards@, start, i as int);
    }
    shards.insert(i, e);
}

/// Where a name stands or would stand.
fn name_slot(primaries: &Vec<(ShardId, Option<Endpoint>)>, id: &str) -> (r: usize)
    ensures
        r <= primaries@.len(),
        forall|k: int| 0 <= k < r ==> text::before((#[trigger] primaries@[k]).0@, id@),
        r < primaries@.len() ==> !text::before(primaries@[r as int].0@, id@),
{
    let mut i: usize = 0;
    while i < primaries.len() && text::is_before(primaries[i].0.0.as_str(), id)
        invariant
            i <= primaries@.len(),
            forall|k: int| 0 <= k < i ==> text::before((#[trigger] primaries@[k]).0@, id@),
        decreases primaries@.len() - i,
    {
        i += 1;
    }
    i
}

proof fn lemma_repeated(s: Seq<ShardEntry>, n: int)
    requires
        0 <= n <= s.len(),
        repeated_name(s.take(n)) is Some,
    ensures
        repeated_name(s) == repeated_name(s.take(n)),
    decreases s.len() - n,
{
    if n == s.len() {
        assert(s.take(n) =~= s);
    } else {
        assert(s.take(n + 1).drop_last() =~= s.take(n));
        lemma_repeated(s, n + 1);
    }
}

/// A list of serving shards is a prefix of a longer list's.
proof fn lemma_serving_prefix(shards: Seq<ShardEntry>, n: int)
    requires
        0 <= n <= shards.len(),
    ensures
        serving(shards.take(n)).len() <= serving(shards).len(),
        serving(shards).take(serving(shards.take(n)).len() as int) == serving(shards.take(n)),
    decreases shards.len() - n,
{
    if n == shards.len() {
        assert(shards.take(n) =~= shards);
        assert(serving(shards).take(serving(shards).len() as int) =~= serving(shards));
    } else {
        assert(shards.take(n + 1).drop_last() =~= shards.take(n));
        lemma_serving_prefix(shards, n + 1);
        let a = serving(shards.take(n));
        let b = serving(shards.take(n + 1));
        let c = serving(shards);
        assert(c.take(a.len() as int) =~= a) by {
            assert forall|k: int| 0 <= k < a.len() implies c[k] == a[k] by {
                assert(c.take(b.len() as int)[k] == b[k]);
            }
        }
    }
}

/// Whether every name comes from a shard.
spec fn named_after(primaries: Seq<(ShardId, Option<Endpoint>)>, shards: Seq<ShardEntry>) -> bool {
    forall|k: int|
        0 <= k < primaries.len() ==> exists|j: int|
            0 <= j < shards.len() && (#[trigger] primaries[k]).0@ == (#[trigger] shards[j]).name@
}

/// What is collected of a list of shards.
spec fn collected(
    placed: Seq<(KeyRange, ShardId)>,
    primaries: Seq<(ShardId, Option<Endpoint>)>,
    shards: Seq<ShardEntry>,
) -> bool {
    &&& placed == by_start(placements(shards))
    &&& names_in_order(primaries)
    &&& primaries_of(primaries, shards)
    &&& named_after(primaries, shards)
}

/// Adds one more shard, unless its name is taken.
fn add_shard(
    e: &ShardEntry,
    placed: &mut Vec<(KeyRange, ShardId)>,
    primaries: &mut Vec<(ShardId, Option<Endpoint>)>,
    Ghost(shards): Ghost<Seq<ShardEntry>>,
) -> (r: Result<(), BuildError>)
    requires
        collected(old(placed)@, old(primaries)@, shards),
    ensures
        if shard_before(shards.push(*e), shards.len() as int) {
            r matches Err(BuildError::DuplicateShard(d)) && d@ == e.name@
        } else {
            r is Ok && collected(final(placed)@, final(primaries)@, shards.push(*e))
        },
{
    let ghost next = shards.push(*e);
    let ghost key = e.name@;
    let ghost before = primaries@;
    let at: usize = name_slot(primaries, e.name.as_str());
    if at < primaries.len() && text::same(primaries[at].0.0.as_str(), e.name.as_str()) {
        proof {
            let j = choose|j: int|
                0 <= j < shards.len() && before[at as int].0@ == (#[trigger] shards[j]).name@;
            assert(next[j].name@ == key);
            assert(shard_before(next, shards.len() as int));
        }
        return Err(BuildError::DuplicateShard(e.name.clone()));
    }
    proof {
        lemma_fresh_name(before, at as int, key);
        if shard_before(next, shards.len() as int) {
            let j = choose|j: int| 0 <= j < shards.len() && (#[trigger] next[j]).name@ == key;
            assert(shards[j].name@ == key);
            let x = (ShardId(shards[j].name), shards[j].primary);
            assert(before.contains(x));
            assert(before[before.index_of(x)].0@ == key);
        }
    }
    let id = ShardId(e.name.clone());
    let primary = clone_endpoint(&e.primary);
    let ghost added = (id, primary);
    primaries.insert(at, (id, primary));
    place(placed, (e.key_range, ShardId(e.name.clone())));
    proof {
        assert(next.drop_last() =~= shards);
        assert(placements(next).drop_last() =~= placements(shards));
        lemma_primaries_step(before, primaries@, at as int, shards, next, added);
    }
    Ok(())
}

/// The serving shards: their placements in order, and their primaries; or the first name
/// that stands twice.
fn collect_shards(shards: &Vec<ShardEntry>) -> (r: Result<
    (Vec<(KeyRange, ShardId)>, Vec<(ShardId, Option<Endpoint>)>),
    BuildError,
>)
    ensures
        match repeated_name(serving(shards@)) {
            Some(n) => r matches Err(BuildError::DuplicateShard(d)) && d@ == n,
            None => {
                &&& r is Ok
                &&& r->Ok_0.0@ == by_start(placements(serving(shards@)))
                &&& names_in_order(r->Ok_0.1@)
                &&& primaries_of(r->Ok_0.1@, serving(shards@))
            },
        },
{
    let mut placed: Vec<(KeyRange, ShardId)> = Vec::new();
    let mut primaries: Vec<(ShardId, Option<Endpoint>)> = Vec::new();
    let mut i: usize = 0;
    proof {
        assert(shards@.take(0) =~= Seq::<ShardEntry>::empty());
        assert(placements(serving(shards@.take(0))) =~= Seq::<(KeyRange, ShardId)>::empty());
    }
    while i < shards.len()
        invariant
            i <= shards@.len(),
            repeated_name(serving(shards@.take(i as int))) is None,
            collected(placed@, primaries@, serving(shards@.take(i as int))),
        decreases shards@.len() - i,
    {
        let ghost now = serving(shards@.take(i as int));
        let ghost next = serving(shards@.take(i + 1));
        proof {
            assert(shards@.take(i + 1).drop_last() =~= shards@.take(i as int));
            assert(shards@.take(i + 1).last() == shards@[i as int]);
        }
        if shards[i].state == ShardState::Serving {
            proof {
                assert(next == now.push(shards@[i as int]));
                assert(next.drop_last() =~= now);
            }
            match add_shard(&shards[i], &mut placed, &mut primaries, Ghost(now)) {
                Ok(()) => {},
                Err(e) => {
                    proof {
                        lemma_serving_prefix(shards@, i + 1);
                        lemma_repeated(serving(shards@), next.len() as int);
                    }
                    return Err(e);
                },
            }
        }
        i += 1;
    }
    proof {
        assert(shards@.take(shards@.len() as int) =~= shards@);
    }
    Ok((placed, primaries))
}

/// A name that does not stand at its place stands nowhere.
proof fn lemma_fresh_name(
    p: Seq<(ShardId, Option<Endpoint>)>,
    at: int,
    id: Seq<char>,
)
    requires
        names_in_order(p),
        0 <= at <= p.len(),
        forall|k: int| 0 <= k < at ==> text::before((#[trigger] p[k]).0@, id),
        at < p.len() ==> !text::before(p[at].0@, id) && p[at].0@ != id,
    ensures
        forall|k: int| 0 <= k < p.len() ==> (#[trigger] p[k]).0@ != id,
        forall|k: int| at <= k < p.len() ==> text::before(id, (#[trigger] p[k]).0@),
{
    text::lemma_before_irreflexive(id);
    if at < p.len() {
        text::lemma_before_total(p[at].0@, id);
        assert forall|k: int| at <= k < p.len() implies text::before(id, (#[trigger] p[k]).0@) by {
            if k > at {
                assert(text::before(p[at].0@, p[k].0@));
                text::lemma_before_transitive(id, p[at].0@, p[k].0@);
            }
        }
    }
}

proof fn lemma_primaries_step(
    before: Seq<(ShardId, Option<Endpoint>)>,
    after: Seq<(ShardId, Option<Endpoint>)>,
    at: int,
    now: Seq<ShardEntry>,
    next: Seq<ShardEntry>,
    e: (ShardId, Option<Endpoint>),
)
    requires
        0 <= at <= before.len(),
        after == before.insert(at, e),
        names_in_order(before),
        forall|k: int| 0 <= k < at ==> text::before((#[trigger] before[k]).0@, e.0@),
        forall|k: int| at <= k < before.len() ==> text::before(e.0@, (#[trigger] before[k]).0@),
        primaries_of(before, now),
        next.len() == now.len() + 1,
        next.drop_last() == now,
        e == (ShardId(next.last().name), next.last().primary),
        named_after(before, now),
    ensures
        names_in_order(after),
        primaries_of(after, next),
        named_after(after, next),
{
    assert forall|i: int, j: int| 0 <= i < j < after.len() implies text::before(
        (#[trigger] after[i]).0@,
        (#[trigger] after[j]).0@,
    ) by {
        let a = if i < at {
            i
        } else {
            i - 1
        };
        let b = if j < at {
            j
        } else {
            j - 1
        };
        if i == at {
            assert(after[j] == before[b]);
        } else if j == at {
            assert(after[i] == before[a]);
        } else {
            assert(after[i] == before[a] && after[j] == before[b]);
        }
    }
    assert forall|i: int| 0 <= i < next.len() implies after.contains(
        (ShardId((#[trigger] next[i]).name), next[i].primary),
    ) by {
        if i < now.len() {
            assert(next[i] == now[i]);
            let x = (ShardId(now[i].name), now[i].primary);
            assert(before.contains(x));
            let k = before.index_of(x);
            let m = if k < at {
                k
            } else {
                k + 1
            };
            assert(after[m] == x);
        } else {
            assert(after[at] == e);
        }
    }
    assert forall|k: int| 0 <= k < after.len() implies exists|j: int|
        0 <= j < next.len() && (#[trigger] after[k]).0@ == (#[trigger] next[j]).name@ by {
        if k == at {
            assert(after[k].0@ == next[next.len() - 1].name@);
        } else {
            let a = if k < at {
                k
            } else {
                k - 1
            };
            assert(after[k] == before[a]);
            let j = choose|j: int|
                0 <= j < now.len() && before[a].0@ == (#[trigger] now[j]).name@;
            assert(next[j] == now[j]);
        }
    }
}

/// Whether an error is what a topology is refused with.
pub open spec fn build_error(topo: Topology, e: BuildError) -> bool {
    let s = serving(topo.shards@);
    if topo.gates@.len() > 0 {
        e == BuildError::Gated
    } else if exists|i: int|
        0 <= i < topo.tables@.len() && !#[trigger] entry_ok(
            topo.tables@,
            i,
            topo.hash_function@,
        ) {
        exists|i: int|
            0 <= i < topo.tables@.len() && !(#[trigger] entry_ok(
                topo.tables@,
                i,
                topo.hash_function@,
            )) && (forall|k: int|
                0 <= k < i ==> #[trigger] entry_ok(topo.tables@, k, topo.hash_function@))
                && entry_error(topo.tables@, i, topo.hash_function@, e)
    } else {
        match repeated_name(s) {
            Some(n) => e matches BuildError::DuplicateShard(d) && d@ == n,
            None => e matches BuildError::Partition(p) && catalog::partition_error(
                catalog::ranges_of(by_start(placements(s))),
                p,
            ),
        }
    }
}

/// Whether a topology builds: it holds nothing back, every table can stand in the schema, no
/// two serving shards have one name, and, put in order, they partition the keyspace.
pub open spec fn buildable(topo: Topology) -> bool {
    let s = serving(topo.shards@);
    &&& topo.gates@.len() == 0
    &&& forall|i: int|
        0 <= i < topo.tables@.len() ==> #[trigger] entry_ok(
            topo.tables@,
            i,
            topo.hash_function@,
        )
    &&& repeated_name(s) is None
    &&& keyspace::is_partition(catalog::ranges_of(by_start(placements(s))))
}

/// Whether a router is what a topology builds.
pub open spec fn built(r: Router, topo: Topology) -> bool {
    let s = serving(topo.shards@);
    &&& r.epoch == topo.epoch
    &&& r.write_lease_seconds == topo.write_lease_seconds
    &&& schema_of(r.vschema, topo.tables@, topo.hash_function@)
    &&& r.catalog.entries() == by_start(placements(s))
    &&& names_in_order(r.primaries@)
    &&& primaries_of(r.primaries@, s)
    &&& r.system == topo.sequence_endpoint
}

// ---------------------------------------------------------------------------------------
// Routes.
// ---------------------------------------------------------------------------------------

/// A concrete place to run a statement: the node to connect to and the Postgres
/// database on it. Each shard is its own database on a (possibly shared) node,
/// so the node endpoint alone is not enough to reach the shard's data.
#[derive(Debug, PartialEq, Eq)]
pub struct Target {
    pub endpoint: Endpoint,
    /// The database to connect to — the shard's name (a node hosts one database
    /// per placed shard).
    pub database: String,
}

/// Where the router should send one statement, resolved to concrete targets.
#[derive(Debug, PartialEq, Eq)]
pub enum Route {
    /// Send to this one shard database.
    Shard(Target),
    /// Fan a read out to these shard databases and merge.
    Scatter(Vec<Target>),
    /// Run on every shard database (DDL).
    Broadcast(Vec<Target>),
    /// The unsharded system database. Carries the node endpoint; the wire layer
    /// supplies the database name.
    System(Endpoint),
    /// The session layer handles it (SET/SHOW/txn/tableless).
    Local,
    /// Routing needs bind parameters; the executor finishes at Bind.
    NeedsBind(Parameterized),
    /// A targeted shard currently has no primary (failing over); the router must
    /// not guess an endpoint.
    Unavailable(String),
    /// The statement cannot be routed; return this SQLSTATE.
    Reject { code: &'static str, reason: String },
}

/// A target with its database as text.
#[verifier::ext_equal]
pub struct TargetView {
    pub endpoint: Endpoint,
    pub database: Seq<char>,
}

impl View for Target {
    type V = TargetView;

    open spec fn view(&self) -> TargetView {
        TargetView { endpoint: self.endpoint, database: self.database@ }
    }
}

pub open spec fn target_views(s: Seq<Target>) -> Seq<TargetView> {
    s.map_values(|t: Target| t@)
}

/// What a route says.
#[verifier::ext_equal]
pub enum RouteView {
    Shard(TargetView),
    Scatter(Seq<TargetView>),
    Broadcast(Seq<TargetView>),
    System(Endpoint),
    Local,
    NeedsBind(ParamView),
    Unavailable(Seq<char>),
    Reject { code: Seq<char>, reason: Seq<char> },
}

impl View for Route {
    type V = RouteView;

    open spec fn view(&self) -> RouteView {
        match self {
            Route::Shard(t) => RouteView::Shard(t@),
            Route::Scatter(ts) => RouteView::Scatter(target_views(ts@)),
            Route::Broadcast(ts) => RouteView::Broadcast(target_views(ts@)),
            Route::System(e) => RouteView::System(*e),
            Route::Local => RouteView::Local,
            Route::NeedsBind(p) => RouteView::NeedsBind(p@),
            Route::Unavailable(m) => RouteView::Unavailable(m@),
            Route::Reject { code, reason } => RouteView::Reject { code: code@, reason: reason@ },
        }
    }
}

/// The connection target of a shard (its primary node and its database), or why it cannot be
/// reached.
pub open spec fn target_of(
    primaries: Seq<(ShardId, Option<Endpoint>)>,
    id: Seq<char>,
) -> Result<TargetView, Seq<char>> {
    match primary_at(primaries, id) {
        Some(Some(e)) => Ok(TargetView { endpoint: e, database: id }),
        Some(None) => Err("shard "@ + id + " has no primary"@),
        None => Err("shard "@ + id + " is not in the topology"@),
    }
}

/// The targets of shards, or why the first that cannot be reached cannot.
pub open spec fn targets_of(
    primaries: Seq<(ShardId, Option<Endpoint>)>,
    ids: Seq<Seq<char>>,
) -> Result<Seq<TargetView>, Seq<char>>
    decreases ids.len(),
{
    if ids.len() == 0 {
        Ok(Seq::empty())
    } else {
        match targets_of(primaries, ids.drop_last()) {
            Err(f) => Err(f),
            Ok(ts) => match target_of(primaries, ids.last()) {
                Err(f) => Err(f),
                Ok(t) => Ok(ts.push(t)),
            },
        }
    }
}

/// Where a plan sends its statement.
pub open spec fn resolved(r: Router, p: PlanView) -> RouteView {
    match p {
        PlanView::SingleShard(id) => match target_of(r.primaries@, id) {
            Ok(t) => RouteView::Shard(t),
            Err(f) => RouteView::Unavailable(f),
        },
        PlanView::Scatter(ids) => match targets_of(r.primaries@, ids) {
            Ok(ts) => RouteView::Scatter(ts),
            Err(f) => RouteView::Unavailable(f),
        },
        PlanView::Broadcast(ids) => match targets_of(r.primaries@, ids) {
            Ok(ts) => RouteView::Broadcast(ts),
            Err(f) => RouteView::Unavailable(f),
        },
        PlanView::Unsharded => match r.system {
            Some(e) => RouteView::System(e),
            None => RouteView::Unavailable("system database has no endpoint"@),
        },
        PlanView::RouterLocal => RouteView::Local,
        PlanView::Parameterized(p) => RouteView::NeedsBind(p),
        PlanView::Reject { code, reason } => RouteView::Reject { code, reason },
    }
}

/// The position of the first shard with a primary, or the number of shards.
pub open spec fn first_primary(primaries: Seq<(ShardId, Option<Endpoint>)>) -> int
    decreases primaries.len(),
{
    if primaries.len() == 0 || primaries[0].1 is Some {
        0
    } else {
        1 + first_primary(primaries.drop_first())
    }
}

proof fn lemma_first_primary(primaries: Seq<(ShardId, Option<Endpoint>)>, p: int)
    requires
        0 <= p <= primaries.len(),
        p < primaries.len() ==> primaries[p].1 is Some,
        forall|k: int| 0 <= k < p ==> (#[trigger] primaries[k]).1 is None,
    ensures
        first_primary(primaries) == p,
    decreases primaries.len(),
{
    if p > 0 {
        assert(primaries[0].1 is None);
        let t = primaries.drop_first();
        assert forall|k: int| 0 <= k < p - 1 implies (#[trigger] t[k]).1 is None by {
            assert(t[k] == primaries[k + 1]);
        }
        lemma_first_primary(t, p - 1);
    }
}

proof fn lemma_targets_error(
    primaries: Seq<(ShardId, Option<Endpoint>)>,
    ids: Seq<Seq<char>>,
    n: int,
)
    requires
        0 <= n <= ids.len(),
        targets_of(primaries, ids.take(n)) is Err,
    ensures
        targets_of(primaries, ids) == targets_of(primaries, ids.take(n)),
    decreases ids.len() - n,
{
    if n == ids.len() {
        assert(ids.take(n) =~= ids);
    } else {
        assert(ids.take(n + 1).drop_last() =~= ids.take(n));
        lemma_targets_error(primaries, ids, n + 1);
    }
}

impl Router {
    /// Build a router from a compiled topology. Fails if a sharded table lacks a
    /// shard key, the hash function is unknown, or the serving shards do not
    /// partition the keyspace.
    pub fn build(topo: &Topology) -> (r: Result<Router, BuildError>)
        ensures
            r is Ok <==> buildable(*topo),
            match r {
                Ok(router) => built(router, *topo),
                Err(e) => build_error(*topo, e),
            },
    {
        if topo.gates.len() > 0 {
            return Err(BuildError::Gated);
        }
        let v = match build_vschema(&topo.tables, topo.hash_function.as_str()) {
            Ok(v) => v,
            Err(e) => {
                return Err(e);
            },
        };
        let (placed, primaries) = match collect_shards(&topo.shards) {
            Ok(x) => x,
            Err(e) => {
                return Err(e);
            },
        };
        match ShardCatalog::new(placed) {
            Ok(catalog) => Ok(
                Router {
                    epoch: topo.epoch,
                    write_lease_seconds: topo.write_lease_seconds,
                    vschema: v,
                    catalog,
                    primaries,
                    system: clone_endpoint(&topo.sequence_endpoint),
                },
            ),
            Err(e) => Err(BuildError::Partition(e)),
        }
    }

    pub fn epoch(&self) -> (r: u64)
        ensures
            r == self.epoch,
    {
        self.epoch
    }

    /// Any serving shard with a primary, as a connection [`Target`]: the first by name. Used
    /// to run tableless/session statements (`SELECT 1`, `SHOW`) that route nowhere in
    /// particular — they run correctly on any shard database.
    pub fn any_shard_target(&self) -> (r: Option<Target>)
        ensures
            ({
                let i = first_primary(self.primaries@);
                if i == self.primaries@.len() {
                    r is None
                } else {
                    r is Some && Some(r->0.endpoint) == self.primaries@[i].1 && r->0.database@
                        == self.primaries@[i].0@
                }
            }),
    {
        let mut i: usize = 0;
        while i < self.primaries.len()
            invariant
                i <= self.primaries@.len(),
                forall|k: int| 0 <= k < i ==> (#[trigger] self.primaries@[k]).1 is None,
            decreases self.primaries@.len() - i,
        {
            if let Some(e) = &self.primaries[i].1 {
                proof {
                    lemma_first_primary(self.primaries@, i as int);
                }
                return Some(
                    Target { endpoint: e.clone(), database: self.primaries[i].0.to_string() },
                );
            }
            i += 1;
        }
        proof {
            lemma_first_primary(self.primaries@, i as int);
        }
        None
    }

    /// The connection target for `id` (its primary node + its database), or a
    /// reason why it cannot be reached.
    fn target(&self, id: &ShardId) -> (r: Result<Target, String>)
        ensures
            match target_of(self.primaries@, id@) {
                Ok(t) => r is Ok && r->Ok_0@ == t,
                Err(f) => r is Err && r->Err_0@ == f,
            },
    {
        let mut i: usize = 0;
        while i < self.primaries.len() && !text::same(
            self.primaries[i].0.0.as_str(),
            id.0.as_str(),
        )
            invariant
                i <= self.primaries@.len(),
                forall|k: int| 0 <= k < i ==> (#[trigger] self.primaries@[k]).0@ != id@,
            decreases self.primaries@.len() - i,
        {
            i += 1;
        }
        proof {
            lemma_primary_at(self.primaries@, id@, i as int);
        }
        if i == self.primaries.len() {
            // The planner only names shards from this catalog, so a miss is a bug
            // rather than a routing outcome — surface it as unavailable.
            return Err(text::concat3("shard ", id.0.as_str(), " is not in the topology"));
        }
        match &self.primaries[i].1 {
            Some(e) => Ok(Target { endpoint: e.clone(), database: id.to_string() }),
            None => Err(text::concat3("shard ", id.0.as_str(), " has no primary")),
        }
    }

    fn targets(&self, ids: &Vec<ShardId>) -> (r: Result<Vec<Target>, String>)
        ensures
            match targets_of(self.primaries@, catalog::id_views(ids@)) {
                Ok(ts) => r is Ok && target_views(r->Ok_0@) == ts,
                Err(f) => r is Err && r->Err_0@ == f,
            },
    {
        let ghost names = catalog::id_views(ids@);
        let mut out: Vec<Target> = Vec::new();
        let mut i: usize = 0;
        proof {
            assert(names.take(0) =~= Seq::<Seq<char>>::empty());
            assert(target_views(out@) =~= Seq::<TargetView>::empty());
        }
        while i < ids.len()
            invariant
                i <= ids@.len(),
                names == catalog::id_views(ids@),
                targets_of(self.primaries@, names.take(i as int)) == Ok::<
                    Seq<TargetView>,
                    Seq<char>,
                >(target_views(out@)),
            decreases ids@.len() - i,
        {
            let ghost start = out@;
            proof {
                assert(names.take(i + 1).drop_last() =~= names.take(i as int));
                assert(names.take(i + 1).last() == ids@[i as int]@);
            }
            match self.target(&ids[i]) {
                Ok(t) => {
                    out.push(t);
                    proof {
                        assert(target_views(out@) =~= target_views(start).push(t@));
                    }
                },
                Err(e) => {
                    proof {
                        lemma_targets_error(self.primaries@, names, i + 1);
                    }
                    return Err(e);
                },
            }
            i += 1;
        }
        proof {
            assert(names.take(names.len() as int) =~= names);
        }
        Ok(out)
    }

    fn resolve(&self, plan: Plan) -> (r: Route)
        ensures
            r@ == resolved(*self, plan@),
    {
        match plan {
            Plan::SingleShard(id) => match self.target(&id) {
                Ok(t) => Route::Shard(t),
                Err(m) => Route::Unavailable(m),
            },
            Plan::Scatter(ids) => match self.targets(&ids) {
                Ok(ts) => Route::Scatter(ts),
                Err(m) => Route::Unavailable(m),
            },
            Plan::Broadcast(ids) => match self.targets(&ids) {
                Ok(ts) => Route::Broadcast(ts),
                Err(m) => Route::Unavailable(m),
            },
            Plan::Unsharded => match &self.system {
                Some(e) => Route::System(e.clone()),
                None => Route::Unavailable("system database has no endpoint".to_owned()),
            },
            Plan::RouterLocal => Route::Local,
            Plan::Parameterized(p) => Route::NeedsBind(p),
            Plan::Reject { code, reason } => Route::Reject { code, reason },
        }
    }

    /// Route a (possibly multi-statement) query, one [`Route`] per statement.
    pub fn route(&self, parsed: &Parsed) -> (r: Vec<Route>)
        ensures
            r@.len() == parsed.stmts@.len(),
            forall|i: int|
                0 <= i < r@.len() ==> (#[trigger] r@[i])@ == resolved(
                    *self,
                    plan::planned_at(*parsed, i, self.vschema, self.catalog),
                ),
    {
        let mut plans = plan::plan_all(parsed, &self.vschema, &self.catalog);
        let ghost all = plans@;
        let mut out: Vec<Route> = Vec::new();
        while out.len() < parsed.stmts.len()
            invariant
                out@.len() <= parsed.stmts@.len() == all.len(),
                plans@ == all.skip(out@.len() as int),
                forall|i: int|
                    0 <= i < all.len() ==> (#[trigger] all[i])@ == plan::planned_at(
                        *parsed,
                        i,
                        self.vschema,
                        self.catalog,
                    ),
                forall|i: int|
                    0 <= i < out@.len() ==> (#[trigger] out@[i])@ == resolved(
                        *self,
                        plan::planned_at(*parsed, i, self.vschema, self.catalog),
                    ),
            decreases parsed.stmts@.len() - out@.len(),
        {
            let ghost n = out@.len() as int;
            let p = plans.remove(0);
            proof {
                assert(p == all[n]);
                assert(all.skip(n).remove(0) =~= all.skip(n + 1));
            }
            let route = self.resolve(p);
            out.push(route);
        }
        out
    }
}

/// The router never guesses an endpoint: where a statement is sent to one shard, the node is
/// that shard's current primary and the database the shard's own.
pub proof fn law_targets_are_primaries(r: Router, p: PlanView, t: TargetView)
    requires
        resolved(r, p) == RouteView::Shard(t),
    ensures
        p == PlanView::SingleShard(t.database),
        primary_at(r.primaries@, t.database) == Some(Some(t.endpoint)),
{
}

/// A fan-out reaches every shard that the plan names, in its order, or none.
pub proof fn law_fan_out_is_complete(
    primaries: Seq<(ShardId, Option<Endpoint>)>,
    ids: Seq<Seq<char>>,
    i: int,
)
    requires
        targets_of(primaries, ids) is Ok,
        0 <= i < ids.len(),
    ensures
        targets_of(primaries, ids)->Ok_0.len() == ids.len(),
        targets_of(primaries, ids)->Ok_0[i].database == ids[i],
        primary_at(primaries, ids[i]) == Some(
            Some(targets_of(primaries, ids)->Ok_0[i].endpoint),
        ),
    decreases ids.len(),
{
    lemma_target_count(primaries, ids);
    lemma_target_count(primaries, ids.drop_last());
    if i < ids.len() - 1 {
        law_fan_out_is_complete(primaries, ids.drop_last(), i);
    }
}

proof fn lemma_target_count(primaries: Seq<(ShardId, Option<Endpoint>)>, ids: Seq<Seq<char>>)
    ensures
        targets_of(primaries, ids) is Ok ==> targets_of(primaries, ids)->Ok_0.len() == ids.len(),
    decreases ids.len(),
{
    if ids.len() > 0 {
        lemma_target_count(primaries, ids.drop_last());
    }
}

/// The router after a topology update: rebuilt from the update, or — where that fails to
/// build, e.g. a transient reshard state whose serving shards do not yet partition the
/// keyspace — the last good router, with what was wrong.
pub fn watch_topology(current: Arc<Router>, update: &Topology) -> (r: (
    Arc<Router>,
    Option<BuildError>,
))
    ensures
        r.1 is None <==> buildable(*update),
        match r.1 {
            None => built(*r.0, *update),
            Some(e) => build_error(*update, e) && r.0 == current,
        },
{
    match Router::build(update) {
        Ok(router) => (Arc::new(router), None),
        Err(e) => (current, Some(e)),
    }
}

// ---------------------------------------------------------------------------------------
// The write lease.
// ---------------------------------------------------------------------------------------

impl Router {
    /// Whether the view is too old to write on: it was last confirmed `age_millis` ago, and
    /// the lease has run out. A stale writer is the split-brain window
    /// the lease bounds; reads keep answering.
    pub fn lease_expired(&self, age_millis: u64) -> (r: bool)
        ensures
            r == (age_millis >= self.write_lease_seconds * 1000),
    {
        age_millis as u128 >= self.write_lease_seconds as u128 * 1000
    }

    /// Whether a validation of the source renews the lease: only when the ACTIVE router's
    /// view is re-confirmed. A source the router cannot accept must not keep the lease alive.
    pub fn renews_lease(&self, validated_epoch: u64) -> (r: bool)
        ensures
            r == (validated_epoch == self.epoch),
    {
        validated_epoch == self.epoch
    }

    /// Refuses a poll interval at or beyond the lease, which would make writes flap off
    /// between polls even when everything is healthy.
    pub fn check_poll_interval(&self, poll_seconds: u64) -> (r: Result<(), String>)
        ensures
            if poll_seconds >= self.write_lease_seconds {
                r is Err && r->Err_0@ == "poll interval ("@ + text::decimal(poll_seconds as int)
                    + "s) must be shorter than the topology's writeLeaseSeconds ("@ + text::decimal(
                    self.write_lease_seconds as int,
                )
                    + "s): a healthy router could not renew its write lease between polls"@
            } else {
                r is Ok
            },
    {
        if poll_seconds >= self.write_lease_seconds {
            return Err(
                text::concat5(
                    "poll interval (",
                    text::decimal_u64(poll_seconds).as_str(),
                    "s) must be shorter than the topology's writeLeaseSeconds (",
                    text::decimal_u64(self.write_lease_seconds).as_str(),
                    "s): a healthy router could not renew its write lease between polls",
                ),
            );
        }
        Ok(())
    }
}

/// Exactly the shards that serve take part, each as often as it is listed and in that order.
pub proof fn law_only_serving_shards_take_part(shards: Seq<ShardEntry>, e: ShardEntry)
    ensures
        serving(shards).contains(e) <==> shards.contains(e) && e.state is Serving,
        (forall|i: int| 0 <= i < shards.len() ==> (#[trigger] shards[i]).state is Serving)
            ==> serving(shards) == shards,
    decreases shards.len(),
{
    if shards.len() > 0 {
        let head = shards.drop_last();
        law_only_serving_shards_take_part(head, e);
        assert(shards == head.push(shards.last()));
        assert forall|x: ShardEntry| shards.contains(x) <==> head.contains(x) || x
            == shards.last() by {
            if head.contains(x) {
                let i = choose|i: int| 0 <= i < head.len() && head[i] == x;
                assert(shards[i] == x);
            }
            if x == shards.last() {
                assert(shards[shards.len() - 1] == x);
            }
        }
        let kept = serving(head);
        assert forall|x: ShardEntry| kept.push(shards.last()).contains(x) <==> kept.contains(x)
            || x == shards.last() by {
            if kept.contains(x) {
                let i = choose|i: int| 0 <= i < kept.len() && kept[i] == x;
                assert(kept.push(shards.last())[i] == x);
            }
            if x == shards.last() {
                assert(kept.push(shards.last())[kept.len() as int] == x);
            }
        }
        if forall|i: int| 0 <= i < shards.len() ==> (#[trigger] shards[i]).state is Serving {
            assert forall|i: int| 0 <= i < head.len() implies (#[trigger] head[i]).state
                is Serving by {
                assert(shards[i].state is Serving);
            }
        }
    }
}

/// The shards of a part of the list and of the rest serve one after the other.
pub proof fn law_serving_shards_keep_their_order(a: Seq<ShardEntry>, b: Seq<ShardEntry>)
    ensures
        serving(a + b) == serving(a) + serving(b),
    decreases b.len(),
{
    if b.len() == 0 {
        assert(a + b =~= a);
    } else {
        law_serving_shards_keep_their_order(a, b.drop_last());
        assert((a + b).drop_last() =~= a + b.drop_last());
    }
}

/// A serving shard keeps its name and its key range in the catalog.
pub proof fn law_placements_are_the_shards(s: Seq<ShardEntry>, i: int)
    requires
        0 <= i < s.len(),
    ensures
        placements(s).len() == s.len(),
        placements(s)[i].0 == s[i].key_range,
        placements(s)[i].1@ == s[i].name@,
{
}

/// A name is repeated exactly where two of the shards have it.
pub proof fn law_repeated_names_are_shared(s: Seq<ShardEntry>)
    ensures
        repeated_name(s) is Some <==> exists|i: int, j: int|
            0 <= i < j < s.len() && (#[trigger] s[i]).name@ == (#[trigger] s[j]).name@,
        repeated_name(s) is Some ==> exists|i: int, j: int|
            0 <= i < j < s.len() && (#[trigger] s[i]).name@ == repeated_name(s)->0 && (
            #[trigger] s[j]).name@ == repeated_name(s)->0,
    decreases s.len(),
{
    if s.len() > 0 {
        let head = s.drop_last();
        law_repeated_names_are_shared(head);
        assert(forall|i: int| 0 <= i < head.len() ==> head[i] == s[i]);
        if repeated_name(head) is Some {
            let (i, j) = choose|i: int, j: int|
                0 <= i < j < head.len() && (#[trigger] head[i]).name@ == repeated_name(head)->0
                    && (#[trigger] head[j]).name@ == repeated_name(head)->0;
            assert(s[i].name@ == s[j].name@);
        } else if shard_before(s, s.len() - 1) {
            let i = choose|i: int|
                0 <= i < s.len() - 1 && (#[trigger] s[i]).name@ == s[s.len() - 1].name@;
            assert(s[i].name@ == s[s.len() - 1].name@);
        } else {
            assert forall|i: int, j: int| 0 <= i < j < s.len() implies (#[trigger] s[i]).name@ != (
            #[trigger] s[j]).name@ by {
                if j < head.len() {
                    assert(head[i].name@ != head[j].name@);
                }
            }
        }
    }
}

/// A shard's primary is the one that is listed under its name first; a name that is not
/// listed has none.
pub proof fn law_primaries_are_found_by_name(
    primaries: Seq<(ShardId, Option<Endpoint>)>,
    id: Seq<char>,
    k: int,
)
    ensures
        primary_at(primaries, id) is None <==> forall|i: int|
            0 <= i < primaries.len() ==> (#[trigger] primaries[i]).0@ != id,
        0 <= k < primaries.len() && primaries[k].0@ == id && (forall|i: int|
            0 <= i < k ==> (#[trigger] primaries[i]).0@ != id) ==> primary_at(primaries, id)
            == Some(primaries[k].1),
    decreases primaries.len(),
{
    if primaries.len() > 0 {
        let rest = primaries.drop_first();
        law_primaries_are_found_by_name(rest, id, k - 1);
        assert(forall|i: int| 0 <= i < rest.len() ==> rest[i] == primaries[i + 1]);
        if primaries[0].0@ != id {
            assert((forall|i: int| 0 <= i < primaries.len() ==> (#[trigger] primaries[i]).0@ != id)
                <==> (forall|i: int| 0 <= i < rest.len() ==> (#[trigger] rest[i]).0@ != id)) by {
                if forall|i: int| 0 <= i < rest.len() ==> (#[trigger] rest[i]).0@ != id {
                    assert forall|i: int| 0 <= i < primaries.len() implies (
                    #[trigger] primaries[i]).0@ != id by {
                        if i > 0 {
                            assert(rest[i - 1] == primaries[i]);
                        }
                    }
                }
            }
            if 0 < k < primaries.len() && primaries[k].0@ == id && (forall|i: int|
                0 <= i < k ==> (#[trigger] primaries[i]).0@ != id) {
                assert(rest[k - 1] == primaries[k]);
                assert forall|i: int| 0 <= i < k - 1 implies (#[trigger] rest[i]).0@ != id by {
                    assert(primaries[i + 1].0@ != id);
                }
            }
        }
    }
}

/// A statement is sent to a shard whenever the shard has a primary, and is unavailable
/// otherwise; a fan-out is sent whenever every one of its shards has one.
pub proof fn law_shards_with_a_primary_are_reached(
    r: Router,
    id: Seq<char>,
    ids: Seq<Seq<char>>,
)
    ensures
        resolved(r, PlanView::SingleShard(id)) is Shard || resolved(
            r,
            PlanView::SingleShard(id),
        ) is Unavailable,
        resolved(r, PlanView::SingleShard(id)) is Shard <==> (primary_at(r.primaries@, id)
            matches Some(Some(_))),
        resolved(r, PlanView::Scatter(ids)) is Scatter || resolved(r, PlanView::Scatter(ids))
            is Unavailable,
        resolved(r, PlanView::Scatter(ids)) is Scatter <==> forall|i: int|
            0 <= i < ids.len() ==> (primary_at(r.primaries@, #[trigger] ids[i]) matches Some(
                Some(_),
            )),
        resolved(r, PlanView::Broadcast(ids)) is Broadcast <==> resolved(
            r,
            PlanView::Scatter(ids),
        ) is Scatter,
        resolved(r, PlanView::Broadcast(ids)) is Broadcast ==> resolved(
            r,
            PlanView::Broadcast(ids),
        )->Broadcast_0 == resolved(r, PlanView::Scatter(ids))->Scatter_0,
{
    lemma_all_reached(r.primaries@, ids);
}

proof fn lemma_all_reached(primaries: Seq<(ShardId, Option<Endpoint>)>, ids: Seq<Seq<char>>)
    ensures
        targets_of(primaries, ids) is Ok <==> forall|i: int|
            0 <= i < ids.len() ==> (primary_at(primaries, #[trigger] ids[i]) matches Some(
                Some(_),
            )),
    decreases ids.len(),
{
    if ids.len() > 0 {
        let head = ids.drop_last();
        lemma_all_reached(primaries, head);
        assert(forall|i: int| 0 <= i < head.len() ==> head[i] == ids[i]);
        assert(ids[ids.len() - 1] == ids.last());
        if targets_of(primaries, ids) is Ok {
            assert forall|i: int| 0 <= i < ids.len() implies (primary_at(
                primaries,
                #[trigger] ids[i],
            ) matches Some(Some(_))) by {
                if i < head.len() {
                    assert(primary_at(primaries, head[i]) matches Some(Some(_)));
                }
            }
        }
    }
}

/// What is not sharded runs in the system database, what needs no data in the router, and a
/// refusal keeps its code and its reason.
pub proof fn law_plans_lead_where_they_say(
    r: Router,
    p: ParamView,
    code: Seq<char>,
    reason: Seq<char>,
)
    ensures
        r.system is Some ==> resolved(r, PlanView::Unsharded) == RouteView::System(r.system->0),
        r.system is None ==> resolved(r, PlanView::Unsharded) is Unavailable,
        resolved(r, PlanView::RouterLocal) is Local,
        resolved(r, PlanView::Parameterized(p)) == RouteView::NeedsBind(p),
        resolved(r, PlanView::Reject { code, reason }) == (RouteView::Reject { code, reason }),
{
}

/// The first shard with a primary is found where there is one.
pub proof fn law_the_first_primary_is_found(primaries: Seq<(ShardId, Option<Endpoint>)>, i: int)
    ensures
        0 <= first_primary(primaries) <= primaries.len(),
        first_primary(primaries) < primaries.len() ==> primaries[first_primary(primaries)].1
            is Some,
        0 <= i < first_primary(primaries) ==> primaries[i].1 is None,
    decreases primaries.len(),
{
    if primaries.len() > 0 && primaries[0].1 is None {
        law_the_first_primary_is_found(primaries.drop_first(), i - 1);
    }
}

/// A topology is built on only while nothing in it is gated, no two serving shards have one
/// name, every table has a schema and a name of its own, and every sharded one a key.
pub proof fn law_only_sound_topologies_are_built(topo: Topology, i: int, j: int)
    requires
        buildable(topo),
        0 <= i < topo.tables@.len(),
        0 <= j < i,
    ensures
        topo.gates@.len() == 0,
        repeated_name(serving(topo.shards@)) is None,
        topo.tables@[i].schema@.len() > 0,
        topo.tables@[i].name@.len() > 0,
        topo.tables@[i].schema@ != topo.tables@[j].schema@ || topo.tables@[i].name@
            != topo.tables@[j].name@,
        topo.tables@[i].table_type is Sharded ==> topo.tables@[i].shard_key_column is Some
            && topo.tables@[i].shard_key_column->0@.len() > 0 && topo.hash_function@
            == "xxhash64_v1"@,
{
    assert(entry_ok(topo.tables@, i, topo.hash_function@));
}

/// A built router keeps the topology's epoch, lease and system database, and every serving
/// shard's name, range and primary.
pub proof fn law_routers_keep_their_topology(r: Router, topo: Topology, i: int)
    requires
        built(r, topo),
        0 <= i < topo.shards@.len(),
        topo.shards@[i].state is Serving,
    ensures
        r.epoch == topo.epoch,
        r.write_lease_seconds == topo.write_lease_seconds,
        r.system == topo.sequence_endpoint,
        r.primaries@.contains((ShardId(topo.shards@[i].name), topo.shards@[i].primary)),
        r.catalog.entries().contains((topo.shards@[i].key_range, ShardId(topo.shards@[i].name))),
{
    let e = topo.shards@[i];
    let s = serving(topo.shards@);
    law_only_serving_shards_take_part(topo.shards@, e);
    let k = choose|k: int| 0 <= k < s.len() && s[k] == e;
    assert(r.primaries@.contains((ShardId(s[k].name), s[k].primary)));
    assert(placements(s)[k] == (e.key_range, ShardId(e.name)));
    lemma_by_start_keeps(placements(s), placements(s)[k]);
}

proof fn lemma_by_start_keeps(s: Seq<(KeyRange, ShardId)>, x: (KeyRange, ShardId))
    requires
        s.contains(x),
    ensures
        by_start(s).contains(x),
    decreases s.len(),
{
    let head = s.drop_last();
    let sorted = by_start(head);
    let at = slot_for(sorted, s.last().0.lower());
    lemma_slot_bound(sorted, s.last().0.lower());
    let all = sorted.insert(at, s.last());
    let k = choose|k: int| 0 <= k < s.len() && s[k] == x;
    if k == s.len() - 1 {
        assert(all[at] == x);
    } else {
        assert(head[k] == x);
        lemma_by_start_keeps(head, x);
        let m = choose|m: int| 0 <= m < sorted.len() && sorted[m] == x;
        if m < at {
            assert(all[m] == x);
        } else {
            assert(all[m + 1] == x);
        }
    }
}

proof fn lemma_slot_bound(s: Seq<(KeyRange, ShardId)>, start: u64)
    ensures
        0 <= slot_for(s, start) <= s.len(),
    decreases s.len(),
{
    if s.len() > 0 {
        lemma_slot_bound(s.drop_first(), start);
    }
}

} // verus!
