//! Seeding workflows: what the operator may ask for, and which workers may run.
//!
//! The worker runs on the TARGET agent and pulls from the source. Because seeding TRUNCATES
//! target tables, a spec is validated into a [`RunPlan`] up front, every destructive step is
//! behind a preflight ([`crate::preflight`]), and the registry admits only one running
//! workflow per target database.
use crate::client::{self, Config};
use crate::keyspace::{self, KeyRange};
use crate::proto::v1::{self, Filter, TableMapping, WorkflowPhase, WorkflowSpec};
use crate::shardfn::{self, ScalarType};
use crate::text;
use vstd::prelude::*;
use vstd::string::*;
use vstd::utf8::*;

verus! {

/// The source credentials: this agent's
/// replication user. They come from agent configuration, never the wire.
#[derive(Debug, Clone, PartialEq, Eq)]
pub struct WorkflowConfig {
    pub source_user: String,
    pub source_password: String,
}

/// One table's resolved seeding parameters.
#[derive(Debug, PartialEq, Eq)]
pub struct TablePlan {
    pub schema: String,
    pub name: String,
    pub shard_key_column: String,
    pub shard_key_type: ScalarType,
}

/// The validated, owned form of a WorkflowSpec the runner executes.
#[derive(Debug, PartialEq, Eq)]
pub struct RunPlan {
    pub id: String,
    pub source: Config,
    pub slot: String,
    pub publication: String,
    pub target_database: String,
    pub expect_provenance: String,
    pub tables: Vec<TablePlan>,
    pub range: KeyRange,
    pub hash_function: String,
}

#[derive(Debug, PartialEq, Eq)]
pub enum WorkflowError {
    Invalid(String),
    Conflict(String),
    TargetBusy(String, String),
    Stopping(String),
    Unimplemented(&'static str, String),
}

/// An error as text.
#[verifier::ext_equal]
pub enum WorkflowFault {
    Invalid(Seq<char>),
    Conflict(Seq<char>),
    TargetBusy(Seq<char>, Seq<char>),
    Stopping(Seq<char>),
    Unimplemented(Seq<char>, Seq<char>),
}

impl View for WorkflowError {
    type V = WorkflowFault;

    open spec fn view(&self) -> WorkflowFault {
        match self {
            WorkflowError::Invalid(m) => WorkflowFault::Invalid(m@),
            WorkflowError::Conflict(id) => WorkflowFault::Conflict(id@),
            WorkflowError::TargetBusy(id, db) => WorkflowFault::TargetBusy(id@, db@),
            WorkflowError::Stopping(id) => WorkflowFault::Stopping(id@),
            WorkflowError::Unimplemented(what, m) => WorkflowFault::Unimplemented(what@, m@),
        }
    }
}

/// What an error says.
pub open spec fn fault_text(e: WorkflowFault) -> Seq<char> {
    match e {
        WorkflowFault::Invalid(m) => "invalid workflow spec: "@ + m,
        WorkflowFault::Conflict(id) => "workflow "@ + id
            + " is already running with a different spec"@,
        WorkflowFault::TargetBusy(id, db) => "workflow "@ + id
            + " is already seeding target database "@ + db,
        WorkflowFault::Stopping(id) => "workflow "@ + id
            + " is stopping; retry once it has terminated"@,
        WorkflowFault::Unimplemented(what, m) => what + " is not implemented in M1: "@ + m,
    }
}

impl WorkflowError {
    pub fn to_string(&self) -> (r: String)
        ensures
            r@ == fault_text(self@),
    {
        match self {
            WorkflowError::Invalid(m) => text::concat2("invalid workflow spec: ", m.as_str()),
            WorkflowError::Conflict(id) => text::concat3(
                "workflow ",
                id.as_str(),
                " is already running with a different spec",
            ),
            WorkflowError::TargetBusy(id, db) => text::concat4(
                "workflow ",
                id.as_str(),
                " is already seeding target database ",
                db.as_str(),
            ),
            WorkflowError::Stopping(id) => text::concat3(
                "workflow ",
                id.as_str(),
                " is stopping; retry once it has terminated",
            ),
            WorkflowError::Unimplemented(what, m) => text::concat3(
                what,
                " is not implemented in M1: ",
                m.as_str(),
            ),
        }
    }
}

// ---------------------------------------------------------------------------------------
// Plans.
// ---------------------------------------------------------------------------------------

/// The column type that a name on the wire stands for.
pub open spec fn wire_type(wire: Seq<char>) -> Option<ScalarType> {
    if wire == "int"@ {
        Some(ScalarType::Int)
    } else if wire == "text"@ {
        Some(ScalarType::Text)
    } else if wire == "uuid"@ {
        Some(ScalarType::Uuid)
    } else if wire == "bytea"@ {
        Some(ScalarType::Bytea)
    } else {
        None
    }
}

pub open spec fn unknown_type(wire: Seq<char>) -> WorkflowFault {
    WorkflowFault::Invalid(
        "unknown shard key type "@ + text::debug_text(wire) + " (expected int|text|uuid|bytea)"@,
    )
}

pub fn scalar_type(wire: &str) -> (r: Result<ScalarType, WorkflowError>)
    ensures
        match wire_type(wire@) {
            Some(t) => r == Ok::<ScalarType, WorkflowError>(t),
            None => r is Err && r->Err_0@ == unknown_type(wire@),
        },
{
    if text::same(wire, "int") {
        Ok(ScalarType::Int)
    } else if text::same(wire, "text") {
        Ok(ScalarType::Text)
    } else if text::same(wire, "uuid") {
        Ok(ScalarType::Uuid)
    } else if text::same(wire, "bytea") {
        Ok(ScalarType::Bytea)
    } else {
        Err(
            WorkflowError::Invalid(
                text::concat3(
                    "unknown shard key type ",
                    text::debug_string(wire).as_str(),
                    " (expected int|text|uuid|bytea)",
                ),
            ),
        )
    }
}

/// A table's name, as messages have it.
pub open spec fn dotted(schema: Seq<char>, name: Seq<char>) -> Seq<char> {
    schema + "."@ + name
}

/// Whether two mappings are of one source table.
pub open spec fn same_source(a: TableMapping, b: TableMapping) -> bool {
    match (a.source, b.source) {
        (Some(x), Some(y)) => x.schema@ == y.schema@ && x.name@ == y.name@,
        _ => false,
    }
}

/// Whether mapping `i` repeats one before it.
pub open spec fn mapped_before(tables: Seq<TableMapping>, i: int) -> bool {
    exists|j: int| 0 <= j < i && same_source(#[trigger] tables[j], tables[i])
}

/// The first mapping from `i` on that repeats one before it, as a fault. Duplicate mappings
/// would seed under the LAST one (each truncates) but
/// stream under the FIRST — two filters for one table.
pub open spec fn duplicate_fault(tables: Seq<TableMapping>, i: int) -> Option<WorkflowFault>
    decreases tables.len() - i,
{
    if i < 0 || i >= tables.len() {
        None
    } else if mapped_before(tables, i) {
        let t = tables[i].source->0;
        Some(WorkflowFault::Invalid("table "@ + dotted(t.schema@, t.name@) + " is mapped twice"@))
    } else {
        duplicate_fault(tables, i + 1)
    }
}

/// What is wrong with one mapping.
pub open spec fn mapping_fault(m: TableMapping) -> Option<WorkflowFault> {
    if m.source is None || m.source->0.schema@.len() == 0 || m.source->0.name@.len() == 0 {
        Some(WorkflowFault::Invalid("table source schema/name required"@))
    } else {
        let src = m.source->0;
        let table = dotted(src.schema@, src.name@);
        if m.target is Some && (m.target->0.schema@ != src.schema@ || m.target->0.name@
            != src.name@) && !(m.target->0.schema@.len() == 0 && m.target->0.name@.len() == 0) {
            Some(
                WorkflowFault::Unimplemented("table renaming"@, table + " must map to itself"@),
            )
        } else if m.column_map@.len() > 0 {
            Some(WorkflowFault::Unimplemented("column mapping"@, table))
        } else if m.shard_key_column@.len() == 0 {
            Some(WorkflowFault::Invalid("table "@ + table + " has no shard key column"@))
        } else if wire_type(m.shard_key_type@) is None {
            Some(unknown_type(m.shard_key_type@))
        } else {
            None
        }
    }
}

/// What is wrong with the first faulty mapping.
pub open spec fn mappings_fault(tables: Seq<TableMapping>) -> Option<WorkflowFault>
    decreases tables.len(),
{
    if tables.len() == 0 {
        None
    } else if mappings_fault(tables.drop_last()) is Some {
        mappings_fault(tables.drop_last())
    } else {
        mapping_fault(tables.last())
    }
}

/// What is wrong with a filter.
pub open spec fn filter_fault(filter: Option<v1::RowFilter>) -> Option<WorkflowFault> {
    match filter {
        Some(f) => match f.filter {
            Some(Filter::All(true)) => None,
            Some(Filter::KeyRange(kr)) => match kr.range {
                None => Some(WorkflowFault::Invalid("key_range.range is required"@)),
                Some(raw) => if raw.end is Some && raw.start >= raw.end->0 {
                    Some(
                        WorkflowFault::Invalid(
                            keyspace::range_fault_text(
                                keyspace::KeyRangeError::Empty {
                                    start: raw.start,
                                    end: raw.end->0,
                                },
                            ),
                        ),
                    )
                } else if kr.hash_function@ != "xxhash64_v1"@ {
                    Some(
                        WorkflowFault::Invalid(
                            "unknown hash function "@ + text::debug_text(kr.hash_function@),
                        ),
                    )
                } else {
                    None
                },
            },
            _ => Some(WorkflowFault::Invalid("filter must be set (all, or a key range)"@)),
        },
        None => Some(WorkflowFault::Invalid("filter must be set (all, or a key range)"@)),
    }
}

/// Whether the source is named in full.
pub open spec fn source_given(e: Option<v1::PgEndpoint>) -> bool {
    e is Some && e->0.host@.len() > 0 && e->0.port != 0 && e->0.database@.len() > 0
}

/// Whether a text begins with another.
pub open spec fn begins_with(s: Seq<char>, p: Seq<char>) -> bool {
    p.len() <= s.len() && s.take(p.len() as int) == p
}

/// What is wrong with a spec: the first of these.
pub open spec fn plan_fault(spec_: WorkflowSpec) -> Option<WorkflowFault> {
    if spec_.id@.len() == 0 {
        Some(WorkflowFault::Invalid("id is required"@))
    } else if spec_.kind != v1::WorkflowKind::Reshard.wire() {
        Some(
            WorkflowFault::Invalid(
                "workflow kind "@ + text::decimal(spec_.kind as int)
                    + " is not runnable here (only WORKFLOW_KIND_RESHARD)"@,
            ),
        )
    } else if !client::safe_ident(spec_.slot@) {
        Some(
            WorkflowFault::Invalid(
                "slot "@ + text::debug_text(spec_.slot@) + " is not a safe identifier"@,
            ),
        )
    } else if !begins_with(spec_.slot@, "pgshard_"@) {
        Some(
            WorkflowFault::Invalid(
                "slot "@ + text::debug_text(spec_.slot@)
                    + " must carry the pgshard_ prefix (INIT drops a stale slot by name)"@,
            ),
        )
    } else if !client::safe_ident(spec_.publication@) {
        Some(
            WorkflowFault::Invalid(
                "publication "@ + text::debug_text(spec_.publication@)
                    + " is not a safe identifier"@,
            ),
        )
    } else if spec_.target_database@.len() == 0 || encode_utf8(spec_.target_database@).len() > 63 {
        Some(WorkflowFault::Invalid("target_database is required (and at most 63 bytes)"@))
    } else if spec_.expect_provenance@.len() == 0 {
        Some(
            WorkflowFault::Invalid(
                "expect_provenance is required: seeding truncates the target, so the target database's provenance marker must be verified first"@,
            ),
        )
    } else if !source_given(spec_.source_primary) {
        Some(WorkflowFault::Invalid("source_primary host/port/database are required"@))
    } else if spec_.source_primary->0.port > 65535 {
        Some(
            WorkflowFault::Invalid(
                "source_primary port "@ + text::decimal(spec_.source_primary->0.port as int)
                    + " is out of range"@,
            ),
        )
    } else if spec_.source_policy != v1::SourcePolicy::Primary.wire() && spec_.source_policy
        != v1::SourcePolicy::Unspecified.wire() {
        Some(
            WorkflowFault::Unimplemented(
                "source policy"@,
                "standby sourcing lands with anchor slots; use SOURCE_POLICY_PRIMARY"@,
            ),
        )
    } else if spec_.tables@.len() == 0 {
        Some(WorkflowFault::Invalid("at least one table mapping is required"@))
    } else if duplicate_fault(spec_.tables@, 0) is Some {
        duplicate_fault(spec_.tables@, 0)
    } else if filter_fault(spec_.filter) is Some {
        filter_fault(spec_.filter)
    } else {
        mappings_fault(spec_.tables@)
    }
}

/// Whether a table plan is what a mapping asks for.
pub open spec fn plans_table(t: TablePlan, m: TableMapping) -> bool {
    &&& m.source is Some
    &&& t.schema@ == m.source->0.schema@
    &&& t.name@ == m.source->0.name@
    &&& t.shard_key_column@ == m.shard_key_column@
    &&& wire_type(m.shard_key_type@) == Some(t.shard_key_type)
}

/// Whether a range is what a filter asks for.
pub open spec fn plans_range(range: KeyRange, filter: Option<v1::RowFilter>) -> bool {
    match filter {
        Some(f) => match f.filter {
            Some(Filter::All(true)) => range.lower() == 0 && range.upper() is None,
            Some(Filter::KeyRange(kr)) => kr.range is Some && range.lower() == kr.range->0.start
                && range.upper() == kr.range->0.end,
            _ => false,
        },
        None => false,
    }
}

/// Whether a plan is what a spec asks for.
pub open spec fn plans(run: RunPlan, spec_: WorkflowSpec, config: WorkflowConfig) -> bool {
    &&& run.id@ == spec_.id@
    &&& spec_.source_primary is Some
    &&& run.source.host@ == spec_.source_primary->0.host@
    &&& run.source.port == spec_.source_primary->0.port
    &&& run.source.database@ == spec_.source_primary->0.database@
    &&& run.source.user@ == config.source_user@
    &&& run.source.password@ == config.source_password@
    &&& run.slot@ == spec_.slot@
    &&& run.publication@ == spec_.publication@
    &&& run.target_database@ == spec_.target_database@
    &&& run.expect_provenance@ == spec_.expect_provenance@
    &&& run.tables@.len() == spec_.tables@.len()
    &&& forall|i: int|
        0 <= i < run.tables@.len() ==> plans_table(#[trigger] run.tables@[i], spec_.tables@[i])
    &&& plans_range(run.range, spec_.filter)
    &&& run.hash_function@ == "xxhash64_v1"@
}

fn starts_with(s: &str, p: &str) -> (r: bool)
    ensures
        r == begins_with(s@, p@),
{
    let a = text::chars(s);
    let b = text::chars(p);
    if b.len() > a.len() {
        return false;
    }
    let head = text::slice_chars(&a, 0, b.len());
    let h = text::from_chars(head.as_slice());
    let q = text::from_chars(b.as_slice());
    proof {
        assert(a@.subrange(0, b@.len() as int) =~= s@.take(p@.len() as int));
    }
    text::same(h.as_str(), q.as_str())
}

fn maps_same(a: &TableMapping, b: &TableMapping) -> (r: bool)
    ensures
        r == same_source(*a, *b),
{
    match (&a.source, &b.source) {
        (Some(x), Some(y)) => text::same(x.schema.as_str(), y.schema.as_str()) && text::same(
            x.name.as_str(),
            y.name.as_str(),
        ),
        _ => false,
    }
}

fn check_duplicates(tables: &Vec<TableMapping>) -> (r: Result<(), WorkflowError>)
    ensures
        match duplicate_fault(tables@, 0) {
            Some(f) => r is Err && r->Err_0@ == f,
            None => r is Ok,
        },
{
    let mut i: usize = 0;
    while i < tables.len()
        invariant
            i <= tables@.len(),
            duplicate_fault(tables@, 0) == duplicate_fault(tables@, i as int),
        decreases tables@.len() - i,
    {
        let mut j: usize = 0;
        while j < i
            invariant
                j <= i < tables@.len(),
                duplicate_fault(tables@, 0) == duplicate_fault(tables@, i as int),
                forall|k: int|
                    0 <= k < j ==> !same_source(#[trigger] tables@[k], tables@[i as int]),
            decreases i - j,
        {
            if maps_same(&tables[j], &tables[i]) {
                assert(mapped_before(tables@, i as int));
                match &tables[i].source {
                    Some(t) => {
                        return Err(
                            WorkflowError::Invalid(
                                text::concat3(
                                    "table ",
                                    text::concat3(t.schema.as_str(), ".", t.name.as_str()).as_str(),
                                    " is mapped twice",
                                ),
                            ),
                        );
                    },
                    None => {},
                }
            }
            j += 1;
        }
        assert(!mapped_before(tables@, i as int));
        i += 1;
    }
    Ok(())
}

fn plan_table(m: &TableMapping) -> (r: Result<TablePlan, WorkflowError>)
    ensures
        match mapping_fault(*m) {
            Some(f) => r is Err && r->Err_0@ == f,
            None => r is Ok && plans_table(r->Ok_0, *m),
        },
{
    let src = match &m.source {
        Some(t) => {
            if t.schema.as_str().is_empty() || t.name.as_str().is_empty() {
                return Err(
                    WorkflowError::Invalid("table source schema/name required".to_owned()),
                );
            }
            t
        },
        None => {
            return Err(WorkflowError::Invalid("table source schema/name required".to_owned()));
        },
    };
    let table = text::concat3(src.schema.as_str(), ".", src.name.as_str());
    match &m.target {
        Some(t) => {
            let renamed = !text::same(t.schema.as_str(), src.schema.as_str()) || !text::same(
                t.name.as_str(),
                src.name.as_str(),
            );
            let unset = t.schema.as_str().is_empty() && t.name.as_str().is_empty();
            if renamed && !unset {
                return Err(
                    WorkflowError::Unimplemented(
                        "table renaming",
                        text::concat2(table.as_str(), " must map to itself"),
                    ),
                );
            }
        },
        None => {},
    }
    if m.column_map.len() > 0 {
        return Err(WorkflowError::Unimplemented("column mapping", table));
    }
    if m.shard_key_column.as_str().is_empty() {
        return Err(
            WorkflowError::Invalid(
                text::concat3("table ", table.as_str(), " has no shard key column"),
            ),
        );
    }
    match scalar_type(m.shard_key_type.as_str()) {
        Ok(ty) => Ok(
            TablePlan {
                schema: src.schema.clone(),
                name: src.name.clone(),
                shard_key_column: m.shard_key_column.clone(),
                shard_key_type: ty,
            },
        ),
        Err(e) => Err(e),
    }
}

proof fn lemma_mappings_fault(tables: Seq<TableMapping>, n: int)
    requires
        0 <= n <= tables.len(),
        mappings_fault(tables.take(n)) is Some,
    ensures
        mappings_fault(tables) == mappings_fault(tables.take(n)),
    decreases tables.len() - n,
{
    if n == tables.len() {
        assert(tables.take(n) =~= tables);
    } else {
        assert(tables.take(n + 1).drop_last() =~= tables.take(n));
        lemma_mappings_fault(tables, n + 1);
    }
}

fn plan_tables(tables: &Vec<TableMapping>) -> (r: Result<Vec<TablePlan>, WorkflowError>)
    ensures
        match mappings_fault(tables@) {
            Some(f) => r is Err && r->Err_0@ == f,
            None => r is Ok && r->Ok_0@.len() == tables@.len() && forall|i: int|
                0 <= i < tables@.len() ==> plans_table(#[trigger] r->Ok_0@[i], tables@[i]),
        },
{
    let mut out: Vec<TablePlan> = Vec::new();
    let mut i: usize = 0;
    while i < tables.len()
        invariant
            i <= tables@.len(),
            mappings_fault(tables@.take(i as int)) is None,
            out@.len() == i,
            forall|k: int| 0 <= k < i ==> plans_table(#[trigger] out@[k], tables@[k]),
        decreases tables@.len() - i,
    {
        proof {
            assert(tables@.take(i + 1).drop_last() =~= tables@.take(i as int));
        }
        match plan_table(&tables[i]) {
            Ok(t) => out.push(t),
            Err(e) => {
                proof {
                    lemma_mappings_fault(tables@, i + 1);
                }
                return Err(e);
            },
        }
        i += 1;
    }
    proof {
        assert(tables@.take(tables@.len() as int) =~= tables@);
    }
    Ok(out)
}

fn plan_range(filter: &Option<v1::RowFilter>) -> (r: Result<KeyRange, WorkflowError>)
    ensures
        match filter_fault(*filter) {
            Some(f) => r is Err && r->Err_0@ == f,
            None => r is Ok && plans_range(r->Ok_0, *filter),
        },
{
    match filter {
        Some(f) => match &f.filter {
            Some(Filter::All(all)) => {
                if *all {
                    return Ok(KeyRange::FULL());
                }
            },
            Some(Filter::KeyRange(kr)) => {
                let raw = match &kr.range {
                    Some(raw) => raw,
                    None => {
                        return Err(
                            WorkflowError::Invalid("key_range.range is required".to_owned()),
                        );
                    },
                };
                let range = match KeyRange::new(raw.start, raw.end) {
                    Ok(range) => range,
                    Err(e) => {
                        return Err(WorkflowError::Invalid(e.to_string()));
                    },
                };
                if shardfn::shard_function(kr.hash_function.as_str()).is_err() {
                    return Err(
                        WorkflowError::Invalid(
                            text::concat2(
                                "unknown hash function ",
                                text::debug_string(kr.hash_function.as_str()).as_str(),
                            ),
                        ),
                    );
                }
                return Ok(range);
            },
            None => {},
        },
        None => {},
    }
    Err(WorkflowError::Invalid("filter must be set (all, or a key range)".to_owned()))
}

/// Validate a spec into the owned plan the runner executes. Everything a
/// worker would only discover mid-run is rejected up front, loudly.
pub fn plan(spec_: &WorkflowSpec, config: &WorkflowConfig) -> (r: Result<RunPlan, WorkflowError>)
    ensures
        match plan_fault(*spec_) {
            Some(f) => r is Err && r->Err_0@ == f,
            None => r is Ok && plans(r->Ok_0, *spec_, *config),
        },
{
    if spec_.id.as_str().is_empty() {
        return Err(WorkflowError::Invalid("id is required".to_owned()));
    }
    // Only the reshard runner exists; UNSPECIFIED or DDL_SHADOW must not fall
    // through into a destructive re-seed.
    if spec_.kind != v1::WorkflowKind::Reshard.number() {
        return Err(
            WorkflowError::Invalid(
                text::concat3(
                    "workflow kind ",
                    text::decimal_i64(spec_.kind as i64).as_str(),
                    " is not runnable here (only WORKFLOW_KIND_RESHARD)",
                ),
            ),
        );
    }
    if !client::is_safe_ident(spec_.slot.as_str()) {
        return Err(
            WorkflowError::Invalid(
                text::concat3(
                    "slot ",
                    text::debug_string(spec_.slot.as_str()).as_str(),
                    " is not a safe identifier",
                ),
            ),
        );
    }
    // The pgshard_ prefix reserves a slot namespace: INIT drops an inactive
    // slot by this name, and it must never be able to name another system's
    // slot (a legitimately disconnected consumer is also "inactive").
    if !starts_with(spec_.slot.as_str(), "pgshard_") {
        return Err(
            WorkflowError::Invalid(
                text::concat3(
                    "slot ",
                    text::debug_string(spec_.slot.as_str()).as_str(),
                    " must carry the pgshard_ prefix (INIT drops a stale slot by name)",
                ),
            ),
        );
    }
    if !client::is_safe_ident(spec_.publication.as_str()) {
        return Err(
            WorkflowError::Invalid(
                text::concat3(
                    "publication ",
                    text::debug_string(spec_.publication.as_str()).as_str(),
                    " is not a safe identifier",
                ),
            ),
        );
    }
    if spec_.target_database.as_str().is_empty() || spec_.target_database.as_str().as_bytes().len()
        > 63 {
        return Err(
            WorkflowError::Invalid(
                "target_database is required (and at most 63 bytes)".to_owned(),
            ),
        );
    }
    if spec_.expect_provenance.as_str().is_empty() {
        return Err(
            WorkflowError::Invalid(
                "expect_provenance is required: seeding truncates the target, so the target database's provenance marker must be verified first".to_owned(),
            ),
        );
    }
    let missing = "source_primary host/port/database are required";
    let source = match &spec_.source_primary {
        Some(e) => {
            if e.host.as_str().is_empty() || e.port == 0 || e.database.as_str().is_empty() {
                return Err(WorkflowError::Invalid(missing.to_owned()));
            }
            e
        },
        None => {
            return Err(WorkflowError::Invalid(missing.to_owned()));
        },
    };
    if source.port > 65535 {
        return Err(
            WorkflowError::Invalid(
                text::concat3(
                    "source_primary port ",
                    text::decimal_u64(source.port as u64).as_str(),
                    " is out of range",
                ),
            ),
        );
    }
    // Standby sourcing needs the anchor-slot machinery; be honest until then.
    if spec_.source_policy != v1::SourcePolicy::Primary.number() && spec_.source_policy
        != v1::SourcePolicy::Unspecified.number() {
        return Err(
            WorkflowError::Unimplemented(
                "source policy",
                "standby sourcing lands with anchor slots; use SOURCE_POLICY_PRIMARY".to_owned(),
            ),
        );
    }
    if spec_.tables.len() == 0 {
        return Err(
            WorkflowError::Invalid("at least one table mapping is required".to_owned()),
        );
    }
    match check_duplicates(&spec_.tables) {
        Ok(()) => {},
        Err(e) => {
            return Err(e);
        },
    }
    let range = match plan_range(&spec_.filter) {
        Ok(range) => range,
        Err(e) => {
            return Err(e);
        },
    };
    let tables = match plan_tables(&spec_.tables) {
        Ok(tables) => tables,
        Err(e) => {
            return Err(e);
        },
    };
    Ok(
        RunPlan {
            id: spec_.id.clone(),
            source: Config {
                host: source.host.clone(),
                port: source.port as u16,
                user: config.source_user.clone(),
                password: config.source_password.clone(),
                database: source.database.clone(),
            },
            slot: spec_.slot.clone(),
            publication: spec_.publication.clone(),
            target_database: spec_.target_database.clone(),
            expect_provenance: spec_.expect_provenance.clone(),
            tables,
            range,
            hash_function: "xxhash64_v1".to_owned(),
        },
    )
}

// ---------------------------------------------------------------------------------------
// Running workflows.
// ---------------------------------------------------------------------------------------

/// A worker that was started.
#[derive(Debug, PartialEq, Eq)]
pub struct WorkflowHandle {
    pub id: String,
    /// Serialized spec, for idempotent StartWorkflow retries.
    pub spec_bytes: Vec<u8>,
    /// The local database this workflow seeds — at most one RUNNING workflow
    /// may hold a target database (seeding truncates; two workers would
    /// destroy each other's copy).
    pub target_database: String,
    pub phase: WorkflowPhase,
    /// A stop was signaled.
    pub stop: bool,
    /// The worker has terminated and released its sessions.
    pub finished: bool,
}

impl WorkflowHandle {
    pub open spec fn winds_down(self) -> bool {
        self.phase == WorkflowPhase::Error || self.phase == WorkflowPhase::Stopped || self.stop
    }

    /// An unfinished worker holds its claims — replication session, slot, and
    /// target database — until it has actually terminated; releasing on the
    /// terminal STATUS alone would let a replacement race the old worker's
    /// teardown. A winding-down handle answers Stopping (retryable) instead.
    pub fn winding_down(&self) -> (r: bool)
        ensures
            r == self.winds_down(),
    {
        self.phase == WorkflowPhase::Error || self.phase == WorkflowPhase::Stopped || self.stop
    }
}

/// What an admitted start has to do.
#[derive(Debug, Clone, Copy, PartialEq, Eq, Structural)]
pub enum StartStep {
    /// The same workflow runs already: acknowledge it.
    Acknowledge,
    /// Start a worker.
    Spawn,
}

/// Whether a handle holds a target database under another id.
pub open spec fn holds_target(h: WorkflowHandle, id: Seq<char>, target: Seq<char>) -> bool {
    h.id@ != id && !h.finished && h.target_database@ == target
}

/// The position of the handle with the id, or the number of handles.
pub open spec fn handle_at(hs: Seq<WorkflowHandle>, id: Seq<char>) -> int
    decreases hs.len(),
{
    if hs.len() == 0 || hs[0].id@ == id {
        0
    } else {
        1 + handle_at(hs.drop_first(), id)
    }
}

/// The position of the first handle that holds the target under another id, or the number of
/// handles.
pub open spec fn holder_at(hs: Seq<WorkflowHandle>, id: Seq<char>, target: Seq<char>) -> int
    decreases hs.len(),
{
    if hs.len() == 0 || holds_target(hs[0], id, target) {
        0
    } else {
        1 + holder_at(hs.drop_first(), id, target)
    }
}

/// What a start is answered. A running workflow
/// with the same id and byte-identical spec is a success; a different spec
/// under a running id is a conflict. A terminated workflow is
/// replaced — the operator's retry — and re-seeds from scratch.
pub open spec fn start_answer(
    hs: Seq<WorkflowHandle>,
    id: Seq<char>,
    target: Seq<char>,
    spec_bytes: Seq<u8>,
) -> Result<StartStep, WorkflowFault> {
    let i = handle_at(hs, id);
    let j = holder_at(hs, id, target);
    if 0 <= i < hs.len() && !hs[i].finished {
        if hs[i].winds_down() {
            Err(WorkflowFault::Stopping(id))
        } else if hs[i].spec_bytes@ == spec_bytes {
            Ok(StartStep::Acknowledge)
        } else {
            Err(WorkflowFault::Conflict(id))
        }
    } else if 0 <= j < hs.len() {
        if hs[j].winds_down() {
            Err(WorkflowFault::Stopping(hs[j].id@))
        } else {
            Err(WorkflowFault::TargetBusy(hs[j].id@, target))
        }
    } else {
        Ok(StartStep::Spawn)
    }
}

/// Whether a handle is of a worker that was just started.
pub open spec fn started(
    h: WorkflowHandle,
    id: Seq<char>,
    target: Seq<char>,
    spec_bytes: Seq<u8>,
) -> bool {
    &&& h.id@ == id
    &&& h.spec_bytes@ == spec_bytes
    &&& h.target_database@ == target
    &&& h.phase == WorkflowPhase::Init
    &&& !h.stop
    &&& !h.finished
}

/// The workers that were started, one per id.
#[derive(Debug, PartialEq, Eq)]
pub struct WorkflowRegistry {
    pub handles: Vec<WorkflowHandle>,
}

impl Default for WorkflowRegistry {
    fn default() -> (r: WorkflowRegistry)
        ensures
            r.handles@.len() == 0,
            r.wf(),
    {
        WorkflowRegistry { handles: Vec::new() }
    }
}

proof fn lemma_handle_at(hs: Seq<WorkflowHandle>, id: Seq<char>, p: int)
    requires
        0 <= p <= hs.len(),
        p < hs.len() ==> hs[p].id@ == id,
        forall|k: int| 0 <= k < p ==> (#[trigger] hs[k]).id@ != id,
    ensures
        handle_at(hs, id) == p,
    decreases hs.len(),
{
    if p > 0 {
        assert(hs[0].id@ != id);
        let t = hs.drop_first();
        assert forall|k: int| 0 <= k < p - 1 implies (#[trigger] t[k]).id@ != id by {
            assert(t[k] == hs[k + 1]);
        }
        lemma_handle_at(t, id, p - 1);
    }
}

proof fn lemma_holder_at(hs: Seq<WorkflowHandle>, id: Seq<char>, target: Seq<char>, p: int)
    requires
        0 <= p <= hs.len(),
        p < hs.len() ==> holds_target(hs[p], id, target),
        forall|k: int| 0 <= k < p ==> !holds_target(#[trigger] hs[k], id, target),
    ensures
        holder_at(hs, id, target) == p,
    decreases hs.len(),
{
    if p > 0 {
        assert(!holds_target(hs[0], id, target));
        let t = hs.drop_first();
        assert forall|k: int| 0 <= k < p - 1 implies !holds_target(
            #[trigger] t[k],
            id,
            target,
        ) by {
            assert(t[k] == hs[k + 1]);
        }
        lemma_holder_at(t, id, target, p - 1);
    }
}

impl WorkflowRegistry {
    /// Each id stands once, and no target database is held by two unfinished workers.
    pub open spec fn wf(self) -> bool {
        forall|i: int, j: int|
            0 <= i < j < self.handles@.len() ==> (#[trigger] self.handles@[i]).id@ != (
            #[trigger] self.handles@[j]).id@ && (self.handles@[i].finished
                || self.handles@[j].finished || self.handles@[i].target_database@
                != self.handles@[j].target_database@)
    }

    fn position(&self, id: &str) -> (r: usize)
        ensures
            r == handle_at(self.handles@, id@),
            r <= self.handles@.len(),
            r < self.handles@.len() ==> self.handles@[r as int].id@ == id@,
            forall|k: int| 0 <= k < r ==> (#[trigger] self.handles@[k]).id@ != id@,
    {
        let mut i: usize = 0;
        while i < self.handles.len() && !text::same(self.handles[i].id.as_str(), id)
            invariant
                i <= self.handles@.len(),
                forall|k: int| 0 <= k < i ==> (#[trigger] self.handles@[k]).id@ != id@,
            decreases self.handles@.len() - i,
        {
            i += 1;
        }
        proof {
            lemma_handle_at(self.handles@, id@, i as int);
        }
        i
    }

    fn holder(&self, id: &str, target: &str) -> (r: usize)
        ensures
            r == holder_at(self.handles@, id@, target@),
            r <= self.handles@.len(),
            r == self.handles@.len() ==> forall|k: int|
                0 <= k < r ==> !holds_target(#[trigger] self.handles@[k], id@, target@),
    {
        let mut i: usize = 0;
        while i < self.handles.len() && !(!text::same(self.handles[i].id.as_str(), id)
            && !self.handles[i].finished && text::same(
            self.handles[i].target_database.as_str(),
            target,
        ))
            invariant
                i <= self.handles@.len(),
                forall|k: int|
                    0 <= k < i ==> !holds_target(#[trigger] self.handles@[k], id@, target@),
            decreases self.handles@.len() - i,
        {
            i += 1;
        }
        proof {
            lemma_holder_at(self.handles@, id@, target@, i as int);
        }
        i
    }

    /// Start (or idempotently re-acknowledge) a workflow. On [`StartStep::Spawn`] the handle
    /// of the new worker replaces that of a terminated one.
    pub fn start(&mut self, id: &str, target_database: &str, spec_bytes: Vec<u8>) -> (r: Result<
        StartStep,
        WorkflowError,
    >)
        requires
            old(self).wf(),
        ensures
            final(self).wf(),
            match start_answer(old(self).handles@, id@, target_database@, spec_bytes@) {
                Ok(s) => r == Ok::<StartStep, WorkflowError>(s),
                Err(f) => r is Err && r->Err_0@ == f,
            },
            if r == Ok::<StartStep, WorkflowError>(StartStep::Spawn) {
                let i = handle_at(old(self).handles@, id@);
                if 0 <= i < old(self).handles@.len() {
                    &&& final(self).handles@.len() == old(self).handles@.len()
                    &&& started(final(self).handles@[i], id@, target_database@, spec_bytes@)
                    &&& final(self).handles@ == old(self).handles@.update(
                        i,
                        final(self).handles@[i],
                    )
                } else {
                    &&& final(self).handles@.len() == old(self).handles@.len() + 1
                    &&& started(final(self).handles@.last(), id@, target_database@, spec_bytes@)
                    &&& final(self).handles@.drop_last() == old(self).handles@
                }
            } else {
                final(self).handles@ == old(self).handles@
            },
    {
        let i: usize = self.position(id);
        let count: usize = self.handles.len();
        if i < count && !self.handles[i].finished {
            // Terminal status or a signaled stop means the old worker is
            // winding down but may not have released its sessions yet;
            // acknowledging a byte-identical restart now would either return
            // a success with no worker behind it or race the teardown.
            if self.handles[i].winding_down() {
                return Err(WorkflowError::Stopping(id.to_owned()));
            }
            if crate::bytes::same(self.handles[i].spec_bytes.as_slice(), spec_bytes.as_slice()) {
                return Ok(StartStep::Acknowledge);
            }
            return Err(WorkflowError::Conflict(id.to_owned()));
        }
        // One running workflow per target database: seeding truncates, so a
        // second worker under a DIFFERENT id would destroy the first's copy.
        let j: usize = self.holder(id, target_database);
        if j < count {
            // A winding-down holder releases the target momentarily — that is
            // the retryable Stopping case, not the persistent TargetBusy one.
            let other = self.handles[j].id.clone();
            if self.handles[j].winding_down() {
                return Err(WorkflowError::Stopping(other));
            }
            return Err(WorkflowError::TargetBusy(other, target_database.to_owned()));
        }
        let ghost before = self.handles@;
        let handle = WorkflowHandle {
            id: id.to_owned(),
            spec_bytes,
            target_database: target_database.to_owned(),
            phase: WorkflowPhase::Init,
            stop: false,
            finished: false,
        };
        if i < count {
            self.handles.set(i, handle);
            proof {
                assert(self.handles@ =~= before.update(i as int, self.handles@[i as int]));
            }
        } else {
            self.handles.push(handle);
            proof {
                assert(self.handles@.drop_last() =~= before);
            }
        }
        proof {
            assert forall|x: int, y: int| 0 <= x < y < self.handles@.len() implies (
            #[trigger] self.handles@[x]).id@ != (#[trigger] self.handles@[y]).id@ && (
            self.handles@[x].finished || self.handles@[y].finished
                || self.handles@[x].target_database@ != self.handles@[y].target_database@) by {
                if x != i && y != i {
                    assert(before[x].id@ != before[y].id@);
                } else {
                    let k = if x == i {
                        y
                    } else {
                        x
                    };
                    assert(!holds_target(before[k], id@, target_database@));
                    if i < count {
                        assert(before[x].id@ != before[y].id@);
                    } else {
                        assert(before[k].id@ != id@);
                    }
                }
            }
        }
        Ok(StartStep::Spawn)
    }

    /// Signal a workflow to stop. Unknown ids succeed (idempotent).
    pub fn stop(&mut self, id: &str)
        requires
            old(self).wf(),
        ensures
            final(self).wf(),
            self_but(
                old(self).handles@,
                final(self).handles@,
                id@,
                |h: WorkflowHandle| (h.phase, true, h.finished),
            ),
    {
        let i: usize = self.position(id);
        let ghost before = self.handles@;
        if i < self.handles.len() {
            self.handles[i].stop = true;
            proof {
                assert(self.handles@ =~= before.update(i as int, self.handles@[i as int]));
                lemma_wf_after(before, self.handles@, i as int);
            }
        }
    }

    /// Records the phase that a worker has reached.
    pub fn report(&mut self, id: &str, phase: WorkflowPhase)
        requires
            old(self).wf(),
        ensures
            final(self).wf(),
            self_but(
                old(self).handles@,
                final(self).handles@,
                id@,
                |h: WorkflowHandle| (phase, h.stop, h.finished),
            ),
    {
        let i: usize = self.position(id);
        let ghost before = self.handles@;
        if i < self.handles.len() {
            self.handles[i].phase = phase;
            proof {
                assert(self.handles@ =~= before.update(i as int, self.handles@[i as int]));
                lemma_wf_after(before, self.handles@, i as int);
            }
        }
    }

    /// Records that a worker has terminated.
    pub fn finish(&mut self, id: &str)
        requires
            old(self).wf(),
        ensures
            final(self).wf(),
            self_but(
                old(self).handles@,
                final(self).handles@,
                id@,
                |h: WorkflowHandle| (h.phase, h.stop, true),
            ),
    {
        let i: usize = self.position(id);
        let ghost before = self.handles@;
        if i < self.handles.len() {
            self.handles[i].finished = true;
            proof {
                assert(self.handles@ =~= before.update(i as int, self.handles@[i as int]));
                lemma_wf_after(before, self.handles@, i as int);
            }
        }
    }

    /// The ids whose status is asked for: those in `ids`, or all when it is empty.
    pub fn statuses(&self, ids: &Vec<String>) -> (r: Vec<String>)
        ensures
            text::views(r@) == wanted_ids(self.handles@, ids@),
    {
        let mut out: Vec<String> = Vec::new();
        let mut i: usize = 0;
        proof {
            assert(self.handles@.take(0) =~= Seq::<WorkflowHandle>::empty());
            assert(text::views(out@) =~= Seq::<Seq<char>>::empty());
        }
        while i < self.handles.len()
            invariant
                i <= self.handles@.len(),
                text::views(out@) == wanted_ids(self.handles@.take(i as int), ids@),
            decreases self.handles@.len() - i,
        {
            let ghost start = out@;
            proof {
                assert(self.handles@.take(i + 1).drop_last() =~= self.handles@.take(i as int));
            }
            if ids.len() == 0 || lists(ids, self.handles[i].id.as_str()) {
                out.push(self.handles[i].id.clone());
                proof {
                    assert(text::views(out@) =~= text::views(start).push(
                        self.handles@[i as int].id@,
                    ));
                }
            }
            i += 1;
        }
        proof {
            assert(self.handles@.take(self.handles@.len() as int) =~= self.handles@);
        }
        out
    }
}

/// The ids of the handles that are asked for.
pub open spec fn wanted_ids(hs: Seq<WorkflowHandle>, ids: Seq<String>) -> Seq<Seq<char>>
    decreases hs.len(),
{
    if hs.len() == 0 {
        Seq::empty()
    } else {
        let head = wanted_ids(hs.drop_last(), ids);
        if ids.len() == 0 || text::views(ids).contains(hs.last().id@) {
            head.push(hs.last().id@)
        } else {
            head
        }
    }
}

fn lists(ids: &Vec<String>, id: &str) -> (r: bool)
    ensures
        r == text::views(ids@).contains(id@),
{
    let mut i: usize = 0;
    while i < ids.len()
        invariant
            i <= ids@.len(),
            forall|k: int| 0 <= k < i ==> (#[trigger] ids@[k])@ != id@,
        decreases ids@.len() - i,
    {
        if text::same(ids[i].as_str(), id) {
            assert(text::views(ids@)[i as int] == id@);
            return true;
        }
        i += 1;
    }
    proof {
        assert forall|k: int| 0 <= k < text::views(ids@).len() implies text::views(ids@)[k]
            != id@ by {
            assert(ids@[k]@ != id@);
        }
    }
    false
}

/// Whether only the state of the handle with the id has changed, to what `state` gives: its
/// phase, whether it is to stop, and whether it has finished.
pub open spec fn self_but(
    before: Seq<WorkflowHandle>,
    after: Seq<WorkflowHandle>,
    id: Seq<char>,
    state: spec_fn(WorkflowHandle) -> (WorkflowPhase, bool, bool),
) -> bool {
    let i = handle_at(before, id);
    if 0 <= i < before.len() {
        &&& after.len() == before.len()
        &&& after == before.update(i, after[i])
        &&& after[i].id == before[i].id
        &&& after[i].spec_bytes == before[i].spec_bytes
        &&& after[i].target_database == before[i].target_database
        &&& (after[i].phase, after[i].stop, after[i].finished) == state(before[i])
    } else {
        after == before
    }
}

proof fn lemma_wf_after(before: Seq<WorkflowHandle>, after: Seq<WorkflowHandle>, i: int)
    requires
        0 <= i < before.len(),
        after.len() == before.len(),
        after == before.update(i, after[i]),
        after[i].id == before[i].id,
        after[i].target_database == before[i].target_database,
        before[i].finished ==> after[i].finished,
        forall|x: int, y: int|
            0 <= x < y < before.len() ==> (#[trigger] before[x]).id@ != (#[trigger] before[y]).id@
                && (before[x].finished || before[y].finished || before[x].target_database@
                != before[y].target_database@),
    ensures
        forall|x: int, y: int|
            0 <= x < y < after.len() ==> (#[trigger] after[x]).id@ != (#[trigger] after[y]).id@ && (
            after[x].finished || after[y].finished || after[x].target_database@
                != after[y].target_database@),
{
    assert forall|x: int, y: int| 0 <= x < y < after.len() implies (#[trigger] after[x]).id@ != (
    #[trigger] after[y]).id@ && (after[x].finished || after[y].finished
        || after[x].target_database@ != after[y].target_database@) by {
        assert(before[x].id@ != before[y].id@);
    }
}

/// One worker per target: a start is never admitted while an unfinished worker of another
/// id holds the target database, nor while one of the same id is unfinished.
pub proof fn law_one_worker_per_target(
    hs: Seq<WorkflowHandle>,
    id: Seq<char>,
    target: Seq<char>,
    spec_bytes: Seq<u8>,
    k: int,
)
    requires
        start_answer(hs, id, target, spec_bytes) == Ok::<StartStep, WorkflowFault>(
            StartStep::Spawn,
        ),
        0 <= k < hs.len(),
        WorkflowRegistry::ids_distinct(hs),
    ensures
        hs[k].finished || (hs[k].id@ != id && hs[k].target_database@ != target),
{
    lemma_positions(hs, id, target);
    if hs[k].id@ == id {
        let i = handle_at(hs, id);
        assert(i == k);
    }
}

impl WorkflowRegistry {
    /// Whether each id stands once.
    pub open spec fn ids_distinct(hs: Seq<WorkflowHandle>) -> bool {
        forall|i: int, j: int|
            0 <= i < j < hs.len() ==> (#[trigger] hs[i]).id@ != (#[trigger] hs[j]).id@
    }
}

proof fn lemma_positions(hs: Seq<WorkflowHandle>, id: Seq<char>, target: Seq<char>)
    ensures
        0 <= handle_at(hs, id) <= hs.len(),
        handle_at(hs, id) < hs.len() ==> hs[handle_at(hs, id)].id@ == id,
        forall|k: int| 0 <= k < handle_at(hs, id) ==> (#[trigger] hs[k]).id@ != id,
        0 <= holder_at(hs, id, target) <= hs.len(),
        forall|k: int|
            0 <= k < holder_at(hs, id, target) ==> !holds_target(#[trigger] hs[k], id, target),
    decreases hs.len(),
{
    if hs.len() > 0 {
        let t = hs.drop_first();
        lemma_positions(t, id, target);
        assert forall|k: int| 0 <= k < handle_at(hs, id) implies (#[trigger] hs[k]).id@ != id by {
            if k > 0 {
                assert(t[k - 1] == hs[k]);
            }
        }
        assert forall|k: int| 0 <= k < holder_at(hs, id, target) implies !holds_target(
            #[trigger] hs[k],
            id,
            target,
        ) by {
            if k > 0 {
                assert(t[k - 1] == hs[k]);
            }
        }
    }
}

/// A key type is read by its name, and nothing else is one.
pub proof fn law_key_types_are_read_by_name(wire: Seq<char>)
    ensures
        wire_type("int"@) == Some(ScalarType::Int),
        wire_type("text"@) == Some(ScalarType::Text),
        wire_type("uuid"@) == Some(ScalarType::Uuid),
        wire_type("bytea"@) == Some(ScalarType::Bytea),
        wire_type(wire) is Some <==> wire == "int"@ || wire == "text"@ || wire == "uuid"@ || wire
            == "bytea"@,
{
    reveal_strlit("int");
    reveal_strlit("text");
    reveal_strlit("uuid");
    reveal_strlit("bytea");
    assert("int"@.len() == 3 && "text"@.len() == 4 && "uuid"@.len() == 4 && "bytea"@.len() == 5);
    assert("text"@[0] == 't' && "uuid"@[0] == 'u');
}

/// A workflow that can be planned names itself, its slot, its publication, its target and the
/// target's provenance, and a source to read; its slot is one of its own, its kind and its
/// source policy are supported, and it moves at least one table.
pub proof fn law_only_complete_workflows_are_planned(spec_: WorkflowSpec)
    requires
        plan_fault(spec_) is None,
    ensures
        spec_.id@.len() > 0,
        spec_.kind == 1,
        client::safe_ident(spec_.slot@),
        spec_.slot@.take("pgshard_"@.len() as int) == "pgshard_"@,
        client::safe_ident(spec_.publication@),
        0 < spec_.target_database@.len(),
        encode_utf8(spec_.target_database@).len() <= 63,
        spec_.expect_provenance@.len() > 0,
        spec_.source_primary is Some,
        spec_.source_primary->0.host@.len() > 0,
        1 <= spec_.source_primary->0.port <= 65535,
        spec_.source_primary->0.database@.len() > 0,
        spec_.source_policy == 0 || spec_.source_policy == 1,
        spec_.tables@.len() > 0,
{
}

/// A workflow that can be planned moves each table once and to itself, with all of its columns
/// as they are, by a key column of a known type.
pub proof fn law_planned_tables_are_moved_once(spec_: WorkflowSpec, i: int, j: int)
    requires
        plan_fault(spec_) is None,
        0 <= i < spec_.tables@.len(),
        0 <= j < i,
    ensures
        ({
            let m = spec_.tables@[i];
            &&& m.source is Some
            &&& m.source->0.schema@.len() > 0
            &&& m.source->0.name@.len() > 0
            &&& m.column_map@.len() == 0
            &&& m.shard_key_column@.len() > 0
            &&& wire_type(m.shard_key_type@) is Some
            &&& m.target is None || (m.target->0.schema@ == m.source->0.schema@
                && m.target->0.name@ == m.source->0.name@) || (m.target->0.schema@.len() == 0
                && m.target->0.name@.len() == 0)
            &&& spec_.tables@[j].source is Some ==> spec_.tables@[j].source->0.schema@
                != m.source->0.schema@ || spec_.tables@[j].source->0.name@ != m.source->0.name@
        }),
{
    lemma_each_mapping_sound(spec_.tables@, i);
    lemma_none_mapped_before(spec_.tables@, 0, i);
    assert(!mapped_before(spec_.tables@, i));
    assert(!same_source(spec_.tables@[j], spec_.tables@[i]));
}

proof fn lemma_each_mapping_sound(tables: Seq<TableMapping>, i: int)
    requires
        mappings_fault(tables) is None,
        0 <= i < tables.len(),
    ensures
        mapping_fault(tables[i]) is None,
    decreases tables.len(),
{
    if i < tables.len() - 1 {
        lemma_each_mapping_sound(tables.drop_last(), i);
    }
}

proof fn lemma_none_mapped_before(tables: Seq<TableMapping>, at: int, i: int)
    requires
        duplicate_fault(tables, at) is None,
        0 <= at <= i < tables.len(),
    ensures
        !mapped_before(tables, i),
    decreases i - at,
{
    if at < i {
        lemma_none_mapped_before(tables, at + 1, i);
    }
}

/// The rows that are moved are all of them, or those of a range that starts before it ends,
/// under the one known hash function.
pub proof fn law_planned_rows_are_given(filter: Option<v1::RowFilter>)
    requires
        filter_fault(filter) is None,
    ensures
        filter is Some,
        match filter->0.filter {
            Some(Filter::All(all)) => all,
            Some(Filter::KeyRange(kr)) => {
                &&& kr.range is Some
                &&& kr.range->0.end is Some ==> kr.range->0.start < kr.range->0.end->0
                &&& kr.hash_function@ == "xxhash64_v1"@
            },
            None => false,
        },
{
}

/// A run is what its workflow says: the same source under the configured credentials, slot,
/// publication, target, provenance and rows, and the same tables in their order.
pub proof fn law_runs_keep_their_workflow(
    run: RunPlan,
    spec_: WorkflowSpec,
    config: WorkflowConfig,
    i: int,
)
    requires
        plans(run, spec_, config),
        0 <= i < spec_.tables@.len(),
    ensures
        run.id@ == spec_.id@,
        run.slot@ == spec_.slot@,
        run.publication@ == spec_.publication@,
        run.target_database@ == spec_.target_database@,
        run.expect_provenance@ == spec_.expect_provenance@,
        run.source.host@ == spec_.source_primary->0.host@,
        run.source.port == spec_.source_primary->0.port,
        run.source.database@ == spec_.source_primary->0.database@,
        run.source.user@ == config.source_user@,
        run.source.password@ == config.source_password@,
        run.tables@.len() == spec_.tables@.len(),
        run.tables@[i].schema@ == spec_.tables@[i].source->0.schema@,
        run.tables@[i].name@ == spec_.tables@[i].source->0.name@,
        run.tables@[i].shard_key_column@ == spec_.tables@[i].shard_key_column@,
        wire_type(spec_.tables@[i].shard_key_type@) == Some(run.tables@[i].shard_key_type),
        spec_.filter matches Some(f) && (f.filter matches Some(Filter::KeyRange(kr))
            && run.range.lower() == kr.range->0.start && run.range.upper() == kr.range->0.end)
            || (spec_.filter matches Some(f) && f.filter == Some(Filter::All(true))
            && run.range.lower() == 0 && run.range.upper() is None),
{
    assert(plans_table(run.tables@[i], spec_.tables@[i]));
}

/// Starting a workflow that runs is acknowledged where it is the same one to the byte and
/// refused otherwise; one that winds down is to be retried.
pub proof fn law_running_workflows_are_not_started_twice(
    hs: Seq<WorkflowHandle>,
    k: int,
    target: Seq<char>,
    spec_bytes: Seq<u8>,
)
    requires
        0 <= k < hs.len(),
        !hs[k].finished,
        forall|i: int| 0 <= i < k ==> (#[trigger] hs[i]).id@ != hs[k].id@,
    ensures
        start_answer(hs, hs[k].id@, target, spec_bytes) != Ok::<StartStep, WorkflowFault>(
            StartStep::Spawn,
        ),
        hs[k].stop || hs[k].phase is Error || hs[k].phase is Stopped ==> start_answer(
            hs,
            hs[k].id@,
            target,
            spec_bytes,
        ) == Err::<StartStep, WorkflowFault>(WorkflowFault::Stopping(hs[k].id@)),
        !(hs[k].stop || hs[k].phase is Error || hs[k].phase is Stopped) ==> (start_answer(
            hs,
            hs[k].id@,
            target,
            spec_bytes,
        ) == Ok::<StartStep, WorkflowFault>(StartStep::Acknowledge) <==> hs[k].spec_bytes@
            == spec_bytes),
        !(hs[k].stop || hs[k].phase is Error || hs[k].phase is Stopped) && hs[k].spec_bytes@
            != spec_bytes ==> start_answer(hs, hs[k].id@, target, spec_bytes) == Err::<
            StartStep,
            WorkflowFault,
        >(WorkflowFault::Conflict(hs[k].id@)),
{
    lemma_handle_at(hs, hs[k].id@, k);
}

/// A worker is spawned exactly where no unfinished one has the id or the target.
pub proof fn law_workers_are_spawned_on_free_targets(
    hs: Seq<WorkflowHandle>,
    id: Seq<char>,
    target: Seq<char>,
    spec_bytes: Seq<u8>,
)
    requires
        forall|i: int, j: int|
            0 <= i < j < hs.len() ==> (#[trigger] hs[i]).id@ != (#[trigger] hs[j]).id@,
    ensures
        start_answer(hs, id, target, spec_bytes) == Ok::<StartStep, WorkflowFault>(
            StartStep::Spawn,
        ) <==> forall|k: int|
            0 <= k < hs.len() ==> (#[trigger] hs[k]).finished || (hs[k].id@ != id
                && hs[k].target_database@ != target),
{
    lemma_found_handle(hs, id);
    lemma_found_holder(hs, id, target);
    let i = handle_at(hs, id);
    let j = holder_at(hs, id, target);
    if start_answer(hs, id, target, spec_bytes) == Ok::<StartStep, WorkflowFault>(
        StartStep::Spawn,
    ) {
        assert forall|k: int| 0 <= k < hs.len() implies (#[trigger] hs[k]).finished || (hs[k].id@
            != id && hs[k].target_database@ != target) by {
            assert(!holds_target(hs[k], id, target));
            if hs[k].id@ == id {
                if i < k {
                    assert(hs[i].id@ != hs[k].id@);
                }
            }
        }
    }
}

proof fn lemma_found_handle(hs: Seq<WorkflowHandle>, id: Seq<char>)
    ensures
        0 <= handle_at(hs, id) <= hs.len(),
        handle_at(hs, id) < hs.len() ==> hs[handle_at(hs, id)].id@ == id,
        forall|k: int| 0 <= k < handle_at(hs, id) ==> (#[trigger] hs[k]).id@ != id,
    decreases hs.len(),
{
    if hs.len() > 0 && hs[0].id@ != id {
        let t = hs.drop_first();
        lemma_found_handle(t, id);
        assert forall|k: int| 0 <= k < handle_at(hs, id) implies (#[trigger] hs[k]).id@ != id by {
            if k > 0 {
                assert(t[k - 1] == hs[k]);
            }
        }
    }
}

proof fn lemma_found_holder(hs: Seq<WorkflowHandle>, id: Seq<char>, target: Seq<char>)
    ensures
        0 <= holder_at(hs, id, target) <= hs.len(),
        holder_at(hs, id, target) < hs.len() ==> holds_target(
            hs[holder_at(hs, id, target)],
            id,
            target,
        ),
        forall|k: int|
            0 <= k < holder_at(hs, id, target) ==> !holds_target(#[trigger] hs[k], id, target),
    decreases hs.len(),
{
    if hs.len() > 0 && !holds_target(hs[0], id, target) {
        let t = hs.drop_first();
        lemma_found_holder(t, id, target);
        assert forall|k: int| 0 <= k < holder_at(hs, id, target) implies !holds_target(
            #[trigger] hs[k],
            id,
            target,
        ) by {
            if k > 0 {
                assert(t[k - 1] == hs[k]);
            }
        }
    }
}

} // verus!
