//! A seeding workflow, step by step: INIT (recreate the slot, export its
//! snapshot), COPY (per-table filtered seed under that snapshot), STREAMING
//! (apply the slot's changes with the transactional checkpoint) until stopped
//! or failed. A restart re-seeds from scratch — the slot is dropped and
//! recreated, target tables are truncated, and the consumer's checkpoint row
//! is cleared — which is safe precisely because seeding targets are
//! non-serving shards.
//!
//! A [`Seeding`] exists only after its preflight has passed. It says what to do next; running
//! the statements and reading the stream is with whoever holds the connections.
use crate::copy::CopySpec;
use crate::filter::{self, shard_key_index, tuple_in_range};
use crate::keyspace::KeyRange;
use crate::lsn::Lsn;
use crate::pgoutput::{self, Cell, ColumnDecl, Event, LogicalRepMsg, Relation};
use crate::preflight::{self, hashable, Preflight, PublicationBaseline, Question, TablePreflight};
use crate::proto::v1::{CopyProgress, WorkflowPhase};
use crate::quote;
use crate::shardfn::{self, ScalarType, ShardFunction};
use crate::text;
use crate::workflow::{self, RunPlan, TablePlan};
use std::collections::HashMap;
use vstd::prelude::*;
use vstd::string::*;

verus! {

broadcast use vstd::std_specs::hash::group_hash_axioms;

/// A slot of the same name that is already there. Plugin and database are NULL for physical
/// slots.
#[derive(Debug, PartialEq, Eq)]
pub struct SlotInfo {
    pub active: bool,
    pub plugin: Option<String>,
    pub database: Option<String>,
}

/// What is to be done next.
#[derive(Debug, PartialEq, Eq)]
pub enum SeedStep {
    /// Look for a slot of the same name on the source.
    FindSlot,
    /// Drop that slot.
    DropSlot,
    /// Create the slot, exporting its snapshot.
    CreateSlot,
    /// Clear the consumer's checkpoint on the target: the old one (if any) would fence every
    /// new apply as stale.
    ClearCheckpoint,
    /// Truncate table number `n` on the target.
    Truncate(usize),
    /// Copy table number `n` under the slot's snapshot.
    Copy(usize),
    /// Start replication on the slot.
    StartStream,
    /// Open the applier's session on the target.
    OpenApplier,
    /// Handle the stream's messages.
    Stream,
    Stopped,
    Failed(String),
}

/// A step, with its message as text.
#[verifier::ext_equal]
pub enum Stage {
    FindSlot,
    DropSlot,
    CreateSlot,
    ClearCheckpoint,
    Truncate(int),
    Copy(int),
    StartStream,
    OpenApplier,
    Stream,
    Stopped,
    Failed(Seq<char>),
}

impl View for SeedStep {
    type V = Stage;

    open spec fn view(&self) -> Stage {
        match self {
            SeedStep::FindSlot => Stage::FindSlot,
            SeedStep::DropSlot => Stage::DropSlot,
            SeedStep::CreateSlot => Stage::CreateSlot,
            SeedStep::ClearCheckpoint => Stage::ClearCheckpoint,
            SeedStep::Truncate(n) => Stage::Truncate(*n as int),
            SeedStep::Copy(n) => Stage::Copy(*n as int),
            SeedStep::StartStream => Stage::StartStream,
            SeedStep::OpenApplier => Stage::OpenApplier,
            SeedStep::Stream => Stage::Stream,
            SeedStep::Stopped => Stage::Stopped,
            SeedStep::Failed(m) => Stage::Failed(m@),
        }
    }
}

/// What came of a step.
#[derive(Debug, PartialEq, Eq)]
pub enum SeedEvent {
    /// The slot of the same name, if there is one.
    Slot(Option<SlotInfo>),
    /// The slot was created: its snapshot and its consistent point.
    Created(String, Lsn),
    /// The step is done.
    Done,
    /// The progress table, or its schema, is not there: there is no checkpoint to clear (the
    /// applier creates the table). Any other failure could leave a HIGHER stale
    /// checkpoint alive, silently fencing out every commit of the new stream.
    NoProgressTable,
    /// So many rows were copied.
    Copied(u64),
    /// The stream ended.
    Ended,
    /// The step failed.
    Failed(String),
    /// Something else failed: a connection, a row that cannot be handled.
    Lost(String),
}

/// How far the workflow is, as the operator sees it.
#[derive(Debug, Clone, Copy, PartialEq, Eq, Structural)]
pub struct SeedProgress {
    pub phase: WorkflowPhase,
    pub copy: Option<CopyProgress>,
    pub applied_lsn: Option<u64>,
    pub journal_lsn: Option<u64>,
}

/// Owned per-relation filter info (Relation messages borrow frame data).
#[derive(Debug, Clone, Copy, PartialEq, Eq, Structural)]
pub struct RelFilter {
    pub key_index: usize,
    pub key_type: ScalarType,
}

/// A running seeding workflow.
pub struct Seeding {
    pub run: RunPlan,
    pub tables: Vec<TablePreflight>,
    pub publication: PublicationBaseline,
    pub step: SeedStep,
    pub snapshot: String,
    pub consistent_point: Lsn,
    pub rows_copied: u64,
    pub progress: SeedProgress,
    /// The filters of the relations that the stream has described.
    pub relations: HashMap<u32, RelFilter>,
    /// The pgshard journal message decoded inside the CURRENT transaction, if
    /// any; acknowledged (published as journal_lsn) only once that
    /// transaction COMMITS — the barrier is real only when durably decoded.
    pub pending_journal: Option<u64>,
}

// ---------------------------------------------------------------------------------------
// The steps.
// ---------------------------------------------------------------------------------------

/// What is wrong with a slot that is already there. It is dropped — this run
/// re-seeds from scratch — but only if it is provably ours: our
/// database, the pgoutput plugin, and (by the plan) the pgshard_ name
/// prefix. "Inactive" also describes a legitimately disconnected foreign
/// consumer, whose restart position must never be destroyed. An ACTIVE
/// slot means another worker is live and this one must not race it.
pub open spec fn slot_fault(run: RunPlan, s: SlotInfo) -> Option<Seq<char>> {
    if s.active {
        Some(
            "slot "@ + run.slot@
                + " is still active on the source: another worker holds it"@,
        )
    } else if text::option_view(s.plugin) != Some("pgoutput"@) || text::option_view(s.database)
        != Some(run.source.database@) {
        Some(
            "slot "@ + run.slot@ + " belongs to plugin "@ + text::debug_option(
                text::option_view(s.plugin),
            ) + " on database "@ + text::debug_option(text::option_view(s.database))
                + ", not this workflow: refusing to drop it"@,
        )
    } else {
        None
    }
}

/// What follows when `n` tables have been copied.
pub open spec fn after_tables(n: int, run: RunPlan) -> Stage {
    if n < run.tables@.len() {
        Stage::Truncate(n)
    } else {
        Stage::StartStream
    }
}

/// What is to be done after an event. One that does not answer the step changes nothing.
pub open spec fn seed_next(run: RunPlan, s: Stage, e: SeedEvent) -> Stage {
    match (s, e) {
        (Stage::Stopped, _) => Stage::Stopped,
        (Stage::Failed(m), _) => Stage::Failed(m),
        (_, SeedEvent::Lost(m)) => Stage::Failed(m@),
        (Stage::FindSlot, SeedEvent::Slot(None)) => Stage::CreateSlot,
        (Stage::FindSlot, SeedEvent::Slot(Some(i))) => match slot_fault(run, i) {
            Some(f) => Stage::Failed(f),
            None => Stage::DropSlot,
        },
        (Stage::DropSlot, SeedEvent::Done) => Stage::CreateSlot,
        (Stage::CreateSlot, SeedEvent::Created(_, _)) => Stage::ClearCheckpoint,
        (Stage::CreateSlot, SeedEvent::Failed(m)) => Stage::Failed(
            "creating slot "@ + run.slot@ + ": "@ + m@,
        ),
        (Stage::ClearCheckpoint, SeedEvent::Done) => after_tables(0, run),
        (Stage::ClearCheckpoint, SeedEvent::NoProgressTable) => after_tables(0, run),
        (Stage::ClearCheckpoint, SeedEvent::Failed(m)) => Stage::Failed(
            "clearing stale checkpoint for "@ + run.id@ + ": "@ + m@,
        ),
        (Stage::Truncate(n), SeedEvent::Done) => Stage::Copy(n),
        (Stage::Copy(n), SeedEvent::Copied(_)) => after_tables(n + 1, run),
        (Stage::StartStream, SeedEvent::Done) => Stage::OpenApplier,
        (Stage::OpenApplier, SeedEvent::Done) => Stage::Stream,
        (Stage::OpenApplier, SeedEvent::Failed(m)) => Stage::Failed("applier: "@ + m@),
        (Stage::Stream, SeedEvent::Ended) => Stage::Failed("replication stream ended"@),
        (_, SeedEvent::Failed(m)) => Stage::Failed(m@),
        (s, _) => s,
    }
}

/// A count of tables as the operator sees it.
pub open spec fn table_count(n: int) -> u32 {
    (n % 0x1_0000_0000) as u32
}

/// How far the workflow is after an event that leads from one step to another.
pub open spec fn progress_next(s: Seeding, e: SeedEvent) -> SeedProgress {
    let p = s.progress;
    match (s.step@, e, seed_next(s.run, s.step@, e)) {
        (Stage::Failed(_), _, _) => p,
        (Stage::Stopped, _, _) => p,
        (_, _, Stage::Failed(_)) => SeedProgress { phase: WorkflowPhase::Error, ..p },
        (Stage::CreateSlot, SeedEvent::Created(_, _), _) => SeedProgress {
            phase: WorkflowPhase::Copy,
            copy: Some(
                CopyProgress {
                    tables_total: table_count(s.run.tables@.len() as int),
                    tables_done: 0,
                    rows_copied: 0,
                },
            ),
            ..p
        },
        (Stage::Copy(n), SeedEvent::Copied(rows), _) => SeedProgress {
            copy: Some(
                CopyProgress {
                    tables_total: table_count(s.run.tables@.len() as int),
                    tables_done: table_count(n + 1),
                    rows_copied: (s.rows_copied + rows) as u64,
                },
            ),
            ..p
        },
        // STREAMING (and the initial watermark) is published only once the stream AND
        // the applier actually exist. The applied watermark STARTS at the slot's consistent
        // point: everything at or before it arrived via the snapshot copy.
        (Stage::OpenApplier, SeedEvent::Done, _) => SeedProgress {
            phase: WorkflowPhase::Streaming,
            applied_lsn: Some(s.consistent_point.0),
            ..p
        },
        _ => p,
    }
}

fn count_of(n: usize) -> (r: u32)
    ensures
        r == table_count(n as int),
{
    (n as u64 % 0x1_0000_0000) as u32
}

fn check_slot(run: &RunPlan, s: &SlotInfo) -> (r: Result<(), String>)
    ensures
        preflight::passes(r, slot_fault(*run, *s)),
{
    if s.active {
        return Err(
            text::concat3(
                "slot ",
                run.slot.as_str(),
                " is still active on the source: another worker holds it",
            ),
        );
    }
    let plugin = match &s.plugin {
        Some(p) => text::same(p.as_str(), "pgoutput"),
        None => false,
    };
    let database = match &s.database {
        Some(d) => text::same(d.as_str(), run.source.database.as_str()),
        None => false,
    };
    if !plugin || !database {
        let head = text::concat5(
            "slot ",
            run.slot.as_str(),
            " belongs to plugin ",
            text::debug_option_string(&s.plugin).as_str(),
            " on database ",
        );
        return Err(
            text::concat3(
                head.as_str(),
                text::debug_option_string(&s.database).as_str(),
                ", not this workflow: refusing to drop it",
            ),
        );
    }
    Ok(())
}

impl Seeding {
    /// Every mapped table has passed its preflight, and the table at hand is one of them.
    pub open spec fn wf(self) -> bool {
        &&& self.tables@.len() == self.run.tables@.len()
        &&& match self.step@ {
            Stage::Truncate(n) => 0 <= n < self.run.tables@.len(),
            Stage::Copy(n) => 0 <= n < self.run.tables@.len(),
            _ => true,
        }
    }

    /// The workflow of a plan whose preflight has passed; none while it has not.
    pub fn new(run: RunPlan, preflight: Preflight) -> (r: Option<Seeding>)
        ensures
            r is Some <==> preflight.question == Question::Nothing && preflight.publication is Some
                && preflight.tables@.len() == run.tables@.len(),
            r is Some ==> {
                let s = r->0;
                &&& s.wf()
                &&& s.run == run
                &&& s.tables == preflight.tables
                &&& Some(s.publication) == preflight.publication
                &&& s.step@ == Stage::FindSlot
                &&& s.rows_copied == 0
                &&& s.progress == (SeedProgress {
                    phase: WorkflowPhase::Init,
                    copy: None,
                    applied_lsn: None,
                    journal_lsn: None,
                })
                &&& s.relations@ == Map::<u32, RelFilter>::empty()
                &&& s.pending_journal is None
            },
    {
        if preflight.question != Question::Nothing || preflight.tables.len() != run.tables.len() {
            return None;
        }
        match preflight.publication {
            Some(publication) => Some(
                Seeding {
                    run,
                    tables: preflight.tables,
                    publication,
                    step: SeedStep::FindSlot,
                    snapshot: String::new(),
                    consistent_point: Lsn(0),
                    rows_copied: 0,
                    progress: SeedProgress {
                        phase: WorkflowPhase::Init,
                        copy: None,
                        applied_lsn: None,
                        journal_lsn: None,
                    },
                    relations: HashMap::new(),
                    pending_journal: None,
                },
            ),
            None => None,
        }
    }

    fn fail(&mut self, message: String)
        ensures
            final(self).step@ == Stage::Failed(message@),
            final(self).progress == (SeedProgress {
                phase: WorkflowPhase::Error,
                ..old(self).progress
            }),
            final(self).run == old(self).run,
            final(self).tables == old(self).tables,
            final(self).publication == old(self).publication,
            final(self).snapshot == old(self).snapshot,
            final(self).consistent_point == old(self).consistent_point,
            final(self).rows_copied == old(self).rows_copied,
            final(self).relations == old(self).relations,
            final(self).pending_journal == old(self).pending_journal,
    {
        self.step = SeedStep::Failed(message);
        self.progress = SeedProgress { phase: WorkflowPhase::Error, ..self.progress };
    }

    /// What follows when `n` tables have been copied.
    fn table_step(&self, n: usize) -> (r: SeedStep)
        ensures
            r@ == after_tables(n as int, self.run),
    {
        if n < self.run.tables.len() {
            SeedStep::Truncate(n)
        } else {
            SeedStep::StartStream
        }
    }

    /// Records what came of a step.
    pub fn advance(&mut self, event: SeedEvent)
        requires
            old(self).wf(),
            event matches SeedEvent::Copied(n) ==> old(self).rows_copied + n <= u64::MAX,
        ensures
            final(self).wf(),
            final(self).run == old(self).run,
            final(self).tables == old(self).tables,
            final(self).publication == old(self).publication,
            final(self).step@ == seed_next(old(self).run, old(self).step@, event),
            final(self).progress == progress_next(*old(self), event),
            final(self).relations == old(self).relations,
            final(self).pending_journal == old(self).pending_journal,
            match (old(self).step@, event) {
                (Stage::CreateSlot, SeedEvent::Created(snapshot, lsn)) => final(self).snapshot
                    == snapshot && final(self).consistent_point == lsn,
                _ => final(self).snapshot == old(self).snapshot && final(self).consistent_point
                    == old(self).consistent_point,
            },
            match (old(self).step@, event) {
                (Stage::Copy(_), SeedEvent::Copied(n)) => final(self).rows_copied == old(
                    self
                ).rows_copied + n,
                _ => final(self).rows_copied == old(self).rows_copied,
            },
    {
        match &self.step {
            SeedStep::Stopped => {
                return ;
            },
            SeedStep::Failed(_) => {
                return ;
            },
            _ => {},
        }
        let count: usize = self.run.tables.len();
        match event {
            SeedEvent::Lost(m) => {
                self.fail(m);
            },
            SeedEvent::Slot(found) => match &self.step {
                SeedStep::FindSlot => match found {
                    None => {
                        self.step = SeedStep::CreateSlot;
                    },
                    Some(i) => match check_slot(&self.run, &i) {
                        Ok(()) => {
                            self.step = SeedStep::DropSlot;
                        },
                        Err(e) => {
                            self.fail(e);
                        },
                    },
                },
                _ => {},
            },
            SeedEvent::Created(snapshot, lsn) => match &self.step {
                SeedStep::CreateSlot => {
                    self.snapshot = snapshot;
                    self.consistent_point = lsn;
                    self.step = SeedStep::ClearCheckpoint;
                    self.progress = SeedProgress {
                        phase: WorkflowPhase::Copy,
                        copy: Some(
                            CopyProgress {
                                tables_total: count_of(count),
                                tables_done: 0,
                                rows_copied: 0,
                            },
                        ),
                        ..self.progress
                    };
                },
                _ => {},
            },
            SeedEvent::Done => match &self.step {
                SeedStep::DropSlot => {
                    self.step = SeedStep::CreateSlot;
                },
                SeedStep::ClearCheckpoint => {
                    self.step = self.table_step(0);
                },
                SeedStep::Truncate(n) => {
                    let n: usize = *n;
                    self.step = SeedStep::Copy(n);
                },
                SeedStep::StartStream => {
                    self.step = SeedStep::OpenApplier;
                },
                SeedStep::OpenApplier => {
                    self.step = SeedStep::Stream;
                    self.progress = SeedProgress {
                        phase: WorkflowPhase::Streaming,
                        applied_lsn: Some(self.consistent_point.0),
                        ..self.progress
                    };
                },
                _ => {},
            },
            SeedEvent::NoProgressTable => match &self.step {
                SeedStep::ClearCheckpoint => {
                    self.step = self.table_step(0);
                },
                _ => {},
            },
            SeedEvent::Copied(rows) => match &self.step {
                SeedStep::Copy(n) => {
                    let n: usize = *n;
                    self.rows_copied = self.rows_copied + rows;
                    self.progress = SeedProgress {
                        copy: Some(
                            CopyProgress {
                                tables_total: count_of(count),
                                tables_done: count_of(n + 1),
                                rows_copied: self.rows_copied,
                            },
                        ),
                        ..self.progress
                    };
                    self.step = self.table_step(n + 1);
                },
                _ => {},
            },
            SeedEvent::Ended => match &self.step {
                SeedStep::Stream => {
                    self.fail("replication stream ended".to_owned());
                },
                _ => {},
            },
            SeedEvent::Failed(m) => {
                let message = match &self.step {
                    SeedStep::CreateSlot => text::concat4(
                        "creating slot ",
                        self.run.slot.as_str(),
                        ": ",
                        m.as_str(),
                    ),
                    SeedStep::ClearCheckpoint => text::concat4(
                        "clearing stale checkpoint for ",
                        self.run.id.as_str(),
                        ": ",
                        m.as_str(),
                    ),
                    SeedStep::OpenApplier => text::concat2("applier: ", m.as_str()),
                    _ => m,
                };
                self.fail(message);
            },
        }
    }

    /// Heeds a stop: before a table is truncated, and while streaming.
    pub fn halt(&mut self)
        ensures
            final(self).run == old(self).run,
            final(self).tables == old(self).tables,
            final(self).publication == old(self).publication,
            final(self).snapshot == old(self).snapshot,
            final(self).consistent_point == old(self).consistent_point,
            final(self).rows_copied == old(self).rows_copied,
            final(self).relations == old(self).relations,
            final(self).pending_journal == old(self).pending_journal,
            if old(self).step@ is Truncate || old(self).step@ is Stream {
                final(self).step@ == Stage::Stopped && final(self).progress == (SeedProgress {
                    phase: WorkflowPhase::Stopped,
                    ..old(self).progress
                })
            } else {
                final(self).step@ == old(self).step@ && final(self).progress == old(self).progress
            },
    {
        let heeds = match &self.step {
            SeedStep::Truncate(_) => true,
            SeedStep::Stream => true,
            _ => false,
        };
        if heeds {
            self.step = SeedStep::Stopped;
            self.progress = SeedProgress { phase: WorkflowPhase::Stopped, ..self.progress };
        }
    }

    /// The statement that truncates a table. Targets are truncated
    /// first, so a retried seed is idempotent.
    pub fn truncate(&self, n: usize) -> (r: String)
        requires
            n < self.run.tables@.len(),
        ensures
            r@ == "TRUNCATE "@ + quote::qualified(
                self.run.tables@[n as int].schema@,
                self.run.tables@[n as int].name@,
            ),
    {
        text::concat2(
            "TRUNCATE ",
            quote::quote_qualified(
                self.run.tables[n].schema.as_str(),
                self.run.tables[n].name.as_str(),
            ).as_str(),
        )
    }

    /// What a table's copy copies.
    pub fn copy_spec<'a>(&'a self, n: usize) -> (r: CopySpec<'a>)
        requires
            self.wf(),
            n < self.run.tables@.len(),
        ensures
            r.schema@ == self.run.tables@[n as int].schema@,
            r.table@ == self.run.tables@[n as int].name@,
            r.columns@ == self.tables@[n as int].columns@,
            r.shard_key_column@ == self.run.tables@[n as int].shard_key_column@,
            r.shard_key_type == self.run.tables@[n as int].shard_key_type,
            r.target_range == self.run.range,
    {
        CopySpec {
            schema: self.run.tables[n].schema.as_str(),
            table: self.run.tables[n].name.as_str(),
            columns: self.tables[n].columns.as_slice(),
            shard_key_column: self.run.tables[n].shard_key_column.as_str(),
            shard_key_type: self.run.tables[n].shard_key_type,
            target_range: self.run.range,
        }
    }
}

// ---------------------------------------------------------------------------------------
// The stream.
// ---------------------------------------------------------------------------------------

/// Whether a row is in the target's range.
pub open spec fn row_in_range<F: ShardFunction>(
    row: Seq<Cell>,
    f: RelFilter,
    range: KeyRange,
    shard_fn: &F,
) -> Result<bool, Seq<char>> {
    match filter::row_key(row, f.key_index as int, f.key_type) {
        Ok(v) => Ok(range.holds(shard_fn.id_of(v))),
        Err(e) => Err(filter::fault_text(e)),
    }
}

/// The position of the first plan for the table, or the number of plans.
pub open spec fn table_at(tables: Seq<TablePlan>, schema: Seq<char>, name: Seq<char>) -> int
    decreases tables.len(),
{
    if tables.len() == 0 || (tables[0].schema@ == schema && tables[0].name@ == name) {
        0
    } else {
        1 + table_at(tables.drop_first(), schema, name)
    }
}

/// The position of the first column with the name, or the number of columns.
pub open spec fn declared_at(columns: Seq<ColumnDecl>, name: Seq<char>) -> int
    decreases columns.len(),
{
    if columns.len() == 0 || columns[0].name == name {
        0
    } else {
        1 + declared_at(columns.drop_first(), name)
    }
}

/// The filter of a relation, or why its rows cannot be filtered. A mid-stream ALTER re-sends
/// the Relation; the preflighted guarantees must hold for the LIVE table too — both the
/// shard key's type and the replica identity covering it (an
/// uncovered key change ships no old tuple, so a boundary
/// crossing would slip past the update check unseen).
pub open spec fn relation_filter(
    run: RunPlan,
    namespace: Seq<char>,
    name: Seq<char>,
    replica_identity: u8,
    columns: Seq<ColumnDecl>,
) -> Result<RelFilter, Seq<char>> {
    let i = table_at(run.tables@, namespace, name);
    if i == run.tables@.len() {
        Err(
            "stream carries unmapped table "@ + workflow::dotted(namespace, name)
                + ": publication wider than the spec"@,
        )
    } else {
        let t = run.tables@[i];
        let k = declared_at(columns, t.shard_key_column@);
        if k == columns.len() {
            Err(
                filter::fault_text(
                    filter::FilterFault::NoShardKeyColumn(t.shard_key_column@),
                ),
            )
        } else if !preflight::key_oids(t.shard_key_type).contains(columns[k].type_oid) {
            Err(
                "stream reports shard key "@ + workflow::dotted(namespace, name) + "."@
                    + t.shard_key_column@ + " as type oid "@ + text::decimal(
                    columns[k].type_oid as int,
                ) + ", which cannot be hashed as declared "@ + shardfn::type_text(
                    t.shard_key_type,
                ),
            )
        } else if !((replica_identity == 100 || replica_identity == 105) && columns[k].flags % 2
            == 1) {
            Err(
                "replica identity of "@ + workflow::dotted(namespace, name)
                    + " no longer covers shard key "@ + t.shard_key_column@
                    + ": updates and deletes could not be range-filtered"@,
            )
        } else {
            Ok(RelFilter { key_index: k as usize, key_type: t.shard_key_type })
        }
    }
}

pub open spec fn unknown_relation(oid: u32) -> Seq<char> {
    "row for unknown relation oid "@ + text::decimal(oid as int)
}

/// The old image of a row: its key, or the whole row.
pub open spec fn old_image(key: Option<Seq<Cell>>, before: Option<Seq<Cell>>) -> Option<Seq<Cell>> {
    match key {
        Some(k) => Some(k),
        None => before,
    }
}

/// Whether a message is applied, or why the workflow fails.
///
/// The router forbids shard-key updates, but triggers and
/// direct writes do not go through the router. The replica
/// identity covers the shard key, so a key
/// change always ships the old identity tuple; a row crossing
/// the range boundary cannot be represented as an UPDATE on
/// one side (in→out leaves a stale target row, out→in updates
/// a row that is not there). A truncate cannot be range-filtered; replaying it would wipe
/// the target's whole keyspace slice for rows outside the
/// source's responsibility.
pub open spec fn stream_decision<F: ShardFunction>(
    run: RunPlan,
    relations: Map<u32, RelFilter>,
    e: Event,
    shard_fn: &F,
) -> Result<bool, Seq<char>> {
    match e {
        Event::Relation { namespace, name, replica_identity, columns, .. } => match relation_filter(
            run,
            namespace,
            name,
            replica_identity,
            columns,
        ) {
            Ok(_) => Ok(true),
            Err(f) => Err(f),
        },
        Event::Insert { rel_oid, new_tuple, .. } => if !relations.contains_key(rel_oid) {
            Err(unknown_relation(rel_oid))
        } else {
            row_in_range(new_tuple, relations[rel_oid], run.range, shard_fn)
        },
        Event::Update { rel_oid, key, before, new_tuple, .. } => if !relations.contains_key(
            rel_oid,
        ) {
            Err(unknown_relation(rel_oid))
        } else {
            match row_in_range(new_tuple, relations[rel_oid], run.range, shard_fn) {
                Err(f) => Err(f),
                Ok(new_in) => match old_image(key, before) {
                    None => Ok(new_in),
                    Some(row) => match row_in_range(
                        row,
                        relations[rel_oid],
                        run.range,
                        shard_fn,
                    ) {
                        Err(f) => Err(f),
                        Ok(old_in) => if old_in == new_in {
                            Ok(new_in)
                        } else {
                            Err(
                                "update moves a shard key across the target range boundary: the source row was written outside the router"@,
                            )
                        },
                    },
                },
            }
        },
        Event::Delete { rel_oid, key, before, .. } => if !relations.contains_key(rel_oid) {
            Err(unknown_relation(rel_oid))
        } else {
            match old_image(key, before) {
                None => Err("delete without key or old tuple"@),
                Some(row) => row_in_range(row, relations[rel_oid], run.range, shard_fn),
            }
        },
        Event::Truncate { .. } => Err(
            "TRUNCATE on a seeded table is not supported during seeding"@,
        ),
        _ => Ok(true),
    }
}

/// The filters known after a message.
pub open spec fn relations_after(
    run: RunPlan,
    relations: Map<u32, RelFilter>,
    e: Event,
) -> Map<u32, RelFilter> {
    match e {
        Event::Relation { oid, namespace, name, replica_identity, columns, .. } => {
            match relation_filter(run, namespace, name, replica_identity, columns) {
                Ok(f) => relations.insert(oid, f),
                Err(_) => relations,
            }
        },
        _ => relations,
    }
}

/// The journal message of the current transaction after a message. The cutover freeze
/// barrier is a transactional message of the prefix `pgshard`: its OWN WAL position is the
/// value the operator compares against the emitted journal's LSN — an
/// explicit database-local acknowledgement, immune to WAL from
/// other databases.
pub open spec fn journal_after(pending: Option<u64>, e: Event) -> Option<u64> {
    match e {
        Event::Message { transactional, lsn, prefix, .. } => if prefix == "pgshard"@
            && transactional {
            Some(lsn.0)
        } else {
            pending
        },
        _ => pending,
    }
}

proof fn lemma_table_at(tables: Seq<TablePlan>, schema: Seq<char>, name: Seq<char>, p: int)
    requires
        0 <= p <= tables.len(),
        p < tables.len() ==> tables[p].schema@ == schema && tables[p].name@ == name,
        forall|k: int|
            0 <= k < p ==> !((#[trigger] tables[k]).schema@ == schema && tables[k].name@ == name),
    ensures
        table_at(tables, schema, name) == p,
    decreases tables.len(),
{
    if p > 0 {
        assert(!(tables[0].schema@ == schema && tables[0].name@ == name));
        let t = tables.drop_first();
        assert forall|k: int| 0 <= k < p - 1 implies !((#[trigger] t[k]).schema@ == schema
            && t[k].name@ == name) by {
            assert(t[k] == tables[k + 1]);
        }
        lemma_table_at(t, schema, name, p - 1);
    }
}

proof fn lemma_declared_at(columns: Seq<ColumnDecl>, name: Seq<char>, p: int)
    requires
        0 <= p <= columns.len(),
        p < columns.len() ==> columns[p].name == name,
        forall|k: int| 0 <= k < p ==> (#[trigger] columns[k]).name != name,
    ensures
        declared_at(columns, name) == p,
    decreases columns.len(),
{
    if p > 0 {
        assert(columns[0].name != name);
        let t = columns.drop_first();
        assert forall|k: int| 0 <= k < p - 1 implies (#[trigger] t[k]).name != name by {
            assert(t[k] == columns[k + 1]);
        }
        lemma_declared_at(t, name, p - 1);
    }
}

fn find_table(tables: &Vec<TablePlan>, schema: &str, name: &str) -> (r: usize)
    ensures
        r == table_at(tables@, schema@, name@),
        r <= tables@.len(),
{
    let mut i: usize = 0;
    while i < tables.len() && !(text::same(tables[i].schema.as_str(), schema) && text::same(
        tables[i].name.as_str(),
        name,
    ))
        invariant
            i <= tables@.len(),
            forall|k: int|
                0 <= k < i ==> !((#[trigger] tables@[k]).schema@ == schema@ && tables@[k].name@
                    == name@),
        decreases tables@.len() - i,
    {
        i += 1;
    }
    proof {
        lemma_table_at(tables@, schema@, name@, i as int);
    }
    i
}

/// The filter of a relation that the stream describes.
pub fn filter_of(run: &RunPlan, rel: &Relation<'_>) -> (r: Result<RelFilter, String>)
    ensures
        match relation_filter(
            *run,
            rel.namespace@,
            rel.name@,
            rel.replica_identity,
            pgoutput::column_views(rel.columns@),
        ) {
            Ok(f) => r == Ok::<RelFilter, String>(f),
            Err(f) => r is Err && r->Err_0@ == f,
        },
{
    let i: usize = find_table(&run.tables, rel.namespace, rel.name);
    let table = text::concat3(rel.namespace, ".", rel.name);
    if i == run.tables.len() {
        return Err(
            text::concat3(
                "stream carries unmapped table ",
                table.as_str(),
                ": publication wider than the spec",
            ),
        );
    }
    let t = &run.tables[i];
    let ghost columns = pgoutput::column_views(rel.columns@);
    let k: usize = match shard_key_index(rel, t.shard_key_column.as_str()) {
        Ok(k) => k,
        Err(e) => {
            proof {
                assert forall|j: int| 0 <= j < columns.len() implies (#[trigger] columns[j]).name
                    != t.shard_key_column@ by {
                    assert(rel.columns@[j].name@ != t.shard_key_column@);
                }
                lemma_declared_at(columns, t.shard_key_column@, columns.len() as int);
            }
            return Err(e.to_string());
        },
    };
    proof {
        assert(columns[k as int].name == t.shard_key_column@);
        assert forall|j: int| 0 <= j < k implies (#[trigger] columns[j]).name
            != t.shard_key_column@ by {
            assert(rel.columns@[j].name@ != t.shard_key_column@);
        }
        lemma_declared_at(columns, t.shard_key_column@, k as int);
    }
    let oid: u32 = rel.columns[k].type_oid;
    if !hashable(t.shard_key_type, oid) {
        let head = text::concat5(
            "stream reports shard key ",
            table.as_str(),
            ".",
            t.shard_key_column.as_str(),
            " as type oid ",
        );
        return Err(
            text::concat4(
                head.as_str(),
                text::decimal_u64(oid as u64).as_str(),
                ", which cannot be hashed as declared ",
                shardfn::type_str(t.shard_key_type),
            ),
        );
    }
    if !((rel.replica_identity == 100 || rel.replica_identity == 105) && rel.columns[k].is_key()) {
        return Err(
            text::concat5(
                "replica identity of ",
                table.as_str(),
                " no longer covers shard key ",
                t.shard_key_column.as_str(),
                ": updates and deletes could not be range-filtered",
            ),
        );
    }
    Ok(RelFilter { key_index: k, key_type: t.shard_key_type })
}

fn in_range<F: ShardFunction>(
    tuple: &pgoutput::TupleData<'_>,
    f: RelFilter,
    range: &KeyRange,
    shard_fn: &F,
) -> (r: Result<bool, String>)
    ensures
        match row_in_range(tuple@, f, *range, shard_fn) {
            Ok(b) => r == Ok::<bool, String>(b),
            Err(e) => r is Err && r->Err_0@ == e,
        },
{
    match tuple_in_range(tuple, f.key_index, f.key_type, shard_fn, range) {
        Ok(b) => Ok(b),
        Err(e) => Err(e.to_string()),
    }
}

impl Seeding {
    fn rel_filter(&self, oid: u32) -> (r: Result<RelFilter, String>)
        ensures
            if self.relations@.contains_key(oid) {
                r == Ok::<RelFilter, String>(self.relations@[oid])
            } else {
                r is Err && r->Err_0@ == unknown_relation(oid)
            },
    {
        match self.relations.get(&oid) {
            Some(f) => Ok(*f),
            None => Err(
                text::concat2(
                    "row for unknown relation oid ",
                    text::decimal_u64(oid as u64).as_str(),
                ),
            ),
        }
    }

    fn decide<F: ShardFunction>(&mut self, msg: &LogicalRepMsg<'_>, shard_fn: &F) -> (r: Result<
        bool,
        String,
    >)
        ensures
            match stream_decision(old(self).run, old(self).relations@, msg@, shard_fn) {
                Ok(b) => r == Ok::<bool, String>(b),
                Err(e) => r is Err && r->Err_0@ == e,
            },
            final(self).relations@ == relations_after(
                old(self).run,
                old(self).relations@,
                msg@,
            ),
            final(self).run == old(self).run,
            final(self).tables == old(self).tables,
            final(self).publication == old(self).publication,
            final(self).step == old(self).step,
            final(self).snapshot == old(self).snapshot,
            final(self).consistent_point == old(self).consistent_point,
            final(self).rows_copied == old(self).rows_copied,
            final(self).progress == old(self).progress,
            final(self).pending_journal == old(self).pending_journal,
    {
        match msg {
            LogicalRepMsg::Relation(rel) => match filter_of(&self.run, rel) {
                Ok(f) => {
                    self.relations.insert(rel.oid, f);
                    Ok(true)
                },
                Err(e) => Err(e),
            },
            LogicalRepMsg::Insert(ins) => {
                let f = match self.rel_filter(ins.rel_oid) {
                    Ok(f) => f,
                    Err(e) => {
                        return Err(e);
                    },
                };
                in_range(&ins.new_tuple, f, &self.run.range, shard_fn)
            },
            LogicalRepMsg::Update(upd) => {
                let f = match self.rel_filter(upd.rel_oid) {
                    Ok(f) => f,
                    Err(e) => {
                        return Err(e);
                    },
                };
                let new_in = match in_range(&upd.new_tuple, f, &self.run.range, shard_fn) {
                    Ok(b) => b,
                    Err(e) => {
                        return Err(e);
                    },
                };
                let image = match &upd.key {
                    Some(k) => Some(k),
                    None => match &upd.old {
                        Some(o) => Some(o),
                        None => None,
                    },
                };
                match image {
                    Some(row) => match in_range(row, f, &self.run.range, shard_fn) {
                        Ok(old_in) => {
                            if old_in == new_in {
                                Ok(new_in)
                            } else {
                                Err(
                                    "update moves a shard key across the target range boundary: the source row was written outside the router".to_owned(),
                                )
                            }
                        },
                        Err(e) => Err(e),
                    },
                    None => Ok(new_in),
                }
            },
            LogicalRepMsg::Delete(del) => {
                let f = match self.rel_filter(del.rel_oid) {
                    Ok(f) => f,
                    Err(e) => {
                        return Err(e);
                    },
                };
                let image = match &del.key {
                    Some(k) => Some(k),
                    None => match &del.old {
                        Some(o) => Some(o),
                        None => None,
                    },
                };
                match image {
                    Some(row) => in_range(row, f, &self.run.range, shard_fn),
                    None => Err("delete without key or old tuple".to_owned()),
                }
            },
            LogicalRepMsg::Truncate(_) => Err(
                "TRUNCATE on a seeded table is not supported during seeding".to_owned(),
            ),
            _ => Ok(true),
        }
    }

    /// Whether the applier is to handle a message of the stream; an error fails the workflow.
    pub fn stream<F: ShardFunction>(&mut self, msg: &LogicalRepMsg<'_>, shard_fn: &F) -> (r: Result<
        bool,
        String,
    >)
        ensures
            match stream_decision(old(self).run, old(self).relations@, msg@, shard_fn) {
                Ok(b) => r == Ok::<bool, String>(b),
                Err(e) => r is Err && r->Err_0@ == e,
            },
            final(self).relations@ == relations_after(
                old(self).run,
                old(self).relations@,
                msg@,
            ),
            final(self).pending_journal == journal_after(old(self).pending_journal, msg@),
            final(self).run == old(self).run,
            final(self).tables == old(self).tables,
            final(self).publication == old(self).publication,
            final(self).step == old(self).step,
            final(self).snapshot == old(self).snapshot,
            final(self).consistent_point == old(self).consistent_point,
            final(self).rows_copied == old(self).rows_copied,
            final(self).progress == old(self).progress,
    {
        match msg {
            LogicalRepMsg::Message(m) => {
                if m.transactional && text::same(m.prefix, "pgshard") {
                    self.pending_journal = Some(m.lsn.0);
                }
            },
            _ => {},
        }
        self.decide(msg, shard_fn)
    }

    /// Records that a transaction has been applied, and its end acknowledged. A journal
    /// message that it held is acknowledged with it.
    pub fn committed(&mut self, ack: Lsn)
        ensures
            final(self).progress == (SeedProgress {
                applied_lsn: Some(ack.0),
                journal_lsn: match old(self).pending_journal {
                    Some(j) => Some(j),
                    None => old(self).progress.journal_lsn,
                },
                ..old(self).progress
            }),
            final(self).pending_journal is None,
            final(self).run == old(self).run,
            final(self).tables == old(self).tables,
            final(self).publication == old(self).publication,
            final(self).step == old(self).step,
            final(self).snapshot == old(self).snapshot,
            final(self).consistent_point == old(self).consistent_point,
            final(self).rows_copied == old(self).rows_copied,
            final(self).relations == old(self).relations,
    {
        let journal = match self.pending_journal {
            Some(j) => Some(j),
            None => self.progress.journal_lsn,
        };
        self.pending_journal = None;
        self.progress = SeedProgress {
            applied_lsn: Some(ack.0),
            journal_lsn: journal,
            ..self.progress
        };
    }

    /// Compares the publication as it is now with the one that was preflighted. ALTER
    /// PUBLICATION mid-stream makes pgoutput silently omit changes with
    /// no Relation message to betray it; the only defense is to poll the
    /// catalog and fail loudly on drift.
    pub fn poll(&self, now: &PublicationBaseline) -> (r: Result<(), String>)
        ensures
            preflight::passes(r, drift_fault(self.run, self.publication, *now)),
    {
        if !now.shape.same(&self.publication.shape) {
            return Err(
                text::concat3(
                    "publication ",
                    self.run.publication.as_str(),
                    " changed while streaming: the stream may have silently omitted changes",
                ),
            );
        }
        if now.xid > self.publication.xid {
            if now.xid - self.publication.xid >= self.publication.horizon {
                return Err(RECURRENCE.to_owned());
            }
        } else if self.publication.horizon == 0 {
            return Err(RECURRENCE.to_owned());
        }
        Ok(())
    }
}

/// What is said when a captured row version could recur.
pub const RECURRENCE: &'static str =
    "the source has consumed enough xids since this workflow began that a captured catalog row version could recur; the versions can no longer be trusted";

/// How many xids were consumed since the baseline.
pub open spec fn consumed(baseline: PublicationBaseline, now: PublicationBaseline) -> int {
    if now.xid > baseline.xid {
        now.xid - baseline.xid
    } else {
        0
    }
}

/// What is wrong with the publication as it is now.
pub open spec fn drift_fault(
    run: RunPlan,
    baseline: PublicationBaseline,
    now: PublicationBaseline,
) -> Option<Seq<char>> {
    if now.shape@ != baseline.shape@ {
        Some(
            "publication "@ + run.publication@
                + " changed while streaming: the stream may have silently omitted changes"@,
        )
    } else if consumed(baseline, now) >= baseline.horizon {
        Some(RECURRENCE@)
    } else {
        None
    }
}

// ---------------------------------------------------------------------------------------
// Laws.
// ---------------------------------------------------------------------------------------

/// Only rows of the target's range are applied: an insert's or update's new row, and a
/// delete's old image.
pub proof fn law_only_rows_in_range_are_applied<F: ShardFunction>(
    run: RunPlan,
    relations: Map<u32, RelFilter>,
    e: Event,
    shard_fn: &F,
)
    requires
        stream_decision(run, relations, e, shard_fn) == Ok::<bool, Seq<char>>(true),
    ensures
        match e {
            Event::Insert { rel_oid, new_tuple, .. } => row_in_range(
                new_tuple,
                relations[rel_oid],
                run.range,
                shard_fn,
            ) == Ok::<bool, Seq<char>>(true),
            Event::Update { rel_oid, new_tuple, .. } => row_in_range(
                new_tuple,
                relations[rel_oid],
                run.range,
                shard_fn,
            ) == Ok::<bool, Seq<char>>(true),
            Event::Delete { rel_oid, key, before, .. } => old_image(key, before) is Some
                && row_in_range(
                old_image(key, before)->0,
                relations[rel_oid],
                run.range,
                shard_fn,
            ) == Ok::<bool, Seq<char>>(true),
            Event::Truncate { .. } => false,
            _ => true,
        },
{
}

/// An update that moves a row across the range's boundary fails the workflow, whichever way
/// it moves.
pub proof fn law_boundary_crossings_fail<F: ShardFunction>(
    run: RunPlan,
    relations: Map<u32, RelFilter>,
    xid: Option<u32>,
    rel_oid: u32,
    key: Option<Seq<Cell>>,
    before: Option<Seq<Cell>>,
    new_tuple: Seq<Cell>,
    shard_fn: &F,
    old_in: bool,
)
    requires
        relations.contains_key(rel_oid),
        old_image(key, before) is Some,
        row_in_range(old_image(key, before)->0, relations[rel_oid], run.range, shard_fn) == Ok::<
            bool,
            Seq<char>,
        >(old_in),
        row_in_range(new_tuple, relations[rel_oid], run.range, shard_fn) == Ok::<bool, Seq<char>>(
            !old_in,
        ),
    ensures
        stream_decision(
            run,
            relations,
            Event::Update { xid, rel_oid, key, before, new_tuple },
            shard_fn,
        ) is Err,
{
}

/// A slot that is not provably this workflow's is never dropped.
pub proof fn law_foreign_slots_survive(run: RunPlan, s: Stage, e: SeedEvent)
    requires
        seed_next(run, s, e) is DropSlot,
        !(s is DropSlot),
    ensures
        s is FindSlot,
        e matches SeedEvent::Slot(Some(i)) && !i.active && text::option_view(i.plugin) == Some(
            "pgoutput"@,
        ) && text::option_view(i.database) == Some(run.source.database@),
{
}

/// What comes before a step: a table is truncated only after the checkpoint was cleared or
/// the table before it copied, the checkpoint is cleared only after the slot was created, and
/// streaming starts only after every table was copied.
pub proof fn law_steps_come_in_order(run: RunPlan, s: Stage, e: SeedEvent)
    requires
        seed_next(run, s, e) != s,
    ensures
        seed_next(run, s, e) is ClearCheckpoint ==> s is CreateSlot,
        seed_next(run, s, e) matches Stage::Truncate(n) ==> (s is ClearCheckpoint && n == 0) || s
            == Stage::Copy(n - 1),
        seed_next(run, s, e) matches Stage::Copy(n) ==> s == Stage::Truncate(n),
        seed_next(run, s, e) is StartStream ==> (s is ClearCheckpoint && run.tables@.len() == 0) || (
        s matches Stage::Copy(n) && n + 1 >= run.tables@.len()),
        seed_next(run, s, e) is Stream ==> s is OpenApplier,
{
}

/// A poll that passes proves that nothing was rewritten: the versions are those that were
/// captured, and no captured xmin can have been assigned again since.
pub proof fn law_a_passed_poll_means_no_drift(
    run: RunPlan,
    baseline: PublicationBaseline,
    now: PublicationBaseline,
    i: int,
    k: int,
)
    requires
        drift_fault(run, baseline, now) is None,
        preflight::horizon_of(baseline.xid, baseline.shape.versions@) == Ok::<int, Seq<char>>(
            baseline.horizon as int,
        ),
        0 <= i < baseline.shape.versions@.len(),
        preflight::xmin_of(baseline.shape.versions@[i].2@)->0 >= 3,
        0 < k <= consumed(baseline, now),
    ensures
        now.shape@ == baseline.shape@,
        (baseline.xid + k) % 0x1_0000_0000 != preflight::xmin_of(
            baseline.shape.versions@[i].2@,
        )->0,
{
    preflight::law_no_captured_xmin_recurs(baseline.xid, baseline.shape.versions@, i, k);
}

/// Each step that is done leads to the next: a slot is looked for, dropped where it is this
/// workflow's, and created; the checkpoint is cleared; every table is truncated and copied in
/// turn; and then the stream is applied.
pub proof fn law_steps_lead_on(run: RunPlan, n: int, snapshot: String, lsn: Lsn, rows: u64)
    requires
        0 <= n < run.tables@.len(),
    ensures
        seed_next(run, Stage::FindSlot, SeedEvent::Slot(None)) is CreateSlot,
        seed_next(run, Stage::DropSlot, SeedEvent::Done) is CreateSlot,
        seed_next(run, Stage::CreateSlot, SeedEvent::Created(snapshot, lsn)) is ClearCheckpoint,
        seed_next(run, Stage::ClearCheckpoint, SeedEvent::Done) == Stage::Truncate(0),
        seed_next(run, Stage::ClearCheckpoint, SeedEvent::NoProgressTable) == Stage::Truncate(0),
        seed_next(run, Stage::Truncate(n), SeedEvent::Done) == Stage::Copy(n),
        n + 1 < run.tables@.len() ==> seed_next(run, Stage::Copy(n), SeedEvent::Copied(rows))
            == Stage::Truncate(n + 1),
        n + 1 == run.tables@.len() ==> seed_next(run, Stage::Copy(n), SeedEvent::Copied(rows))
            is StartStream,
        seed_next(run, Stage::StartStream, SeedEvent::Done) is OpenApplier,
        seed_next(run, Stage::OpenApplier, SeedEvent::Done) is Stream,
{
}

/// A failure, a lost connection, or the end of the stream fails the workflow, and a workflow
/// that has failed or stopped stays so.
pub proof fn law_failures_are_final(run: RunPlan, s: Stage, e: SeedEvent, m: String)
    ensures
        !(s is Stopped) && !(s is Failed) ==> seed_next(run, s, SeedEvent::Lost(m))
            == Stage::Failed(m@),
        !(s is Stopped) ==> seed_next(run, s, SeedEvent::Failed(m)) is Failed,
        seed_next(run, Stage::Stream, SeedEvent::Ended) is Failed,
        s is Stopped || s is Failed ==> seed_next(run, s, e) == s,
{
}

/// A slot is refused exactly where it is in use, is not one of `pgoutput`, or belongs to
/// another database.
pub proof fn law_only_idle_slots_of_the_source_are_dropped(run: RunPlan, i: SlotInfo)
    ensures
        slot_fault(run, i) is None <==> !i.active && i.plugin is Some && i.plugin->0@
            == "pgoutput"@ && i.database is Some && i.database->0@ == run.source.database@,
        seed_next(run, Stage::FindSlot, SeedEvent::Slot(Some(i))) is DropSlot <==> slot_fault(
            run,
            i,
        ) is None,
        seed_next(run, Stage::FindSlot, SeedEvent::Slot(Some(i))) is Failed <==> slot_fault(
            run,
            i,
        ) is Some,
{
}

/// Progress is what was done: no table and no row when the copy starts, then the tables and
/// the rows so far, and once the stream is applied the position that the copy holds.
pub proof fn law_progress_is_what_was_done(
    s: Seeding,
    n: int,
    rows: u64,
    snapshot: String,
    lsn: Lsn,
    m: String,
)
    requires
        0 <= n < s.run.tables@.len() <= u32::MAX,
        s.rows_copied + rows <= u64::MAX,
    ensures
        s.step@ is CreateSlot ==> {
            let p = progress_next(s, SeedEvent::Created(snapshot, lsn));
            &&& p.phase is Copy
            &&& p.copy is Some
            &&& p.copy->0.tables_total == s.run.tables@.len()
            &&& p.copy->0.tables_done == 0
            &&& p.copy->0.rows_copied == 0
        },
        s.step@ == Stage::Copy(n) ==> {
            let p = progress_next(s, SeedEvent::Copied(rows));
            &&& p.phase == s.progress.phase
            &&& p.copy is Some
            &&& p.copy->0.tables_total == s.run.tables@.len()
            &&& p.copy->0.tables_done == n + 1
            &&& p.copy->0.rows_copied == s.rows_copied + rows
        },
        s.step@ is OpenApplier ==> {
            let p = progress_next(s, SeedEvent::Done);
            &&& p.phase is Streaming
            &&& p.applied_lsn == Some(s.consistent_point.0)
            &&& p.copy == s.progress.copy
        },
        !(s.step@ is Failed) && !(s.step@ is Stopped) ==> progress_next(s, SeedEvent::Lost(m)).phase
            is Error,
{
}

/// A relation of the stream is filtered by the key column of the table that is moved under
/// its name: one that is not moved, lacks the column, or has it under a type that does not
/// hash so or outside its identity fails the workflow.
pub proof fn law_relations_are_filtered_by_their_key(
    run: RunPlan,
    namespace: Seq<char>,
    name: Seq<char>,
    identity: u8,
    columns: Seq<ColumnDecl>,
)
    requires
        columns.len() <= usize::MAX,
    ensures
        (forall|i: int|
            0 <= i < run.tables@.len() ==> (#[trigger] run.tables@[i]).schema@ != namespace
                || run.tables@[i].name@ != name) ==> relation_filter(
            run,
            namespace,
            name,
            identity,
            columns,
        ) is Err,
        relation_filter(run, namespace, name, identity, columns) matches Ok(f) ==> exists|i: int|
            {
                &&& 0 <= i < run.tables@.len()
                &&& (#[trigger] run.tables@[i]).schema@ == namespace
                &&& run.tables@[i].name@ == name
                &&& f.key_index < columns.len()
                &&& columns[f.key_index as int].name == run.tables@[i].shard_key_column@
                &&& f.key_type == run.tables@[i].shard_key_type
                &&& preflight::key_oids(f.key_type).contains(columns[f.key_index as int].type_oid)
                &&& columns[f.key_index as int].flags % 2 == 1
                &&& identity == 100 || identity == 105
            },
{
    let i = table_at(run.tables@, namespace, name);
    lemma_table_found(run.tables@, namespace, name);
    if i < run.tables@.len() {
        lemma_column_found(columns, run.tables@[i].shard_key_column@);
        assert(run.tables@[i].schema@ == namespace);
    }
}

proof fn lemma_table_found(tables: Seq<TablePlan>, schema: Seq<char>, name: Seq<char>)
    ensures
        0 <= table_at(tables, schema, name) <= tables.len(),
        table_at(tables, schema, name) < tables.len() ==> tables[table_at(
            tables,
            schema,
            name,
        )].schema@ == schema && tables[table_at(tables, schema, name)].name@ == name,
    decreases tables.len(),
{
    if tables.len() > 0 && !(tables[0].schema@ == schema && tables[0].name@ == name) {
        lemma_table_found(tables.drop_first(), schema, name);
    }
}

proof fn lemma_column_found(columns: Seq<ColumnDecl>, name: Seq<char>)
    ensures
        0 <= declared_at(columns, name) <= columns.len(),
        declared_at(columns, name) < columns.len() ==> columns[declared_at(columns, name)].name
            == name,
    decreases columns.len(),
{
    if columns.len() > 0 && columns[0].name != name {
        lemma_column_found(columns.drop_first(), name);
    }
}

/// What the stream cannot place fails the workflow: a row of a relation that it has not
/// announced, a delete that says nothing of the row, and a truncate.
pub proof fn law_what_cannot_be_placed_fails<F: ShardFunction>(
    run: RunPlan,
    relations: Map<u32, RelFilter>,
    xid: Option<u32>,
    oid: u32,
    row: Seq<Cell>,
    old: Option<Seq<Cell>>,
    options: u8,
    oids: Seq<u32>,
    shard_fn: &F,
)
    ensures
        !relations.contains_key(oid) ==> {
            &&& stream_decision(
                run,
                relations,
                Event::Insert { xid, rel_oid: oid, new_tuple: row },
                shard_fn,
            ) is Err
            &&& stream_decision(
                run,
                relations,
                Event::Update { xid, rel_oid: oid, key: old, before: None, new_tuple: row },
                shard_fn,
            ) is Err
            &&& stream_decision(
                run,
                relations,
                Event::Delete { xid, rel_oid: oid, key: old, before: None },
                shard_fn,
            ) is Err
        },
        stream_decision(
            run,
            relations,
            Event::Delete { xid, rel_oid: oid, key: None, before: None },
            shard_fn,
        ) is Err,
        stream_decision(
            run,
            relations,
            Event::Truncate { xid, options, relations: oids },
            shard_fn,
        ) is Err,
{
}

/// A row of the stream is applied exactly where its key's id lies in the target's range; an
/// update or a delete goes by the old image that it brings, key or whole row alike.
pub proof fn law_stream_rows_go_by_their_id<F: ShardFunction>(
    run: RunPlan,
    relations: Map<u32, RelFilter>,
    xid: Option<u32>,
    oid: u32,
    row: Seq<Cell>,
    shard_fn: &F,
)
    requires
        relations.contains_key(oid),
        filter::row_key(row, relations[oid].key_index as int, relations[oid].key_type) is Ok,
    ensures
        ({
            let f = relations[oid];
            let id = shard_fn.id_of(filter::row_key(row, f.key_index as int, f.key_type)->Ok_0);
            let inside = Ok::<bool, Seq<char>>(run.range.holds(id));
            let some = Some(row);
            &&& stream_decision(
                run,
                relations,
                Event::Insert { xid, rel_oid: oid, new_tuple: row },
                shard_fn,
            ) == inside
            &&& stream_decision(
                run,
                relations,
                Event::Update { xid, rel_oid: oid, key: None, before: None, new_tuple: row },
                shard_fn,
            ) == inside
            &&& stream_decision(
                run,
                relations,
                Event::Update { xid, rel_oid: oid, key: some, before: None, new_tuple: row },
                shard_fn,
            ) == inside
            &&& stream_decision(
                run,
                relations,
                Event::Update { xid, rel_oid: oid, key: None, before: some, new_tuple: row },
                shard_fn,
            ) == inside
            &&& stream_decision(
                run,
                relations,
                Event::Delete { xid, rel_oid: oid, key: some, before: None },
                shard_fn,
            ) == inside
            &&& stream_decision(
                run,
                relations,
                Event::Delete { xid, rel_oid: oid, key: None, before: some },
                shard_fn,
            ) == inside
        }),
{
}

/// A journal entry is a message of the transaction under the prefix `pgshard`, and no other.
pub proof fn law_journal_entries_are_marked(
    pending: Option<u64>,
    xid: Option<u32>,
    transactional: bool,
    lsn: Lsn,
    prefix: Seq<char>,
    content: Seq<u8>,
)
    ensures
        transactional && prefix == "pgshard"@ ==> journal_after(
            pending,
            Event::Message { xid, transactional, lsn, prefix, content },
        ) == Some(lsn.0),
        !transactional || prefix != "pgshard"@ ==> journal_after(
            pending,
            Event::Message { xid, transactional, lsn, prefix, content },
        ) == pending,
{
}

/// A publication has drifted exactly where its shape is another one, or where so many
/// transactions have passed that a captured one could come again.
pub proof fn law_drift_is_exact(
    run: RunPlan,
    baseline: PublicationBaseline,
    now: PublicationBaseline,
)
    ensures
        drift_fault(run, baseline, now) is None <==> now.shape@ == baseline.shape@ && (if now.xid
            > baseline.xid {
            now.xid - baseline.xid < baseline.horizon
        } else {
            0 < baseline.horizon
        }),
{
}

} // verus!
