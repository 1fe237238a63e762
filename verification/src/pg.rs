//! What the agent asks of the local PostgreSQL, and what it makes of the answers: statuses,
//! shard databases bound to their placement, and the source side of a seeding workflow.
//! Running the statements is with whoever holds the connection.
use crate::bytes;
use crate::instance::{self, ForeignDatabase, Snapshot};
use crate::lsn;
use crate::quote;
use crate::text;
use vstd::prelude::*;
use vstd::string::*;

verus! {

/// The local PostgreSQL, by its libpq connection string.
#[derive(Debug, Clone, PartialEq, Eq)]
pub struct PgInstance {
    pub conn_string: String,
}

impl PgInstance {
    pub fn new(conn_string: String) -> (r: PgInstance)
        ensures
            r.conn_string == conn_string,
    {
        PgInstance { conn_string }
    }
}

// ---------------------------------------------------------------------------------------
// Positions.
// ---------------------------------------------------------------------------------------

/// The value of a hex numeral, or zero.
pub open spec fn hex_or_zero(s: Seq<char>) -> u64 {
    match text::parse_unsigned(s, 16) {
        Some(v) => v,
        None => 0,
    }
}

/// The position that a text is read as: two hex numerals around the first slash. What does
/// not read as one counts as zero.
pub open spec fn lenient_lsn(s: Seq<char>) -> u64 {
    let p = text::position(s, '/');
    if p == s.len() {
        0
    } else {
        (hex_or_zero(s.subrange(0, p)) << 32) | hex_or_zero(s.subrange(p + 1, s.len() as int))
    }
}

/// PostgreSQL text LSN ("X/Y", hex) to the u64 the wire protocol uses.
pub fn parse_lsn(text: &str) -> (r: u64)
    ensures
        r == lenient_lsn(text@),
{
    let cs = text::chars(text);
    let p: usize = text::find(&cs, '/');
    if p == cs.len() {
        return 0;
    }
    let hi: u64 = match text::read_unsigned(&text::slice_chars(&cs, 0, p), 16) {
        Some(v) => v,
        None => 0,
    };
    let lo: u64 = match text::read_unsigned(&text::slice_chars(&cs, p + 1, cs.len()), 16) {
        Some(v) => v,
        None => 0,
    };
    (hi << 32) | lo
}

/// On every well-formed position the lenient reading gives the strict one.
pub proof fn law_lenient_reading_agrees(s: Seq<char>)
    requires
        lsn::parsed_lsn(s) is Some,
    ensures
        lsn::parsed_lsn(s) == Some(lenient_lsn(s)),
{
    let p = text::position(s, '/');
    let hi = hex_or_zero(s.subrange(0, p));
    let lo = hex_or_zero(s.subrange(p + 1, s.len() as int));
    assert((hi << 32) | lo == hi * 0x1_0000_0000 + lo) by (bit_vector)
        requires
            hi <= 0xffff_ffff,
            lo <= 0xffff_ffff,
    ;
}

// ---------------------------------------------------------------------------------------
// Status.
// ---------------------------------------------------------------------------------------

/// The one row of the status query. Each side's positions are NULL on the other role.
pub struct SnapshotRow {
    pub in_recovery: bool,
    pub timeline: i32,
    pub write_lsn: Option<String>,
    pub receive_lsn: Option<String>,
    pub replay_lsn: Option<String>,
    pub receiver_active: bool,
    pub version: String,
    pub system_id: i64,
}

/// A position that may be NULL.
pub open spec fn lsn_or_zero(s: Option<String>) -> u64 {
    match s {
        Some(t) => lenient_lsn(t@),
        None => 0,
    }
}

fn read_lsn(s: &Option<String>) -> (r: u64)
    ensures
        r == lsn_or_zero(*s),
{
    match s {
        Some(t) => parse_lsn(t.as_str()),
        None => 0,
    }
}

/// The reading of a status row. A successful query means the instance accepts connections.
pub fn snapshot(row: SnapshotRow) -> (r: Snapshot)
    ensures
        r.in_recovery == row.in_recovery,
        r.accepting,
        r.timeline == bytes::bits32(row.timeline),
        r.write_lsn == lsn_or_zero(row.write_lsn),
        r.receive_lsn == lsn_or_zero(row.receive_lsn),
        r.replay_lsn == lsn_or_zero(row.replay_lsn),
        r.receiver_active == row.receiver_active,
        r.postgres_version == row.version,
        r.system_id == bytes::bits64(row.system_id),
        !r.fenced,
{
    Snapshot {
        in_recovery: row.in_recovery,
        accepting: true,
        timeline: bytes::to_bits32(row.timeline),
        write_lsn: read_lsn(&row.write_lsn),
        receive_lsn: read_lsn(&row.receive_lsn),
        replay_lsn: read_lsn(&row.replay_lsn),
        receiver_active: row.receiver_active,
        postgres_version: row.version,
        system_id: bytes::to_bits64(row.system_id),
        fenced: false,
    }
}

// ---------------------------------------------------------------------------------------
// Shard databases.
// ---------------------------------------------------------------------------------------

/// The statement that creates a database, owned by `owner` when it is nonempty.
pub open spec fn create_database_sql(name: Seq<char>, owner: Seq<char>) -> Seq<char> {
    if owner.len() == 0 {
        "CREATE DATABASE "@ + quote::ident(name)
    } else {
        "CREATE DATABASE "@ + quote::ident(name) + " OWNER "@ + quote::ident(owner)
    }
}

/// The statement that stamps a database with its placement.
pub open spec fn stamp_sql(name: Seq<char>, provenance: Seq<char>) -> Seq<char> {
    "COMMENT ON DATABASE "@ + quote::ident(name) + " IS "@ + quote::literal(
        instance::marker(provenance),
    )
}

/// The statement that drops a database. IF EXISTS makes the drop idempotent; WITH (FORCE)
/// terminates any sessions still on the database, so it can be removed at once.
pub fn drop_database(name: &str) -> (r: String)
    ensures
        r@ == "DROP DATABASE IF EXISTS "@ + quote::ident(name@) + " WITH (FORCE)"@,
{
    text::concat3(
        "DROP DATABASE IF EXISTS ",
        quote::quote_ident(name).as_str(),
        " WITH (FORCE)",
    )
}

/// How often a creation looks again after losing a check-then-create race.
pub const CREATE_ATTEMPTS: u8 = 3;

/// How a creation ended.
#[derive(Debug, PartialEq, Eq)]
pub enum CreateOutcome {
    /// The database is there, with the wanted marker where one was wanted.
    Ready,
    /// A same-named database is there with this marker, which is another placement's.
    Foreign(Option<String>),
    /// The database kept flapping between absent and present.
    Flapping,
    /// A statement failed.
    Failed(String),
}

/// Where a creation stands.
#[derive(Debug, PartialEq, Eq)]
pub enum CreateState {
    Looking,
    Creating,
    Stamping,
    Finished(CreateOutcome),
}

/// What to do next.
#[derive(Debug, PartialEq, Eq)]
pub enum CreateAction {
    /// Look the database and its comment up.
    Look,
    Execute(String),
    Finish,
}

/// What came of it.
#[derive(Debug, PartialEq, Eq)]
pub enum CreateEvent {
    Absent,
    /// The database is there, with this comment.
    Existing(Option<String>),
    Executed,
    /// The statement failed because the database is already there.
    Duplicate,
    Failed(String),
}

/// Ensures that a database exists: verify or create, at most [`CREATE_ATTEMPTS`] times. Each
/// retry is a lost check-then-create race, and a create/drop flap must surface as a
/// retriable error rather than hold the caller forever.
#[derive(Debug, PartialEq, Eq)]
pub struct CreateDatabase {
    pub name: String,
    pub owner: String,
    pub provenance: String,
    pub adopt: bool,
    /// Attempts left.
    pub attempts: u8,
    pub state: CreateState,
}

/// What to do next, with its statement.
#[verifier::ext_equal]
pub enum CreateStep {
    Look,
    Execute(Seq<char>),
    Finish,
}

impl View for CreateAction {
    type V = CreateStep;

    open spec fn view(&self) -> CreateStep {
        match self {
            CreateAction::Look => CreateStep::Look,
            CreateAction::Execute(sql) => CreateStep::Execute(sql@),
            CreateAction::Finish => CreateStep::Finish,
        }
    }
}

pub open spec fn create_step(c: CreateDatabase) -> CreateStep {
    match c.state {
        CreateState::Looking => CreateStep::Look,
        CreateState::Creating => CreateStep::Execute(create_database_sql(c.name@, c.owner@)),
        CreateState::Stamping => CreateStep::Execute(stamp_sql(c.name@, c.provenance@)),
        CreateState::Finished(_) => CreateStep::Finish,
    }
}

/// Where a creation stands after an event, and how many attempts are left. An event that
/// does not answer the action changes nothing.
pub open spec fn create_next(c: CreateDatabase, e: CreateEvent) -> (CreateState, u8) {
    match (c.state, e) {
        (CreateState::Looking, CreateEvent::Absent) => (CreateState::Creating, c.attempts),
        (CreateState::Looking, CreateEvent::Existing(found)) => (
            if c.provenance@.len() == 0 || text::option_view(found) == Some(
                instance::marker(c.provenance@),
            ) {
                CreateState::Finished(CreateOutcome::Ready)
            } else if c.adopt {
                CreateState::Stamping
            } else {
                CreateState::Finished(CreateOutcome::Foreign(found))
            },
            c.attempts,
        ),
        (CreateState::Creating, CreateEvent::Executed) => (
            if c.provenance@.len() == 0 {
                CreateState::Finished(CreateOutcome::Ready)
            } else {
                CreateState::Stamping
            },
            c.attempts,
        ),
        (CreateState::Creating, CreateEvent::Duplicate) => if c.attempts <= 1 {
            (CreateState::Finished(CreateOutcome::Flapping), 0)
        } else {
            (CreateState::Looking, (c.attempts - 1) as u8)
        },
        (CreateState::Stamping, CreateEvent::Executed) => (
            CreateState::Finished(CreateOutcome::Ready),
            c.attempts,
        ),
        (CreateState::Looking, CreateEvent::Failed(m)) => (
            CreateState::Finished(CreateOutcome::Failed(m)),
            c.attempts,
        ),
        (CreateState::Creating, CreateEvent::Failed(m)) => (
            CreateState::Finished(CreateOutcome::Failed(m)),
            c.attempts,
        ),
        (CreateState::Stamping, CreateEvent::Failed(m)) => (
            CreateState::Finished(CreateOutcome::Failed(m)),
            c.attempts,
        ),
        (s, _) => (s, c.attempts),
    }
}

/// The creation of a database, owned by `owner` when it is nonempty. With a nonempty
/// `provenance` the marker is stamped as the database comment at creation, and an already
/// existing database must carry the matching marker, unless `adopt` authorizes re-stamping
/// it. An empty `provenance` skips stamping and verification.
pub fn create_database(name: &str, owner: &str, provenance: &str, adopt: bool) -> (r:
    CreateDatabase)
    ensures
        r.name@ == name@,
        r.owner@ == owner@,
        r.provenance@ == provenance@,
        r.adopt == adopt,
        r.attempts == CREATE_ATTEMPTS,
        r.state == CreateState::Looking,
{
    CreateDatabase {
        name: name.to_owned(),
        owner: owner.to_owned(),
        provenance: provenance.to_owned(),
        adopt,
        attempts: CREATE_ATTEMPTS,
        state: CreateState::Looking,
    }
}

impl CreateDatabase {
    pub fn action(&self) -> (r: CreateAction)
        ensures
            r@ == create_step(*self),
    {
        match &self.state {
            CreateState::Looking => CreateAction::Look,
            CreateState::Creating => {
                let name = quote::quote_ident(self.name.as_str());
                if self.owner.as_str().is_empty() {
                    CreateAction::Execute(text::concat2("CREATE DATABASE ", name.as_str()))
                } else {
                    CreateAction::Execute(
                        text::concat4(
                            "CREATE DATABASE ",
                            name.as_str(),
                            " OWNER ",
                            quote::quote_ident(self.owner.as_str()).as_str(),
                        ),
                    )
                }
            },
            CreateState::Stamping => {
                let marker = instance::provenance_marker(self.provenance.as_str());
                CreateAction::Execute(
                    text::concat4(
                        "COMMENT ON DATABASE ",
                        quote::quote_ident(self.name.as_str()).as_str(),
                        " IS ",
                        quote::quote_literal(marker.as_str()).as_str(),
                    ),
                )
            },
            CreateState::Finished(_) => CreateAction::Finish,
        }
    }

    pub fn advance(self, event: CreateEvent) -> (r: CreateDatabase)
        ensures
            r.name == self.name,
            r.owner == self.owner,
            r.provenance == self.provenance,
            r.adopt == self.adopt,
            (r.state, r.attempts) == create_next(self, event),
    {
        let mut attempts: u8 = self.attempts;
        let state = match (self.state, event) {
            (CreateState::Looking, CreateEvent::Absent) => CreateState::Creating,
            (CreateState::Looking, CreateEvent::Existing(found)) => {
                let ours = self.provenance.as_str().is_empty() || match &found {
                    Some(m) => text::same(
                        m.as_str(),
                        instance::provenance_marker(self.provenance.as_str()).as_str(),
                    ),
                    None => false,
                };
                if ours {
                    CreateState::Finished(CreateOutcome::Ready)
                } else if self.adopt {
                    CreateState::Stamping
                } else {
                    CreateState::Finished(CreateOutcome::Foreign(found))
                }
            },
            (CreateState::Creating, CreateEvent::Executed) => {
                // Stamping is not atomic with the create: a crash inside this window
                // leaves the database unstamped, and the retry then fails
                // closed until an explicit adopt — safer
                // than ever mistaking foreign data for our own.
                if self.provenance.as_str().is_empty() {
                    CreateState::Finished(CreateOutcome::Ready)
                } else {
                    CreateState::Stamping
                }
            },
            // Lost the check-then-create race: look again to verify the
            // winner's provenance marker instead of assuming success.
            (CreateState::Creating, CreateEvent::Duplicate) => {
                if attempts <= 1 {
                    attempts = 0;
                    CreateState::Finished(CreateOutcome::Flapping)
                } else {
                    attempts = attempts - 1;
                    CreateState::Looking
                }
            },
            (CreateState::Stamping, CreateEvent::Executed) => CreateState::Finished(
                CreateOutcome::Ready,
            ),
            (CreateState::Looking, CreateEvent::Failed(m)) => CreateState::Finished(
                CreateOutcome::Failed(m),
            ),
            (CreateState::Creating, CreateEvent::Failed(m)) => CreateState::Finished(
                CreateOutcome::Failed(m),
            ),
            (CreateState::Stamping, CreateEvent::Failed(m)) => CreateState::Finished(
                CreateOutcome::Failed(m),
            ),
            (s, _) => s,
        };
        CreateDatabase {
            name: self.name,
            owner: self.owner,
            provenance: self.provenance,
            adopt: self.adopt,
            attempts,
            state,
        }
    }
}

/// Another placement's data is never adopted silently: where a marker is wanted, an existing
/// database that carries another or none is refused, unless adoption was authorized.
pub proof fn law_foreign_data_is_never_adopted(c: CreateDatabase, found: Option<String>)
    requires
        c.state is Looking,
        !c.adopt,
        c.provenance@.len() > 0,
        text::option_view(found) != Some(instance::marker(c.provenance@)),
    ensures
        create_next(c, CreateEvent::Existing(found)) == (
            CreateState::Finished(CreateOutcome::Foreign(found)),
            c.attempts,
        ),
{
}

/// A database is stamped only if this run created it or adoption was authorized.
pub proof fn law_stamps_only_its_own(c: CreateDatabase, e: CreateEvent)
    requires
        !(c.state is Stamping),
        create_next(c, e).0 is Stamping,
    ensures
        c.provenance@.len() > 0,
        c.adopt || (c.state is Creating && e is Executed),
{
}

/// A creation looks again at most as often as attempts are left: every look after a lost
/// race uses one up, and the last one ends the creation.
pub proof fn law_attempts_are_bounded(c: CreateDatabase, e: CreateEvent)
    ensures
        create_next(c, e).1 <= c.attempts || c.attempts == 0,
        create_next(c, e).0 is Looking && !(c.state is Looking) ==> create_next(c, e).1
            < c.attempts,
{
}

/// The refusal to adopt a database.
pub fn foreign_database(name: &str, found: Option<String>) -> (r: ForeignDatabase)
    ensures
        r.name@ == name@,
        r.found == found,
{
    ForeignDatabase { name: name.to_owned(), found }
}

/// What a flapping database is answered.
pub fn flapping(name: &str) -> (r: String)
    ensures
        r@ == "database "@ + text::debug_text(name@)
            + " keeps flapping between absent and present; retry later"@,
{
    text::concat3(
        "database ",
        text::debug_string(name).as_str(),
        " keeps flapping between absent and present; retry later",
    )
}

// ---------------------------------------------------------------------------------------
// The write fence.
// ---------------------------------------------------------------------------------------

/// New sessions (including a router's post-termination reconnect)
/// become read-only. This affects sessions established AFTER the ALTER,
/// so the in-flight ones are drained next.
pub fn fence_writes(database: &str) -> (r: String)
    ensures
        r@ == "ALTER DATABASE "@ + quote::ident(database@)
            + " SET default_transaction_read_only = on"@,
{
    text::concat3(
        "ALTER DATABASE ",
        quote::quote_ident(database).as_str(),
        " SET default_transaction_read_only = on",
    )
}

/// Terminates every client backend still inside a transaction on this
/// database: a terminated write transaction rolls back, so it can
/// never commit after the barrier. Replication walsenders
/// (backend_type <> 'client backend'), this session, and sessions of pgshard's own readers
/// (whose application_name starts with pgshard_) are left alone.
pub const TERMINATE_WRITERS_SQL: &'static str = "SELECT count(pg_terminate_backend(pid)) FROM pg_stat_activity WHERE datname = current_database() AND pid <> pg_backend_pid() AND backend_type = 'client backend' AND left(application_name, 8) <> 'pgshard_' AND xact_start IS NOT NULL";

/// How many sessions a fence reports as terminated.
pub fn terminated(count: i64) -> (r: u32)
    ensures
        count <= 0 ==> r == 0,
        count > 0 ==> r == count % 0x1_0000_0000,
{
    if count <= 0 {
        0
    } else {
        (count as u64 % 0x1_0000_0000) as u32
    }
}

// ---------------------------------------------------------------------------------------
// The source side of a seeding workflow.
// ---------------------------------------------------------------------------------------

/// Whether a table is among the members, with neither a column list nor a row filter.
pub open spec fn clean_member(
    members: Seq<(String, String, bool)>,
    schema: Seq<char>,
    name: Seq<char>,
) -> bool {
    exists|i: int|
        0 <= i < members.len() && (#[trigger] members[i]).0@ == schema && members[i].1@ == name
            && members[i].2
}

/// Whether the members are exactly the tables, each of them clean.
pub open spec fn members_match(
    members: Seq<(String, String, bool)>,
    tables: Seq<(String, String)>,
) -> bool {
    members.len() == tables.len() && forall|i: int|
        0 <= i < tables.len() ==> clean_member(
            members,
            (#[trigger] tables[i]).0@,
            tables[i].1@,
        )
}

/// Does a publication whose catalog row has the wanted shape, and whose members are these,
/// publish EXACTLY `tables` in the shape the
/// seeding runner accepts (static FOR TABLE membership, every DML kind, no
/// partition-root routing, no generated columns, no row filters, no column
/// lists)? A member counts as clean where the UNDERLYING catalog row holds neither a column
/// list nor a row filter: an explicit list that happens to name every current column still
/// FREEZES the published set.
pub fn publication_matches(members: &Vec<(String, String, bool)>, tables: &Vec<(String, String)>) -> (r:
    bool)
    ensures
        r == members_match(members@, tables@),
{
    if members.len() != tables.len() {
        return false;
    }
    let mut i: usize = 0;
    while i < tables.len()
        invariant
            i <= tables@.len(),
            members@.len() == tables@.len(),
            forall|k: int|
                0 <= k < i ==> clean_member(members@, (#[trigger] tables@[k]).0@, tables@[k].1@),
        decreases tables@.len() - i,
    {
        let mut found = false;
        let mut j: usize = 0;
        while j < members.len() && !found
            invariant
                i < tables@.len(),
                j <= members@.len(),
                found ==> clean_member(members@, tables@[i as int].0@, tables@[i as int].1@),
                !found ==> forall|k: int|
                    0 <= k < j ==> !((#[trigger] members@[k]).0@ == tables@[i as int].0@
                        && members@[k].1@ == tables@[i as int].1@ && members@[k].2),
            decreases members@.len() - j,
        {
            if members[j].2 && text::same(members[j].0.as_str(), tables[i].0.as_str())
                && text::same(members[j].1.as_str(), tables[i].1.as_str()) {
                assert(members@[j as int].2);
                found = true;
            }
            j += 1;
        }
        if !found {
            assert(!clean_member(members@, tables@[i as int].0@, tables@[i as int].1@));
            return false;
        }
        i += 1;
    }
    true
}

/// The tables of a publication, quoted.
pub open spec fn table_list(tables: Seq<(String, String)>) -> Seq<char> {
    text::joined(
        tables.map_values(|t: (String, String)| quote::qualified(t.0@, t.1@)),
        ", "@,
    )
}

pub open spec fn drop_publication_sql(publication: Seq<char>) -> Seq<char> {
    "DROP PUBLICATION IF EXISTS "@ + quote::ident(publication)
}

pub open spec fn create_publication_sql(
    publication: Seq<char>,
    tables: Seq<(String, String)>,
) -> Seq<char> {
    "CREATE PUBLICATION "@ + quote::ident(publication) + " FOR TABLE "@ + table_list(tables)
        + " WITH (publish = 'insert, update, delete, truncate')"@
}

fn quote_tables(tables: &Vec<(String, String)>) -> (r: String)
    ensures
        r@ == table_list(tables@),
{
    let ghost q = |t: (String, String)| quote::qualified(t.0@, t.1@);
    let mut parts: Vec<String> = Vec::new();
    let mut i: usize = 0;
    while i < tables.len()
        invariant
            i <= tables@.len(),
            parts@.len() == i,
            forall|k: int|
                0 <= k < i ==> (#[trigger] parts@[k])@ == quote::qualified(
                    tables@[k].0@,
                    tables@[k].1@,
                ),
        decreases tables@.len() - i,
    {
        parts.push(quote::quote_qualified(tables[i].0.as_str(), tables[i].1.as_str()));
        i += 1;
    }
    proof {
        assert(text::views(parts@) =~= tables@.map_values(q));
    }
    text::join(&parts, ", ")
}

/// How the preparation ended.
#[derive(Debug, PartialEq, Eq)]
pub enum PrepareOutcome {
    /// The publication is in shape. The headroom for slot retention, or None when unlimited.
    Ready(Option<u64>),
    /// Table number `n` has generated columns.
    Generated(usize),
    /// A statement failed.
    Failed(String),
}

/// Where a preparation stands.
#[derive(Debug, PartialEq, Eq)]
pub enum PrepareState {
    /// Asking whether table number `n` has generated columns.
    Tables(usize),
    /// Asking for the publication's catalog row.
    Shape,
    /// Asking for the publication's members.
    Members,
    Dropping,
    Creating,
    /// Asking for `max_slot_wal_keep_size`.
    Keep,
    /// Asking what that setting is in bytes.
    Size(String),
    Finished(PrepareOutcome),
}

/// What came of a step.
#[derive(Debug, PartialEq, Eq)]
pub enum PrepareEvent {
    /// Whether the table has generated columns.
    HasGenerated(bool),
    /// Whether the catalog row has the wanted shape, if there is one.
    Shape(Option<bool>),
    /// Schema, name, and whether the member is clean.
    Members(Vec<(String, String, bool)>),
    Executed,
    Keep(String),
    Size(i64),
    Failed(String),
}

/// Ensures that a publication publishes EXACTLY the tables
/// with every DML kind, no row filter, no column list, and no generated
/// columns — the shape the seeding runner's preflight demands. A same-name
/// publication already in that shape is left untouched (a live consumer's
/// drift poll must not trip on reconcile retries); any other shape is
/// dropped and recreated.
#[derive(Debug, PartialEq, Eq)]
pub struct PrepareSource {
    pub publication: String,
    pub tables: Vec<(String, String)>,
    pub state: PrepareState,
}

/// What is asked first: of the tables, or, where there are none, of the publication.
pub open spec fn asks_from(n: int, tables: int) -> PrepareState {
    if n < tables {
        PrepareState::Tables(n as usize)
    } else {
        PrepareState::Shape
    }
}

/// Where a preparation stands after an event. One that does not answer what was asked
/// changes nothing.
pub open spec fn prepare_next(p: PrepareSource, e: PrepareEvent) -> PrepareState {
    match (p.state, e) {
        (PrepareState::Finished(o), _) => PrepareState::Finished(o),
        (_, PrepareEvent::Failed(m)) => PrepareState::Finished(PrepareOutcome::Failed(m)),
        (PrepareState::Tables(n), PrepareEvent::HasGenerated(g)) => if g {
            PrepareState::Finished(PrepareOutcome::Generated(n))
        } else {
            asks_from(n + 1, p.tables@.len() as int)
        },
        (PrepareState::Shape, PrepareEvent::Shape(shape)) => if shape == Some(true) {
            PrepareState::Members
        } else {
            PrepareState::Dropping
        },
        (PrepareState::Members, PrepareEvent::Members(m)) => if members_match(m@, p.tables@) {
            PrepareState::Keep
        } else {
            PrepareState::Dropping
        },
        (PrepareState::Dropping, PrepareEvent::Executed) => PrepareState::Creating,
        (PrepareState::Creating, PrepareEvent::Executed) => PrepareState::Keep,
        (PrepareState::Keep, PrepareEvent::Keep(keep)) => if keep@ == "-1"@ {
            PrepareState::Finished(PrepareOutcome::Ready(None))
        } else {
            PrepareState::Size(keep)
        },
        (PrepareState::Size(_), PrepareEvent::Size(size)) => PrepareState::Finished(
            PrepareOutcome::Ready(
                Some(
                    if size < 0 {
                        0
                    } else {
                        size as u64
                    },
                ),
            ),
        ),
        (s, _) => s,
    }
}

pub fn prepare_source(publication: &str, tables: Vec<(String, String)>) -> (r: PrepareSource)
    ensures
        r.publication@ == publication@,
        r.tables == tables,
        r.state == asks_from(0, tables@.len() as int),
{
    let state = if 0 < tables.len() {
        PrepareState::Tables(0)
    } else {
        PrepareState::Shape
    };
    PrepareSource { publication: publication.to_owned(), tables, state }
}

impl PrepareSource {
    /// The statement to run, where the state calls for one that answers nothing.
    pub fn statement(&self) -> (r: Option<String>)
        ensures
            match self.state {
                PrepareState::Dropping => r is Some && r->0@ == drop_publication_sql(
                    self.publication@,
                ),
                PrepareState::Creating => r is Some && r->0@ == create_publication_sql(
                    self.publication@,
                    self.tables@,
                ),
                _ => r is None,
            },
    {
        match &self.state {
            PrepareState::Dropping => Some(
                text::concat2(
                    "DROP PUBLICATION IF EXISTS ",
                    quote::quote_ident(self.publication.as_str()).as_str(),
                ),
            ),
            PrepareState::Creating => Some(
                text::concat5(
                    "CREATE PUBLICATION ",
                    quote::quote_ident(self.publication.as_str()).as_str(),
                    " FOR TABLE ",
                    quote_tables(&self.tables).as_str(),
                    " WITH (publish = 'insert, update, delete, truncate')",
                ),
            ),
            _ => None,
        }
    }

    pub fn advance(self, event: PrepareEvent) -> (r: PrepareSource)
        ensures
            r.publication == self.publication,
            r.tables == self.tables,
            r.state == prepare_next(self, event),
    {
        let count: usize = self.tables.len();
        let state = match (self.state, event) {
            (PrepareState::Finished(o), _) => PrepareState::Finished(o),
            (_, PrepareEvent::Failed(m)) => PrepareState::Finished(PrepareOutcome::Failed(m)),
            (PrepareState::Tables(n), PrepareEvent::HasGenerated(g)) => {
                if g {
                    PrepareState::Finished(PrepareOutcome::Generated(n))
                } else if n < count && n + 1 < count {
                    PrepareState::Tables(n + 1)
                } else {
                    PrepareState::Shape
                }
            },
            (PrepareState::Shape, PrepareEvent::Shape(shape)) => {
                let good = match shape {
                    Some(b) => b,
                    None => false,
                };
                if good {
                    PrepareState::Members
                } else {
                    PrepareState::Dropping
                }
            },
            (PrepareState::Members, PrepareEvent::Members(m)) => {
                if publication_matches(&m, &self.tables) {
                    PrepareState::Keep
                } else {
                    PrepareState::Dropping
                }
            },
            (PrepareState::Dropping, PrepareEvent::Executed) => PrepareState::Creating,
            (PrepareState::Creating, PrepareEvent::Executed) => PrepareState::Keep,
            (PrepareState::Keep, PrepareEvent::Keep(keep)) => {
                if text::same(keep.as_str(), "-1") {
                    PrepareState::Finished(PrepareOutcome::Ready(None))
                } else {
                    PrepareState::Size(keep)
                }
            },
            (PrepareState::Size(_), PrepareEvent::Size(size)) => {
                let headroom: u64 = if size < 0 {
                    0
                } else {
                    size as u64
                };
                PrepareState::Finished(PrepareOutcome::Ready(Some(headroom)))
            },
            (s, _) => s,
        };
        PrepareSource { publication: self.publication, tables: self.tables, state }
    }

    /// What a table with generated columns is refused with.
    pub fn refusal(&self, n: usize) -> (r: String)
        requires
            n < self.tables@.len(),
        ensures
            r@ == "table "@ + self.tables@[n as int].0@ + "."@ + self.tables@[n as int].1@
                + " has generated columns; the seeding runner cannot stream them"@,
    {
        text::concat5(
            "table ",
            self.tables[n].0.as_str(),
            ".",
            self.tables[n].1.as_str(),
            " has generated columns; the seeding runner cannot stream them",
        )
    }
}

/// Whether only the headroom is still to be read, or nothing.
pub open spec fn settled(s: PrepareState) -> bool {
    s is Keep || s is Size || s is Finished
}

/// A publication that already has the exact shape is left untouched: from the answer that its
/// members match, no statement is ever run any more.
pub proof fn law_a_matching_publication_is_untouched(
    p: PrepareSource,
    m: Vec<(String, String, bool)>,
    q: PrepareSource,
    e: PrepareEvent,
)
    requires
        p.state is Members,
        members_match(m@, p.tables@),
        settled(q.state),
    ensures
        settled(prepare_next(p, PrepareEvent::Members(m))),
        settled(prepare_next(q, e)),
        !(q.state is Dropping) && !(q.state is Creating),
{
}

/// A database that is there is taken as it is where no provenance is asked for or it carries
/// the one that is; with leave to adopt it is stamped, and without it is foreign.
pub proof fn law_existing_databases_are_judged_by_their_mark(
    c: CreateDatabase,
    found: Option<String>,
)
    requires
        c.state is Looking,
    ensures
        create_next(c, CreateEvent::Absent).0 is Creating,
        create_next(c, CreateEvent::Existing(found)).0 == CreateState::Finished(
            CreateOutcome::Ready,
        ) <==> c.provenance@.len() == 0 || (found is Some && found->0@ == instance::marker(
            c.provenance@,
        )),
        create_next(c, CreateEvent::Existing(found)).0 is Stamping <==> c.provenance@.len() > 0
            && c.adopt && !(found is Some && found->0@ == instance::marker(c.provenance@)),
        create_next(c, CreateEvent::Existing(found)).0 == CreateState::Finished(
            CreateOutcome::Foreign(found),
        ) <==> c.provenance@.len() > 0 && !c.adopt && !(found is Some && found->0@
            == instance::marker(c.provenance@)),
{
}

/// A database that was made is stamped exactly where there is a provenance to stamp; one that
/// another made first is looked at again, as long as there are attempts left.
pub proof fn law_created_databases_are_stamped(c: CreateDatabase, m: String)
    requires
        c.state is Creating,
    ensures
        create_next(c, CreateEvent::Executed).0 is Stamping <==> c.provenance@.len() > 0,
        create_next(c, CreateEvent::Executed).0 == CreateState::Finished(CreateOutcome::Ready)
            <==> c.provenance@.len() == 0,
        create_next(c, CreateEvent::Duplicate).0 is Looking <==> c.attempts > 1,
        create_next(c, CreateEvent::Duplicate).0 == CreateState::Finished(CreateOutcome::Flapping)
            <==> c.attempts <= 1,
        create_next(c, CreateEvent::Failed(m)).0 == CreateState::Finished(
            CreateOutcome::Failed(m),
        ),
        create_next(CreateDatabase { state: CreateState::Stamping, ..c }, CreateEvent::Executed).0
            == CreateState::Finished(CreateOutcome::Ready),
{
}

/// The statements name what they create and stamp, whatever the names hold.
pub proof fn law_created_databases_are_named(
    name: Seq<char>,
    owner: Seq<char>,
    provenance: Seq<char>,
)
    ensures
        quote::after(create_database_sql(name, Seq::empty()), "CREATE DATABASE "@) is Some,
        quote::ident_after(
            quote::after(create_database_sql(name, Seq::empty()), "CREATE DATABASE "@)->0,
        ) == Some((name, Seq::<char>::empty())),
        owner.len() > 0 ==> quote::after(create_database_sql(name, owner), "CREATE DATABASE "@)
            == Some(quote::ident(name) + (" OWNER "@ + quote::ident(owner))),
        quote::ident_after(quote::ident(name) + (" OWNER "@ + quote::ident(owner))) == Some(
            (name, " OWNER "@ + quote::ident(owner)),
        ),
        quote::ident_after(quote::ident(owner)) == Some((owner, Seq::<char>::empty())),
        quote::after(stamp_sql(name, provenance), "COMMENT ON DATABASE "@) == Some(
            quote::ident(name) + (" IS "@ + quote::literal(instance::marker(provenance))),
        ),
        quote::ident_after(
            quote::ident(name) + (" IS "@ + quote::literal(instance::marker(provenance))),
        ) == Some((name, " IS "@ + quote::literal(instance::marker(provenance)))),
        quote::value_after(quote::literal(instance::marker(provenance))) == Some(
            (Some(instance::marker(provenance)), Seq::<char>::empty()),
        ),
{
    reveal_strlit(" OWNER ");
    reveal_strlit(" IS ");
    let none = Seq::<char>::empty();
    let m = instance::marker(provenance);
    let o = " OWNER "@ + quote::ident(owner);
    let i = " IS "@ + quote::literal(m);
    assert(o[0] == ' ');
    assert(i[0] == ' ');
    quote::law_names_and_literals_read_back(name, name, m, none);
    quote::law_names_and_literals_read_back(owner, owner, m, none);
    quote::law_names_and_literals_read_back(name, name, m, o);
    quote::law_names_and_literals_read_back(name, name, m, i);
    assert(quote::ident(name) + none =~= quote::ident(name));
    assert(quote::ident(owner) + none =~= quote::ident(owner));
    assert(quote::literal(m) + none =~= quote::literal(m));
    quote::lemma_after("CREATE DATABASE "@, quote::ident(name));
    quote::lemma_after("CREATE DATABASE "@, quote::ident(name) + o);
    quote::lemma_after("COMMENT ON DATABASE "@, quote::ident(name) + i);
    assert(create_database_sql(name, none) == "CREATE DATABASE "@ + quote::ident(name));
    if owner.len() > 0 {
        assert(create_database_sql(name, owner) =~= "CREATE DATABASE "@ + (quote::ident(name)
            + o));
    }
    assert(stamp_sql(name, provenance) =~= "COMMENT ON DATABASE "@ + (quote::ident(name) + i));
}

/// A publication is kept only where it has as many members as there are tables and each table
/// is one of them, in full, and where its members are the tables it is; otherwise it is
/// dropped and made anew.
pub proof fn law_only_exact_publications_are_kept(
    p: PrepareSource,
    m: Vec<(String, String, bool)>,
    i: int,
)
    requires
        p.state is Members,
    ensures
        prepare_next(p, PrepareEvent::Members(m)) is Keep || prepare_next(
            p,
            PrepareEvent::Members(m),
        ) is Dropping,
        prepare_next(p, PrepareEvent::Members(m)) is Keep ==> m@.len() == p.tables@.len(),
        prepare_next(p, PrepareEvent::Members(m)) is Keep && 0 <= i < p.tables@.len()
            ==> exists|k: int|
            0 <= k < m@.len() && (#[trigger] m@[k]).0@ == p.tables@[i].0@ && m@[k].1@
                == p.tables@[i].1@ && m@[k].2,
        m@.len() == p.tables@.len() && (forall|k: int|
            0 <= k < m@.len() ==> (#[trigger] m@[k]).0@ == p.tables@[k].0@ && m@[k].1@
                == p.tables@[k].1@ && m@[k].2) ==> prepare_next(p, PrepareEvent::Members(m))
            is Keep,
        prepare_next(
            PrepareSource { state: PrepareState::Dropping, ..p },
            PrepareEvent::Executed,
        ) is Creating,
        prepare_next(
            PrepareSource { state: PrepareState::Creating, ..p },
            PrepareEvent::Executed,
        ) is Keep,
{
    if members_match(m@, p.tables@) && 0 <= i < p.tables@.len() {
        assert(clean_member(m@, p.tables@[i].0@, p.tables@[i].1@));
    }
    if m@.len() == p.tables@.len() && (forall|k: int|
        0 <= k < m@.len() ==> (#[trigger] m@[k]).0@ == p.tables@[k].0@ && m@[k].1@
            == p.tables@[k].1@ && m@[k].2) {
        assert forall|j: int| 0 <= j < p.tables@.len() implies clean_member(
            m@,
            (#[trigger] p.tables@[j]).0@,
            p.tables@[j].1@,
        ) by {
            assert(m@[j].2);
        }
        assert(members_match(m@, p.tables@));
    }
}

/// Every table is asked after, one after the other, and the first that has a generated column
/// ends the preparation; then the publication's shape is asked for.
pub proof fn law_tables_are_asked_after_in_turn(p: PrepareSource, n: usize)
    requires
        p.state == PrepareState::Tables(n),
        n < p.tables@.len(),
    ensures
        prepare_next(p, PrepareEvent::HasGenerated(true)) == PrepareState::Finished(
            PrepareOutcome::Generated(n),
        ),
        n + 1 < p.tables@.len() ==> prepare_next(p, PrepareEvent::HasGenerated(false))
            == PrepareState::Tables((n + 1) as usize),
        n + 1 == p.tables@.len() ==> prepare_next(p, PrepareEvent::HasGenerated(false)) is Shape,
{
}

/// Without a bound on the kept WAL there is no size to report; with one it is the size that
/// the source states, and never below zero.
pub proof fn law_kept_sizes_are_reported(p: PrepareSource, keep: String, size: i64, shape: Option<bool>)
    ensures
        p.state is Keep && keep@ == "-1"@ ==> prepare_next(p, PrepareEvent::Keep(keep))
            == PrepareState::Finished(PrepareOutcome::Ready(None)),
        p.state is Keep && keep@ != "-1"@ ==> prepare_next(p, PrepareEvent::Keep(keep))
            == PrepareState::Size(keep),
        p.state is Size && size >= 0 ==> prepare_next(p, PrepareEvent::Size(size))
            == PrepareState::Finished(PrepareOutcome::Ready(Some(size as u64))),
        p.state is Size && size < 0 ==> prepare_next(p, PrepareEvent::Size(size))
            == PrepareState::Finished(PrepareOutcome::Ready(Some(0))),
        p.state is Shape ==> (prepare_next(p, PrepareEvent::Shape(shape)) is Members <==> shape
            == Some(true)),
        p.state is Shape ==> (prepare_next(p, PrepareEvent::Shape(shape)) is Dropping <==> shape
            != Some(true)),
{
}

} // verus!
