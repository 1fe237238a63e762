//! Idempotency for `ExecSchema`: the operator applies online-DDL and
//! database-provisioning statements through the agent, each tagged with an
//! operation id, and must be able to retry safely. This tracks operation ids
//! the same reserve/commit way the epoch guard does: an id is claimed before
//! the statement runs and only marked done after it succeeds, so a failed
//! statement is re-executed on retry rather than replaying a phantom success.
//!
//! This is the in-process core. Durable persistence of completed ids across a
//! restart needs a Postgres-backed op log.
use crate::slots::Slots;
use crate::text;
use vstd::prelude::*;
use vstd::string::*;

verus! {

/// What a claim tells the caller to do.
#[derive(Debug, Clone, Copy, PartialEq, Eq, Structural)]
pub enum Claim {
    /// A fresh id: run the statement, then `mark_done`.
    Execute,
    /// An id whose identical statement already completed: return success without
    /// re-running.
    Replay,
}

#[derive(Debug, Clone, PartialEq, Eq)]
pub enum SchemaError {
    EmptyId,
    DifferentSql(String),
    InFlight(String),
}

/// An error with its id as text.
#[verifier::ext_equal]
pub enum SchemaFault {
    EmptyId,
    DifferentSql(Seq<char>),
    InFlight(Seq<char>),
}

impl View for SchemaError {
    type V = SchemaFault;

    open spec fn view(&self) -> SchemaFault {
        match self {
            SchemaError::EmptyId => SchemaFault::EmptyId,
            SchemaError::DifferentSql(id) => SchemaFault::DifferentSql(id@),
            SchemaError::InFlight(id) => SchemaFault::InFlight(id@),
        }
    }
}

/// What an error says.
pub open spec fn error_text(e: SchemaFault) -> Seq<char> {
    match e {
        SchemaFault::EmptyId => "operation_id is required"@,
        SchemaFault::DifferentSql(id) => "operation_id "@ + id + " was reused with different sql"@,
        SchemaFault::InFlight(id) => "operation_id "@ + id + " is already in flight"@,
    }
}

impl SchemaError {
    pub fn to_string(&self) -> (r: String)
        ensures
            r@ == error_text(self@),
    {
        match self {
            SchemaError::EmptyId => "operation_id is required".to_owned(),
            SchemaError::DifferentSql(id) => text::concat3(
                "operation_id ",
                id.as_str(),
                " was reused with different sql",
            ),
            SchemaError::InFlight(id) => text::concat3(
                "operation_id ",
                id.as_str(),
                " is already in flight",
            ),
        }
    }
}

/// How far an operation is.
#[derive(Debug, Clone, Copy, PartialEq, Eq, Structural)]
pub enum Progress {
    Running,
    Done,
    /// It failed; the id stays bound to its statement.
    Failed,
}

struct Op {
    sql: String,
    progress: Progress,
}

/// An operation's statement, and how far it is.
pub type OpView = (Seq<char>, Progress);

/// What a claim of an operation that was found as `op` answers.
pub open spec fn claimed(op: Option<OpView>, id: Seq<char>, sql: Seq<char>) -> Result<
    Claim,
    SchemaFault,
> {
    if id.len() == 0 {
        Err(SchemaFault::EmptyId)
    } else {
        match op {
            None => Ok(Claim::Execute),
            Some((bound, progress)) => if bound != sql {
                Err(SchemaFault::DifferentSql(id))
            } else {
                match progress {
                    Progress::Done => Ok(Claim::Replay),
                    Progress::Running => Err(SchemaFault::InFlight(id)),
                    Progress::Failed => Ok(Claim::Execute),
                }
            },
        }
    }
}

/// What is known of an operation that was found as `op`, once it was claimed: a claim that
/// is to be executed is running, any other changes nothing.
pub open spec fn after_claim(op: Option<OpView>, id: Seq<char>, sql: Seq<char>) -> Option<OpView> {
    if claimed(op, id, sql) == Ok::<Claim, SchemaFault>(Claim::Execute) {
        Some((sql, Progress::Running))
    } else {
        op
    }
}

/// Whether two logs differ at most in what they know of one id.
pub open spec fn same_but_for(a: SchemaLog, b: SchemaLog, id: Seq<char>) -> bool {
    forall|other: Seq<char>| other != id ==> #[trigger] b.op(other) == a.op(other)
}

/// The operations known, by id.
pub struct SchemaLog {
    ops: Slots<Op>,
}

impl Default for SchemaLog {
    fn default() -> (r: SchemaLog)
        ensures
            forall|id: Seq<char>| #[trigger] r.op(id) == None::<OpView>,
    {
        SchemaLog { ops: Slots::new() }
    }
}

impl SchemaLog {
    /// What is known of an id.
    pub closed spec fn op(self, id: Seq<char>) -> Option<OpView> {
        match self.ops.at(id) {
            Some(op) => Some((op.sql@, op.progress)),
            None => None,
        }
    }

    pub fn new() -> (r: SchemaLog)
        ensures
            forall|id: Seq<char>| #[trigger] r.op(id) == None::<OpView>,
    {
        SchemaLog { ops: Slots::new() }
    }

    fn set_progress(&mut self, id: &str, progress: Progress)
        ensures
            final(self).op(id@) == (match old(self).op(id@) {
                Some((sql, _)) => Some((sql, progress)),
                None => None,
            }),
            same_but_for(*old(self), *final(self), id@),
    {
        let op = match self.ops.get(id) {
            Some(op) => Op { sql: op.sql.clone(), progress },
            None => {
                return ;
            },
        };
        self.ops.put(id, op);
    }

    /// Reserve `id` for `sql`. A repeat of a completed identical statement
    /// replays; a repeat while the first is still running is rejected; the same
    /// id with different sql is rejected.
    pub fn claim(&mut self, id: &str, sql: &str) -> (r: Result<Claim, SchemaError>)
        ensures
            match claimed(old(self).op(id@), id@, sql@) {
                Ok(c) => r == Ok::<Claim, SchemaError>(c),
                Err(e) => r is Err && r->Err_0@ == e,
            },
            final(self).op(id@) == after_claim(old(self).op(id@), id@, sql@),
            same_but_for(*old(self), *final(self), id@),
    {
        if id.is_empty() {
            return Err(SchemaError::EmptyId);
        }
        match self.ops.get(id) {
            Some(op) => {
                if !text::same(op.sql.as_str(), sql) {
                    return Err(SchemaError::DifferentSql(id.to_owned()));
                }
                match op.progress {
                    Progress::Done => {
                        return Ok(Claim::Replay);
                    },
                    Progress::Running => {
                        return Err(SchemaError::InFlight(id.to_owned()));
                    },
                    Progress::Failed => {},
                }
            },
            None => {},
        }
        self.ops.put(id, Op { sql: sql.to_owned(), progress: Progress::Running });
        Ok(Claim::Execute)
    }

    /// Record that the claimed statement completed.
    pub fn mark_done(&mut self, id: &str)
        ensures
            final(self).op(id@) == (match old(self).op(id@) {
                Some((sql, _)) => Some((sql, Progress::Done)),
                None => None,
            }),
            same_but_for(*old(self), *final(self), id@),
    {
        self.set_progress(id, Progress::Done);
    }

    /// Record that the claimed statement failed. The id stays bound to the statement: a retry
    /// with the same statement re-executes it, and one with another is rejected.
    pub fn mark_failed(&mut self, id: &str)
        ensures
            final(self).op(id@) == (match old(self).op(id@) {
                Some((sql, _)) => Some((sql, Progress::Failed)),
                None => None,
            }),
            same_but_for(*old(self), *final(self), id@),
    {
        self.set_progress(id, Progress::Failed);
    }

    /// Release a claim whose statement failed, so a retry re-executes it.
    pub fn rollback(&mut self, id: &str)
        ensures
            final(self).op(id@) == None::<OpView>,
            same_but_for(*old(self), *final(self), id@),
    {
        self.ops.remove(id);
    }
}

/// A claim that failed is executed again when retried, and a completed one is not, whether
/// the failure was recorded or the claim released.
pub proof fn law_only_completed_statements_replay(op: Option<OpView>, id: Seq<char>, sql: Seq<char>)
    requires
        claimed(op, id, sql) == Ok::<Claim, SchemaFault>(Claim::Execute),
    ensures
        claimed(Some((sql, Progress::Failed)), id, sql) == Ok::<Claim, SchemaFault>(Claim::Execute),
        claimed(None, id, sql) == Ok::<Claim, SchemaFault>(Claim::Execute),
        claimed(Some((sql, Progress::Done)), id, sql) == Ok::<Claim, SchemaFault>(Claim::Replay),
        claimed(Some((sql, Progress::Running)), id, sql) == Err::<Claim, SchemaFault>(
            SchemaFault::InFlight(id),
        ),
{
}

/// A claim that was to be executed and is released leaves no trace: a retry executes the
/// statement, and every other id answers as before. A claim of an id that was not known
/// leaves the log as it was before the claim.
pub proof fn law_a_released_claim_leaves_no_trace(
    before: SchemaLog,
    running: SchemaLog,
    after: SchemaLog,
    id: Seq<char>,
    sql: Seq<char>,
)
    requires
        claimed(before.op(id), id, sql) == Ok::<Claim, SchemaFault>(Claim::Execute),
        running.op(id) == after_claim(before.op(id), id, sql),
        same_but_for(before, running, id),
        after.op(id) == None::<OpView>,
        same_but_for(running, after, id),
    ensures
        claimed(after.op(id), id, sql) == Ok::<Claim, SchemaFault>(Claim::Execute),
        forall|other: Seq<char>, text: Seq<char>|
            other != id ==> #[trigger] claimed(after.op(other), other, text) == claimed(
                before.op(other),
                other,
                text,
            ),
        before.op(id) is None ==> forall|any: Seq<char>|
            #[trigger] after.op(any) == before.op(any),
{
    assert forall|other: Seq<char>| other != id implies #[trigger] after.op(other) == before.op(
        other,
    ) by {
        assert(running.op(other) == before.op(other));
    }
}

/// An operation is bound to one statement: its id may not be empty, nor be used again for
/// another one, and no refused or replayed request changes what is recorded.
pub proof fn law_operations_are_bound_to_one_statement(
    op: Option<OpView>,
    bound: Seq<char>,
    progress: Progress,
    id: Seq<char>,
    sql: Seq<char>,
)
    ensures
        claimed(op, Seq::empty(), sql) == Err::<Claim, SchemaFault>(SchemaFault::EmptyId),
        id.len() > 0 && bound != sql ==> claimed(Some((bound, progress)), id, sql) == Err::<
            Claim,
            SchemaFault,
        >(SchemaFault::DifferentSql(id)),
        id.len() > 0 && bound == sql ==> (claimed(Some((bound, progress)), id, sql) == Ok::<
            Claim,
            SchemaFault,
        >(Claim::Replay) <==> progress is Done),
        id.len() > 0 ==> claimed(None, id, sql) == Ok::<Claim, SchemaFault>(Claim::Execute),
        claimed(op, id, sql) is Err ==> after_claim(op, id, sql) == op,
        claimed(op, id, sql) == Ok::<Claim, SchemaFault>(Claim::Replay) ==> after_claim(
            op,
            id,
            sql,
        ) == op,
        claimed(op, id, sql) == Ok::<Claim, SchemaFault>(Claim::Execute) ==> after_claim(
            op,
            id,
            sql,
        ) == Some((sql, Progress::Running)),
{
}

} // verus!
