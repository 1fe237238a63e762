//! What the agent answers the operator: status polling, the epoch-guarded
//! promote/fence/rejoin handshake, restore points, schema statements and shard databases.
//! Each request is first admitted or refused here; an admitted one is executed by whoever
//! holds the instance, and its success is then recorded here.
use crate::epoch::{self, Decision, EpochError, EpochGuard, Outcome};
use crate::instance::{RestorePoint, Snapshot};
use crate::proto::v1;
use crate::schema::{self, Claim, OpView, Progress, SchemaError, SchemaFault, SchemaLog};
use crate::slots::Slots;
use crate::text;
use vstd::prelude::*;
use vstd::string::*;
use vstd::utf8::*;

verus! {

/// The kinds of refusal that the operator tells apart.
#[derive(Debug, Clone, Copy, PartialEq, Eq, Structural)]
pub enum Code {
    InvalidArgument,
    FailedPrecondition,
    AlreadyExists,
    Aborted,
    Internal,
}

/// A refusal.
#[derive(Debug, Clone, PartialEq, Eq)]
pub struct Status {
    pub code: Code,
    pub message: String,
}

/// A refusal with its message as text.
#[verifier::ext_equal]
pub struct Refusal {
    pub code: Code,
    pub message: Seq<char>,
}

impl View for Status {
    type V = Refusal;

    open spec fn view(&self) -> Refusal {
        Refusal { code: self.code, message: self.message@ }
    }
}

pub open spec fn invalid(message: Seq<char>) -> Refusal {
    Refusal { code: Code::InvalidArgument, message }
}

pub open spec fn schema_refusal(e: SchemaFault) -> Refusal {
    Refusal {
        code: match e {
            SchemaFault::EmptyId => Code::InvalidArgument,
            SchemaFault::DifferentSql(_) => Code::InvalidArgument,
            SchemaFault::InFlight(_) => Code::AlreadyExists,
        },
        message: schema::error_text(e),
    }
}

pub fn schema_status(err: SchemaError) -> (r: Status)
    ensures
        r@ == schema_refusal(err@),
{
    let code = match &err {
        SchemaError::EmptyId => Code::InvalidArgument,
        SchemaError::DifferentSql(_) => Code::InvalidArgument,
        SchemaError::InFlight(_) => Code::AlreadyExists,
    };
    Status { code, message: err.to_string() }
}

pub open spec fn epoch_refusal(e: EpochError) -> Refusal {
    Refusal {
        code: match e {
            EpochError::Zero => Code::InvalidArgument,
            EpochError::Stale { .. } => Code::FailedPrecondition,
            EpochError::Conflict { .. } => Code::FailedPrecondition,
        },
        message: epoch::error_text(e),
    }
}

pub fn epoch_status(err: EpochError) -> (r: Status)
    ensures
        r@ == epoch_refusal(err),
{
    let code = match &err {
        EpochError::Zero => Code::InvalidArgument,
        EpochError::Stale { .. } => Code::FailedPrecondition,
        EpochError::Conflict { .. } => Code::FailedPrecondition,
    };
    Status { code, message: err.to_string() }
}

/// What an instance's failure is answered.
pub fn internal(message: String) -> (r: Status)
    ensures
        r@ == (Refusal { code: Code::Internal, message: message@ }),
{
    Status { code: Code::Internal, message }
}

// ---------------------------------------------------------------------------------------
// Names.
// ---------------------------------------------------------------------------------------

/// PostgreSQL's `NAMEDATALEN - 1`: identifiers longer than this are silently
/// truncated. A truncated database name could resolve to a *different* existing
/// database (and a create could then falsely succeed via a duplicate-database
/// error, or a drop delete the wrong database), so reject overlong identifiers
/// up front rather than let PostgreSQL truncate them.
pub const MAX_IDENT_BYTES: usize = 63;

/// What is wrong with an identifier.
pub open spec fn ident_fault(what: Seq<char>, value: Seq<char>, required: bool) -> Option<Refusal> {
    if value.len() == 0 {
        if required {
            Some(invalid(what + " is required"@))
        } else {
            None
        }
    } else if encode_utf8(value).len() > MAX_IDENT_BYTES {
        Some(invalid(what + " exceeds PostgreSQL's 63-byte identifier limit"@))
    } else {
        None
    }
}

/// Whether a check passed, or failed with the refusal.
pub open spec fn passes(r: Result<(), Status>, fault: Option<Refusal>) -> bool {
    match fault {
        Some(f) => r is Err && r->Err_0@ == f,
        None => r is Ok,
    }
}

/// Validate a database identifier: `required` names must be nonempty, and any
/// value must fit in [`MAX_IDENT_BYTES`] so PostgreSQL does not truncate it. An
/// empty optional value (e.g. no owner) passes.
pub fn check_ident(what: &str, value: &str, required: bool) -> (r: Result<(), Status>)
    ensures
        passes(r, ident_fault(what@, value@, required)),
{
    if value.is_empty() {
        return if required {
            Err(
                Status {
                    code: Code::InvalidArgument,
                    message: text::concat2(what, " is required"),
                },
            )
        } else {
            Ok(())
        };
    }
    if value.as_bytes().len() > MAX_IDENT_BYTES {
        return Err(
            Status {
                code: Code::InvalidArgument,
                message: text::concat2(what, " exceeds PostgreSQL's 63-byte identifier limit"),
            },
        );
    }
    Ok(())
}

/// Bounds the provenance marker (a Kubernetes UID in practice) and keeps the
/// stamped comment trivially parseable and safe to embed.
pub const MAX_PROVENANCE_BYTES: usize = 128;

pub open spec fn provenance_char(c: char) -> bool {
    ('0' <= c && c <= '9') || ('a' <= c && c <= 'z') || ('A' <= c && c <= 'Z') || c == '.' || c
        == '_' || c == ':' || c == '-'
}

/// What is wrong with a provenance.
pub open spec fn provenance_fault(value: Seq<char>) -> Option<Refusal> {
    if encode_utf8(value).len() > MAX_PROVENANCE_BYTES {
        Some(invalid("provenance exceeds 128 bytes"@))
    } else if exists|i: int| 0 <= i < value.len() && !provenance_char(#[trigger] value[i]) {
        Some(invalid("provenance may only contain [A-Za-z0-9._:-]"@))
    } else {
        None
    }
}

pub fn check_provenance(value: &str) -> (r: Result<(), Status>)
    ensures
        passes(r, provenance_fault(value@)),
{
    if value.as_bytes().len() > MAX_PROVENANCE_BYTES {
        return Err(
            Status {
                code: Code::InvalidArgument,
                message: "provenance exceeds 128 bytes".to_owned(),
            },
        );
    }
    let cs = text::chars(value);
    let mut i: usize = 0;
    while i < cs.len()
        invariant
            i <= cs@.len(),
            cs@ == value@,
            encode_utf8(value@).len() <= MAX_PROVENANCE_BYTES,
            forall|k: int| 0 <= k < i ==> provenance_char(#[trigger] cs@[k]),
        decreases cs@.len() - i,
    {
        let c = cs[i];
        if !(('0' <= c && c <= '9') || ('a' <= c && c <= 'z') || ('A' <= c && c <= 'Z') || c == '.'
            || c == '_' || c == ':' || c == '-') {
            assert(!provenance_char(value@[i as int]));
            return Err(
                Status {
                    code: Code::InvalidArgument,
                    message: "provenance may only contain [A-Za-z0-9._:-]".to_owned(),
                },
            );
        }
        i += 1;
    }
    Ok(())
}

// ---------------------------------------------------------------------------------------
// The service.
// ---------------------------------------------------------------------------------------

/// The key of a promotion.
pub open spec fn promote_key(target: Seq<char>) -> Seq<char> {
    "promote:"@ + target
}

/// A truth value as text.
pub open spec fn bool_text(b: bool) -> Seq<char> {
    if b {
        "true"@
    } else {
        "false"@
    }
}

fn bool_str(b: bool) -> (r: &'static str)
    ensures
        r@ == bool_text(b),
{
    if b {
        "true"
    } else {
        "false"
    }
}

/// The key of a fence.
pub open spec fn fence_key(fenced: bool) -> Seq<char> {
    "fence:"@ + bool_text(fenced)
}

/// Where a standby rejoins.
pub open spec fn upstream_text(e: v1::PgEndpoint) -> Seq<char> {
    e.host@ + ":"@ + text::decimal(e.port as int)
}

/// The key of a rejoin.
pub open spec fn rejoin_key(target: Seq<char>, allow_rewind: bool) -> Seq<char> {
    "rejoin:"@ + target + ":"@ + bool_text(allow_rewind)
}

/// What an epoch-guarded request is answered: the guard's outcome, or its refusal.
pub open spec fn guarded(applied: Option<Decision>, epoch: u64, key: Seq<char>) -> Result<
    Outcome,
    Refusal,
> {
    match epoch::checked(applied, epoch, key) {
        Ok(o) => Ok(o),
        Err(e) => Err(epoch_refusal(e)),
    }
}

/// A restore point's slot.
#[derive(Debug, Clone, Copy, PartialEq, Eq, Structural)]
pub enum RestoreSlot {
    /// A creation is under way.
    Creating,
    Made(RestorePoint),
}

/// What a request for a restore point has to do.
#[derive(Debug, Clone, Copy, PartialEq, Eq, Structural)]
pub enum RestoreStep {
    /// Create it, and report with [`AgentSvc::restore_point_finished`].
    Create,
    /// Another request is creating it: wait for that one, and ask again.
    Wait,
    /// It is made: answer with the original point.
    Replay(RestorePoint),
}

/// What a request for a restore point has to do, by its slot.
pub open spec fn restore_step(slot: Option<RestoreSlot>) -> RestoreStep {
    match slot {
        None => RestoreStep::Create,
        Some(RestoreSlot::Creating) => RestoreStep::Wait,
        Some(RestoreSlot::Made(rp)) => RestoreStep::Replay(rp),
    }
}

/// The slot after a creation, which made the point or failed.
pub open spec fn restore_result(slot: Option<RestoreSlot>, made: Option<RestorePoint>) -> Option<
    RestoreSlot,
> {
    match (slot, made) {
        (Some(RestoreSlot::Made(rp)), _) => Some(RestoreSlot::Made(rp)),
        (_, Some(rp)) => Some(RestoreSlot::Made(rp)),
        (_, None) => None,
    }
}

/// The agent's memory of what it has been asked to do.
pub struct AgentSvc {
    /// This instance's pod name; a Promote aimed at a different
    /// target is refused.
    pub pod: String,
    /// This pod's Kubernetes UID. Pod IPs
    /// are reusable, so identity-sensitive requests carry the intended pod
    /// UID and are refused on a mismatch. Empty = unwired (checks skipped).
    pub pod_uid: String,
    pub epoch: EpochGuard,
    pub schema: SchemaLog,
    /// Restore points already created, by name, so
    /// creation is SINGLE-FLIGHT. PostgreSQL does not deduplicate restore-point
    /// names (a second create writes a second record, and recovery by name
    /// stops at the FIRST), so a retried barrier must replay its original
    /// point, and two CONCURRENT same-name calls must never both execute: the
    /// loser would get a different LSN than the manifest records. A failed create leaves the
    /// slot empty so a retry re-executes.
    pub restore_points: Slots<RestoreSlot>,
}

/// What is wrong with a request to create a database.
pub open spec fn create_fault(pod_uid: Seq<char>, req: v1::CreateDatabaseRequest) -> Option<
    Refusal,
> {
    if req.target_pod_uid@.len() > 0 && pod_uid.len() > 0 && req.target_pod_uid@ != pod_uid {
        Some(
            Refusal {
                code: Code::Aborted,
                message: "request targets pod uid "@ + req.target_pod_uid@
                    + ", but this agent serves "@ + pod_uid,
            },
        )
    } else if ident_fault("database name"@, req.name@, true) is Some {
        ident_fault("database name"@, req.name@, true)
    } else if ident_fault("owner"@, req.owner@, false) is Some {
        ident_fault("owner"@, req.owner@, false)
    } else if provenance_fault(req.provenance@) is Some {
        provenance_fault(req.provenance@)
    } else if req.adopt && req.provenance@.len() == 0 {
        Some(invalid("adopt requires a provenance marker to stamp"@))
    } else {
        None
    }
}

impl AgentSvc {
    pub fn new(pod: String) -> (r: AgentSvc)
        ensures
            r.pod == pod,
            r.pod_uid@.len() == 0,
            r.epoch.applied() == None::<Decision>,
            forall|id: Seq<char>| #[trigger] r.schema.op(id) == None::<OpView>,
            forall|name: Seq<char>| #[trigger] r.restore_points.at(name) == None::<RestoreSlot>,
    {
        AgentSvc::with_pod_uid(pod, String::new())
    }

    pub fn with_pod_uid(pod: String, pod_uid: String) -> (r: AgentSvc)
        ensures
            r.pod == pod,
            r.pod_uid == pod_uid,
            r.epoch.applied() == None::<Decision>,
            forall|id: Seq<char>| #[trigger] r.schema.op(id) == None::<OpView>,
            forall|name: Seq<char>| #[trigger] r.restore_points.at(name) == None::<RestoreSlot>,
    {
        AgentSvc {
            pod,
            pod_uid,
            epoch: EpochGuard::new(),
            schema: SchemaLog::new(),
            restore_points: Slots::new(),
        }
    }

    fn guard(&self, epoch: u64, key: &str) -> (r: Result<Outcome, Status>)
        ensures
            match guarded(self.epoch.applied(), epoch, key@) {
                Ok(o) => r == Ok::<Outcome, Status>(o),
                Err(e) => r is Err && r->Err_0@ == e,
            },
    {
        match self.epoch.check(epoch, key) {
            Ok(o) => Ok(o),
            Err(e) => Err(epoch_status(e)),
        }
    }

    /// Whether a promotion is to be executed, or only answered.
    pub fn promote(&self, req: &v1::PromoteRequest) -> (r: Result<Outcome, Status>)
        ensures
            if req.target_primary@ != self.pod@ {
                r is Err && r->Err_0@ == (Refusal {
                    code: Code::FailedPrecondition,
                    message: "promote targets "@ + req.target_primary@
                        + ", but this agent serves "@ + self.pod@,
                })
            } else {
                match guarded(
                    self.epoch.applied(),
                    req.decision_epoch,
                    promote_key(req.target_primary@),
                ) {
                    Ok(o) => r == Ok::<Outcome, Status>(o),
                    Err(e) => r is Err && r->Err_0@ == e,
                }
            },
    {
        if !text::same(req.target_primary.as_str(), self.pod.as_str()) {
            return Err(
                Status {
                    code: Code::FailedPrecondition,
                    message: text::concat4(
                        "promote targets ",
                        req.target_primary.as_str(),
                        ", but this agent serves ",
                        self.pod.as_str(),
                    ),
                },
            );
        }
        let key = text::concat2("promote:", req.target_primary.as_str());
        self.guard(req.decision_epoch, key.as_str())
    }

    /// Records that a promotion happened. It is recorded before the (read-only)
    /// status fetch, so a failure there cannot cause a re-promote.
    pub fn promoted(&mut self, req: &v1::PromoteRequest)
        ensures
            final(self).epoch.applied() == epoch::committed(
                old(self).epoch.applied(),
                req.decision_epoch,
                promote_key(req.target_primary@),
            ),
            final(self).pod == old(self).pod,
            final(self).pod_uid == old(self).pod_uid,
            final(self).schema == old(self).schema,
            final(self).restore_points == old(self).restore_points,
    {
        let key = text::concat2("promote:", req.target_primary.as_str());
        self.epoch.commit(req.decision_epoch, key.as_str());
    }

    /// Whether the instance is to be fenced or its fence lifted, or neither because it was.
    pub fn fence(&self, req: &v1::FenceRequest) -> (r: Result<Outcome, Status>)
        ensures
            match guarded(self.epoch.applied(), req.decision_epoch, fence_key(req.fenced)) {
                Ok(o) => r == Ok::<Outcome, Status>(o),
                Err(e) => r is Err && r->Err_0@ == e,
            },
    {
        let key = text::concat2("fence:", bool_str(req.fenced));
        self.guard(req.decision_epoch, key.as_str())
    }

    pub fn fenced(&mut self, req: &v1::FenceRequest)
        ensures
            final(self).epoch.applied() == epoch::committed(
                old(self).epoch.applied(),
                req.decision_epoch,
                fence_key(req.fenced),
            ),
            final(self).pod == old(self).pod,
            final(self).pod_uid == old(self).pod_uid,
            final(self).schema == old(self).schema,
            final(self).restore_points == old(self).restore_points,
    {
        let key = text::concat2("fence:", bool_str(req.fenced));
        self.epoch.commit(req.decision_epoch, key.as_str());
    }

    /// Whether a rejoin is to be executed, or only answered, and where it goes.
    pub fn rejoin_as_standby(&self, req: &v1::RejoinAsStandbyRequest) -> (r: Result<
        (Outcome, String),
        Status,
    >)
        ensures
            match req.upstream {
                None => r is Err && r->Err_0@ == invalid("upstream is required"@),
                Some(up) => match guarded(
                    self.epoch.applied(),
                    req.decision_epoch,
                    rejoin_key(upstream_text(up), req.allow_rewind),
                ) {
                    Ok(o) => r is Ok && r->Ok_0.0 == o && r->Ok_0.1@ == upstream_text(up),
                    Err(e) => r is Err && r->Err_0@ == e,
                },
            },
    {
        let up = match &req.upstream {
            Some(up) => up,
            None => {
                return Err(
                    Status {
                        code: Code::InvalidArgument,
                        message: "upstream is required".to_owned(),
                    },
                );
            },
        };
        let target = text::concat3(
            up.host.as_str(),
            ":",
            text::decimal_u64(up.port as u64).as_str(),
        );
        let key = text::concat4("rejoin:", target.as_str(), ":", bool_str(req.allow_rewind));
        match self.guard(req.decision_epoch, key.as_str()) {
            Ok(o) => Ok((o, target)),
            Err(e) => Err(e),
        }
    }

    pub fn rejoined(&mut self, target: &str, req: &v1::RejoinAsStandbyRequest)
        ensures
            final(self).epoch.applied() == epoch::committed(
                old(self).epoch.applied(),
                req.decision_epoch,
                rejoin_key(target@, req.allow_rewind),
            ),
            final(self).pod == old(self).pod,
            final(self).pod_uid == old(self).pod_uid,
            final(self).schema == old(self).schema,
            final(self).restore_points == old(self).restore_points,
    {
        let key = text::concat4("rejoin:", target, ":", bool_str(req.allow_rewind));
        self.epoch.commit(req.decision_epoch, key.as_str());
    }

    /// What a request for a restore point has to do. An empty or over-63-byte name is
    /// rejected: PostgreSQL silently
    /// truncates a restore-point name to 63 bytes, so two long names sharing
    /// a prefix would collide onto one record.
    pub fn create_restore_point(&mut self, name: &str) -> (r: Result<RestoreStep, Status>)
        ensures
            match ident_fault("restore point name"@, name@, true) {
                Some(f) => r is Err && r->Err_0@ == f && final(self).restore_points == old(
                    self
                ).restore_points,
                None => {
                    &&& r == Ok::<RestoreStep, Status>(
                        restore_step(old(self).restore_points.at(name@)),
                    )
                    &&& final(self).restore_points.at(name@) == (match old(self).restore_points.at(
                        name@,
                    ) {
                        None => Some(RestoreSlot::Creating),
                        Some(s) => Some(s),
                    })
                    &&& forall|other: Seq<char>|
                        other != name@ ==> #[trigger] final(self).restore_points.at(other) == old(
                            self
                        ).restore_points.at(other)
                },
            },
            final(self).pod == old(self).pod,
            final(self).pod_uid == old(self).pod_uid,
            final(self).epoch == old(self).epoch,
            final(self).schema == old(self).schema,
    {
        match check_ident("restore point name", name, true) {
            Ok(()) => {},
            Err(e) => {
                return Err(e);
            },
        }
        let step = match self.restore_points.get(name) {
            None => RestoreStep::Create,
            Some(RestoreSlot::Creating) => RestoreStep::Wait,
            Some(RestoreSlot::Made(rp)) => RestoreStep::Replay(*rp),
        };
        if step == RestoreStep::Create {
            self.restore_points.put(name, RestoreSlot::Creating);
        }
        Ok(step)
    }

    /// Records what came of a creation: the point, or nothing if it failed.
    pub fn restore_point_finished(&mut self, name: &str, made: Option<RestorePoint>)
        ensures
            final(self).restore_points.at(name@) == restore_result(
                old(self).restore_points.at(name@),
                made,
            ),
            forall|other: Seq<char>|
                other != name@ ==> #[trigger] final(self).restore_points.at(other) == old(
                    self
                ).restore_points.at(other),
            final(self).pod == old(self).pod,
            final(self).pod_uid == old(self).pod_uid,
            final(self).epoch == old(self).epoch,
            final(self).schema == old(self).schema,
    {
        match self.restore_points.get(name) {
            Some(RestoreSlot::Made(_)) => {
                return ;
            },
            _ => {},
        }
        match made {
            Some(rp) => {
                self.restore_points.put(name, RestoreSlot::Made(rp));
            },
            None => {
                self.restore_points.remove(name);
            },
        }
    }

    /// Whether a schema statement is to be run, or was. The statement must be a single one:
    /// idempotent retry is only safe for a single
    /// statement, since a multi-statement batch that commits part of its work before
    /// failing cannot be re-executed cleanly.
    pub fn exec_schema(&mut self, operation_id: &str, sql: &str) -> (r: Result<Claim, Status>)
        ensures
            match schema::claimed(old(self).schema.op(operation_id@), operation_id@, sql@) {
                Ok(c) => r == Ok::<Claim, Status>(c),
                Err(e) => r is Err && r->Err_0@ == schema_refusal(e),
            },
            final(self).schema.op(operation_id@) == (if r == Ok::<Claim, Status>(Claim::Execute) {
                Some((sql@, Progress::Running))
            } else {
                old(self).schema.op(operation_id@)
            }),
            forall|other: Seq<char>|
                other != operation_id@ ==> #[trigger] final(self).schema.op(other) == old(
                    self
                ).schema.op(other),
            final(self).pod == old(self).pod,
            final(self).pod_uid == old(self).pod_uid,
            final(self).epoch == old(self).epoch,
            final(self).restore_points == old(self).restore_points,
    {
        match self.schema.claim(operation_id, sql) {
            Ok(c) => Ok(c),
            Err(e) => Err(schema_status(e)),
        }
    }

    /// Records what came of a schema statement. A failed one keeps its id bound to it, so the
    /// operator's same-sql retry re-executes rather than replaying a
    /// success that never happened, while a different-sql reuse of the
    /// id stays rejected.
    pub fn schema_finished(&mut self, operation_id: &str, succeeded: bool)
        ensures
            final(self).schema.op(operation_id@) == (match old(self).schema.op(operation_id@) {
                Some((sql, _)) => Some(
                    (
                        sql,
                        if succeeded {
                            Progress::Done
                        } else {
                            Progress::Failed
                        },
                    ),
                ),
                None => None,
            }),
            forall|other: Seq<char>|
                other != operation_id@ ==> #[trigger] final(self).schema.op(other) == old(
                    self
                ).schema.op(other),
            final(self).pod == old(self).pod,
            final(self).pod_uid == old(self).pod_uid,
            final(self).epoch == old(self).epoch,
            final(self).restore_points == old(self).restore_points,
    {
        if succeeded {
            self.schema.mark_done(operation_id);
        } else {
            self.schema.mark_failed(operation_id);
        }
    }

    /// Admits a request to create a database. A reassigned pod IP could route it to another
    /// node incarnation; with `adopt` that would silently re-stamp the wrong database. That
    /// is a routing accident, not a data verdict, and so it aborts: the caller must retry
    /// against a re-resolved address, never treat it as a database that
    /// needs adopting.
    pub fn create_database(&self, req: &v1::CreateDatabaseRequest) -> (r: Result<(), Status>)
        ensures
            passes(r, create_fault(self.pod_uid@, *req)),
    {
        if !req.target_pod_uid.as_str().is_empty() && !self.pod_uid.as_str().is_empty()
            && !text::same(req.target_pod_uid.as_str(), self.pod_uid.as_str()) {
            return Err(
                Status {
                    code: Code::Aborted,
                    message: text::concat4(
                        "request targets pod uid ",
                        req.target_pod_uid.as_str(),
                        ", but this agent serves ",
                        self.pod_uid.as_str(),
                    ),
                },
            );
        }
        match check_ident("database name", req.name.as_str(), true) {
            Ok(()) => {},
            Err(e) => {
                return Err(e);
            },
        }
        match check_ident("owner", req.owner.as_str(), false) {
            Ok(()) => {},
            Err(e) => {
                return Err(e);
            },
        }
        match check_provenance(req.provenance.as_str()) {
            Ok(()) => {},
            Err(e) => {
                return Err(e);
            },
        }
        if req.adopt && req.provenance.as_str().is_empty() {
            return Err(
                Status {
                    code: Code::InvalidArgument,
                    message: "adopt requires a provenance marker to stamp".to_owned(),
                },
            );
        }
        Ok(())
    }

    /// Attests what was actually verified.
    pub fn database_created(&self, req: &v1::CreateDatabaseRequest) -> (r:
        v1::CreateDatabaseResponse)
        ensures
            r.verified_provenance@ == req.provenance@,
            r.served_pod_uid@ == self.pod_uid@,
    {
        v1::CreateDatabaseResponse {
            verified_provenance: req.provenance.clone(),
            served_pod_uid: self.pod_uid.clone(),
        }
    }

    /// Admits a request to drop a database.
    pub fn drop_database(&self, name: &str) -> (r: Result<(), Status>)
        ensures
            passes(r, ident_fault("database name"@, name@, true)),
    {
        check_ident("database name", name, true)
    }
}

/// What an executed promotion is answered: the timeline that it gave, and where the instance
/// now writes.
pub fn promote_response(timeline: u32, snap: &Snapshot) -> (r: v1::PromoteResponse)
    ensures
        r.new_timeline == timeline,
        r.promote_lsn == Some(v1::Lsn { value: snap.write_lsn }),
{
    v1::PromoteResponse {
        new_timeline: timeline,
        promote_lsn: Some(v1::Lsn { value: snap.write_lsn }),
    }
}

/// What a rejoin is answered: what it did, or, on a replay, what the first would have done.
pub fn rejoin_response(outcome: Outcome, rewound: bool, req: &v1::RejoinAsStandbyRequest) -> (r:
    v1::RejoinAsStandbyResponse)
    ensures
        r.rewound == (if outcome == Outcome::Apply {
            rewound
        } else {
            req.allow_rewind
        }),
{
    match outcome {
        Outcome::Apply => v1::RejoinAsStandbyResponse { rewound },
        Outcome::Replay => v1::RejoinAsStandbyResponse { rewound: req.allow_rewind },
    }
}

pub fn restore_point_response(rp: RestorePoint) -> (r: v1::CreateRestorePointResponse)
    ensures
        r.lsn == Some(v1::Lsn { value: rp.lsn }),
        r.timeline == rp.timeline,
{
    v1::CreateRestorePointResponse { lsn: Some(v1::Lsn { value: rp.lsn }), timeline: rp.timeline }
}

/// Whether a WAL switch can be executed. Waiting for the switched segment to be confirmed
/// archived is rejected rather than answered with an unconfirmed LSN.
pub fn switch_wal(wait_archived: bool) -> (r: Result<(), Status>)
    ensures
        passes(
            r,
            if wait_archived {
                Some(
                    Refusal {
                        code: Code::Internal,
                        message: "switch_wal with wait_archived is not implemented yet"@,
                    },
                )
            } else {
                None
            },
        ),
{
    if wait_archived {
        Err(internal("switch_wal with wait_archived is not implemented yet".to_owned()))
    } else {
        Ok(())
    }
}

// ---------------------------------------------------------------------------------------
// Laws.
// ---------------------------------------------------------------------------------------

/// Restore points are single-flight: while one request creates a point no other may, a
/// failed creation may be retried, and a point that is made is the one every later request
/// is answered with.
pub proof fn law_restore_points_are_single_flight(
    slot: Option<RestoreSlot>,
    made: Option<RestorePoint>,
    rp: RestorePoint,
)
    ensures
        restore_step(Some(RestoreSlot::Creating)) == RestoreStep::Wait,
        restore_result(Some(RestoreSlot::Creating), None) == None::<RestoreSlot>,
        restore_step(restore_result(Some(RestoreSlot::Creating), Some(rp))) == RestoreStep::Replay(
            rp,
        ),
        restore_result(Some(RestoreSlot::Made(rp)), made) == Some(RestoreSlot::Made(rp)),
        restore_step(slot) == RestoreStep::Create <==> slot is None,
{
}

/// A guarded request is executed until its success is recorded; from then on it is only
/// answered.
pub proof fn law_recorded_commands_are_not_repeated(applied: Option<Decision>, epoch: u64, key: Seq<char>)
    requires
        guarded(applied, epoch, key) == Ok::<Outcome, Refusal>(Outcome::Apply),
    ensures
        guarded(epoch::committed(applied, epoch, key), epoch, key) == Ok::<Outcome, Refusal>(
            Outcome::Replay,
        ),
{
    epoch::law_recorded_requests_replay(applied, epoch, key);
}

/// A name is refused exactly where it is missing though required, or too long for PostgreSQL.
pub proof fn law_names_fit_postgres(what: Seq<char>, value: Seq<char>, required: bool)
    ensures
        ident_fault(what, value, required) is Some <==> (required && value.len() == 0) || (
        value.len() > 0 && encode_utf8(value).len() > 63),
        ident_fault(what, value, required) matches Some(f) ==> f.code is InvalidArgument,
{
}

/// A provenance is refused exactly where it is over 128 bytes or holds a character other than
/// a letter, a digit, a dot, an underscore, a colon or a hyphen.
pub proof fn law_provenances_are_plain(value: Seq<char>)
    ensures
        provenance_fault(value) is None <==> encode_utf8(value).len() <= 128 && forall|i: int|
            0 <= i < value.len() ==> ('0' <= #[trigger] value[i] && value[i] <= '9') || ('a'
                <= value[i] && value[i] <= 'z') || ('A' <= value[i] && value[i] <= 'Z')
                || value[i] == '.' || value[i] == '_' || value[i] == ':' || value[i] == '-',
        provenance_fault(value) matches Some(f) ==> f.code is InvalidArgument,
{
    if provenance_fault(value) is None {
        assert forall|i: int| 0 <= i < value.len() implies ('0' <= #[trigger] value[i] && value[i]
            <= '9') || ('a' <= value[i] && value[i] <= 'z') || ('A' <= value[i] && value[i]
            <= 'Z') || value[i] == '.' || value[i] == '_' || value[i] == ':' || value[i]
            == '-' by {
            assert(provenance_char(value[i]));
        }
    }
}

/// A database is created only where the request is meant for the pod that got it, its names
/// and its provenance are sound, and an adoption brings a mark; and it is then not refused.
pub proof fn law_sound_requests_create_databases(pod_uid: Seq<char>, req: v1::CreateDatabaseRequest)
    ensures
        create_fault(pod_uid, req) is None <==> {
            &&& req.target_pod_uid@.len() == 0 || pod_uid.len() == 0 || req.target_pod_uid@
                == pod_uid
            &&& 0 < req.name@.len()
            &&& encode_utf8(req.name@).len() <= 63
            &&& req.owner@.len() == 0 || encode_utf8(req.owner@).len() <= 63
            &&& provenance_fault(req.provenance@) is None
            &&& !req.adopt || req.provenance@.len() > 0
        },
        create_fault(pod_uid, req) matches Some(f) ==> (f.code is Aborted
            <==> req.target_pod_uid@.len() > 0 && pod_uid.len() > 0 && req.target_pod_uid@
            != pod_uid),
        create_fault(pod_uid, req) matches Some(f) ==> f.code is Aborted || f.code
            is InvalidArgument,
{
}

/// Requests that ask for different things are not taken for one another.
pub proof fn law_commands_have_their_own_keys(
    a: Seq<char>,
    b: Seq<char>,
    x: bool,
    y: bool,
)
    ensures
        promote_key(a) == promote_key(b) <==> a == b,
        fence_key(x) == fence_key(y) <==> x == y,
        rejoin_key(a, x) == rejoin_key(a, y) <==> x == y,
        rejoin_key(a, x) == rejoin_key(b, x) <==> a == b,
        promote_key(a) != fence_key(x),
        promote_key(a) != rejoin_key(b, y),
        fence_key(x) != rejoin_key(b, y),
{
    reveal_strlit("promote:");
    reveal_strlit("fence:");
    reveal_strlit("rejoin:");
    reveal_strlit("true");
    reveal_strlit("false");
    reveal_strlit(":");
    assert(promote_key(a)[0] == 'p');
    assert(fence_key(x)[0] == 'f');
    assert(rejoin_key(b, y)[0] == 'r');
    assert(promote_key(a).skip(8) =~= a);
    assert(promote_key(b).skip(8) =~= b);
    assert(fence_key(x).len() == 6 + bool_text(x).len());
    assert(fence_key(y).len() == 6 + bool_text(y).len());
    assert(rejoin_key(a, x).len() == 7 + a.len() + 1 + bool_text(x).len());
    assert(rejoin_key(a, y).len() == 7 + a.len() + 1 + bool_text(y).len());
    assert(rejoin_key(a, x).subrange(7, 7 + a.len() as int) =~= a);
    assert(rejoin_key(b, x).subrange(7, 7 + b.len() as int) =~= b);
    assert(rejoin_key(b, x).len() == 7 + b.len() + 1 + bool_text(x).len());
}

/// A guarded command is refused by the code that its fault calls for.
pub proof fn law_guards_answer_with_their_code(
    applied: Option<Decision>,
    epoch: u64,
    key: Seq<char>,
)
    ensures
        guarded(applied, epoch, key) is Ok <==> epoch::checked(applied, epoch, key) is Ok,
        guarded(applied, epoch, key) is Ok ==> guarded(applied, epoch, key)->Ok_0
            == epoch::checked(applied, epoch, key)->Ok_0,
        guarded(applied, epoch, key) matches Err(f) ==> (f.code is InvalidArgument <==> epoch
            == 0),
        guarded(applied, epoch, key) matches Err(f) ==> (f.code is FailedPrecondition <==> epoch
            > 0),
        schema_refusal(SchemaFault::EmptyId).code is InvalidArgument,
        schema_refusal(SchemaFault::DifferentSql(key)).code is InvalidArgument,
        schema_refusal(SchemaFault::InFlight(key)).code is AlreadyExists,
{
}

} // verus!
