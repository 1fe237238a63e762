//! The decision-epoch guard.
//!
//! The operator fences a failover with a strictly monotonic epoch carried on
//! every `Promote`/`Fence`/`RejoinAsStandby`. The agent keeps the highest
//! epoch it has applied together with the request that carried it, so a delayed
//! message from an older failover can never reverse a newer decision:
//!   - epoch 0 is rejected;
//!   - a lower epoch is rejected as stale;
//!   - an equal epoch is accepted only when the request is byte-identical to the
//!     one already applied (an idempotent retry), and the caller then replays
//!     its prior result without re-executing;
//!   - a higher epoch is applied.
use crate::text;
use vstd::prelude::*;
use vstd::string::*;

verus! {

/// What the guard tells the caller to do for an accepted request.
#[derive(Debug, Clone, Copy, PartialEq, Eq, Structural)]
pub enum Outcome {
    /// Fresh, higher (or first) epoch: execute the command.
    Apply,
    /// Identical equal-epoch retry: return the prior result, do not re-execute.
    Replay,
}

/// Why an epoch was refused. Mapped to gRPC status codes by the service.
#[derive(Debug, Clone, Copy, PartialEq, Eq, Structural)]
pub enum EpochError {
    Zero,
    Stale { got: u64, applied: u64 },
    Conflict { epoch: u64 },
}

/// What an error says.
pub open spec fn error_text(e: EpochError) -> Seq<char> {
    match e {
        EpochError::Zero => "decision_epoch must be > 0"@,
        EpochError::Stale { got, applied } => "stale decision epoch "@ + text::decimal(got as int)
            + " < "@ + text::decimal(applied as int),
        EpochError::Conflict { epoch } => "decision epoch "@ + text::decimal(epoch as int)
            + " already applied a different request"@,
    }
}

impl EpochError {
    pub fn to_string(&self) -> (r: String)
        ensures
            r@ == error_text(*self),
    {
        match self {
            EpochError::Zero => "decision_epoch must be > 0".to_owned(),
            EpochError::Stale { got, applied } => text::concat4(
                "stale decision epoch ",
                text::decimal_u64(*got).as_str(),
                " < ",
                text::decimal_u64(*applied).as_str(),
            ),
            EpochError::Conflict { epoch } => text::concat3(
                "decision epoch ",
                text::decimal_u64(*epoch).as_str(),
                " already applied a different request",
            ),
        }
    }
}

/// What is applied: an epoch and the key of the request that carried it.
pub type Decision = (u64, Seq<char>);

/// The epoch applied, or 0 before the first.
pub open spec fn epoch_of(applied: Option<Decision>) -> u64 {
    match applied {
        Some((at, _)) => at,
        None => 0,
    }
}

/// What a guard answers a request.
pub open spec fn checked(applied: Option<Decision>, epoch: u64, key: Seq<char>) -> Result<
    Outcome,
    EpochError,
> {
    if epoch == 0 {
        Err(EpochError::Zero)
    } else {
        match applied {
            None => Ok(Outcome::Apply),
            Some((at, prior)) => if epoch < at {
                Err(EpochError::Stale { got: epoch, applied: at })
            } else if epoch > at {
                Ok(Outcome::Apply)
            } else if prior == key {
                Ok(Outcome::Replay)
            } else {
                Err(EpochError::Conflict { epoch })
            },
        }
    }
}

/// What is applied after a request has succeeded.
pub open spec fn committed(applied: Option<Decision>, epoch: u64, key: Seq<char>) -> Option<
    Decision,
> {
    match applied {
        Some((at, prior)) => if epoch > at {
            Some((epoch, key))
        } else {
            applied
        },
        None => Some((epoch, key)),
    }
}

/// A per-instance guard. A request's key uniquely identifies its payload, e.g.
/// `"promote:<target>"` or `"fence:true"`.
pub struct EpochGuard {
    applied: Option<(u64, String)>,
}

impl Default for EpochGuard {
    fn default() -> (r: EpochGuard)
        ensures
            r.applied() == None::<Decision>,
    {
        EpochGuard { applied: None }
    }
}

impl EpochGuard {
    pub closed spec fn applied(self) -> Option<Decision> {
        match self.applied {
            Some((epoch, key)) => Some((epoch, key@)),
            None => None,
        }
    }

    pub fn new() -> (r: EpochGuard)
        ensures
            r.applied() == None::<Decision>,
    {
        EpochGuard { applied: None }
    }

    /// Apply is only a reservation: the epoch is not recorded until the
    /// command actually succeeds (see [`EpochGuard::commit`]). Otherwise a command that
    /// failed after `check` would leave its epoch committed, and a retry would
    /// `Replay` a success that never happened.
    pub fn check(&self, epoch: u64, key: &str) -> (r: Result<Outcome, EpochError>)
        ensures
            r == checked(self.applied(), epoch, key@),
    {
        if epoch == 0 {
            return Err(EpochError::Zero);
        }
        match &self.applied {
            None => Ok(Outcome::Apply),
            Some((at, prior)) => {
                if epoch < *at {
                    return Err(EpochError::Stale { got: epoch, applied: *at });
                }
                if epoch > *at {
                    return Ok(Outcome::Apply);
                }
                if text::same(prior.as_str(), key) {
                    Ok(Outcome::Replay)
                } else {
                    Err(EpochError::Conflict { epoch })
                }
            },
        }
    }

    /// Record the epoch as applied after the command succeeded, so an identical
    /// retry replays it and a stale epoch is rejected. Only ever advances.
    pub fn commit(&mut self, epoch: u64, key: &str)
        ensures
            final(self).applied() == committed(old(self).applied(), epoch, key@),
    {
        let fresh = match &self.applied {
            None => true,
            Some((at, _)) => epoch > *at,
        };
        if fresh {
            self.applied = Some((epoch, key.to_owned()));
        }
    }

    pub fn applied_epoch(&self) -> (r: u64)
        ensures
            r == epoch_of(self.applied()),
    {
        match &self.applied {
            Some((at, _)) => *at,
            None => 0,
        }
    }
}

/// What is applied after a run of successful requests.
pub open spec fn after(requests: Seq<Decision>) -> Option<Decision>
    decreases requests.len(),
{
    if requests.len() == 0 {
        None
    } else {
        committed(after(requests.drop_last()), requests.last().0, requests.last().1)
    }
}

proof fn lemma_after_is_highest(requests: Seq<Decision>, i: int)
    requires
        0 <= i < requests.len(),
    ensures
        after(requests) is Some,
        epoch_of(after(requests)) >= requests[i].0,
    decreases requests.len(),
{
    if i < requests.len() - 1 {
        lemma_after_is_highest(requests.drop_last(), i);
    }
}

/// A delayed message from an older failover never reverses a newer decision: once a request
/// has been applied, every request of a lower epoch is refused as stale.
pub proof fn law_newer_decisions_are_never_reversed(
    requests: Seq<Decision>,
    i: int,
    epoch: u64,
    key: Seq<char>,
)
    requires
        0 <= i < requests.len(),
        0 < epoch < requests[i].0,
    ensures
        checked(after(requests), epoch, key) == Err::<Outcome, EpochError>(
            EpochError::Stale { got: epoch, applied: epoch_of(after(requests)) },
        ),
{
    lemma_after_is_highest(requests, i);
}

/// The retry of a request that was executed and recorded is replayed, not executed again.
pub proof fn law_recorded_requests_replay(
    applied: Option<Decision>,
    epoch: u64,
    key: Seq<char>,
)
    requires
        checked(applied, epoch, key) == Ok::<Outcome, EpochError>(Outcome::Apply),
    ensures
        checked(committed(applied, epoch, key), epoch, key) == Ok::<Outcome, EpochError>(
            Outcome::Replay,
        ),
{
}

/// A request is applied exactly where its epoch is above every one before it, replayed
/// exactly where it is the recorded one again, and refused for the one reason that holds.
pub proof fn law_requests_are_judged_by_their_epoch(
    at: u64,
    prior: Seq<char>,
    epoch: u64,
    key: Seq<char>,
)
    ensures
        checked(None, epoch, key) is Ok <==> epoch > 0,
        epoch > 0 ==> checked(None, epoch, key) == Ok::<Outcome, EpochError>(Outcome::Apply),
        checked(Some((at, prior)), 0, key) == Err::<Outcome, EpochError>(EpochError::Zero),
        checked(Some((at, prior)), epoch, key) == Ok::<Outcome, EpochError>(Outcome::Apply)
            <==> epoch > at,
        epoch > 0 ==> (checked(Some((at, prior)), epoch, key) == Ok::<Outcome, EpochError>(
            Outcome::Replay,
        ) <==> epoch == at && key == prior),
        epoch > 0 ==> (checked(Some((at, prior)), epoch, key) == Err::<Outcome, EpochError>(
            EpochError::Conflict { epoch },
        ) <==> epoch == at && key != prior),
        epoch > 0 ==> (checked(Some((at, prior)), epoch, key) == Err::<Outcome, EpochError>(
            EpochError::Stale { got: epoch, applied: at },
        ) <==> epoch < at),
{
}

/// A recorded decision gives way to a higher epoch alone.
pub proof fn law_only_higher_epochs_are_recorded(
    applied: Option<Decision>,
    epoch: u64,
    key: Seq<char>,
)
    ensures
        epoch_of(committed(applied, epoch, key)) >= epoch_of(applied),
        epoch > epoch_of(applied) ==> committed(applied, epoch, key) == Some((epoch, key)),
        applied is Some && epoch <= epoch_of(applied) ==> committed(applied, epoch, key)
            == applied,
        epoch_of(None) == 0,
{
}

} // verus!
