//! The router's buffering gate: the primitive that makes failover, reshard
//! cutover, online DDL, rolling restarts, and backup barriers invisible to
//! clients. A closed gate parks matching sessions in FIFO order instead of
//! erroring; opening replays them against the new topology.
//!
//! Safety rules:
//!   - Every gate carries an ABSOLUTE deadline. If no explicit open arrives in
//!     time, a gate auto-expires and parked sessions replay against the
//!     CURRENT topology — fail-safe means "abort the cutover", never "wait
//!     forever" and never "switch blindly".
//!   - A gate opens only once the router has applied a topology at or beyond
//!     its `min_topology_generation`; opening earlier would replay buffered
//!     writes against the stale (pre-cutover) shard map. `open` before the
//!     generation lands just arms it; `topology_applied` releases it.
//!
//! Recheck contract: a session may match more than one gate (e.g. an overlap of
//! a failover gate and a DDL gate). `check` parks a session behind ONE matching
//! gate at a time; a `Release` (Replan or Expired) means "re-plan the statement
//! and check again", not "proceed". Callers therefore loop `check` until it
//! returns [`Admission::Proceed`], so a session transitively waits for every gate that
//! matches it. `Rejected` is terminal.
//!
//! A session is known here by a number, and time by a count of ticks of one clock; whoever
//! holds the sessions wakes those that an operation hands back.
use crate::keyspace::{KeyRange, KeyspaceId};
use crate::text;
use vstd::prelude::*;
use vstd::string::*;

verus! {

#[derive(Debug, Clone, Copy, PartialEq, Eq, Structural)]
pub enum GateMode {
    WritesOnly,
    All,
}

/// What a statement touches, computed by the planner.
#[derive(Debug, Clone, PartialEq, Eq)]
pub struct StatementScope {
    pub tables: Vec<String>,
    pub keyspace_ids: Vec<KeyspaceId>,
    pub is_write: bool,
}

/// Traffic selector for one gate.
#[derive(Debug, Clone, PartialEq, Eq)]
pub struct GateMatch {
    pub all: bool,
    pub tables: Vec<String>,
    pub key_ranges: Vec<KeyRange>,
}

impl Default for GateMatch {
    fn default() -> (r: GateMatch)
        ensures
            !r.all,
            r.tables@.len() == 0,
            r.key_ranges@.len() == 0,
    {
        GateMatch { all: false, tables: Vec::new(), key_ranges: Vec::new() }
    }
}

/// Whether a table name is one of the list.
pub open spec fn lists_table(tables: Seq<String>, t: Seq<char>) -> bool {
    exists|i: int| 0 <= i < tables.len() && (#[trigger] tables[i])@ == t
}

/// Whether an id is in one of the ranges.
pub open spec fn covers_id(ranges: Seq<KeyRange>, id: u64) -> bool {
    exists|i: int| 0 <= i < ranges.len() && (#[trigger] ranges[i]).holds(id)
}

/// Whether a selector selects a statement: all of them, or one that touches a listed table,
/// or one that touches an id in a listed range.
pub open spec fn selects(m: GateMatch, s: StatementScope) -> bool {
    ||| m.all
    ||| exists|i: int| 0 <= i < s.tables@.len() && lists_table(m.tables@, (#[trigger] s.tables@[i])@)
    ||| exists|i: int|
        0 <= i < s.keyspace_ids@.len() && covers_id(
            m.key_ranges@,
            (#[trigger] s.keyspace_ids@[i]).0,
        )
}

impl GateMatch {
    pub fn matches(&self, scope: &StatementScope) -> (r: bool)
        ensures
            r == selects(*self, *scope),
    {
        if self.all {
            return true;
        }
        let mut i: usize = 0;
        while i < scope.tables.len()
            invariant
                i <= scope.tables@.len(),
                forall|k: int|
                    0 <= k < i ==> !lists_table(self.tables@, (#[trigger] scope.tables@[k])@),
            decreases scope.tables@.len() - i,
        {
            let mut j: usize = 0;
            while j < self.tables.len()
                invariant
                    i < scope.tables@.len(),
                    j <= self.tables@.len(),
                    forall|k: int|
                        0 <= k < j ==> (#[trigger] self.tables@[k])@ != scope.tables@[i as int]@,
                decreases self.tables@.len() - j,
            {
                if text::same(self.tables[j].as_str(), scope.tables[i].as_str()) {
                    assert(lists_table(self.tables@, scope.tables@[i as int]@));
                    return true;
                }
                j += 1;
            }
            i += 1;
        }
        let mut i: usize = 0;
        while i < scope.keyspace_ids.len()
            invariant
                i <= scope.keyspace_ids@.len(),
                !self.all,
                forall|k: int|
                    0 <= k < scope.tables@.len() ==> !lists_table(
                        self.tables@,
                        (#[trigger] scope.tables@[k])@,
                    ),
                forall|k: int|
                    0 <= k < i ==> !covers_id(
                        self.key_ranges@,
                        (#[trigger] scope.keyspace_ids@[k]).0,
                    ),
            decreases scope.keyspace_ids@.len() - i,
        {
            let id: KeyspaceId = scope.keyspace_ids[i];
            let mut j: usize = 0;
            while j < self.key_ranges.len()
                invariant
                    i < scope.keyspace_ids@.len(),
                    id == scope.keyspace_ids@[i as int],
                    j <= self.key_ranges@.len(),
                    forall|k: int| 0 <= k < j ==> !(#[trigger] self.key_ranges@[k]).holds(id.0),
                decreases self.key_ranges@.len() - j,
            {
                if self.key_ranges[j].contains(id) {
                    assert(covers_id(self.key_ranges@, scope.keyspace_ids@[i as int].0));
                    return true;
                }
                j += 1;
            }
            i += 1;
        }
        false
    }
}

#[derive(Debug, Clone, PartialEq, Eq)]
pub struct GateSpec {
    pub id: String,
    pub mode: GateMode,
    pub matcher: GateMatch,
    /// Absolute expiry.
    pub deadline: u64,
    /// Sessions replay only after the applied topology generation reaches
    /// this (ignored on expiry — see module docs).
    pub min_topology_generation: u64,
}

/// Outcome of parking: how the session should proceed.
#[derive(Debug, Clone, Copy, PartialEq, Eq, Structural)]
pub enum Release {
    /// Gate opened after a topology change: re-plan the statement, then
    /// re-check gates (it may match another) before executing.
    Replan { topology_generation: u64 },
    /// Gate expired without an open: re-plan against current topology
    /// (coordinator treats the cutover as aborted).
    Expired,
    /// Buffer limits exceeded: fail the statement with SQLSTATE 40001.
    Rejected,
}

#[derive(Debug, Clone, Copy, PartialEq, Eq, Structural)]
pub struct GateLimits {
    /// Sessions parked behind a single gate before new arrivals are rejected.
    pub max_sessions: usize,
    /// Sessions parked across ALL gates before new arrivals are rejected,
    /// bounding total buffer memory independent of how many gates exist.
    pub max_total_sessions: usize,
    /// How long a session may stay parked, in milliseconds.
    pub max_wait: u64,
}

impl Default for GateLimits {
    fn default() -> (r: GateLimits)
        ensures
            r.max_sessions == 5000,
            r.max_total_sessions == 50000,
            r.max_wait == 20000,
    {
        GateLimits { max_sessions: 5000, max_total_sessions: 50000, max_wait: 20000 }
    }
}

/// A parked session.
#[derive(Debug, Clone, Copy, PartialEq, Eq, Structural)]
pub struct Parked {
    pub session: u64,
    pub enqueued: u64,
}

/// A closed gate and the sessions behind it, in the order of their arrival.
#[derive(Debug, PartialEq, Eq)]
pub struct Gate {
    pub spec: GateSpec,
    pub parked: Vec<Parked>,
    /// Set once `open` is requested but the applied topology generation has not
    /// yet reached `min_topology_generation`; `topology_applied` releases it.
    pub open_requested: bool,
}

/// A session that is to go on, and how.
pub type Released = (u64, Release);

/// What a statement is told.
#[derive(Debug, Clone, Copy, PartialEq, Eq, Structural)]
pub enum Admission {
    /// No gate matches.
    Proceed,
    /// The session is parked; it will be released.
    Parked,
    /// The buffers are full: fail the statement with SQLSTATE 40001.
    Rejected,
}

// ---------------------------------------------------------------------------------------
// What the operations do.
// ---------------------------------------------------------------------------------------

/// The sessions of a gate, released alike, in the order of their arrival.
pub open spec fn drained(parked: Seq<Parked>, how: Release) -> Seq<Released> {
    parked.map_values(|p: Parked| (p.session, how))
}

/// The gates without gate `i`; the last one takes its place.
pub open spec fn without(gates: Seq<Gate>, i: int) -> Seq<Gate> {
    gates.update(i, gates.last()).drop_last()
}

/// How a gate that opens is released: past its deadline it is an aborted cutover, even if
/// the generation that would have opened it has landed.
pub open spec fn opening(g: Gate, applied: u64, now: u64) -> Release {
    if g.spec.deadline <= now {
        Release::Expired
    } else {
        Release::Replan { topology_generation: applied }
    }
}

/// Whether the open of a gate was requested and its generation has landed.
pub open spec fn ready(g: Gate, applied: u64) -> bool {
    g.open_requested && g.spec.min_topology_generation <= applied
}

/// What is left of the gates from `i` on, and what is released, when those that are ready
/// open.
pub open spec fn open_ready(gates: Seq<Gate>, i: int, applied: u64, now: u64) -> (
    Seq<Gate>,
    Seq<Released>,
)
    decreases gates.len() - i,
{
    if i < 0 || i >= gates.len() {
        (gates, Seq::empty())
    } else if ready(gates[i], applied) {
        let (left, rest) = open_ready(without(gates, i), i, applied, now);
        (left, drained(gates[i].parked@, opening(gates[i], applied, now)) + rest)
    } else {
        open_ready(gates, i + 1, applied, now)
    }
}

/// What is left of the gates from `i` on, what is released, and how many gates expire, when
/// those past their deadline do.
pub open spec fn expire_from(gates: Seq<Gate>, i: int, now: u64) -> (Seq<Gate>, Seq<Released>, nat)
    decreases gates.len() - i,
{
    if i < 0 || i >= gates.len() {
        (gates, Seq::empty(), 0)
    } else if gates[i].spec.deadline <= now {
        let (left, rest, n) = expire_from(without(gates, i), i, now);
        (left, drained(gates[i].parked@, Release::Expired) + rest, n + 1)
    } else {
        expire_from(gates, i + 1, now)
    }
}

/// The position of this id's gate, or the number of gates.
pub open spec fn gate_at(gates: Seq<Gate>, id: Seq<char>) -> int
    decreases gates.len(),
{
    if gates.len() == 0 || gates[0].spec.id@ == id {
        0
    } else {
        1 + gate_at(gates.drop_first(), id)
    }
}

/// Whether a gate holds a statement back.
pub open spec fn holds_back(g: Gate, s: StatementScope) -> bool {
    (g.spec.mode == GateMode::All || s.is_write) && selects(g.spec.matcher, s)
}

/// The position of the first gate that holds a statement back, or the number of gates.
pub open spec fn blocking(gates: Seq<Gate>, s: StatementScope) -> int
    decreases gates.len(),
{
    if gates.len() == 0 || holds_back(gates[0], s) {
        0
    } else {
        1 + blocking(gates.drop_first(), s)
    }
}

/// The sessions whose client is still there.
pub open spec fn alive(parked: Seq<Parked>, dead: Seq<u64>) -> Seq<Parked> {
    parked.filter(|p: Parked| !dead.contains(p.session))
}

/// Whether a session has been parked too long.
pub open spec fn overdue(p: Parked, now: u64, max_wait: u64) -> bool {
    now - p.enqueued > max_wait
}

/// The number of sessions at the front that have been parked too long.
pub open spec fn overdue_count(parked: Seq<Parked>, now: u64, max_wait: u64) -> nat
    decreases parked.len(),
{
    if parked.len() == 0 || !overdue(parked[0], now, max_wait) {
        0
    } else {
        1 + overdue_count(parked.drop_first(), now, max_wait)
    }
}

/// The number of parked sessions.
pub open spec fn total_parked(gates: Seq<Gate>) -> nat
    decreases gates.len(),
{
    if gates.len() == 0 {
        0
    } else {
        total_parked(gates.drop_last()) + gates.last().parked@.len()
    }
}

/// Whether no two gates have one id.
pub open spec fn distinct_ids(gates: Seq<Gate>) -> bool {
    forall|i: int, j: int|
        0 <= i < j < gates.len() ==> (#[trigger] gates[i]).spec.id@ != (
        #[trigger] gates[j]).spec.id@
}

// ---------------------------------------------------------------------------------------
// Lemmas on gates.
// ---------------------------------------------------------------------------------------

proof fn lemma_gate_at(gates: Seq<Gate>, id: Seq<char>, p: int)
    requires
        0 <= p <= gates.len(),
        p < gates.len() ==> gates[p].spec.id@ == id,
        forall|k: int| 0 <= k < p ==> (#[trigger] gates[k]).spec.id@ != id,
    ensures
        gate_at(gates, id) == p,
    decreases gates.len(),
{
    if p > 0 {
        assert(gates[0].spec.id@ != id);
        let t = gates.drop_first();
        assert forall|k: int| 0 <= k < p - 1 implies (#[trigger] t[k]).spec.id@ != id by {
            assert(t[k] == gates[k + 1]);
        }
        lemma_gate_at(t, id, p - 1);
    }
}

proof fn lemma_blocking(gates: Seq<Gate>, s: StatementScope, p: int)
    requires
        0 <= p <= gates.len(),
        p < gates.len() ==> holds_back(gates[p], s),
        forall|k: int| 0 <= k < p ==> !holds_back(#[trigger] gates[k], s),
    ensures
        blocking(gates, s) == p,
    decreases gates.len(),
{
    if p > 0 {
        assert(!holds_back(gates[0], s));
        let t = gates.drop_first();
        assert forall|k: int| 0 <= k < p - 1 implies !holds_back(#[trigger] t[k], s) by {
            assert(t[k] == gates[k + 1]);
        }
        lemma_blocking(t, s, p - 1);
    }
}

/// The total of two lists that differ in one gate only.
proof fn lemma_total_update(a: Seq<Gate>, i: int, g: Gate)
    requires
        0 <= i < a.len(),
    ensures
        total_parked(a.update(i, g)) == total_parked(a) - a[i].parked@.len() + g.parked@.len(),
    decreases a.len(),
{
    let b = a.update(i, g);
    if i == a.len() - 1 {
        assert(b.drop_last() =~= a.drop_last());
    } else {
        lemma_total_update(a.drop_last(), i, g);
        assert(b.drop_last() =~= a.drop_last().update(i, g));
    }
}

/// Removing a gate removes its sessions from the total.
proof fn lemma_total_without(a: Seq<Gate>, i: int)
    requires
        0 <= i < a.len(),
    ensures
        total_parked(without(a, i)) == total_parked(a) - a[i].parked@.len(),
        without(a, i).len() == a.len() - 1,
{
    lemma_total_update(a, i, a.last());
    let b = a.update(i, a.last());
    if i == a.len() - 1 {
        assert(b =~= a);
    }
    assert(b.last() == a.last());
}

proof fn lemma_distinct_without(a: Seq<Gate>, i: int)
    requires
        0 <= i < a.len(),
        distinct_ids(a),
    ensures
        distinct_ids(without(a, i)),
{
    let b = without(a, i);
    assert forall|x: int, y: int| 0 <= x < y < b.len() implies (#[trigger] b[x]).spec.id@ != (
    #[trigger] b[y]).spec.id@ by {
        let p = if x == i {
            a.len() - 1
        } else {
            x
        };
        let q = if y == i {
            a.len() - 1
        } else {
            y
        };
        assert(b[x] == a[p] && b[y] == a[q]);
        assert(p != q);
        if p < q {
            assert(a[p].spec.id@ != a[q].spec.id@);
        } else {
            assert(a[q].spec.id@ != a[p].spec.id@);
        }
    }
}

// ---------------------------------------------------------------------------------------
// The engine.
// ---------------------------------------------------------------------------------------

/// An engine of gates.
pub struct GateEngine {
    pub gates: Vec<Gate>,
    /// Highest topology generation the router has applied; gates opened
    /// with a min generation wait for this to catch up.
    pub applied_generation: u64,
    pub limits: GateLimits,
}

impl GateEngine {
    /// No two gates have one id, and no more sessions are parked than the limits allow.
    pub open spec fn wf(self) -> bool {
        &&& distinct_ids(self.gates@)
        &&& total_parked(self.gates@) <= self.limits.max_total_sessions
        &&& forall|i: int|
            0 <= i < self.gates@.len() ==> (#[trigger] self.gates@[i]).parked@.len()
                <= self.limits.max_sessions
    }

    pub fn new(limits: GateLimits) -> (r: GateEngine)
        ensures
            r.gates@.len() == 0,
            r.applied_generation == 0,
            r.limits == limits,
            r.wf(),
    {
        GateEngine { gates: Vec::new(), applied_generation: 0, limits }
    }

    /// Removes gate `idx` and releases its parked sessions.
    fn drain_gate(&mut self, idx: usize, release: Release, out: &mut Vec<Released>)
        requires
            old(self).wf(),
            idx < old(self).gates@.len(),
        ensures
            final(self).wf(),
            final(self).gates@ == without(old(self).gates@, idx as int),
            final(self).applied_generation == old(self).applied_generation,
            final(self).limits == old(self).limits,
            final(out)@ == old(out)@ + drained(old(self).gates@[idx as int].parked@, release),
    {
        proof {
            lemma_total_without(self.gates@, idx as int);
            lemma_distinct_without(self.gates@, idx as int);
        }
        let gate = self.gates.swap_remove(idx);
        assert(self.gates@ =~= without(old(self).gates@, idx as int));
        let ghost start = out@;
        let mut i: usize = 0;
        proof {
            assert(gate.parked@.take(0) =~= Seq::<Parked>::empty());
            assert(start + drained(gate.parked@.take(0), release) =~= start);
        }
        while i < gate.parked.len()
            invariant
                i <= gate.parked@.len(),
                out@ == start + drained(gate.parked@.take(i as int), release),
            decreases gate.parked@.len() - i,
        {
            let p: Parked = gate.parked[i];
            out.push((p.session, release));
            proof {
                let a = drained(gate.parked@.take(i as int), release);
                let b = drained(gate.parked@.take(i + 1), release);
                assert(b =~= a.push((p.session, release)));
                assert((start + a).push((p.session, release)) =~= start + b);
            }
            i += 1;
        }
        proof {
            assert(gate.parked@.take(gate.parked@.len() as int) =~= gate.parked@);
            assert forall|i: int| 0 <= i < self.gates@.len() implies (
            #[trigger] self.gates@[i]).parked@.len() <= self.limits.max_sessions by {
                let a = old(self).gates@;
                let p = if i == idx {
                    a.len() - 1
                } else {
                    i
                };
                assert(self.gates@[i] == a[p]);
            }
        }
    }

    /// Records the highest topology generation the router has applied and
    /// releases any gate whose open was requested before its
    /// `min_topology_generation` had landed.
    pub fn topology_applied(&mut self, generation: u64, now: u64) -> (r: Vec<Released>)
        requires
            old(self).wf(),
        ensures
            final(self).wf(),
            final(self).limits == old(self).limits,
            final(self).applied_generation == (if generation > old(self).applied_generation {
                generation
            } else {
                old(self).applied_generation
            }),
            (final(self).gates@, r@) == open_ready(
                old(self).gates@,
                0,
                final(self).applied_generation,
                now,
            ),
    {
        if generation > self.applied_generation {
            self.applied_generation = generation;
        }
        let applied: u64 = self.applied_generation;
        let ghost all = self.gates@;
        let mut out: Vec<Released> = Vec::new();
        let mut idx: usize = 0;
        proof {
            assert(out@ + open_ready(all, 0, applied, now).1 =~= open_ready(
                all,
                0,
                applied,
                now,
            ).1);
        }
        while idx < self.gates.len()
            invariant
                self.wf(),
                self.limits == old(self).limits,
                self.applied_generation == applied,
                idx <= self.gates@.len(),
                open_ready(all, 0, applied, now) == (
                    open_ready(self.gates@, idx as int, applied, now).0,
                    out@ + open_ready(self.gates@, idx as int, applied, now).1,
                ),
            decreases self.gates@.len() - idx,
        {
            let ghost gates = self.gates@;
            let ghost before = out@;
            let g = &self.gates[idx];
            if g.open_requested && g.spec.min_topology_generation <= applied {
                let release = if g.spec.deadline <= now {
                    Release::Expired
                } else {
                    Release::Replan { topology_generation: applied }
                };
                proof {
                    lemma_total_without(gates, idx as int);
                }
                self.drain_gate(idx, release, &mut out);
                proof {
                    let rest = open_ready(self.gates@, idx as int, applied, now).1;
                    let d = drained(gates[idx as int].parked@, release);
                    assert(before + (d + rest) =~= (before + d) + rest);
                }
            } else {
                idx += 1;
            }
        }
        proof {
            assert(out@ + Seq::<Released>::empty() =~= out@);
        }
        out
    }

    /// Installs or replaces a gate (level-triggered from topology or via
    /// admin RPC — same spec either way, idempotent by id). Re-closing keeps
    /// parked sessions and preserves any pending open: a level-triggered
    /// re-assertion of the same gate must not silently cancel an in-flight open
    /// (which would strand the parked sessions until the deadline).
    pub fn close(&mut self, spec_: GateSpec)
        requires
            old(self).wf(),
        ensures
            final(self).wf(),
            final(self).limits == old(self).limits,
            final(self).applied_generation == old(self).applied_generation,
            ({
                let i = gate_at(old(self).gates@, spec_.id@);
                if 0 <= i < old(self).gates@.len() {
                    &&& final(self).gates@.len() == old(self).gates@.len()
                    &&& final(self).gates@[i].spec == spec_
                    &&& final(self).gates@[i].parked@ == old(self).gates@[i].parked@
                    &&& final(self).gates@[i].open_requested == old(self).gates@[i].open_requested
                    &&& final(self).gates@ == old(self).gates@.update(i, final(self).gates@[i])
                } else {
                    &&& final(self).gates@.len() == old(self).gates@.len() + 1
                    &&& final(self).gates@.last().spec == spec_
                    &&& final(self).gates@.last().parked@.len() == 0
                    &&& !final(self).gates@.last().open_requested
                    &&& final(self).gates@.drop_last() == old(self).gates@
                }
            }),
    {
        let i: usize = self.position(spec_.id.as_str());
        let ghost gates = self.gates@;
        if i < self.gates.len() {
            self.gates[i].spec = spec_;
            proof {
                lemma_total_update(gates, i as int, self.gates@[i as int]);
                assert(self.gates@ =~= gates.update(i as int, self.gates@[i as int]));
                assert forall|x: int, y: int| 0 <= x < y < self.gates@.len() implies (
                #[trigger] self.gates@[x]).spec.id@ != (#[trigger] self.gates@[y]).spec.id@ by {
                    assert(gates[x].spec.id@ != gates[y].spec.id@);
                }
                assert forall|x: int| 0 <= x < self.gates@.len() implies (
                #[trigger] self.gates@[x]).parked@.len() <= self.limits.max_sessions by {
                    assert(gates[x].parked@.len() <= self.limits.max_sessions);
                }
            }
            return;
        }
        self.gates.push(Gate { spec: spec_, parked: Vec::new(), open_requested: false });
        proof {
            assert(self.gates@.drop_last() =~= gates);
            assert forall|x: int, y: int| 0 <= x < y < self.gates@.len() implies (
            #[trigger] self.gates@[x]).spec.id@ != (#[trigger] self.gates@[y]).spec.id@ by {
                if y < gates.len() {
                    assert(gates[x].spec.id@ != gates[y].spec.id@);
                } else {
                    assert(gates[x].spec.id@ != spec_.id@);
                }
            }
            assert forall|x: int| 0 <= x < self.gates@.len() implies (
            #[trigger] self.gates@[x]).parked@.len() <= self.limits.max_sessions by {
                if x < gates.len() {
                    assert(gates[x].parked@.len() <= self.limits.max_sessions);
                }
            }
        }
    }

    fn position(&self, id: &str) -> (r: usize)
        ensures
            r == gate_at(self.gates@, id@),
            r <= self.gates@.len(),
            r < self.gates@.len() ==> self.gates@[r as int].spec.id@ == id@,
            forall|k: int| 0 <= k < r ==> (#[trigger] self.gates@[k]).spec.id@ != id@,
    {
        let mut i: usize = 0;
        while i < self.gates.len() && !text::same(self.gates[i].spec.id.as_str(), id)
            invariant
                i <= self.gates@.len(),
                forall|k: int| 0 <= k < i ==> (#[trigger] self.gates@[k]).spec.id@ != id@,
            decreases self.gates@.len() - i,
        {
            i += 1;
        }
        proof {
            lemma_gate_at(self.gates@, id@, i as int);
        }
        i
    }

    /// Opens a gate. If the applied topology generation has not yet reached the
    /// gate's minimum, the open is armed and that gate keeps parking until
    /// `topology_applied` catches up — replaying earlier would route buffered
    /// writes against the pre-cutover shard map. A gate whose deadline has
    /// already passed is expired instead (an aborted cutover, not a switch).
    pub fn open(&mut self, gate_id: &str, now: u64) -> (r: Vec<Released>)
        requires
            old(self).wf(),
        ensures
            final(self).wf(),
            final(self).limits == old(self).limits,
            final(self).applied_generation == old(self).applied_generation,
            ({
                let gates = old(self).gates@;
                let i = gate_at(gates, gate_id@);
                if !(0 <= i < gates.len()) {
                    final(self).gates@ == gates && r@.len() == 0
                } else if gates[i].spec.deadline <= now {
                    final(self).gates@ == without(gates, i) && r@ == drained(
                        gates[i].parked@,
                        Release::Expired,
                    )
                } else if gates[i].spec.min_topology_generation > old(self).applied_generation {
                    &&& r@.len() == 0
                    &&& final(self).gates@.len() == gates.len()
                    &&& final(self).gates@[i].open_requested
                    &&& final(self).gates@[i].spec == gates[i].spec
                    &&& final(self).gates@[i].parked@ == gates[i].parked@
                    &&& final(self).gates@ == gates.update(i, final(self).gates@[i])
                } else {
                    final(self).gates@ == without(gates, i) && r@ == drained(
                        gates[i].parked@,
                        Release::Replan { topology_generation: old(self).applied_generation },
                    )
                }
            }),
    {
        let mut out: Vec<Released> = Vec::new();
        let i: usize = self.position(gate_id);
        let ghost gates = self.gates@;
        if i >= self.gates.len() {
            return out;
        }
        if self.gates[i].spec.deadline <= now {
            self.drain_gate(i, Release::Expired, &mut out);
            proof {
                assert(out@ =~= drained(gates[i as int].parked@, Release::Expired));
            }
            return out;
        }
        let applied: u64 = self.applied_generation;
        if self.gates[i].spec.min_topology_generation > applied {
            self.gates[i].open_requested = true;
            proof {
                lemma_total_update(gates, i as int, self.gates@[i as int]);
                assert(self.gates@ =~= gates.update(i as int, self.gates@[i as int]));
                assert forall|x: int, y: int| 0 <= x < y < self.gates@.len() implies (
                #[trigger] self.gates@[x]).spec.id@ != (#[trigger] self.gates@[y]).spec.id@ by {
                    assert(gates[x].spec.id@ != gates[y].spec.id@);
                }
                assert forall|x: int| 0 <= x < self.gates@.len() implies (
                #[trigger] self.gates@[x]).parked@.len() <= self.limits.max_sessions by {
                    assert(gates[x].parked@.len() <= self.limits.max_sessions);
                }
            }
            return out;
        }
        self.drain_gate(i, Release::Replan { topology_generation: applied }, &mut out);
        proof {
            assert(out@ =~= drained(
                gates[i as int].parked@,
                Release::Replan { topology_generation: applied },
            ));
        }
        out
    }

    /// Expires overdue gates; returns how many were expired, with the sessions released. The
    /// router runs this from a timer tick.
    pub fn expire_due(&mut self, now: u64) -> (r: (usize, Vec<Released>))
        requires
            old(self).wf(),
        ensures
            final(self).wf(),
            final(self).limits == old(self).limits,
            final(self).applied_generation == old(self).applied_generation,
            (final(self).gates@, r.1@, r.0 as nat) == expire_from(old(self).gates@, 0, now),
    {
        let ghost all = self.gates@;
        let n: usize = self.gates.len();
        let mut out: Vec<Released> = Vec::new();
        let mut expired: usize = 0;
        let mut idx: usize = 0;
        proof {
            assert(out@ + expire_from(all, 0, now).1 =~= expire_from(all, 0, now).1);
        }
        while idx < self.gates.len()
            invariant
                self.wf(),
                self.limits == old(self).limits,
                self.applied_generation == old(self).applied_generation,
                idx <= self.gates@.len(),
                expired + self.gates@.len() == n,
                expire_from(all, 0, now) == (
                    expire_from(self.gates@, idx as int, now).0,
                    out@ + expire_from(self.gates@, idx as int, now).1,
                    (expired + expire_from(self.gates@, idx as int, now).2) as nat,
                ),
            decreases self.gates@.len() - idx,
        {
            let ghost gates = self.gates@;
            let ghost before = out@;
            if self.gates[idx].spec.deadline <= now {
                proof {
                    lemma_total_without(gates, idx as int);
                }
                self.drain_gate(idx, Release::Expired, &mut out);
                expired += 1;
                proof {
                    let rest = expire_from(self.gates@, idx as int, now).1;
                    let d = drained(gates[idx as int].parked@, Release::Expired);
                    assert(before + (d + rest) =~= (before + d) + rest);
                }
            } else {
                idx += 1;
            }
        }
        proof {
            assert(out@ + Seq::<Released>::empty() =~= out@);
        }
        (expired, out)
    }

    /// Drops the parked sessions whose client has gone, so they neither hold memory nor count
    /// toward capacity.
    fn prune_dead(&mut self, dead: &[u64])
        requires
            old(self).wf(),
        ensures
            final(self).wf(),
            final(self).limits == old(self).limits,
            final(self).applied_generation == old(self).applied_generation,
            final(self).gates@.len() == old(self).gates@.len(),
            forall|i: int|
                0 <= i < final(self).gates@.len() ==> (#[trigger] final(self).gates@[i]).spec
                    == old(self).gates@[i].spec && final(self).gates@[i].open_requested == old(
                    self
                ).gates@[i].open_requested && final(self).gates@[i].parked@ == alive(
                    old(self).gates@[i].parked@,
                    dead@,
                ),
    {
        let ghost all = self.gates@;
        let mut i: usize = 0;
        while i < self.gates.len()
            invariant
                self.wf(),
                self.limits == old(self).limits,
                self.applied_generation == old(self).applied_generation,
                i <= self.gates@.len() == all.len(),
                all == old(self).gates@,
                forall|k: int|
                    0 <= k < i ==> (#[trigger] self.gates@[k]).spec == all[k].spec
                        && self.gates@[k].open_requested == all[k].open_requested
                        && self.gates@[k].parked@ == alive(all[k].parked@, dead@),
                forall|k: int| i <= k < all.len() ==> (#[trigger] self.gates@[k]) == all[k],
            decreases self.gates@.len() - i,
        {
            let ghost gates = self.gates@;
            let parked = keep_alive(&self.gates[i].parked, dead);
            self.gates[i].parked = parked;
            proof {
                let g = self.gates@[i as int];
                assert(self.gates@ =~= gates.update(i as int, g));
                lemma_total_update(gates, i as int, g);
                lemma_alive_len(gates[i as int].parked@, dead@);
                assert forall|x: int, y: int| 0 <= x < y < self.gates@.len() implies (
                #[trigger] self.gates@[x]).spec.id@ != (#[trigger] self.gates@[y]).spec.id@ by {
                    assert(gates[x].spec.id@ != gates[y].spec.id@);
                }
                assert forall|x: int| 0 <= x < self.gates@.len() implies (
                #[trigger] self.gates@[x]).parked@.len() <= self.limits.max_sessions by {
                    assert(gates[x].parked@.len() <= self.limits.max_sessions);
                }
            }
            i += 1;
        }
    }

    fn total(&self) -> (r: usize)
        requires
            self.wf(),
        ensures
            r == total_parked(self.gates@),
    {
        let mut n: usize = 0;
        let mut i: usize = 0;
        while i < self.gates.len()
            invariant
                i <= self.gates@.len(),
                self.wf(),
                n == total_parked(self.gates@.take(i as int)),
            decreases self.gates@.len() - i,
        {
            proof {
                assert(self.gates@.take(i + 1).drop_last() =~= self.gates@.take(i as int));
                lemma_total_prefix(self.gates@, i + 1);
            }
            n = n + self.gates[i].parked.len();
            i += 1;
        }
        proof {
            assert(self.gates@.take(self.gates@.len() as int) =~= self.gates@);
        }
        n
    }

    /// Hot-path check of a session's statement. `dead` names the parked sessions whose client
    /// has disconnected. A session that is parked will be released; it then re-plans and
    /// checks again (see the recheck contract in the module docs).
    pub fn check(&mut self, scope: &StatementScope, session: u64, now: u64, dead: &[u64]) -> (r:
        Admission)
        requires
            old(self).wf(),
        ensures
            final(self).wf(),
            final(self).limits == old(self).limits,
            final(self).applied_generation == old(self).applied_generation,
            final(self).gates@.len() == old(self).gates@.len(),
            ({
                let gates = old(self).gates@;
                let i = blocking(gates, *scope);
                if !(0 <= i < gates.len()) {
                    r == Admission::Proceed && final(self).gates@ == gates
                } else {
                    &&& forall|k: int|
                        0 <= k < gates.len() ==> (#[trigger] final(self).gates@[k]).spec
                            == gates[k].spec && final(self).gates@[k].open_requested
                            == gates[k].open_requested && (k != i || r == Admission::Rejected
                            ==> final(self).gates@[k].parked@ == alive(gates[k].parked@, dead@))
                    &&& r == Admission::Parked ==> final(self).gates@[i].parked@ == alive(
                        gates[i].parked@,
                        dead@,
                    ).push(Parked { session, enqueued: now })
                    &&& r == Admission::Rejected <==> alive_total(gates, dead@) >= old(
                        self
                    ).limits.max_total_sessions || alive(gates[i].parked@, dead@).len() >= old(
                        self
                    ).limits.max_sessions
                    &&& r != Admission::Proceed
                }
            }),
    {
        let mut i: usize = 0;
        while i < self.gates.len() && !((self.gates[i].spec.mode == GateMode::All
            || scope.is_write) && self.gates[i].spec.matcher.matches(scope))
            invariant
                i <= self.gates@.len(),
                forall|k: int| 0 <= k < i ==> !holds_back(#[trigger] self.gates@[k], *scope),
            decreases self.gates@.len() - i,
        {
            i += 1;
        }
        proof {
            lemma_blocking(self.gates@, *scope, i as int);
        }
        if i >= self.gates.len() {
            return Admission::Proceed;
        }
        let ghost all = self.gates@;
        // Prune disconnected sessions across all gates BEFORE measuring capacity,
        // so dead clients neither hold a per-gate nor an engine-wide slot.
        self.prune_dead(dead);
        proof {
            lemma_alive_total(all, self.gates@, dead@);
        }
        let ghost gates = self.gates@;
        let over_total = self.total() >= self.limits.max_total_sessions;
        if over_total || self.gates[i].parked.len() >= self.limits.max_sessions {
            return Admission::Rejected;
        }
        self.gates[i].parked.push(Parked { session, enqueued: now });
        proof {
            let g = self.gates@[i as int];
            assert(self.gates@ =~= gates.update(i as int, g));
            lemma_total_update(gates, i as int, g);
            assert forall|x: int, y: int| 0 <= x < y < self.gates@.len() implies (
            #[trigger] self.gates@[x]).spec.id@ != (#[trigger] self.gates@[y]).spec.id@ by {
                assert(gates[x].spec.id@ != gates[y].spec.id@);
            }
            assert forall|x: int| 0 <= x < self.gates@.len() implies (
            #[trigger] self.gates@[x]).parked@.len() <= self.limits.max_sessions by {
                assert(gates[x].parked@.len() <= self.limits.max_sessions);
            }
        }
        Admission::Parked
    }

    /// Rejects sessions parked longer than `max_wait` (run from the same
    /// timer tick as `expire_due`); returns those rejected, gate by gate.
    pub fn reject_overdue_sessions(&mut self, now: u64, dead: &[u64]) -> (r: Vec<Released>)
        requires
            old(self).wf(),
        ensures
            final(self).wf(),
            final(self).limits == old(self).limits,
            final(self).applied_generation == old(self).applied_generation,
            final(self).gates@.len() == old(self).gates@.len(),
            forall|i: int|
                0 <= i < final(self).gates@.len() ==> (#[trigger] final(self).gates@[i]).spec
                    == old(self).gates@[i].spec && final(self).gates@[i].open_requested == old(
                    self
                ).gates@[i].open_requested && final(self).gates@[i].parked@ == waiting(
                    old(self).gates@[i].parked@,
                    dead@,
                    now,
                    old(self).limits.max_wait,
                ),
            r@ == rejected_sessions(old(self).gates@, dead@, now, old(self).limits.max_wait),
    {
        let ghost all = self.gates@;
        let max_wait: u64 = self.limits.max_wait;
        let mut out: Vec<Released> = Vec::new();
        let mut i: usize = 0;
        proof {
            assert(all.take(0) =~= Seq::<Gate>::empty());
        }
        while i < self.gates.len()
            invariant
                self.wf(),
                self.limits == old(self).limits,
                self.applied_generation == old(self).applied_generation,
                max_wait == self.limits.max_wait,
                i <= self.gates@.len() == all.len(),
                all == old(self).gates@,
                forall|k: int|
                    0 <= k < i ==> (#[trigger] self.gates@[k]).spec == all[k].spec
                        && self.gates@[k].open_requested == all[k].open_requested
                        && self.gates@[k].parked@ == waiting(all[k].parked@, dead@, now, max_wait),
                forall|k: int| i <= k < all.len() ==> (#[trigger] self.gates@[k]) == all[k],
                out@ == rejected_sessions(all.take(i as int), dead@, now, max_wait),
            decreases self.gates@.len() - i,
        {
            let ghost gates = self.gates@;
            let kept = keep_alive(&self.gates[i].parked, dead);
            let ghost a = kept@;
            let ghost before = out@;
            let mut n: usize = 0;
            proof {
                assert(a.skip(0) =~= a);
                assert(a.take(0) =~= Seq::<Parked>::empty());
                assert(before + drained(a.take(0), Release::Rejected) =~= before);
            }
            while n < kept.len() && kept[n].enqueued <= now && now - kept[n].enqueued > max_wait
                invariant
                    n <= kept@.len(),
                    a == kept@,
                    overdue_count(a, now, max_wait) == n + overdue_count(
                        a.skip(n as int),
                        now,
                        max_wait,
                    ),
                    out@ == before + drained(a.take(n as int), Release::Rejected),
                decreases kept@.len() - n,
            {
                proof {
                    assert(a.skip(n as int)[0] == a[n as int]);
                    assert(a.skip(n as int).drop_first() =~= a.skip(n + 1));
                }
                let p: Parked = kept[n];
                out.push((p.session, Release::Rejected));
                proof {
                    let d = drained(a.take(n as int), Release::Rejected);
                    let e = drained(a.take(n + 1), Release::Rejected);
                    assert(e =~= d.push((p.session, Release::Rejected)));
                    assert((before + d).push((p.session, Release::Rejected)) =~= before + e);
                }
                n += 1;
            }
            proof {
                if n < a.len() {
                    assert(a.skip(n as int)[0] == a[n as int]);
                }
                assert(overdue_count(a, now, max_wait) == n);
                assert(all.take(i + 1).drop_last() =~= all.take(i as int));
                assert(gates[i as int] == all[i as int]);
            }
            let rest = rest_of(&kept, n);
            self.gates[i].parked = rest;
            proof {
                let g = self.gates@[i as int];
                assert(self.gates@ =~= gates.update(i as int, g));
                lemma_total_update(gates, i as int, g);
                lemma_alive_len(gates[i as int].parked@, dead@);
                assert forall|x: int, y: int| 0 <= x < y < self.gates@.len() implies (
                #[trigger] self.gates@[x]).spec.id@ != (#[trigger] self.gates@[y]).spec.id@ by {
                    assert(gates[x].spec.id@ != gates[y].spec.id@);
                }
                assert forall|x: int| 0 <= x < self.gates@.len() implies (
                #[trigger] self.gates@[x]).parked@.len() <= self.limits.max_sessions by {
                    assert(gates[x].parked@.len() <= self.limits.max_sessions);
                }
            }
            i += 1;
        }
        proof {
            assert(all.take(all.len() as int) =~= all);
        }
        out
    }

    /// The gates' ids with the number of sessions behind each.
    pub fn status(&self) -> (r: Vec<(String, usize)>)
        ensures
            r@.len() == self.gates@.len(),
            forall|i: int|
                0 <= i < r@.len() ==> (#[trigger] r@[i]).0@ == self.gates@[i].spec.id@ && r@[i].1
                    == self.gates@[i].parked@.len(),
    {
        let mut out: Vec<(String, usize)> = Vec::new();
        let mut i: usize = 0;
        while i < self.gates.len()
            invariant
                i <= self.gates@.len(),
                out@.len() == i,
                forall|k: int|
                    0 <= k < i ==> (#[trigger] out@[k]).0@ == self.gates@[k].spec.id@ && out@[k].1
                        == self.gates@[k].parked@.len(),
            decreases self.gates@.len() - i,
        {
            out.push((self.gates[i].spec.id.clone(), self.gates[i].parked.len()));
            i += 1;
        }
        out
    }
}

/// What stays parked behind a gate: those whose client is there and that have not been parked
/// too long, or stand behind one that has not.
pub open spec fn waiting(parked: Seq<Parked>, dead: Seq<u64>, now: u64, max_wait: u64) -> Seq<
    Parked,
> {
    let a = alive(parked, dead);
    a.skip(overdue_count(a, now, max_wait) as int)
}

/// The sessions that have been parked too long, gate by gate, each gate's in the order of
/// arrival.
pub open spec fn rejected_sessions(gates: Seq<Gate>, dead: Seq<u64>, now: u64, max_wait: u64) -> Seq<
    Released,
>
    decreases gates.len(),
{
    if gates.len() == 0 {
        Seq::empty()
    } else {
        let a = alive(gates.last().parked@, dead);
        rejected_sessions(gates.drop_last(), dead, now, max_wait) + drained(
            a.take(overdue_count(a, now, max_wait) as int),
            Release::Rejected,
        )
    }
}

/// The number of sessions whose client is there.
pub open spec fn alive_total(gates: Seq<Gate>, dead: Seq<u64>) -> nat
    decreases gates.len(),
{
    if gates.len() == 0 {
        0
    } else {
        alive_total(gates.drop_last(), dead) + alive(gates.last().parked@, dead).len()
    }
}

proof fn lemma_alive_total(a: Seq<Gate>, b: Seq<Gate>, dead: Seq<u64>)
    requires
        a.len() == b.len(),
        forall|i: int|
            0 <= i < a.len() ==> (#[trigger] b[i]).parked@ == alive(a[i].parked@, dead),
    ensures
        total_parked(b) == alive_total(a, dead),
    decreases a.len(),
{
    if a.len() > 0 {
        let n = a.len() - 1;
        assert(b[n].parked@ == alive(a[n].parked@, dead));
        assert forall|i: int| 0 <= i < n implies (#[trigger] b.drop_last()[i]).parked@ == alive(
            a.drop_last()[i].parked@,
            dead,
        ) by {
            assert(b.drop_last()[i] == b[i]);
        }
        lemma_alive_total(a.drop_last(), b.drop_last(), dead);
    }
}

proof fn lemma_alive_len(p: Seq<Parked>, dead: Seq<u64>)
    ensures
        alive(p, dead).len() <= p.len(),
    decreases p.len(),
{
    reveal(Seq::filter);
    if p.len() > 0 {
        lemma_alive_len(p.drop_last(), dead);
    }
}

proof fn lemma_total_prefix(a: Seq<Gate>, i: int)
    requires
        0 <= i <= a.len(),
    ensures
        total_parked(a.take(i)) <= total_parked(a),
    decreases a.len() - i,
{
    if i == a.len() {
        assert(a.take(i) =~= a);
    } else {
        lemma_total_prefix(a, i + 1);
        assert(a.take(i + 1).drop_last() =~= a.take(i));
    }
}

fn is_dead(session: u64, dead: &[u64]) -> (r: bool)
    ensures
        r == dead@.contains(session),
{
    let mut i: usize = 0;
    while i < dead.len()
        invariant
            i <= dead@.len(),
            forall|k: int| 0 <= k < i ==> dead@[k] != session,
        decreases dead@.len() - i,
    {
        if dead[i] == session {
            return true;
        }
        i += 1;
    }
    false
}

fn keep_alive(parked: &Vec<Parked>, dead: &[u64]) -> (r: Vec<Parked>)
    ensures
        r@ == alive(parked@, dead@),
        r@.len() <= parked@.len(),
{
    let ghost there = |p: Parked| !dead@.contains(p.session);
    let mut out: Vec<Parked> = Vec::new();
    let mut i: usize = 0;
    proof {
        reveal(Seq::filter);
        assert(parked@.take(0).filter(there) =~= Seq::<Parked>::empty());
    }
    while i < parked.len()
        invariant
            i <= parked@.len(),
            there == (|p: Parked| !dead@.contains(p.session)),
            out@ == parked@.take(i as int).filter(there),
            out@.len() <= i,
        decreases parked@.len() - i,
    {
        proof {
            reveal(Seq::filter);
            assert(parked@.take(i + 1).drop_last() =~= parked@.take(i as int));
            assert(parked@.take(i + 1).last() == parked@[i as int]);
        }
        let p: Parked = parked[i];
        if !is_dead(p.session, dead) {
            out.push(p);
        }
        i += 1;
    }
    proof {
        assert(parked@.take(parked@.len() as int) =~= parked@);
    }
    out
}

fn rest_of(parked: &Vec<Parked>, n: usize) -> (r: Vec<Parked>)
    requires
        n <= parked@.len(),
    ensures
        r@ == parked@.skip(n as int),
{
    let mut out: Vec<Parked> = Vec::new();
    let mut i: usize = n;
    while i < parked.len()
        invariant
            n <= i <= parked@.len(),
            out@ == parked@.subrange(n as int, i as int),
        decreases parked@.len() - i,
    {
        let p: Parked = parked[i];
        out.push(p);
        proof {
            assert(parked@.subrange(n as int, i + 1) =~= parked@.subrange(n as int, i as int).push(
                p,
            ));
        }
        i += 1;
    }
    proof {
        assert(out@ =~= parked@.skip(n as int));
    }
    out
}

// ---------------------------------------------------------------------------------------
// Laws.
// ---------------------------------------------------------------------------------------

/// A session is replayed only against a topology that its gate waited for, and only before the
/// gate's deadline.
pub proof fn law_never_switches_blindly(g: Gate, applied: u64, now: u64, generation: u64)
    requires
        ready(g, applied),
        opening(g, applied, now) == (Release::Replan { topology_generation: generation }),
    ensures
        generation >= g.spec.min_topology_generation,
        now < g.spec.deadline,
{
}

/// After a timer tick no gate is past its deadline: nobody waits forever.
pub proof fn law_no_gate_outlives_its_deadline(gates: Seq<Gate>, i: int, now: u64)
    requires
        0 <= i <= gates.len(),
        forall|k: int| 0 <= k < i ==> (#[trigger] gates[k]).spec.deadline > now,
    ensures
        forall|k: int|
            0 <= k < expire_from(gates, i, now).0.len() ==> (#[trigger] expire_from(
                gates,
                i,
                now,
            ).0[k]).spec.deadline > now,
        expire_from(gates, i, now).0.len() + expire_from(gates, i, now).2 == gates.len(),
    decreases gates.len() - i,
{
    if i < gates.len() {
        if gates[i].spec.deadline <= now {
            let g = without(gates, i);
            assert(g.len() == gates.len() - 1);
            law_no_gate_outlives_its_deadline(g, i, now);
        } else {
            law_no_gate_outlives_its_deadline(gates, i + 1, now);
        }
    }
}

/// After a topology is applied no gate is held that could open.
pub proof fn law_no_ready_gate_is_held(gates: Seq<Gate>, i: int, applied: u64, now: u64)
    requires
        0 <= i <= gates.len(),
        forall|k: int| 0 <= k < i ==> !ready(#[trigger] gates[k], applied),
    ensures
        forall|k: int|
            0 <= k < open_ready(gates, i, applied, now).0.len() ==> !ready(
                #[trigger] open_ready(gates, i, applied, now).0[k],
                applied,
            ),
    decreases gates.len() - i,
{
    if i < gates.len() {
        if ready(gates[i], applied) {
            let g = without(gates, i);
            assert(g.len() == gates.len() - 1);
            assert forall|k: int| 0 <= k < i implies !ready(#[trigger] g[k], applied) by {
                assert(g[k] == gates[k]);
            }
            law_no_ready_gate_is_held(g, i, applied, now);
            assert(open_ready(gates, i, applied, now).0 == open_ready(g, i, applied, now).0);
        } else {
            law_no_ready_gate_is_held(gates, i + 1, applied, now);
            assert(open_ready(gates, i, applied, now).0 == open_ready(
                gates,
                i + 1,
                applied,
                now,
            ).0);
        }
    } else {
        assert(open_ready(gates, i, applied, now).0 == gates);
    }
}

/// No session is lost: those released and those still parked are as many as there were.
pub proof fn law_no_session_is_lost(gates: Seq<Gate>, i: int, applied: u64, now: u64)
    requires
        0 <= i <= gates.len(),
    ensures
        total_parked(open_ready(gates, i, applied, now).0) + open_ready(
            gates,
            i,
            applied,
            now,
        ).1.len() == total_parked(gates),
        total_parked(expire_from(gates, i, now).0) + expire_from(gates, i, now).1.len()
            == total_parked(gates),
    decreases gates.len() - i,
{
    if i < gates.len() {
        lemma_total_without(gates, i);
        law_no_session_is_lost(without(gates, i), i, applied, now);
        law_no_session_is_lost(gates, i + 1, applied, now);
        assert(drained(gates[i].parked@, opening(gates[i], applied, now)).len()
            == gates[i].parked@.len());
        assert(drained(gates[i].parked@, Release::Expired).len() == gates[i].parked@.len());
    }
}

/// The sessions of a gate are released in the order in which they were parked.
pub proof fn law_release_is_fifo(parked: Seq<Parked>, how: Release)
    ensures
        drained(parked, how).len() == parked.len(),
        forall|i: int|
            0 <= i < parked.len() ==> (#[trigger] drained(parked, how)[i]) == (
                parked[i].session,
                how,
            ),
{
}

/// A closed gate admits nothing that it is there to hold: a statement proceeds exactly where
/// no gate that stops its kind of statement (reads only in mode `All`, writes in either) has
/// a selector that names it, by everything, by one of its tables, or by a range with one of
/// its ids. A statement that is held waits at the first such gate.
pub proof fn law_a_closed_gate_admits_nothing_it_selects(gates: Seq<Gate>, s: StatementScope)
    ensures
        0 <= blocking(gates, s) <= gates.len(),
        forall|k: int|
            0 <= k < blocking(gates, s) ==> {
                let g = (#[trigger] gates[k]).spec;
                g.mode == GateMode::WritesOnly && !s.is_write || (!g.matcher.all && (forall|
                    i: int,
                    j: int,
                |
                    #![trigger s.tables@[i], g.matcher.tables@[j]]
                    0 <= i < s.tables@.len() && 0 <= j < g.matcher.tables@.len()
                        ==> s.tables@[i]@ != g.matcher.tables@[j]@) && (forall|i: int, j: int|
                    #![trigger s.keyspace_ids@[i], g.matcher.key_ranges@[j]]
                    0 <= i < s.keyspace_ids@.len() && 0 <= j < g.matcher.key_ranges@.len()
                        ==> !(g.matcher.key_ranges@[j].lower() <= s.keyspace_ids@[i].0
                        < g.matcher.key_ranges@[j].limit())))
            },
        blocking(gates, s) < gates.len() ==> {
            let g = gates[blocking(gates, s)].spec;
            (g.mode == GateMode::All || s.is_write) && (g.matcher.all || (exists|i: int, j: int|
                #![trigger s.tables@[i], g.matcher.tables@[j]]
                0 <= i < s.tables@.len() && 0 <= j < g.matcher.tables@.len() && s.tables@[i]@
                    == g.matcher.tables@[j]@) || (exists|i: int, j: int|
                #![trigger s.keyspace_ids@[i], g.matcher.key_ranges@[j]]
                0 <= i < s.keyspace_ids@.len() && 0 <= j < g.matcher.key_ranges@.len()
                    && g.matcher.key_ranges@[j].lower() <= s.keyspace_ids@[i].0
                    < g.matcher.key_ranges@[j].limit()))
        },
    decreases gates.len(),
{
    if gates.len() > 0 {
        let t = gates.drop_first();
        law_a_closed_gate_admits_nothing_it_selects(t, s);
        let g = gates[0].spec;
        lemma_selected(g.matcher, s);
        if !holds_back(gates[0], s) {
            assert forall|k: int| 0 < k < blocking(gates, s) implies #[trigger] gates[k] == t[k
                - 1] by {}
            if blocking(gates, s) < gates.len() {
                assert(gates[blocking(gates, s)] == t[blocking(t, s)]);
            }
        }
    }
}

/// What a selector selects, over its lists.
proof fn lemma_selected(m: GateMatch, s: StatementScope)
    ensures
        selects(m, s) <==> (m.all || (exists|i: int, j: int|
            #![trigger s.tables@[i], m.tables@[j]]
            0 <= i < s.tables@.len() && 0 <= j < m.tables@.len() && s.tables@[i]@ == m.tables@[j]@)
            || (exists|i: int, j: int|
            #![trigger s.keyspace_ids@[i], m.key_ranges@[j]]
            0 <= i < s.keyspace_ids@.len() && 0 <= j < m.key_ranges@.len()
                && m.key_ranges@[j].lower() <= s.keyspace_ids@[i].0 < m.key_ranges@[j].limit())),
{
    if exists|i: int, j: int|
        #![trigger s.tables@[i], m.tables@[j]]
        0 <= i < s.tables@.len() && 0 <= j < m.tables@.len() && s.tables@[i]@ == m.tables@[j]@ {
        let (i, j) = choose|i: int, j: int|
            #![trigger s.tables@[i], m.tables@[j]]
            0 <= i < s.tables@.len() && 0 <= j < m.tables@.len() && s.tables@[i]@
                == m.tables@[j]@;
        assert(lists_table(m.tables@, s.tables@[i]@));
    }
    if exists|i: int, j: int|
        #![trigger s.keyspace_ids@[i], m.key_ranges@[j]]
        0 <= i < s.keyspace_ids@.len() && 0 <= j < m.key_ranges@.len() && m.key_ranges@[j].lower()
            <= s.keyspace_ids@[i].0 < m.key_ranges@[j].limit() {
        let (i, j) = choose|i: int, j: int|
            #![trigger s.keyspace_ids@[i], m.key_ranges@[j]]
            0 <= i < s.keyspace_ids@.len() && 0 <= j < m.key_ranges@.len()
                && m.key_ranges@[j].lower() <= s.keyspace_ids@[i].0 < m.key_ranges@[j].limit();
        assert(m.key_ranges@[j].holds(s.keyspace_ids@[i].0));
        assert(covers_id(m.key_ranges@, s.keyspace_ids@[i].0));
    }
}

/// An id names at most one gate, and it is found where there is one.
pub proof fn law_a_gate_is_found_by_its_id(gates: Seq<Gate>, id: Seq<char>)
    ensures
        0 <= gate_at(gates, id) <= gates.len(),
        gate_at(gates, id) < gates.len() ==> gates[gate_at(gates, id)].spec.id@ == id,
        forall|k: int| 0 <= k < gate_at(gates, id) ==> (#[trigger] gates[k]).spec.id@ != id,
    decreases gates.len(),
{
    if gates.len() > 0 && gates[0].spec.id@ != id {
        let t = gates.drop_first();
        law_a_gate_is_found_by_its_id(t, id);
        assert forall|k: int| 0 <= k < gate_at(gates, id) implies (
        #[trigger] gates[k]).spec.id@ != id by {
            if k > 0 {
                assert(gates[k] == t[k - 1]);
            }
        }
        if gate_at(gates, id) < gates.len() {
            assert(gates[gate_at(gates, id)] == t[gate_at(t, id)]);
        }
    }
}

/// Only the sessions whose client has gone are dropped, and the others keep their order.
pub proof fn law_only_the_disconnected_are_dropped(
    a: Seq<Parked>,
    b: Seq<Parked>,
    p: Parked,
    dead: Seq<u64>,
)
    ensures
        alive(a + b, dead) == alive(a, dead) + alive(b, dead),
        alive(seq![p], dead) == (if dead.contains(p.session) {
            Seq::empty()
        } else {
            seq![p]
        }),
        alive(Seq::empty(), dead) == Seq::<Parked>::empty(),
    decreases b.len(),
{
    let keep = |p: Parked| !dead.contains(p.session);
    reveal(Seq::filter);
    assert(seq![p].drop_last() =~= Seq::<Parked>::empty());
    assert(Seq::<Parked>::empty().filter(keep) =~= Seq::<Parked>::empty());
    assert(alive(seq![p], dead) =~= if dead.contains(p.session) {
        Seq::empty()
    } else {
        seq![p]
    });
    if b.len() == 0 {
        assert(a + b =~= a);
        assert(alive(a, dead) + alive(b, dead) =~= alive(a, dead));
    } else {
        law_only_the_disconnected_are_dropped(a, b.drop_last(), p, dead);
        assert((a + b).drop_last() =~= a + b.drop_last());
        assert((a + b).last() == b.last());
        assert(alive(a + b, dead) =~= alive(a, dead) + alive(b, dead));
    }
}

/// Exactly the sessions at the front of a queue that have waited longer than the limit are
/// rejected; the first that stays has not, and those behind it stay with it.
pub proof fn law_only_overdue_sessions_are_rejected(
    parked: Seq<Parked>,
    dead: Seq<u64>,
    now: u64,
    max_wait: u64,
)
    ensures
        ({
            let a = alive(parked, dead);
            let n = overdue_count(a, now, max_wait);
            &&& n <= a.len()
            &&& forall|k: int| 0 <= k < n ==> (#[trigger] a[k]).enqueued + max_wait < now
            &&& n < a.len() ==> a[n as int].enqueued + max_wait >= now
            &&& a.take(n as int) + waiting(parked, dead, now, max_wait) == a
        }),
{
    let a = alive(parked, dead);
    lemma_overdue(a, now, max_wait);
    let n = overdue_count(a, now, max_wait) as int;
    assert(a.take(n) + a.skip(n) =~= a);
}

proof fn lemma_overdue(a: Seq<Parked>, now: u64, max_wait: u64)
    ensures
        overdue_count(a, now, max_wait) <= a.len(),
        forall|k: int|
            0 <= k < overdue_count(a, now, max_wait) ==> (#[trigger] a[k]).enqueued + max_wait
                < now,
        overdue_count(a, now, max_wait) < a.len() ==> a[overdue_count(
            a,
            now,
            max_wait,
        ) as int].enqueued + max_wait >= now,
    decreases a.len(),
{
    if a.len() > 0 && overdue(a[0], now, max_wait) {
        let t = a.drop_first();
        lemma_overdue(t, now, max_wait);
        assert forall|k: int| 0 <= k < overdue_count(a, now, max_wait) implies (
        #[trigger] a[k]).enqueued + max_wait < now by {
            if k > 0 {
                assert(a[k] == t[k - 1]);
            }
        }
    }
}

/// The rejections of a tick are, gate by gate, those of its sessions that have waited too
/// long, each told that it is rejected.
pub proof fn law_overdue_sessions_are_told(
    gates: Seq<Gate>,
    g: Gate,
    dead: Seq<u64>,
    now: u64,
    max_wait: u64,
)
    ensures
        rejected_sessions(Seq::empty(), dead, now, max_wait) == Seq::<Released>::empty(),
        ({
            let before = rejected_sessions(gates, dead, now, max_wait);
            let all = rejected_sessions(gates.push(g), dead, now, max_wait);
            let a = alive(g.parked@, dead);
            let gone = a.len() - waiting(g.parked@, dead, now, max_wait).len();
            &&& all.len() == before.len() + gone
            &&& all.take(before.len() as int) == before
            &&& forall|k: int|
                0 <= k < gone ==> #[trigger] all[before.len() + k] == (
                    a[k].session,
                    Release::Rejected,
                )
        }),
{
    let a = alive(g.parked@, dead);
    lemma_overdue(a, now, max_wait);
    let before = rejected_sessions(gates, dead, now, max_wait);
    assert(gates.push(g).drop_last() =~= gates);
    assert(rejected_sessions(gates.push(g), dead, now, max_wait).take(before.len() as int)
        =~= before);
}

/// Capacity counts the connected sessions of every gate.
pub proof fn law_capacity_counts_every_gate(gates: Seq<Gate>, g: Gate, dead: Seq<u64>)
    ensures
        alive_total(Seq::empty(), dead) == 0,
        alive_total(gates.push(g), dead) == alive_total(gates, dead) + alive(
            g.parked@,
            dead,
        ).len(),
        total_parked(gates.push(g)) == total_parked(gates) + g.parked@.len(),
{
    assert(gates.push(g).drop_last() =~= gates);
}

/// Whether a session was released in a way.
pub open spec fn is_released(out: Seq<Released>, session: u64, how: Release) -> bool {
    out.contains((session, how))
}

/// Whether a session is parked behind a gate.
pub open spec fn is_parked(g: Gate, session: u64) -> bool {
    exists|k: int| 0 <= k < g.parked@.len() && (#[trigger] g.parked@[k]).session == session
}

proof fn lemma_drained(parked: Seq<Parked>, how: Release, rest: Seq<Released>, session: u64, w: Release)
    ensures
        (drained(parked, how) + rest).contains((session, w)) <==> (rest.contains((session, w)) || (w
            == how && exists|k: int|
            0 <= k < parked.len() && (#[trigger] parked[k]).session == session)),
{
    let d = drained(parked, how);
    let all = d + rest;
    if all.contains((session, w)) {
        let p = all.index_of((session, w));
        if p < d.len() {
            assert(parked[p].session == session && w == how);
        } else {
            assert(rest[p - d.len()] == (session, w));
        }
    }
    if rest.contains((session, w)) {
        let p = rest.index_of((session, w));
        assert(all[d.len() + p] == (session, w));
    }
    if w == how && exists|k: int| 0 <= k < parked.len() && (#[trigger] parked[k]).session == session {
        let k = choose|k: int| 0 <= k < parked.len() && (#[trigger] parked[k]).session == session;
        assert(all[k] == (session, w));
    }
}

proof fn lemma_without(gates: Seq<Gate>, i: int, g: Gate)
    requires
        0 <= i < gates.len(),
    ensures
        without(gates, i).len() == gates.len() - 1,
        forall|k: int| 0 <= k < i ==> #[trigger] without(gates, i)[k] == gates[k],
        (exists|k: int| i <= k < gates.len() && #[trigger] gates[k] == g) <==> (g == gates[i] || exists|
            k: int,
        | i <= k < without(gates, i).len() && #[trigger] without(gates, i)[k] == g),
{
    let w = without(gates, i);
    if exists|k: int| i <= k < gates.len() && #[trigger] gates[k] == g {
        let k = choose|k: int| i <= k < gates.len() && #[trigger] gates[k] == g;
        if k > i {
            if k == gates.len() - 1 {
                assert(w[i] == g);
            } else {
                assert(w[k] == g);
            }
        }
    }
    if exists|k: int| i <= k < w.len() && #[trigger] w[k] == g {
        let k = choose|k: int| i <= k < w.len() && #[trigger] w[k] == g;
        if k == i {
            assert(gates[gates.len() - 1] == g);
        } else {
            assert(gates[k] == g);
        }
    }
}

proof fn lemma_expiry(gates: Seq<Gate>, i: int, now: u64, g: Gate, session: u64, how: Release)
    requires
        0 <= i <= gates.len(),
    ensures
        ({
            let (left, out, n) = expire_from(gates, i, now);
            &&& left.contains(g) <==> (exists|k: int| 0 <= k < i && #[trigger] gates[k] == g) || (
            g.spec.deadline > now && exists|k: int| i <= k < gates.len() && #[trigger] gates[k] == g)
            &&& out.contains((session, how)) <==> how == Release::Expired && exists|k: int|
                i <= k < gates.len() && (#[trigger] gates[k]).spec.deadline <= now && is_parked(
                    gates[k],
                    session,
                )
        }),
    decreases gates.len() - i,
{
    if i >= gates.len() {
        assert(gates.contains(g) <==> exists|k: int| 0 <= k < i && #[trigger] gates[k] == g);
    } else if gates[i].spec.deadline <= now {
        let w = without(gates, i);
        lemma_without(gates, i, g);
        lemma_expiry(w, i, now, g, session, how);
        let rest = expire_from(w, i, now).1;
        lemma_drained(gates[i].parked@, Release::Expired, rest, session, how);
        assert forall|k: int| 0 <= k < i implies #[trigger] gates[k] == w[k] by {}
        if exists|k: int| 0 <= k < i && #[trigger] gates[k] == g {
            let k = choose|k: int| 0 <= k < i && #[trigger] gates[k] == g;
            assert(w[k] == g);
        }
        if exists|k: int|
            i <= k < gates.len() && (#[trigger] gates[k]).spec.deadline <= now && is_parked(
                gates[k],
                session,
            ) {
            let k = choose|k: int|
                i <= k < gates.len() && (#[trigger] gates[k]).spec.deadline <= now && is_parked(
                    gates[k],
                    session,
                );
            lemma_without(gates, i, gates[k]);
            if gates[k] != gates[i] {
                let l = choose|l: int| i <= l < w.len() && #[trigger] w[l] == gates[k];
                assert(w[l].spec.deadline <= now && is_parked(w[l], session));
            }
        }
        if exists|k: int|
            i <= k < w.len() && (#[trigger] w[k]).spec.deadline <= now && is_parked(w[k], session) {
            let k = choose|k: int|
                i <= k < w.len() && (#[trigger] w[k]).spec.deadline <= now && is_parked(
                    w[k],
                    session,
                );
            lemma_without(gates, i, w[k]);
            let l = choose|l: int| i <= l < gates.len() && #[trigger] gates[l] == w[k];
            assert(gates[l].spec.deadline <= now && is_parked(gates[l], session));
        }
    } else {
        lemma_expiry(gates, i + 1, now, g, session, how);
    }
}

/// A tick expires exactly the gates whose deadline has passed: the others stay, every session
/// behind one that expires is told so, and no other session is told anything.
pub proof fn law_expiry_is_exact(gates: Seq<Gate>, now: u64, g: Gate, session: u64, how: Release)
    ensures
        expire_from(gates, 0, now).0.contains(g) <==> gates.contains(g) && g.spec.deadline > now,
        is_released(expire_from(gates, 0, now).1, session, how) <==> how == Release::Expired
            && exists|k: int|
            0 <= k < gates.len() && (#[trigger] gates[k]).spec.deadline <= now && is_parked(
                gates[k],
                session,
            ),
{
    lemma_expiry(gates, 0, now, g, session, how);
}

proof fn lemma_opening(
    gates: Seq<Gate>,
    i: int,
    applied: u64,
    now: u64,
    g: Gate,
    session: u64,
    how: Release,
)
    requires
        0 <= i <= gates.len(),
    ensures
        ({
            let (left, out) = open_ready(gates, i, applied, now);
            &&& left.contains(g) <==> (exists|k: int| 0 <= k < i && #[trigger] gates[k] == g) || (
            !(g.open_requested && g.spec.min_topology_generation <= applied) && exists|k: int|
                i <= k < gates.len() && #[trigger] gates[k] == g)
            &&& out.contains((session, how)) <==> exists|k: int|
                i <= k < gates.len() && (#[trigger] gates[k]).open_requested
                    && gates[k].spec.min_topology_generation <= applied && is_parked(
                    gates[k],
                    session,
                ) && how == (if gates[k].spec.deadline <= now {
                    Release::Expired
                } else {
                    Release::Replan { topology_generation: applied }
                })
        }),
    decreases gates.len() - i,
{
    if i >= gates.len() {
        assert(gates.contains(g) <==> exists|k: int| 0 <= k < i && #[trigger] gates[k] == g);
    } else if ready(gates[i], applied) {
        let w = without(gates, i);
        lemma_without(gates, i, g);
        lemma_opening(w, i, applied, now, g, session, how);
        let rest = open_ready(w, i, applied, now).1;
        lemma_drained(gates[i].parked@, opening(gates[i], applied, now), rest, session, how);
        if exists|k: int| 0 <= k < i && #[trigger] gates[k] == g {
            let k = choose|k: int| 0 <= k < i && #[trigger] gates[k] == g;
            assert(w[k] == g);
        }
        if exists|k: int| 0 <= k < i && #[trigger] w[k] == g {
            let k = choose|k: int| 0 <= k < i && #[trigger] w[k] == g;
            assert(gates[k] == g);
        }
        let want = |x: Gate|
            x.open_requested && x.spec.min_topology_generation <= applied && is_parked(x, session)
                && how == (if x.spec.deadline <= now {
                Release::Expired
            } else {
                Release::Replan { topology_generation: applied }
            });
        if exists|k: int| i <= k < gates.len() && want(#[trigger] gates[k]) {
            let k = choose|k: int| i <= k < gates.len() && want(#[trigger] gates[k]);
            lemma_without(gates, i, gates[k]);
            if gates[k] != gates[i] {
                let l = choose|l: int| i <= l < w.len() && #[trigger] w[l] == gates[k];
                assert(want(w[l]));
            }
        }
        if exists|k: int| i <= k < w.len() && want(#[trigger] w[k]) {
            let k = choose|k: int| i <= k < w.len() && want(#[trigger] w[k]);
            lemma_without(gates, i, w[k]);
            let l = choose|l: int| i <= l < gates.len() && #[trigger] gates[l] == w[k];
            assert(want(gates[l]));
        }
        if exists|k: int|
            0 <= k < gates[i].parked@.len() && (#[trigger] gates[i].parked@[k]).session == session {
            assert(is_parked(gates[i], session));
        }
    } else {
        lemma_opening(gates, i + 1, applied, now, g, session, how);
    }
}

/// Applying a topology opens exactly the gates whose open was asked for and whose topology
/// has landed: the others stay, every session behind one that opens is told to re-plan on
/// what was applied, or of the expiry where the deadline is over, and no other
/// session is told anything.
pub proof fn law_opening_is_exact(
    gates: Seq<Gate>,
    applied: u64,
    now: u64,
    g: Gate,
    session: u64,
    how: Release,
)
    ensures
        open_ready(gates, 0, applied, now).0.contains(g) <==> gates.contains(g) && !(
        g.open_requested && g.spec.min_topology_generation <= applied),
        is_released(open_ready(gates, 0, applied, now).1, session, how) <==> exists|k: int|
            0 <= k < gates.len() && (#[trigger] gates[k]).open_requested
                && gates[k].spec.min_topology_generation <= applied && is_parked(gates[k], session)
                && how == (if gates[k].spec.deadline <= now {
                Release::Expired
            } else {
                Release::Replan { topology_generation: applied }
            }),
{
    lemma_opening(gates, 0, applied, now, g, session, how);
}

} // verus!
