//! Reserving blocks of global sequence ids.
//!
//! A [`SequenceCache`] hands ids out of reserved blocks; the blocks are reserved
//! from the authoritative `pgshard.sequences` row in the
//! system database. The one thing sequences must never do is duplicate an id,
//! and the one thing that prevents it is that every reserved range is disjoint:
//! a single atomic `UPDATE pgshard.sequences SET next_id = next_id + block_size
//! ... RETURNING` advances the row and returns the range it just claimed, so two
//! concurrent reservations — on any routers — can never claim the same id.
use crate::sequence::{self, InjectedColumn, SequenceInjection};
use crate::slots::Slots;
use crate::text;
use vstd::prelude::*;
use vstd::string::*;

verus! {

/// Advances the row by `block_size` and returns the post-update `next_id` and
/// the `block_size`, so the caller derives the claimed range as
/// `[next_id - block_size, next_id)`. The `CASE` makes the advance a no-op for a
/// non-positive `block_size`: a misconfigured row is reported (not silently
/// used) *without* first moving `next_id` — otherwise a bad reservation would
/// shift the row backward and a later repair could hand out overlapping ids.
pub const RESERVE_SQL: &'static str = "UPDATE pgshard.sequences SET next_id = next_id + CASE WHEN block_size > 0 THEN block_size ELSE 0 END WHERE name = $1 RETURNING next_id, block_size";

/// Bounds every reservation, so a
/// hung system database fails a reservation loudly instead
/// of blocking every sequence's refill on the single shared connection forever.
pub const TIMEOUT_SQL: &'static str = "SET statement_timeout = '10s'";

#[derive(Debug, PartialEq, Eq)]
pub enum SeqError {
    /// The sequence is not registered in the system database.
    UnknownSequence(String),
    /// The reservation failed.
    Backend(String),
}

/// What an error says.
pub open spec fn fault_text(e: SeqError) -> Seq<char> {
    match e {
        SeqError::UnknownSequence(s) => "unknown sequence "@ + text::debug_text(s@),
        SeqError::Backend(m) => "sequence backend error: "@ + m@,
    }
}

impl SeqError {
    pub fn to_string(&self) -> (r: String)
        ensures
            r@ == fault_text(*self),
    {
        match self {
            SeqError::UnknownSequence(s) => text::concat2(
                "unknown sequence ",
                text::debug_string(s.as_str()).as_str(),
            ),
            SeqError::Backend(m) => text::concat2("sequence backend error: ", m.as_str()),
        }
    }
}

/// Whether the claimed block's first id is one.
pub open spec fn reservable(row: Option<(i64, i64)>) -> bool {
    match row {
        Some(p) => p.1 > 0 ==> p.0 - p.1 >= i64::MIN,
        None => true,
    }
}

/// The claimed block — its first id and its size — from what the reservation returned: the
/// row's new `next_id` and its `block_size`, or no row for an unregistered sequence.
pub fn reserve(sequence: &str, row: Option<(i64, i64)>) -> (r: Result<(i64, i64), SeqError>)
    requires
        reservable(row),
    ensures
        match row {
            Some(p) => if p.1 > 0 {
                r == Ok::<(i64, i64), SeqError>(((p.0 - p.1) as i64, p.1))
            } else {
                r matches Err(SeqError::Backend(m)) && m@ == "sequence "@ + text::debug_text(
                    sequence@,
                ) + " has a non-positive block_size "@ + text::decimal(p.1 as int)
            },
            None => r matches Err(SeqError::UnknownSequence(s)) && s@ == sequence@,
        },
{
    match row {
        Some((next_id, size)) => {
            // The CASE in RESERVE_SQL left `next_id` unmoved for a
            // non-positive block_size, so rejecting here has corrupted
            // nothing — report the misconfigured row loudly.
            if size <= 0 {
                return Err(
                    SeqError::Backend(
                        text::concat4(
                            "sequence ",
                            text::debug_string(sequence).as_str(),
                            " has a non-positive block_size ",
                            text::decimal_i64(size).as_str(),
                        ),
                    ),
                );
            }
            Ok((next_id - size, size))
        },
        None => Err(SeqError::UnknownSequence(sequence.to_owned())),
    }
}

/// The row after a reservation: `next_id` has moved by `block_size` where that is positive.
pub open spec fn advanced(next_id: int, block_size: int) -> int {
    if block_size > 0 {
        next_id + block_size
    } else {
        next_id
    }
}

/// Whether an id lies in a block.
pub open spec fn in_block(id: int, start: int, size: int) -> bool {
    start <= id < start + size
}

/// What is left of a reserved block.
#[derive(Debug, Clone, Copy, PartialEq, Eq, Structural)]
pub struct Block {
    pub next: i64,
    pub left: i64,
}

impl Block {
    /// Whether every id of the block is one.
    pub open spec fn wf(self) -> bool {
        self.left >= 0 && self.next + self.left <= i64::MAX
    }
}

/// Hands ids out of reserved blocks.
pub struct SequenceCache {
    pub blocks: Slots<Block>,
}

impl SequenceCache {
    pub open spec fn wf(self) -> bool {
        forall|name: Seq<char>|
            #![trigger self.blocks.at(name)]
            self.blocks.at(name) matches Some(b) ==> b.wf()
    }

    /// What is left of the sequence's block.
    pub open spec fn block(self, sequence: Seq<char>) -> Block {
        match self.blocks.at(sequence) {
            Some(b) => b,
            None => Block { next: 0, left: 0 },
        }
    }

    pub fn new() -> (r: SequenceCache)
        ensures
            r.wf(),
            forall|name: Seq<char>| (#[trigger] r.block(name)).left == 0,
    {
        SequenceCache { blocks: Slots::new() }
    }

    /// The next id of the sequence, or `None` where a block must be reserved first.
    pub fn next_id(&mut self, sequence: &str) -> (r: Option<i64>)
        requires
            old(self).wf(),
        ensures
            final(self).wf(),
            ({
                let b = old(self).block(sequence@);
                if b.left > 0 {
                    r == Some(b.next) && final(self).block(sequence@) == (Block {
                        next: (b.next + 1) as i64,
                        left: (b.left - 1) as i64,
                    })
                } else {
                    r is None && final(self).block(sequence@) == b
                }
            }),
            forall|other: Seq<char>|
                other != sequence@ ==> #[trigger] final(self).block(other) == old(self).block(
                    other,
                ),
    {
        let b: Block = match self.blocks.get(sequence) {
            Some(b) => *b,
            None => {
                return None;
            },
        };
        assert(b.wf());
        if b.left == 0 {
            return None;
        }
        self.blocks.put(sequence, Block { next: b.next + 1, left: b.left - 1 });
        proof {
            assert forall|name: Seq<char>|
                #![trigger self.blocks.at(name)]
                self.blocks.at(name) is Some implies self.blocks.at(name)->0.wf() by {
                if name != sequence@ {
                    assert(self.blocks.at(name) == old(self).blocks.at(name));
                }
            }
        }
        Some(b.next)
    }

    /// Takes a freshly reserved block. What was left of the sequence's last one is given up.
    pub fn refill(&mut self, sequence: &str, start: i64, size: i64)
        requires
            old(self).wf(),
            size >= 0,
            start + size <= i64::MAX,
        ensures
            final(self).wf(),
            final(self).block(sequence@) == (Block { next: start, left: size }),
            forall|other: Seq<char>|
                other != sequence@ ==> #[trigger] final(self).block(other) == old(self).block(
                    other,
                ),
    {
        self.blocks.put(sequence, Block { next: start, left: size });
        proof {
            assert forall|name: Seq<char>|
                #![trigger self.blocks.at(name)]
                self.blocks.at(name) is Some implies self.blocks.at(name)->0.wf() by {
                if name != sequence@ {
                    assert(self.blocks.at(name) == old(self).blocks.at(name));
                }
            }
        }
    }

    /// Draws ids until there are `rows` of them, or the block is used up; whether there are.
    pub fn draw(&mut self, sequence: &str, rows: usize, ids: &mut Vec<i64>) -> (r: bool)
        requires
            old(self).wf(),
            old(ids)@.len() <= rows,
        ensures
            final(self).wf(),
            ({
                let b = old(self).block(sequence@);
                let missing = rows - old(ids)@.len();
                let n = if missing <= b.left {
                    missing
                } else {
                    b.left as int
                };
                &&& r == (missing <= b.left)
                &&& final(ids)@ == old(ids)@ + Seq::new(n as nat, |k: int| (b.next + k) as i64)
                &&& final(self).block(sequence@).next == b.next + n
                &&& final(self).block(sequence@).left == b.left - n
            }),
            forall|other: Seq<char>|
                other != sequence@ ==> #[trigger] final(self).block(other) == old(self).block(
                    other,
                ),
    {
        let ghost b = self.block(sequence@);
        let ghost start = ids@;
        let ghost mut n: int = 0;
        proof {
            assert(start + Seq::new(0, |k: int| (b.next + k) as i64) =~= start);
            if self.blocks.at(sequence@) is Some {
                assert(b.wf());
            }
        }
        while ids.len() < rows
            invariant
                self.wf(),
                b.wf(),
                b == old(self).block(sequence@),
                start == old(ids)@,
                0 <= n <= b.left,
                ids@ == start + Seq::new(n as nat, |k: int| (b.next + k) as i64),
                ids@.len() == start.len() + n <= rows,
                self.block(sequence@).next == b.next + n,
                self.block(sequence@).left == b.left - n,
                forall|other: Seq<char>|
                    other != sequence@ ==> #[trigger] self.block(other) == old(self).block(other),
            decreases rows - ids@.len(),
        {
            match self.next_id(sequence) {
                Some(id) => {
                    let ghost before = ids@;
                    ids.push(id);
                    proof {
                        assert(before.push(id) =~= start + Seq::new(
                            (n + 1) as nat,
                            |k: int| (b.next + k) as i64,
                        ));
                        n = n + 1;
                    }
                },
                None => {
                    return false;
                },
            }
        }
        true
    }
}

/// The ids of the statement's sequence columns, as far as they are drawn: one per row for
/// each column, the columns one after the other.
pub struct Allocation {
    pub injections: Vec<SequenceInjection>,
    pub rows: usize,
    /// The columns that have all their ids.
    pub columns: Vec<InjectedColumn>,
    /// The ids of the next column.
    pub ids: Vec<i64>,
}

/// A column and its ids.
pub type ColumnIds = (Seq<char>, Seq<i64>);

pub open spec fn column_views(s: Seq<InjectedColumn>) -> Seq<ColumnIds> {
    s.map_values(|c: InjectedColumn| (c.column@, c.ids@))
}

/// So many ids from a first one on.
pub open spec fn ids_from(first: i64, n: int) -> Seq<i64> {
    Seq::new(n as nat, |k: int| (first + k) as i64)
}

/// How far the ids are drawn, and what is left of every sequence's block.
#[verifier::ext_equal]
pub struct Drawn {
    pub columns: Seq<ColumnIds>,
    pub ids: Seq<i64>,
    pub blocks: spec_fn(Seq<char>) -> Block,
}

/// The blocks after so many ids are drawn from the sequence's.
pub open spec fn without(blocks: spec_fn(Seq<char>) -> Block, sequence: Seq<char>, n: int) -> spec_fn(
    Seq<char>,
) -> Block {
    |name: Seq<char>|
        if name == sequence {
            Block {
                next: (blocks(name).next + n) as i64,
                left: (blocks(name).left - n) as i64,
            }
        } else {
            blocks(name)
        }
}

/// Drawing ids for one column after the other, up to a sequence whose block runs out.
pub open spec fn drawn(wanted: Seq<(Seq<char>, Seq<char>)>, rows: int, d: Drawn) -> Drawn
    decreases wanted.len() - d.columns.len(),
{
    if d.columns.len() >= wanted.len() {
        d
    } else {
        let (column, sequence) = wanted[d.columns.len() as int];
        let b = (d.blocks)(sequence);
        let missing = rows - d.ids.len();
        if missing <= b.left {
            drawn(
                wanted,
                rows,
                Drawn {
                    columns: d.columns.push((column, d.ids + ids_from(b.next, missing))),
                    ids: Seq::empty(),
                    blocks: without(d.blocks, sequence, missing),
                },
            )
        } else {
            Drawn {
                columns: d.columns,
                ids: d.ids + ids_from(b.next, b.left as int),
                blocks: without(d.blocks, sequence, b.left as int),
            }
        }
    }
}

impl Allocation {
    /// What is drawn, out of the cache's blocks.
    pub open spec fn state(self, cache: SequenceCache) -> Drawn {
        Drawn {
            columns: column_views(self.columns@),
            ids: self.ids@,
            blocks: |name: Seq<char>| cache.block(name),
        }
    }

    pub open spec fn wf(self) -> bool {
        self.ids@.len() <= self.rows
    }

    /// No id is drawn.
    pub fn new(injections: Vec<SequenceInjection>, rows: usize) -> (r: Allocation)
        ensures
            r.wf(),
            r.injections == injections,
            r.rows == rows,
            r.columns@.len() == 0,
            r.ids@.len() == 0,
    {
        Allocation { injections, rows, columns: Vec::new(), ids: Vec::new() }
    }

    /// Draws ids until every column has one per row, or a sequence's block runs out: that
    /// sequence, whose block is to be refilled before the next call.
    pub fn draw(&mut self, cache: &mut SequenceCache) -> (r: Option<String>)
        requires
            old(self).wf(),
            old(cache).wf(),
            old(self).columns@.len() <= old(self).injections@.len(),
        ensures
            final(self).wf(),
            final(cache).wf(),
            final(self).injections == old(self).injections,
            final(self).rows == old(self).rows,
            final(self).columns@.len() <= final(self).injections@.len(),
            final(self).state(*final(cache)) == drawn(
                sequence::injection_views(old(self).injections@),
                old(self).rows as int,
                old(self).state(*old(cache)),
            ),
            match r {
                Some(s) => final(self).columns@.len() < final(self).injections@.len() && s@
                    == final(self).injections@[final(self).columns@.len() as int].sequence@,
                None => final(self).columns@.len() == final(self).injections@.len(),
            },
    {
        let ghost wanted = sequence::injection_views(self.injections@);
        let ghost goal = drawn(wanted, self.rows as int, self.state(*cache));
        while self.columns.len() < self.injections.len()
            invariant
                self.wf(),
                cache.wf(),
                self.injections == old(self).injections,
                self.rows == old(self).rows,
                self.columns@.len() <= self.injections@.len(),
                wanted == sequence::injection_views(self.injections@),
                goal == drawn(wanted, self.rows as int, self.state(*cache)),
                goal == drawn(wanted, old(self).rows as int, old(self).state(*old(cache))),
            decreases self.injections@.len() - self.columns@.len(),
        {
            let ghost before = self.state(*cache);
            let ghost had = self.columns@;
            let k: usize = self.columns.len();
            let column = self.injections[k].column.clone();
            let sequence = self.injections[k].sequence.clone();
            let ghost b = cache.block(sequence@);
            let ghost missing = self.rows - self.ids@.len();
            assert(wanted[k as int] == (column@, sequence@));
            let mut ids: Vec<i64> = Vec::new();
            std::mem::swap(&mut ids, &mut self.ids);
            let whole = cache.draw(sequence.as_str(), self.rows, &mut ids);
            if !whole {
                self.ids = ids;
                proof {
                    let after = self.state(*cache);
                    assert(after.blocks =~= without(before.blocks, sequence@, b.left as int));
                    assert(after =~= goal);
                }
                return Some(sequence);
            }
            let ghost full = ids@;
            self.columns.push(InjectedColumn { column, ids });
            proof {
                let after = self.state(*cache);
                assert(after.blocks =~= without(before.blocks, sequence@, missing));
                assert(after.columns =~= before.columns.push((column@, full)));
                assert(after.ids =~= Seq::<i64>::empty());
            }
        }
        None
    }
}

/// An allocation that has run to its end gives every wanted column, in order, one id per
/// row.
pub proof fn law_allocations_cover_every_row(
    wanted: Seq<(Seq<char>, Seq<char>)>,
    rows: int,
    d: Drawn,
    i: int,
)
    requires
        rows >= 0,
        d.ids.len() <= rows,
        d.columns.len() <= wanted.len(),
        forall|k: int|
            0 <= k < d.columns.len() ==> (#[trigger] d.columns[k]).0 == wanted[k].0
                && d.columns[k].1.len() == rows,
        0 <= i < drawn(wanted, rows, d).columns.len(),
    ensures
        drawn(wanted, rows, d).columns.len() <= wanted.len(),
        drawn(wanted, rows, d).columns[i].0 == wanted[i].0,
        drawn(wanted, rows, d).columns[i].1.len() == rows,
    decreases wanted.len() - d.columns.len(),
{
    if d.columns.len() < wanted.len() {
        let (column, sequence) = wanted[d.columns.len() as int];
        let b = (d.blocks)(sequence);
        let missing = rows - d.ids.len();
        if missing <= b.left {
            law_allocations_cover_every_row(
                wanted,
                rows,
                Drawn {
                    columns: d.columns.push((column, d.ids + ids_from(b.next, missing))),
                    ids: Seq::empty(),
                    blocks: without(d.blocks, sequence, missing),
                },
                i,
            );
        }
    }
}

/// Reservations never overlap: whatever was done to the row in between, as long as its
/// `next_id` has not moved back, a later reservation's block lies behind an earlier one's.
pub proof fn law_reservations_are_disjoint(
    next: int,
    size: int,
    later_next: int,
    later_size: int,
    id: int,
)
    requires
        size > 0,
        later_size > 0,
        later_next >= advanced(next, size),
        in_block(id, advanced(next, size) - size, size),
    ensures
        !in_block(id, advanced(later_next, later_size) - later_size, later_size),
{
}

/// A rejected reservation leaves the row as it is.
pub proof fn law_rejected_reservations_move_nothing(next: int, size: int)
    requires
        size <= 0,
    ensures
        advanced(next, size) == next,
{
}

/// No id is drawn twice from a block: ids drawn at two places differ, and each lies in what
/// was left of the block.
pub proof fn law_drawn_ids_are_distinct(b: Block, i: int, j: int)
    requires
        b.wf(),
        0 <= i < j < b.left,
    ensures
        (b.next + i) as i64 != (b.next + j) as i64,
        in_block((b.next + j) as i64 as int, b.next as int, b.left as int),
{
}

/// Ids are drawn one after the other from their own sequence's block, which is then that much
/// shorter, so that no later draw gives them again; other sequences' blocks stay as they are.
pub proof fn law_draws_use_up_their_own_block(
    blocks: spec_fn(Seq<char>) -> Block,
    sequence: Seq<char>,
    other: Seq<char>,
    n: int,
    i: int,
    j: int,
)
    requires
        blocks(sequence).wf(),
        0 <= n <= blocks(sequence).left,
    ensures
        ids_from(blocks(sequence).next, n).len() == n,
        0 <= i < n ==> ids_from(blocks(sequence).next, n)[i] == blocks(sequence).next + i,
        0 <= i < n ==> ids_from(blocks(sequence).next, n)[i] < without(blocks, sequence, n)(
            sequence,
        ).next,
        0 <= i < j < n ==> ids_from(blocks(sequence).next, n)[i] < ids_from(
            blocks(sequence).next,
            n,
        )[j],
        without(blocks, sequence, n)(sequence).next == blocks(sequence).next + n,
        without(blocks, sequence, n)(sequence).left == blocks(sequence).left - n,
        other != sequence ==> without(blocks, sequence, n)(other) == blocks(other),
{
}

/// A column that is filled gets the ids that it already has and then the next ones of its
/// sequence's block; where the block does not suffice it is used up, and nothing is filled.
pub proof fn law_columns_are_filled_from_their_sequence(
    wanted: Seq<(Seq<char>, Seq<char>)>,
    rows: int,
    d: Drawn,
)
    requires
        d.columns.len() < wanted.len(),
        d.ids.len() <= rows,
    ensures
        ({
            let column = wanted[d.columns.len() as int].0;
            let sequence = wanted[d.columns.len() as int].1;
            let b = (d.blocks)(sequence);
            let missing = rows - d.ids.len();
            let r = drawn(wanted, rows, d);
            &&& missing > b.left ==> r.columns == d.columns && r.ids == d.ids + ids_from(
                b.next,
                b.left as int,
            ) && (r.blocks)(sequence).left == 0
            &&& missing <= b.left && d.columns.len() + 1 == wanted.len() ==> r.columns
                == d.columns.push((column, d.ids + ids_from(b.next, missing))) && r.ids.len() == 0
                && (r.blocks)(sequence).next == (b.next + missing) as i64
        }),
{
    reveal_with_fuel(drawn, 2);
}

} // verus!
