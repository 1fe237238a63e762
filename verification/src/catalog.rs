//! The shards of one sharded database, in keyspace order.
use crate::keyspace;
use crate::keyspace::{validate_partition, KeyRange, KeyspaceId, PartitionError};
use crate::text;
use vstd::prelude::*;
use vstd::string::*;

verus! {

/// A shard's stable identity — its keyrange name, e.g. `mycl-40-80`.
#[derive(Debug, PartialEq, Eq, PartialOrd, Ord, Hash)]
pub struct ShardId(pub String);

impl View for ShardId {
    type V = Seq<char>;

    open spec fn view(&self) -> Seq<char> {
        self.0@
    }
}

impl Clone for ShardId {
    fn clone(&self) -> (r: ShardId)
        ensures
            r == *self,
    {
        ShardId(self.0.clone())
    }
}

impl ShardId {
    pub fn new(id: &str) -> (r: ShardId)
        ensures
            r@ == id@,
    {
        ShardId(id.to_owned())
    }

    pub fn to_string(&self) -> (r: String)
        ensures
            r@ == self@,
    {
        self.0.clone()
    }
}

/// The names of shards.
pub open spec fn id_views(s: Seq<ShardId>) -> Seq<Seq<char>> {
    s.map_values(|i: ShardId| i@)
}

/// The shards that together partition the full keyspace of one database, in
/// keyspace order. Built once from the topology; every keyspace id routes to
/// exactly one shard.
#[derive(Debug)]
pub struct ShardCatalog {
    shards: Vec<(KeyRange, ShardId)>,
}

/// The ranges of shards.
pub open spec fn ranges_of(s: Seq<(KeyRange, ShardId)>) -> Seq<KeyRange> {
    s.map_values(|e: (KeyRange, ShardId)| e.0)
}

/// What `validate_partition` says of the ranges.
pub open spec fn partition_error(s: Seq<KeyRange>, e: PartitionError) -> bool {
    match e {
        PartitionError::Empty => s.len() == 0,
        PartitionError::DoesNotStartAtZero(v) => s.len() > 0 && v == s[0].lower() && v != 0,
        PartitionError::GapOrOverlap { index, prev_end, next_start } => {
            &&& s[0].lower() == 0
            &&& 1 <= index < s.len()
            &&& !keyspace::meets(s, index as int)
            &&& forall|i: int| 1 <= i < index ==> #[trigger] keyspace::meets(s, i)
            &&& prev_end == s[index - 1].upper()
            &&& next_start == s[index as int].lower()
        },
        PartitionError::DoesNotEndAtMax(v) => {
            &&& s.len() > 0
            &&& s[0].lower() == 0
            &&& forall|i: int| 1 <= i < s.len() ==> #[trigger] keyspace::meets(s, i)
            &&& s.last().upper() == Some(v)
        },
    }
}

impl ShardCatalog {
    pub closed spec fn entries(self) -> Seq<(KeyRange, ShardId)> {
        self.shards@
    }

    #[verifier::type_invariant]
    pub closed spec fn wf(self) -> bool {
        &&& keyspace::is_partition(ranges_of(self.shards@))
        &&& forall|i: int| 0 <= i < self.shards@.len() ==> (#[trigger] self.shards@[i]).0.wf()
    }

    /// The names of the shards, in keyspace order.
    pub open spec fn ids(self) -> Seq<Seq<char>> {
        self.entries().map_values(|e: (KeyRange, ShardId)| e.1@)
    }

    /// The position of the shard that owns the id.
    pub open spec fn owner(self, id: u64) -> int {
        choose|i: int| 0 <= i < self.entries().len() && (#[trigger] self.entries()[i]).0.holds(id)
    }

    /// The shard that owns the id.
    pub open spec fn shard_of(self, id: u64) -> Seq<char> {
        self.entries()[self.owner(id)].1@
    }

    /// Build from `(range, id)` pairs. The ranges must exactly partition the
    /// keyspace (start at 0, contiguous, open-ended last).
    pub fn new(shards: Vec<(KeyRange, ShardId)>) -> (r: Result<Self, PartitionError>)
        ensures
            r is Ok <==> keyspace::is_partition(ranges_of(shards@)),
            match r {
                Ok(c) => c.entries() == shards@ && c.wf(),
                Err(e) => partition_error(ranges_of(shards@), e),
            },
    {
        let mut ranges: Vec<KeyRange> = Vec::new();
        let mut i: usize = 0;
        while i < shards.len()
            invariant
                i <= shards@.len(),
                ranges@ == ranges_of(shards@).take(i as int),
                forall|k: int| 0 <= k < i ==> (#[trigger] shards@[k]).0.wf(),
            decreases shards@.len() - i,
        {
            let range: KeyRange = shards[i].0;
            proof {
                use_type_invariant(&range);
                assert(ranges_of(shards@).take(i + 1) =~= ranges_of(shards@).take(i as int).push(
                    range,
                ));
            }
            ranges.push(range);
            i += 1;
        }
        proof {
            assert(ranges_of(shards@).take(shards@.len() as int) =~= ranges_of(shards@));
        }
        match validate_partition(ranges.as_slice()) {
            Ok(_) => Ok(ShardCatalog { shards }),
            Err(e) => Err(e),
        }
    }

    /// The shard owning `id`. Infallible: a validated partition covers the whole
    /// keyspace, so exactly one shard contains any id.
    pub fn route(&self, id: KeyspaceId) -> (r: &ShardId)
        ensures
            r@ == self.shard_of(id.0),
            *r == self.entries()[self.owner(id.0)].1,
            0 <= self.owner(id.0) < self.entries().len(),
            self.entries()[self.owner(id.0)].0.holds(id.0),
    {
        proof {
            use_type_invariant(&*self);
            lemma_owner(*self, id.0);
        }
        let mut i: usize = 0;
        while !self.shards[i].0.contains(id)
            invariant
                self.wf(),
                i <= self.owner(id.0) < self.shards.len(),
                self.shards@[self.owner(id.0)].0.holds(id.0),
            decreases self.shards@.len() - i,
        {
            i += 1;
        }
        proof {
            lemma_owner_unique(*self, id.0, i as int);
        }
        &self.shards[i].1
    }

    /// Every shard, in keyspace order.
    pub fn all(&self) -> (r: Vec<ShardId>)
        ensures
            id_views(r@) == self.ids(),
    {
        let mut out: Vec<ShardId> = Vec::new();
        let mut i: usize = 0;
        while i < self.shards.len()
            invariant
                i <= self.shards@.len(),
                out@.len() == i,
                forall|k: int| 0 <= k < i ==> (#[trigger] out@[k])@ == self.shards@[k].1@,
            decreases self.shards@.len() - i,
        {
            out.push(self.shards[i].1.clone());
            i += 1;
        }
        proof {
            assert(id_views(out@) =~= self.ids());
        }
        out
    }

    pub fn len(&self) -> (r: usize)
        ensures
            r == self.entries().len(),
    {
        self.shards.len()
    }

    pub fn is_empty(&self) -> (r: bool)
        ensures
            r == (self.entries().len() == 0),
            !r,
    {
        proof {
            use_type_invariant(&*self);
            assert(ranges_of(self.shards@).len() == self.shards@.len());
        }
        self.shards.len() == 0
    }
}

/// Some shard owns the id.
pub proof fn lemma_owner(c: ShardCatalog, id: u64)
    requires
        c.wf(),
    ensures
        0 <= c.owner(id) < c.entries().len(),
        c.entries()[c.owner(id)].0.holds(id),
        c.ids().contains(c.shard_of(id)),
{
    let r = ranges_of(c.shards@);
    assert forall|k: int| 0 <= k < r.len() implies (#[trigger] r[k]).wf() by {
        assert(c.shards@[k].0.wf());
    }
    let k = keyspace::law_exactly_one_owner(r, id);
    assert(c.entries()[k].0.holds(id));
    assert(c.ids()[c.owner(id)] == c.shard_of(id));
}

/// No two shards own an id.
pub proof fn lemma_owner_unique(c: ShardCatalog, id: u64, i: int)
    requires
        c.wf(),
        0 <= i < c.entries().len(),
        c.entries()[i].0.holds(id),
    ensures
        c.owner(id) == i,
{
    lemma_owner(c, id);
    let r = ranges_of(c.shards@);
    assert forall|k: int| 0 <= k < r.len() implies (#[trigger] r[k]).wf() by {
        assert(c.shards@[k].0.wf());
    }
    let k = keyspace::law_exactly_one_owner(r, id);
    assert(r[i].holds(id));
    assert(r[c.owner(id)].holds(id));
}

/// Every keyspace id routes to exactly one shard of the catalog.
pub proof fn law_every_id_has_one_shard(c: ShardCatalog, id: u64)
    requires
        c.wf(),
    ensures
        exists|i: int| 0 <= i < c.entries().len() && (#[trigger] c.entries()[i]).0.holds(id),
        forall|i: int, j: int|
            0 <= i < c.entries().len() && 0 <= j < c.entries().len() && (
            #[trigger] c.entries()[i]).0.holds(id) && (#[trigger] c.entries()[j]).0.holds(id) ==> i
                == j,
{
    lemma_owner(c, id);
    assert forall|i: int, j: int|
        0 <= i < c.entries().len() && 0 <= j < c.entries().len() && (
        #[trigger] c.entries()[i]).0.holds(id) && (#[trigger] c.entries()[j]).0.holds(id) implies i
        == j by {
        lemma_owner_unique(c, id, i);
        lemma_owner_unique(c, id, j);
    }
}

// ---------------------------------------------------------------------------------------
// Sets of shards.
// ---------------------------------------------------------------------------------------

/// `s`, which is in order, with `x` in its place; unchanged where it holds `x`.
pub open spec fn with_id(s: Seq<Seq<char>>, x: Seq<char>) -> Seq<Seq<char>>
    decreases s.len(),
{
    if s.len() == 0 {
        seq![x]
    } else if x == s[0] {
        s
    } else if text::before(x, s[0]) {
        seq![x] + s
    } else {
        seq![s[0]] + with_id(s.drop_first(), x)
    }
}

/// The distinct names in `s`, in order.
pub open spec fn sorted_ids(s: Seq<Seq<char>>) -> Seq<Seq<char>>
    decreases s.len(),
{
    if s.len() == 0 {
        Seq::empty()
    } else {
        with_id(sorted_ids(s.drop_last()), s.last())
    }
}

/// Whether the names increase strictly.
pub open spec fn increasing(s: Seq<Seq<char>>) -> bool {
    forall|i: int, j: int|
        0 <= i < j < s.len() ==> text::before(#[trigger] s[i], #[trigger] s[j])
}

proof fn lemma_with_id(s: Seq<Seq<char>>, x: Seq<char>)
    requires
        increasing(s),
    ensures
        increasing(with_id(s, x)),
        forall|y: Seq<char>|
            #[trigger] with_id(s, x).contains(y) <==> s.contains(y) || y == x,
        with_id(s, x).len() <= s.len() + 1,
        with_id(s, x).len() >= 1,
    decreases s.len(),
{
    let w = with_id(s, x);
    if s.len() == 0 {
        assert(w[0] == x);
    } else if x == s[0] {
        assert(s.contains(x));
    } else if text::before(x, s[0]) {
        assert(w[0] == x);
        assert forall|i: int, j: int| 0 <= i < j < w.len() implies text::before(
            #[trigger] w[i],
            #[trigger] w[j],
        ) by {
            assert(w[j] == s[j - 1]);
            if i == 0 {
                if j > 1 {
                    text::lemma_before_transitive(x, s[0], s[j - 1]);
                }
            } else {
                assert(w[i] == s[i - 1]);
            }
        }
        assert forall|y: Seq<char>| #[trigger] w.contains(y) <==> s.contains(y) || y == x by {
            if s.contains(y) {
                let i = choose|i: int| 0 <= i < s.len() && s[i] == y;
                assert(w[i + 1] == y);
            }
            if w.contains(y) {
                let i = choose|i: int| 0 <= i < w.len() && w[i] == y;
                if i > 0 {
                    assert(s[i - 1] == y);
                }
            }
        }
    } else {
        let t = s.drop_first();
        assert forall|i: int, j: int| 0 <= i < j < t.len() implies text::before(
            #[trigger] t[i],
            #[trigger] t[j],
        ) by {
            assert(t[i] == s[i + 1] && t[j] == s[j + 1]);
        }
        lemma_with_id(t, x);
        let u = with_id(t, x);
        text::lemma_before_total(x, s[0]);
        assert forall|i: int, j: int| 0 <= i < j < w.len() implies text::before(
            #[trigger] w[i],
            #[trigger] w[j],
        ) by {
            assert(w[j] == u[j - 1]);
            if i == 0 {
                assert(u.contains(u[j - 1]));
                if u[j - 1] != x {
                    let k = choose|k: int| 0 <= k < t.len() && t[k] == u[j - 1];
                    assert(s[k + 1] == t[k]);
                }
            } else {
                assert(w[i] == u[i - 1]);
            }
        }
        assert forall|y: Seq<char>| #[trigger] w.contains(y) <==> s.contains(y) || y == x by {
            if w.contains(y) {
                let i = choose|i: int| 0 <= i < w.len() && w[i] == y;
                if i == 0 {
                    assert(s[0] == y);
                } else {
                    assert(u[i - 1] == y);
                    assert(u.contains(y));
                    if t.contains(y) {
                        let k = choose|k: int| 0 <= k < t.len() && t[k] == y;
                        assert(s[k + 1] == y);
                    }
                }
            }
            if s.contains(y) || y == x {
                if s.contains(y) {
                    let k = choose|k: int| 0 <= k < s.len() && s[k] == y;
                    if k == 0 {
                        assert(w[0] == y);
                    } else {
                        assert(t[k - 1] == y);
                    }
                }
                if t.contains(y) || y == x {
                    assert(u.contains(y));
                    let i = choose|i: int| 0 <= i < u.len() && u[i] == y;
                    assert(w[i + 1] == y);
                }
            }
        }
    }
}

/// The distinct names are the same names, in strictly increasing order.
pub proof fn lemma_sorted_ids(s: Seq<Seq<char>>)
    ensures
        increasing(sorted_ids(s)),
        forall|y: Seq<char>| #[trigger] sorted_ids(s).contains(y) <==> s.contains(y),
        sorted_ids(s).len() <= s.len(),
        s.len() > 0 ==> sorted_ids(s).len() > 0,
    decreases s.len(),
{
    if s.len() > 0 {
        let t = s.drop_last();
        lemma_sorted_ids(t);
        lemma_with_id(sorted_ids(t), s.last());
        assert forall|y: Seq<char>| #[trigger] sorted_ids(s).contains(y) <==> s.contains(y) by {
            if s.contains(y) {
                let i = choose|i: int| 0 <= i < s.len() && s[i] == y;
                if i < t.len() {
                    assert(t[i] == y);
                }
            }
            if t.contains(y) {
                let i = choose|i: int| 0 <= i < t.len() && t[i] == y;
                assert(s[i] == y);
            }
            assert(s[s.len() - 1] == s.last());
        }
    }
}

/// Puts `id` in its place, unless it is there.
pub fn insert_id(ids: &mut Vec<ShardId>, id: &ShardId)
    ensures
        id_views(final(ids)@) == with_id(id_views(old(ids)@), id@),
{
    let mut i: usize = 0;
    let ghost s = id_views(ids@);
    proof {
        assert(s.skip(0) =~= s);
        assert(s.take(0) + with_id(s, id@) =~= with_id(s, id@));
    }
    loop
        invariant
            i <= ids@.len(),
            s == id_views(ids@),
            ids@ == old(ids)@,
            with_id(s, id@) == s.take(i as int) + with_id(s.skip(i as int), id@),
        decreases ids@.len() - i,
    {
        if i == ids.len() {
            ids.push(id.clone());
            proof {
                assert(id_views(ids@) =~= s.take(i as int) + seq![id@]);
                assert(s.skip(i as int) =~= Seq::<Seq<char>>::empty());
            }
            return;
        }
        proof {
            assert(s.skip(i as int)[0] == ids@[i as int]@);
            assert(s.skip(i as int).drop_first() =~= s.skip(i + 1));
            assert(s.take(i as int) + s.skip(i as int) =~= s);
        }
        if text::same(id.0.as_str(), ids[i].0.as_str()) {
            return;
        }
        if text::is_before(id.0.as_str(), ids[i].0.as_str()) {
            ids.insert(i, id.clone());
            proof {
                assert(id_views(ids@) =~= s.take(i as int) + (seq![id@] + s.skip(i as int)));
            }
            return;
        }
        proof {
            let rest = with_id(s.skip(i + 1), id@);
            assert(s.take(i as int) + (seq![s[i as int]] + rest) =~= s.take(i + 1) + rest);
        }
        i += 1;
    }
}

/// An id belongs to the shard whose range holds it.
pub proof fn law_ids_belong_to_the_range_that_holds_them(c: ShardCatalog, id: u64, i: int)
    requires
        c.wf(),
        0 <= i < c.entries().len(),
    ensures
        c.entries()[i].0.holds(id) <==> c.owner(id) == i,
        c.entries()[i].0.holds(id) ==> c.shard_of(id) == c.entries()[i].1@,
        c.ids().len() == c.entries().len(),
        c.ids()[i] == c.entries()[i].1@,
        c.ids().contains(c.shard_of(id)),
{
    lemma_owner(c, id);
    if c.entries()[i].0.holds(id) {
        lemma_owner_unique(c, id, i);
    }
}

/// Sorting names keeps each of them once, in the order of the texts.
pub proof fn law_names_are_sorted_once(s: Seq<Seq<char>>, x: Seq<char>, i: int, j: int)
    ensures
        sorted_ids(s).contains(x) <==> s.contains(x),
        0 <= i < j < sorted_ids(s).len() ==> text::before(sorted_ids(s)[i], sorted_ids(s)[j])
            && sorted_ids(s)[i] != sorted_ids(s)[j],
{
    lemma_sorted_ids(s);
    if 0 <= i < j < sorted_ids(s).len() {
        text::lemma_before_irreflexive(sorted_ids(s)[i]);
    }
}

/// A named fault is one: ranges that have it do not partition the keyspace.
pub proof fn law_faults_are_no_partition(s: Seq<KeyRange>, e: PartitionError)
    requires
        partition_error(s, e),
    ensures
        !keyspace::is_partition(s),
        e matches PartitionError::DoesNotStartAtZero(v) ==> v == s[0].lower() && v > 0,
        e matches PartitionError::GapOrOverlap { index, prev_end, next_start } ==> 1 <= index
            < s.len() && prev_end == s[index - 1].upper() && next_start == s[index as int].lower()
            && prev_end != Some(next_start),
        e matches PartitionError::DoesNotEndAtMax(v) ==> s.last().upper() == Some(v),
{
    if let PartitionError::GapOrOverlap { index, .. } = e {
        assert(!keyspace::meets(s, index as int));
    }
}

} // verus!
