//! The 64-bit keyspace and half-open ranges over it.
use crate::text;
use vstd::arithmetic::power::*;
use vstd::prelude::*;
use vstd::string::*;

verus! {

/// Position in the 64-bit keyspace: `keyspace_id = shard_function(shard key)`.
#[derive(Debug, Clone, Copy, PartialEq, Eq, PartialOrd, Ord, Hash, Structural)]
pub struct KeyspaceId(pub u64);

/// Half-open range `[start, end)` over keyspace ids. `end == None` means the
/// range extends to the top of the space (2^64). No range is empty.
#[derive(Debug, Clone, Copy, PartialEq, Eq, Hash, Structural)]
pub struct KeyRange {
    start: u64,
    end: Option<u64>,
}

/// Why a range is not one.
#[derive(Debug, PartialEq, Eq)]
pub enum KeyRangeError {
    /// The start is not below the end.
    Empty { start: u64, end: u64 },
    /// A bound is not lowercase hex with an even number of digits, at most 16.
    InvalidBound(String),
    /// There is no `-` between the bounds.
    InvalidSyntax(String),
    /// No parts are asked for, or more than the range has ids.
    InvalidSplit(u32),
}

/// One past the largest keyspace id.
pub open spec fn keyspace_size() -> int {
    0x1_0000_0000_0000_0000
}

impl KeyRange {
    /// The whole keyspace.
    pub closed spec fn whole() -> KeyRange {
        KeyRange { start: 0, end: None }
    }

    /// The whole keyspace.
    #[allow(non_snake_case)]
    pub fn FULL() -> (r: KeyRange)
        ensures
            r == KeyRange::whole(),
            r.wf(),
            r.lower() == 0,
            r.upper() is None,
    {
        KeyRange { start: 0, end: None }
    }

    #[verifier::type_invariant]
    pub closed spec fn wf(self) -> bool {
        self.end is Some ==> self.start < self.end->0
    }

    pub closed spec fn lower(self) -> u64 {
        self.start
    }

    pub closed spec fn upper(self) -> Option<u64> {
        self.end
    }

    /// The first id after the range.
    pub open spec fn limit(self) -> int {
        match self.upper() {
            Some(e) => e as int,
            None => keyspace_size(),
        }
    }

    /// Whether the id lies in the range.
    pub open spec fn holds(self, id: u64) -> bool {
        self.lower() <= id < self.limit()
    }

    pub fn new(start: u64, end: Option<u64>) -> (r: Result<Self, KeyRangeError>)
        ensures
            match end {
                Some(e) if start >= e => r == Err::<Self, KeyRangeError>(
                    KeyRangeError::Empty { start, end: e },
                ),
                _ => r is Ok && r->Ok_0.lower() == start && r->Ok_0.upper() == end && r->Ok_0.wf(),
            },
    {
        if let Some(e) = end {
            if start >= e {
                return Err(KeyRangeError::Empty { start, end: e });
            }
        }
        Ok(KeyRange { start, end })
    }

    pub fn start(&self) -> (r: u64)
        ensures
            r == self.lower(),
    {
        self.start
    }

    pub fn end(&self) -> (r: Option<u64>)
        ensures
            r == self.upper(),
    {
        self.end
    }

    fn end_exclusive(&self) -> (r: u128)
        ensures
            r == self.limit(),
    {
        match self.end {
            Some(e) => e as u128,
            None => 0x1_0000_0000_0000_0000u128,
        }
    }

    pub fn is_full(&self) -> (r: bool)
        ensures
            r == (forall|id: u64| self.holds(id)),
            r == (self.lower() == 0 && self.upper() is None),
    {
        let r = self.start == 0 && self.end.is_none();
        proof {
            if r {
                assert(forall|id: u64| self.holds(id));
            } else {
                if self.start != 0 {
                    assert(!self.holds(0));
                } else {
                    assert(!self.holds(self.end->0));
                }
            }
        }
        r
    }

    pub fn contains(&self, id: KeyspaceId) -> (r: bool)
        ensures
            r == self.holds(id.0),
    {
        id.0 >= self.start && (id.0 as u128) < self.end_exclusive()
    }

    /// Whether the two ranges have an id in common.
    pub fn intersects(&self, other: &KeyRange) -> (r: bool)
        ensures
            r == (exists|id: u64| self.holds(id) && other.holds(id)),
    {
        proof {
            use_type_invariant(&*self);
            use_type_invariant(&*other);
        }
        let r = (self.start as u128) < other.end_exclusive() && (other.start as u128)
            < self.end_exclusive();
        proof {
            if r {
                let id = if self.start >= other.start {
                    self.start
                } else {
                    other.start
                };
                assert(self.holds(id) && other.holds(id));
            }
        }
        r
    }

    /// Splits into `parts` contiguous sub-ranges of near-equal width
    /// (boundaries at `start + round(i * width / parts)`, halves rounded up).
    pub fn split_evenly(&self, parts: u32) -> (r: Result<Vec<KeyRange>, KeyRangeError>)
        ensures
            (parts == 0 || self.limit() - self.lower() < parts) ==> r == Err::<
                Vec<KeyRange>,
                KeyRangeError,
            >(KeyRangeError::InvalidSplit(parts)),
            !(parts == 0 || self.limit() - self.lower() < parts) ==> r is Ok && is_even_split(
                *self,
                parts as int,
                r->Ok_0@,
            ),
    {
        proof {
            use_type_invariant(&*self);
        }
        if parts == 0 {
            return Err(KeyRangeError::InvalidSplit(parts));
        }
        let start: u128 = self.start as u128;
        let limit: u128 = self.end_exclusive();
        let width: u128 = limit - start;
        let n: u128 = parts as u128;
        if width < n {
            return Err(KeyRangeError::InvalidSplit(parts));
        }
        let mut ranges: Vec<KeyRange> = Vec::new();
        let mut i: u128 = 0;
        let mut lo: u128 = start;
        proof {
            lemma_split_ends(width as int, n as int);
        }
        while i < n
            invariant
                1 <= n == parts,
                n <= width,
                i <= n,
                start == self.start,
                limit == self.limit(),
                limit <= keyspace_size(),
                width == limit - start,
                lo == split_bound(*self, n as int, i as int),
                ranges@.len() == i,
                forall|k: int|
                    0 <= k < i ==> (#[trigger] ranges@[k]).wf() && ranges@[k].lower()
                        == split_bound(*self, n as int, k) && ranges@[k].limit() == split_bound(
                        *self,
                        n as int,
                        k + 1,
                    ) && (ranges@[k].upper() is None ==> self.upper() is None && k == n - 1),
            decreases n - i,
        {
            proof {
                lemma_split_bound(width as int, n as int, i as int);
                lemma_split_bound(width as int, n as int, i + 1);
                assert(0 <= 2 * (i + 1) * width <= 2 * 0xffff_ffff * 0x1_0000_0000_0000_0000)
                    by (nonlinear_arith)
                    requires
                        0 <= i + 1 <= 0xffff_ffff,
                        0 <= width <= 0x1_0000_0000_0000_0000,
                ;
            }
            let hi: u128 = start + (2 * (i + 1) * width + n) / (2 * n);
            let end = if hi == limit {
                self.end
            } else {
                Some(hi as u64)
            };
            ranges.push(KeyRange { start: lo as u64, end });
            lo = hi;
            i += 1;
        }
        proof {
            lemma_split_ends(width as int, n as int);
            if self.upper() is None {
                let last = ranges@[n - 1];
                assert(last.limit() == keyspace_size());
            }
        }
        Ok(ranges)
    }

    /// `"<start>-<end>"` with bounds as [`format_bound`] writes them; an open end is the
    /// empty string, so the full range reads `"-"`.
    pub fn to_string(&self) -> (r: String)
        ensures
            r@ == range_text(*self),
    {
        let mut out = format_bound(self.start);
        out.push('-');
        if let Some(e) = self.end {
            let tail = format_bound(e);
            out.append(tail.as_str());
        }
        proof {
            assert(out@ =~= range_text(*self));
        }
        out
    }

    /// Reads a range as [`KeyRange::to_string`] writes it.
    pub fn parse(s: &str) -> (r: Result<KeyRange, KeyRangeError>)
        ensures
            match parsed_range(s@) {
                ParsedRange::Range(start, end) => r is Ok && r->Ok_0.lower() == start
                    && r->Ok_0.upper() == end && r->Ok_0.wf(),
                ParsedRange::NoDash => r is Err && (r->Err_0 matches KeyRangeError::InvalidSyntax(
                    t,
                ) && t@ == s@),
                ParsedRange::BadBound(b) => r is Err && (r->Err_0 matches KeyRangeError::InvalidBound(
                    t,
                ) && t@ == b),
                ParsedRange::EmptyRange(start, end) => r == Err::<KeyRange, KeyRangeError>(
                    KeyRangeError::Empty { start, end },
                ),
            },
    {
        let cs = text::chars(s);
        let p: usize = text::find(&cs, '-');
        if p == cs.len() {
            return Err(KeyRangeError::InvalidSyntax(s.to_owned()));
        }
        let head = text::from_chars(text::slice_chars(&cs, 0, p).as_slice());
        let tail = text::from_chars(text::slice_chars(&cs, p + 1, cs.len()).as_slice());
        let start: u64 = match parse_bound(head.as_str()) {
            Ok(v) => v,
            Err(e) => return Err(e),
        };
        let end: Option<u64> = if tail.as_str().is_empty() {
            None
        } else {
            match parse_bound(tail.as_str()) {
                Ok(v) => Some(v),
                Err(e) => return Err(e),
            }
        };
        KeyRange::new(start, end)
    }
}

impl std::str::FromStr for KeyRange {
    type Err = KeyRangeError;

    fn from_str(s: &str) -> (r: Result<Self, KeyRangeError>)
        ensures
            match parsed_range(s@) {
                ParsedRange::Range(start, end) => r is Ok && r->Ok_0.lower() == start
                    && r->Ok_0.upper() == end && r->Ok_0.wf(),
                ParsedRange::NoDash => r is Err && (r->Err_0 matches KeyRangeError::InvalidSyntax(
                    t,
                ) && t@ == s@),
                ParsedRange::BadBound(b) => r is Err && (r->Err_0 matches KeyRangeError::InvalidBound(
                    t,
                ) && t@ == b),
                ParsedRange::EmptyRange(start, end) => r == Err::<KeyRange, KeyRangeError>(
                    KeyRangeError::Empty { start, end },
                ),
            },
    {
        KeyRange::parse(s)
    }
}

/// A range is given by its bounds.
pub proof fn law_a_range_is_its_bounds(a: KeyRange, b: KeyRange)
    requires
        a.lower() == b.lower(),
        a.upper() == b.upper(),
    ensures
        a == b,
{
}

/// No range is empty: it holds its own start.
pub proof fn law_no_range_is_empty(r: KeyRange)
    requires
        r.wf(),
    ensures
        r.lower() < r.limit(),
        r.holds(r.lower()),
{
}

/// The whole keyspace starts at 0 and has no end.
pub proof fn law_the_full_range_is_the_keyspace()
    ensures
        KeyRange::whole().wf(),
        KeyRange::whole().lower() == 0,
        KeyRange::whole().upper() is None,
{
}

// ---------------------------------------------------------------------------------------
// Splitting.
// ---------------------------------------------------------------------------------------

/// Bound `i` of the even split of `range` into `parts`: `i * width / parts` ids after the
/// start, rounded to the nearest, halves up.
pub open spec fn split_bound(range: KeyRange, parts: int, i: int) -> int {
    range.lower() + (2 * i * (range.limit() - range.lower()) + parts) / (2 * parts)
}

/// Whether `s` is the even split of `range` into `parts`.
pub open spec fn is_even_split(range: KeyRange, parts: int, s: Seq<KeyRange>) -> bool {
    &&& s.len() == parts
    &&& forall|k: int|
        0 <= k < parts ==> (#[trigger] s[k]).wf() && s[k].lower() == split_bound(range, parts, k)
            && s[k].limit() == split_bound(range, parts, k + 1) && (s[k].upper() is None
            <==> range.upper() is None && k == parts - 1)
}

/// How far bound `i` lies from the start, where `width` ids are split.
spec fn split_offset(width: int, parts: int, i: int) -> int {
    (2 * i * width + parts) / (2 * parts)
}

proof fn lemma_split_step(width: int, parts: int, i: int)
    requires
        1 <= parts <= width,
    ensures
        split_offset(width, parts, i) < split_offset(width, parts, i + 1),
{
    let a = 2 * i * width + parts;
    let n = 2 * parts;
    assert(2 * (i + 1) * width + parts == a + 2 * width) by (nonlinear_arith)
        requires
            a == 2 * i * width + parts,
    ;
    assert((a + 2 * width) / n >= a / n + 1) by (nonlinear_arith)
        requires
            1 <= n <= 2 * width,
    ;
}

proof fn lemma_split_ends(width: int, parts: int)
    requires
        1 <= parts <= width,
    ensures
        split_offset(width, parts, 0) == 0,
        split_offset(width, parts, parts) == width,
{
    assert(2 * 0 * width == 0) by (nonlinear_arith);
    assert(parts / (2 * parts) == 0) by (nonlinear_arith)
        requires
            1 <= parts,
    ;
    assert((2 * parts * width + parts) / (2 * parts) == width) by (nonlinear_arith)
        requires
            1 <= parts,
    ;
}

/// The bounds rise from the start to the end.
proof fn lemma_split_bound(width: int, parts: int, i: int)
    requires
        1 <= parts <= width,
        0 <= i <= parts,
    ensures
        0 <= split_offset(width, parts, i) <= width,
        i < parts ==> split_offset(width, parts, i) < split_offset(width, parts, i + 1),
        i < parts ==> split_offset(width, parts, i) < width,
    decreases parts - i,
{
    assert(0 <= 2 * i * width) by (nonlinear_arith)
        requires
            0 <= i,
            0 <= width,
    ;
    assert(0 <= (2 * i * width + parts) / (2 * parts)) by (nonlinear_arith)
        requires
            0 <= 2 * i * width,
            1 <= parts,
    ;
    if i < parts {
        lemma_split_step(width, parts, i);
        lemma_split_bound(width, parts, i + 1);
    } else {
        lemma_split_ends(width, parts);
    }
}

/// An even split starts where the range starts, ends where it ends, and each part begins
/// where the one before it ended.
pub proof fn law_split_preserves_bounds(range: KeyRange, parts: int, s: Seq<KeyRange>)
    requires
        range.wf(),
        1 <= parts <= range.limit() - range.lower(),
        is_even_split(range, parts, s),
    ensures
        s.len() == parts,
        s.first().lower() == range.lower(),
        s.last().upper() == range.upper(),
        forall|k: int| 0 <= k < parts - 1 ==> (#[trigger] s[k]).upper() == Some(s[k + 1].lower()),
{
    let width = range.limit() - range.lower();
    lemma_split_ends(width, parts);
    assert(s[0].lower() == range.lower());
    assert(s[parts - 1].limit() == range.limit());
    assert forall|k: int| 0 <= k < parts - 1 implies (#[trigger] s[k]).upper() == Some(
        s[k + 1].lower(),
    ) by {
        assert(s[k].limit() == s[k + 1].lower());
    }
}

/// A split of the full keyspace partitions it.
pub proof fn law_full_split_is_a_partition(parts: int, s: Seq<KeyRange>)
    requires
        1 <= parts <= keyspace_size(),
        is_even_split(KeyRange::whole(), parts, s),
    ensures
        is_partition(s),
{
    law_split_preserves_bounds(KeyRange::whole(), parts, s);
}

/// A range that contains an id intersects every range that contains it.
pub proof fn law_contains_implies_intersects(range: KeyRange, point: KeyRange, id: u64)
    requires
        range.holds(id),
        point.holds(id),
    ensures
        exists|k: u64| range.holds(k) && point.holds(k),
{
}

// ---------------------------------------------------------------------------------------
// Bounds as text.
// ---------------------------------------------------------------------------------------

/// The bytes of `v`, a number of `k` bytes, in hex from the most significant on, without
/// the zero bytes at the end.
pub open spec fn bound_digits(v: nat, k: nat) -> Seq<char>
    decreases k,
{
    if v == 0 || k == 0 {
        Seq::empty()
    } else {
        let place = pow(16, 2 * (k - 1) as nat) as nat;
        let top = v / place;
        seq![text::digit_char(top / 16), text::digit_char(top % 16)] + bound_digits(
            v % place,
            (k - 1) as nat,
        )
    }
}

/// The canonical text of a bound: big-endian hex with trailing zero bytes trimmed.
pub open spec fn bound_text(v: u64) -> Seq<char> {
    bound_digits(v as nat, 8)
}

/// The text of a range.
pub open spec fn range_text(r: KeyRange) -> Seq<char> {
    bound_text(r.lower()) + seq!['-'] + (match r.upper() {
        Some(e) => bound_text(e),
        None => Seq::empty(),
    })
}

pub open spec fn is_lower_hex(c: char) -> bool {
    ('0' <= c && c <= '9') || ('a' <= c && c <= 'f')
}

/// The bound that a text denotes: nothing stands for 0, and pairs of lower-case hex digits,
/// at most eight, for the leading bytes of the bound.
pub open spec fn parsed_bound(s: Seq<char>) -> Option<u64> {
    if s.len() % 2 == 0 && s.len() <= 16 && (forall|i: int|
        0 <= i < s.len() ==> is_lower_hex(#[trigger] s[i])) {
        Some((text::numeral_value(s, 16) * pow(16, (16 - s.len()) as nat)) as u64)
    } else {
        None
    }
}

/// What a text is as a range.
pub enum ParsedRange {
    Range(u64, Option<u64>),
    NoDash,
    BadBound(Seq<char>),
    EmptyRange(u64, u64),
}

/// The text up to the first `-` is the start, what follows is the end; nothing stands for
/// an open end.
pub open spec fn parsed_range(s: Seq<char>) -> ParsedRange {
    let p = text::position(s, '-');
    if p == s.len() {
        ParsedRange::NoDash
    } else {
        let head = s.subrange(0, p);
        let tail = s.subrange(p + 1, s.len() as int);
        match parsed_bound(head) {
            None => ParsedRange::BadBound(head),
            Some(start) => if tail.len() == 0 {
                ParsedRange::Range(start, None)
            } else {
                match parsed_bound(tail) {
                    None => ParsedRange::BadBound(tail),
                    Some(end) => if start >= end {
                        ParsedRange::EmptyRange(start, end)
                    } else {
                        ParsedRange::Range(start, Some(end))
                    },
                }
            },
        }
    }
}

proof fn lemma_pow16(k: nat)
    ensures
        k >= 1 ==> pow(16, 2 * k) == 256 * pow(16, 2 * (k - 1) as nat),
        pow(16, 2 * k) >= 1,
        pow(16, 0) == 1,
        pow(16, 16) == keyspace_size(),
{
    reveal(pow);
    lemma_pow_positive(16, 2 * k);
    if k >= 1 {
        let j = 2 * (k - 1) as nat;
        assert(pow(16, j + 1) == 16 * pow(16, j));
        assert(pow(16, j + 2) == 16 * pow(16, j + 1));
    }
    reveal_with_fuel(pow, 17);
    assert(pow(16, 16) == keyspace_size());
}

/// The digits of a bound are lower-case hex, come in pairs, and denote it.
proof fn lemma_bound_digits(v: nat, k: nat)
    requires
        v < pow(16, 2 * k),
    ensures
        bound_digits(v, k).len() % 2 == 0,
        bound_digits(v, k).len() <= 2 * k,
        forall|i: int|
            0 <= i < bound_digits(v, k).len() ==> is_lower_hex(#[trigger] bound_digits(v, k)[i]),
        text::all_digits(bound_digits(v, k), 16),
        text::numeral_value(bound_digits(v, k), 16) * pow(
            16,
            (2 * k - bound_digits(v, k).len()) as nat,
        ) == v,
        v > 0 ==> bound_digits(v, k).len() > 0,
    decreases k,
{
    lemma_pow16(k);
    if v == 0 || k == 0 {
        assert(text::numeral_value(Seq::<char>::empty(), 16) == 0);
        assert(0 * pow(16, (2 * k) as nat) == 0);
    } else {
        let j = (k - 1) as nat;
        lemma_pow16(j);
        let place = pow(16, 2 * j) as nat;
        let top = v / place;
        let rest = v % place;
        assert(rest < place) by (nonlinear_arith)
            requires
                place >= 1,
                rest == v % place,
        ;
        assert(top < 256) by (nonlinear_arith)
            requires
                v < 256 * place,
                place >= 1,
                top == v / place,
        ;
        assert(v == top * place + rest) by (nonlinear_arith)
            requires
                place >= 1,
                top == v / place,
                rest == v % place,
        ;
        lemma_bound_digits(rest, j);
        let t = bound_digits(rest, j);
        let hl = seq![text::digit_char(top / 16), text::digit_char(top % 16)];
        let s = hl + t;
        assert(is_lower_hex(hl[0]) && is_lower_hex(hl[1]));
        assert(text::digit_value(hl[0]) == top / 16);
        assert(text::digit_value(hl[1]) == top % 16);
        assert forall|i: int| 0 <= i < s.len() implies is_lower_hex(#[trigger] s[i]) by {
            if i >= 2 {
                assert(s[i] == t[i - 2]);
            }
        }
        assert forall|i: int| 0 <= i < s.len() implies #[trigger] text::digit_value(s[i]) < 16 by {
            if i >= 2 {
                assert(s[i] == t[i - 2]);
            }
        }
        text::lemma_numeral_concat(hl, t, 16);
        assert(text::numeral_value(hl, 16) == top) by {
            assert(hl.drop_last() =~= seq![hl[0]]);
            assert(seq![hl[0]].drop_last() =~= Seq::<char>::empty());
            assert(text::numeral_value(Seq::<char>::empty(), 16) == 0);
            assert(text::numeral_value(seq![hl[0]], 16) == top / 16);
        }
        let pad = (2 * j - t.len()) as nat;
        lemma_pow_adds(16, t.len(), pad);
        let a = pow(16, t.len());
        let b = pow(16, pad);
        let w = text::numeral_value(t, 16) as int;
        assert((top * a + w) * b == top * (a * b) + w * b) by (nonlinear_arith);
        assert(2 * k - s.len() == pad);
    }
}

proof fn lemma_hex_digits(s: Seq<char>)
    requires
        forall|i: int| 0 <= i < s.len() ==> is_lower_hex(#[trigger] s[i]),
    ensures
        text::all_digits(s, 16),
{
    assert forall|i: int| 0 <= i < s.len() implies #[trigger] text::digit_value(s[i]) < 16 by {
        assert(is_lower_hex(s[i]));
    }
}

/// Reading a bound gives back the bound that was written.
pub proof fn law_bound_round_trips(v: u64)
    ensures
        parsed_bound(bound_text(v)) == Some(v),
        v > 0 ==> bound_text(v).len() > 0,
{
    lemma_pow16(8);
    lemma_bound_digits(v as nat, 8);
}

/// Reading a range gives back the range that was written.
pub proof fn law_range_round_trips(r: KeyRange)
    requires
        r.wf(),
    ensures
        parsed_range(range_text(r)) == ParsedRange::Range(r.lower(), r.upper()),
{
    law_bound_round_trips(r.lower());
    lemma_pow16(8);
    lemma_bound_digits(r.lower() as nat, 8);
    let head = bound_text(r.lower());
    let tail = match r.upper() {
        Some(e) => bound_text(e),
        None => Seq::empty(),
    };
    let s = range_text(r);
    assert forall|i: int| 0 <= i < head.len() implies s[i] != '-' by {
        assert(s[i] == head[i]);
        assert(is_lower_hex(head[i]));
    }
    text::lemma_position_is(s, '-', head.len() as int);
    assert(s.subrange(0, head.len() as int) =~= head);
    assert(s.subrange(head.len() as int + 1, s.len() as int) =~= tail);
    if let Some(e) = r.upper() {
        law_bound_round_trips(e);
    }
}

/// Writes a range bound in its canonical form: big-endian hex with trailing zero bytes
/// trimmed; zero is the empty string (`"40"` means `0x4000_0000_0000_0000`).
pub fn format_bound(v: u64) -> (r: String)
    ensures
        r@ == bound_text(v),
{
    let mut out: String = String::new();
    let mut rest: u64 = v;
    let mut k: u64 = 8;
    let mut place: u64 = 0x0100_0000_0000_0000;
    proof {
        lemma_pow16(8);
        lemma_pow16(7);
        assert(Seq::<char>::empty() + bound_text(v) =~= bound_text(v));
    }
    while k > 0 && rest > 0
        invariant
            k <= 8,
            rest < pow(16, (2 * k) as nat),
            k >= 1 ==> place == pow(16, (2 * (k - 1)) as nat),
            bound_text(v) == out@ + bound_digits(rest as nat, k as nat),
        decreases k,
    {
        proof {
            lemma_pow16(k as nat);
            lemma_pow16((k - 1) as nat);
        }
        let top: u64 = rest / place;
        let low: u64 = rest % place;
        proof {
            assert(top < 256) by (nonlinear_arith)
                requires
                    rest < 256 * place,
                    place >= 1,
                    top == rest / place,
            ;
            assert(low < place) by (nonlinear_arith)
                requires
                    place >= 1,
                    low == rest % place,
            ;
        }
        let ghost before = out@;
        let ghost tail = bound_digits(rest as nat, k as nat);
        let h = hex_digit(top / 16);
        let l = hex_digit(top % 16);
        out.push(h);
        out.push(l);
        proof {
            let t = bound_digits(low as nat, (k - 1) as nat);
            assert(tail == seq![h, l] + t);
            assert(before + (seq![h, l] + t) =~= before.push(h).push(l) + t);
        }
        rest = low;
        k = k - 1;
        proof {
            if k >= 1 {
                assert(place / 256 == pow(16, (2 * (k - 1)) as nat)) by {
                    lemma_pow16(k as nat);
                }
            }
        }
        place = place / 256;
    }
    proof {
        assert(bound_digits(rest as nat, k as nat) =~= Seq::<char>::empty());
        assert(out@ + Seq::<char>::empty() =~= out@);
    }
    out
}

/// The lower-case hex digit of `v`.
pub fn hex_digit(v: u64) -> (r: char)
    requires
        v < 16,
    ensures
        r == text::digit_char(v as nat),
{
    if v < 10 {
        (48u8 + v as u8) as char
    } else {
        (87u8 + v as u8) as char
    }
}

/// Reads a range bound; the inverse of [`format_bound`] that also takes trailing zero bytes.
pub fn parse_bound(s: &str) -> (r: Result<u64, KeyRangeError>)
    ensures
        match parsed_bound(s@) {
            Some(v) => r == Ok::<u64, KeyRangeError>(v),
            None => r is Err && (r->Err_0 matches KeyRangeError::InvalidBound(t) && t@ == s@),
        },
{
    let cs = text::chars(s);
    if cs.len() % 2 != 0 || cs.len() > 16 {
        return Err(KeyRangeError::InvalidBound(s.to_owned()));
    }
    let mut i: usize = 0;
    while i < cs.len()
        invariant
            i <= cs@.len(),
            cs@ == s@,
            forall|k: int| 0 <= k < i ==> is_lower_hex(#[trigger] cs@[k]),
        decreases cs@.len() - i,
    {
        let c = cs[i];
        if !(('0' <= c && c <= '9') || ('a' <= c && c <= 'f')) {
            assert(!is_lower_hex(s@[i as int]));
            return Err(KeyRangeError::InvalidBound(s.to_owned()));
        }
        i += 1;
    }
    proof {
        lemma_hex_digits(cs@);
        text::lemma_numeral_bound(cs@, 16);
        lemma_pow_positive(16, cs@.len());
        lemma_pow16(8);
        lemma_pow_adds(16, cs@.len(), (16 - cs@.len()) as nat);
        lemma_pow_increases(16, cs@.len(), 16);
    }
    let mut v: u64 = 0;
    if cs.len() > 0 {
        match text::read_digits(cs.as_slice(), 16) {
            Some(n) => {
                v = n;
            },
            None => {
                assert(false);
                return Err(KeyRangeError::InvalidBound(s.to_owned()));
            },
        }
    }
    let ghost n = v as int;
    let mut j: usize = cs.len();
    proof {
        reveal(pow);
        assert(n * 1 == n);
    }
    while j < 16
        invariant
            cs@.len() <= j <= 16,
            n < pow(16, cs@.len()),
            n == text::numeral_value(cs@, 16),
            v == n * pow(16, (j - cs@.len()) as nat),
        decreases 16 - j,
    {
        proof {
            let d = (j - cs@.len()) as nat;
            let a = pow(16, d);
            reveal(pow);
            assert(pow(16, d + 1) == 16 * a);
            lemma_pow_adds(16, cs@.len(), d + 1);
            lemma_pow_increases(16, (j + 1) as nat, 16);
            lemma_pow16(8);
            lemma_pow_positive(16, d + 1);
            let c = pow(16, cs@.len());
            assert(n * (16 * a) < c * (16 * a)) by (nonlinear_arith)
                requires
                    n < c,
                    16 * a > 0,
            ;
            assert(n * (16 * a) == 16 * (n * a)) by (nonlinear_arith);
        }
        v = v * 16;
        j += 1;
    }
    Ok(v)
}

// ---------------------------------------------------------------------------------------
// Partitions.
// ---------------------------------------------------------------------------------------

/// Why ranges do not partition the keyspace.
#[derive(Debug, PartialEq, Eq)]
pub enum PartitionError {
    Empty,
    DoesNotStartAtZero(u64),
    GapOrOverlap { index: usize, prev_end: Option<u64>, next_start: u64 },
    DoesNotEndAtMax(u64),
}

/// Whether range `i` begins where the one before it ended.
pub open spec fn meets(s: Seq<KeyRange>, i: int) -> bool {
    s[i - 1].upper() == Some(s[i].lower())
}

/// Whether the ranges, in order, exactly partition the full keyspace.
pub open spec fn is_partition(s: Seq<KeyRange>) -> bool {
    &&& s.len() > 0
    &&& s[0].lower() == 0
    &&& forall|i: int| 1 <= i < s.len() ==> #[trigger] meets(s, i)
    &&& s.last().upper() is None
}

/// Checks that `ranges`, in order, exactly partition the full keyspace:
/// start at 0, each range begins where the previous ended, open end last.
pub fn validate_partition(ranges: &[KeyRange]) -> (r: Result<(), PartitionError>)
    ensures
        r is Ok <==> is_partition(ranges@),
        match r {
            Ok(_) => true,
            Err(PartitionError::Empty) => ranges@.len() == 0,
            Err(PartitionError::DoesNotStartAtZero(v)) => ranges@.len() > 0 && v
                == ranges@[0].lower() && v != 0,
            Err(PartitionError::GapOrOverlap { index, prev_end, next_start }) => {
                &&& ranges@[0].lower() == 0
                &&& 1 <= index < ranges@.len()
                &&& !meets(ranges@, index as int)
                &&& forall|i: int| 1 <= i < index ==> #[trigger] meets(ranges@, i)
                &&& prev_end == ranges@[index - 1].upper()
                &&& next_start == ranges@[index as int].lower()
            },
            Err(PartitionError::DoesNotEndAtMax(e)) => {
                &&& ranges@.len() > 0
                &&& ranges@[0].lower() == 0
                &&& forall|i: int| 1 <= i < ranges@.len() ==> #[trigger] meets(ranges@, i)
                &&& ranges@.last().upper() == Some(e)
            },
        },
{
    if ranges.len() == 0 {
        return Err(PartitionError::Empty);
    }
    if ranges[0].start != 0 {
        return Err(PartitionError::DoesNotStartAtZero(ranges[0].start));
    }
    let mut i: usize = 1;
    while i < ranges.len()
        invariant
            1 <= i <= ranges@.len(),
            ranges@[0].lower() == 0,
            forall|k: int| 1 <= k < i ==> #[trigger] meets(ranges@, k),
        decreases ranges@.len() - i,
    {
        let next: u64 = ranges[i].start;
        let prev = ranges[i - 1].end;
        let joined = match prev {
            Some(e) => e == next,
            None => false,
        };
        if !joined {
            assert(!meets(ranges@, i as int));
            return Err(
                PartitionError::GapOrOverlap { index: i, prev_end: prev, next_start: next },
            );
        }
        assert(meets(ranges@, i as int));
        i += 1;
    }
    match ranges[ranges.len() - 1].end {
        None => Ok(()),
        Some(end) => Err(PartitionError::DoesNotEndAtMax(end)),
    }
}

proof fn lemma_partition_order(s: Seq<KeyRange>, i: int, j: int)
    requires
        is_partition(s),
        forall|k: int| 0 <= k < s.len() ==> (#[trigger] s[k]).wf(),
        0 <= i < j < s.len(),
    ensures
        s[i].limit() <= s[j].lower(),
    decreases j - i,
{
    assert(meets(s, j));
    if i + 1 < j {
        lemma_partition_order(s, i, j - 1);
        assert(s[j - 1].wf());
    }
}

proof fn lemma_partition_covers(s: Seq<KeyRange>, id: u64, n: int) -> (owner: int)
    requires
        is_partition(s),
        forall|k: int| 0 <= k < s.len() ==> (#[trigger] s[k]).wf(),
        0 <= n < s.len(),
        s[n].lower() <= id,
    ensures
        0 <= owner < s.len(),
        s[owner].holds(id),
    decreases s.len() - n,
{
    if s[n].holds(id) {
        n
    } else {
        assert(n + 1 < s.len());
        assert(meets(s, n + 1));
        lemma_partition_covers(s, id, n + 1)
    }
}

/// Exactly one member of a partition contains any given id.
pub proof fn law_exactly_one_owner(s: Seq<KeyRange>, id: u64) -> (owner: int)
    requires
        is_partition(s),
        forall|k: int| 0 <= k < s.len() ==> (#[trigger] s[k]).wf(),
    ensures
        0 <= owner < s.len(),
        s[owner].holds(id),
        forall|k: int| 0 <= k < s.len() && k != owner ==> !(#[trigger] s[k]).holds(id),
{
    let owner = lemma_partition_covers(s, id, 0);
    assert forall|k: int| 0 <= k < s.len() && k != owner implies !(#[trigger] s[k]).holds(id) by {
        if k < owner {
            lemma_partition_order(s, k, owner);
        } else {
            lemma_partition_order(s, owner, k);
        }
    }
    owner
}

/// What an error says.
pub open spec fn range_fault_text(e: KeyRangeError) -> Seq<char> {
    match e {
        KeyRangeError::Empty { start, end } => "empty range: start "@ + text::padded_hex(
            start as nat,
            16,
        ) + " >= end "@ + text::padded_hex(end as nat, 16),
        KeyRangeError::InvalidBound(s) => "invalid bound "@ + text::debug_text(s@)
            + ": expected lowercase hex, even number of digits, at most 16"@,
        KeyRangeError::InvalidSyntax(s) => "invalid range syntax "@ + text::debug_text(s@)
            + ": expected \"<start>-<end>\""@,
        KeyRangeError::InvalidSplit(n) => "cannot split into "@ + text::decimal(n as int)
            + " parts: range too narrow or parts == 0"@,
    }
}

impl KeyRangeError {
    pub fn to_string(&self) -> (r: String)
        ensures
            r@ == range_fault_text(*self),
    {
        match self {
            KeyRangeError::Empty { start, end } => text::concat4(
                "empty range: start ",
                text::padded_hex_string(*start, 16).as_str(),
                " >= end ",
                text::padded_hex_string(*end, 16).as_str(),
            ),
            KeyRangeError::InvalidBound(s) => text::concat3(
                "invalid bound ",
                text::debug_string(s.as_str()).as_str(),
                ": expected lowercase hex, even number of digits, at most 16",
            ),
            KeyRangeError::InvalidSyntax(s) => text::concat3(
                "invalid range syntax ",
                text::debug_string(s.as_str()).as_str(),
                ": expected \"<start>-<end>\"",
            ),
            KeyRangeError::InvalidSplit(n) => text::concat3(
                "cannot split into ",
                text::decimal_u64(*n as u64).as_str(),
                " parts: range too narrow or parts == 0",
            ),
        }
    }
}

/// What an error says.
pub open spec fn partition_fault_text(e: PartitionError) -> Seq<char> {
    match e {
        PartitionError::Empty => "no ranges"@,
        PartitionError::DoesNotStartAtZero(s) => "first range starts at "@ + text::padded_hex(
            s as nat,
            16,
        ) + ", not 0"@,
        PartitionError::GapOrOverlap { index, prev_end, next_start } => "range "@ + text::decimal(
            index as int,
        ) + " starts at "@ + text::padded_hex(next_start as nat, 16)
            + " but previous range ends at "@ + (match prev_end {
            Some(e) => "Some("@ + text::decimal(e as int) + ")"@,
            None => "None"@,
        }),
        PartitionError::DoesNotEndAtMax(e) => "last range ends at "@ + text::padded_hex(
            e as nat,
            16,
        ) + " instead of the top of the keyspace"@,
    }
}

impl PartitionError {
    pub fn to_string(&self) -> (r: String)
        ensures
            r@ == partition_fault_text(*self),
    {
        match self {
            PartitionError::Empty => "no ranges".to_owned(),
            PartitionError::DoesNotStartAtZero(s) => text::concat3(
                "first range starts at ",
                text::padded_hex_string(*s, 16).as_str(),
                ", not 0",
            ),
            PartitionError::GapOrOverlap { index, prev_end, next_start } => {
                let end = match prev_end {
                    Some(e) => text::concat3("Some(", text::decimal_u64(*e).as_str(), ")"),
                    None => "None".to_owned(),
                };
                let head = text::concat4(
                    "range ",
                    text::decimal_u64(*index as u64).as_str(),
                    " starts at ",
                    text::padded_hex_string(*next_start, 16).as_str(),
                );
                text::concat3(head.as_str(), " but previous range ends at ", end.as_str())
            },
            PartitionError::DoesNotEndAtMax(e) => text::concat3(
                "last range ends at ",
                text::padded_hex_string(*e, 16).as_str(),
                " instead of the top of the keyspace",
            ),
        }
    }
}

/// A range holds its start and everything up to its end, and not the end itself; without an
/// end it goes on to the last id.
pub proof fn law_ranges_are_half_open(r: KeyRange, id: u64)
    ensures
        r.holds(id) <==> r.lower() <= id && (r.upper() is Some ==> id < r.upper()->0),
        r.upper() == Some(id) ==> !r.holds(id),
        r.upper() is None ==> r.holds(u64::MAX),
{
}

/// The bounds of an even split stand as near as an integer can to equal shares, halfway ones
/// rounded up, so that no two parts differ by more than one id.
pub proof fn law_shares_are_equal(range: KeyRange, parts: int, s: Seq<KeyRange>, j: int, k: int)
    requires
        range.wf(),
        1 <= parts <= range.limit() - range.lower(),
        is_even_split(range, parts, s),
        0 <= j < parts,
        0 <= k < parts,
    ensures
        -parts < 2 * parts * (s[k].lower() - range.lower()) - 2 * k * (range.limit()
            - range.lower()) <= parts,
        (s[j].limit() - s[j].lower()) - (s[k].limit() - s[k].lower()) <= 1,
{
    let width = range.limit() - range.lower();
    lemma_near_share(width, parts, k);
    lemma_near_share(width, parts, k + 1);
    lemma_near_share(width, parts, j);
    lemma_near_share(width, parts, j + 1);
    let a = (2 * j * width + parts) / (2 * parts);
    let b = (2 * (j + 1) * width + parts) / (2 * parts);
    let c = (2 * k * width + parts) / (2 * parts);
    let d = (2 * (k + 1) * width + parts) / (2 * parts);
    assert(2 * (j + 1) * width == 2 * j * width + 2 * width) by (nonlinear_arith);
    assert(2 * (k + 1) * width == 2 * k * width + 2 * width) by (nonlinear_arith);
    assert(2 * parts * (b - a) == 2 * parts * b - 2 * parts * a) by (nonlinear_arith);
    assert(2 * parts * (d - c) == 2 * parts * d - 2 * parts * c) by (nonlinear_arith);
    assert(2 * parts * ((b - a) - (d - c)) == 2 * parts * (b - a) - 2 * parts * (d - c))
        by (nonlinear_arith);
    assert(2 * parts * ((b - a) - (d - c)) < 4 * parts);
    assert((b - a) - (d - c) <= 1) by (nonlinear_arith)
        requires
            2 * parts * ((b - a) - (d - c)) < 4 * parts,
            1 <= parts,
    ;
    assert(s[k].lower() - range.lower() == c);
}

proof fn lemma_near_share(width: int, parts: int, i: int)
    requires
        1 <= parts,
    ensures
        -parts < 2 * parts * ((2 * i * width + parts) / (2 * parts)) - 2 * i * width <= parts,
{
    let x = 2 * i * width + parts;
    let d = 2 * parts;
    vstd::arithmetic::div_mod::lemma_fundamental_div_mod(x, d);
    vstd::arithmetic::div_mod::lemma_mod_bound(x, d);
    assert(d * (x / d) == 2 * parts * (x / d));
}

/// A written bound gives the leading digits of an id: zero bytes at its end change nothing,
/// and with all of its digits it is the number that they write.
pub proof fn law_bounds_are_leading_digits(s: Seq<char>)
    requires
        parsed_bound(s) is Some,
    ensures
        s.len() <= 14 ==> parsed_bound(s + seq!['0', '0']) == parsed_bound(s),
        s.len() == 16 ==> parsed_bound(s)->0 == text::numeral_value(s, 16),
{
    lemma_pow16(8);
    let v = text::numeral_value(s, 16);
    assert(text::all_digits(s, 16)) by {
        assert forall|i: int| 0 <= i < s.len() implies text::digit_value(#[trigger] s[i]) < 16 by {
            assert(is_lower_hex(s[i]));
        }
    }
    if s.len() == 16 {
        text::lemma_numeral_bound(s, 16);
        assert(v * pow(16, 0) == v) by (nonlinear_arith)
            requires
                pow(16, 0) == 1,
        ;
    }
    if s.len() <= 14 {
        let z = seq!['0', '0'];
        let t = s + z;
        assert forall|i: int| 0 <= i < t.len() implies is_lower_hex(#[trigger] t[i]) by {
            if i < s.len() {
                assert(is_lower_hex(s[i]));
            }
        }
        text::lemma_numeral_concat(s, z, 16);
        assert(text::numeral_value(z, 16) == 0) by {
            reveal_with_fuel(text::numeral_value, 3);
            assert(z.drop_last().drop_last() =~= Seq::<char>::empty());
        }
        let rest = (14 - s.len()) as nat;
        lemma_pow_adds(16, 2, rest);
        assert(text::numeral_value(t, 16) == v * pow(16, 2));
        assert(v * pow(16, 2) * pow(16, rest) == v * (pow(16, 2) * pow(16, rest)))
            by (nonlinear_arith);
        assert(pow(16, 2 + rest) == pow(16, (16 - s.len()) as nat));
        assert((16 - t.len()) as nat == rest);
    }
}

/// A bound is an even number of lower-case digits, no more than 16: nothing else is read as
/// one.
pub proof fn law_only_lower_hex_bounds_are_read(s: Seq<char>, i: int)
    ensures
        parsed_bound(Seq::empty()) == Some(0u64),
        s.len() % 2 == 1 ==> parsed_bound(s) is None,
        s.len() > 16 ==> parsed_bound(s) is None,
        0 <= i < s.len() && !('0' <= s[i] && s[i] <= '9') && !('a' <= s[i] && s[i] <= 'f')
            ==> parsed_bound(s) is None,
        s.len() % 2 == 0 && s.len() <= 16 && (forall|k: int|
            0 <= k < s.len() ==> ('0' <= #[trigger] s[k] && s[k] <= '9') || ('a' <= s[k] && s[k]
                <= 'f')) ==> parsed_bound(s) is Some,
{
    let e = Seq::<char>::empty();
    lemma_pow16(8);
    assert(text::numeral_value(e, 16) * pow(16, 16) == 0) by (nonlinear_arith)
        requires
            text::numeral_value(e, 16) == 0,
    ;
    if 0 <= i < s.len() && !('0' <= s[i] && s[i] <= '9') && !('a' <= s[i] && s[i] <= 'f') {
        assert(!is_lower_hex(s[i]));
    }
}

/// A range is read from two bounds with the first `-` between them; it starts before it ends,
/// and without an end it reaches the top.
pub proof fn law_ranges_are_read_from_their_bounds(a: Seq<char>, b: Seq<char>)
    requires
        forall|i: int| 0 <= i < a.len() ==> a[i] != '-',
    ensures
        parsed_bound(a) is None ==> parsed_range(a + seq!['-'] + b) == ParsedRange::BadBound(a),
        parsed_bound(a) is Some && b.len() > 0 && parsed_bound(b) is None ==> parsed_range(
            a + seq!['-'] + b,
        ) == ParsedRange::BadBound(b),
        parsed_bound(a) is Some && b.len() == 0 ==> parsed_range(a + seq!['-'] + b)
            == ParsedRange::Range(parsed_bound(a)->0, None),
        parsed_bound(a) is Some && b.len() > 0 && parsed_bound(b) is Some ==> parsed_range(
            a + seq!['-'] + b,
        ) == (if parsed_bound(a)->0 < parsed_bound(b)->0 {
            ParsedRange::Range(parsed_bound(a)->0, parsed_bound(b))
        } else {
            ParsedRange::EmptyRange(parsed_bound(a)->0, parsed_bound(b)->0)
        }),
        parsed_range(a) is NoDash,
{
    let s = a + seq!['-'] + b;
    text::lemma_position_is(s, '-', a.len() as int);
    text::lemma_position_is(a, '-', a.len() as int);
    assert(s.subrange(0, a.len() as int) =~= a);
    assert(s.subrange(a.len() as int + 1, s.len() as int) =~= b);
}

} // verus!
