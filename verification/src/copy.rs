//! Filtered snapshot copy — the initial data load of a reshard seed.
//!
//! Before streaming changes, the seeder copies the source table's existing rows
//! that belong to the target key range, as of the replication slot's exported
//! snapshot, so the stream picks up exactly where the copy ends — no gap, no
//! overlap at the seam.
//!
//! The copy runs `COPY … TO STDOUT` on the source and passes each matching row,
//! byte for byte, into `COPY … FROM STDIN` on the target. Only the shard-key
//! column is decoded (to decide keep-or-skip); every other column is streamed
//! verbatim in PostgreSQL's own text format, so the copy is lossless for any
//! column type. The keep decision uses the same keyspace-id logic as the stream
//! ([`crate::filter::text_keyspace_id`]), so a row is copied iff it would also be
//! kept by the stream.
//!
//! [`CopyRun`] decides what to run next on either database; whoever holds the connections
//! performs it and reports back. [`RowFilter`] turns the bytes of the outgoing COPY into
//! the rows for the incoming one.
use crate::bytes;
use crate::filter::{self, text_keyspace_id, FilterError, FilterFault};
use crate::keyspace::KeyRange;
use crate::quote;
use crate::shardfn::{KeyValue, ScalarType, ShardFunction};
use crate::text;
use vstd::prelude::*;
use vstd::slice::*;
use vstd::string::*;

verus! {

/// Why a filtered snapshot copy failed.
#[derive(Debug, PartialEq, Eq)]
pub enum CopyError {
    /// The source database failed.
    Source(String),
    /// The target database failed.
    Target(String),
    /// A row's shard key could not be resolved.
    Filter(FilterError),
    NoShardKeyColumn(String),
    Malformed(String),
    BadSnapshot(String),
}

/// What an error says.
#[verifier::ext_equal]
pub enum CopyFault {
    Source(Seq<char>),
    Target(Seq<char>),
    Filter(FilterFault),
    NoShardKeyColumn(Seq<char>),
    Malformed(Seq<char>),
    BadSnapshot(Seq<char>),
}

impl View for CopyError {
    type V = CopyFault;

    open spec fn view(&self) -> CopyFault {
        match self {
            CopyError::Source(e) => CopyFault::Source(e@),
            CopyError::Target(e) => CopyFault::Target(e@),
            CopyError::Filter(e) => CopyFault::Filter(e@),
            CopyError::NoShardKeyColumn(c) => CopyFault::NoShardKeyColumn(c@),
            CopyError::Malformed(m) => CopyFault::Malformed(m@),
            CopyError::BadSnapshot(s) => CopyFault::BadSnapshot(s@),
        }
    }
}

/// What to copy and how to filter it. `columns` fixes the COPY column order, so
/// the shard-key column's position is known; the source and target COPY use the
/// same list, so the raw rows pass straight through.
pub struct CopySpec<'a> {
    pub schema: &'a str,
    pub table: &'a str,
    pub columns: &'a [String],
    pub shard_key_column: &'a str,
    pub shard_key_type: ScalarType,
    pub target_range: KeyRange,
}

// ---------------------------------------------------------------------------------------
// Fields of a row.
// ---------------------------------------------------------------------------------------

/// What the byte after a backslash stands for.
pub open spec fn escaped(b: u8) -> u8 {
    if b == 0x62 {
        0x08
    } else if b == 0x66 {
        0x0c
    } else if b == 0x6e {
        0x0a
    } else if b == 0x72 {
        0x0d
    } else if b == 0x74 {
        0x09
    } else if b == 0x76 {
        0x0b
    } else {
        b
    }
}

/// A field without its escapes.
pub open spec fn unescaped(f: Seq<u8>) -> Seq<u8>
    decreases f.len(),
{
    if f.len() == 0 {
        Seq::empty()
    } else if f[0] == 0x5c && f.len() > 1 {
        seq![escaped(f[1])] + unescaped(f.skip(2))
    } else {
        seq![f[0]] + unescaped(f.drop_first())
    }
}

/// The value of a field; the NULL marker `\N` has none.
pub open spec fn field_value(f: Seq<u8>) -> Option<Seq<u8>> {
    if f == seq![0x5cu8, 0x4eu8] {
        None
    } else {
        Some(unescaped(f))
    }
}

/// Decode one COPY-text field to its raw bytes, or `None` for the NULL marker
/// `\N`. COPY TO emits only the letter escapes and `\\`, never octal/hex, so this
/// recovers the value's output-function text exactly — which is what the stream
/// hashes too.
pub fn copy_field_unescape(field: &[u8]) -> (r: Option<Vec<u8>>)
    ensures
        match r {
            Some(v) => field_value(field@) == Some(v@),
            None => field_value(field@) is None,
        },
{
    if field.len() == 2 && field[0] == 0x5c && field[1] == 0x4e {
        proof {
            assert(field@ =~= seq![0x5cu8, 0x4eu8]);
        }
        return None;
    }
    proof {
        if field@ == seq![0x5cu8, 0x4eu8] {
            assert(field@.len() == 2);
            assert(field@[0] == 0x5c && field@[1] == 0x4e);
        }
    }
    let mut out: Vec<u8> = Vec::new();
    let mut i: usize = 0;
    proof {
        assert(field@.skip(0) =~= field@);
        assert(out@ + unescaped(field@) =~= unescaped(field@));
    }
    while i < field.len()
        invariant
            i <= field@.len(),
            out@ + unescaped(field@.skip(i as int)) == unescaped(field@),
        decreases field@.len() - i,
    {
        let ghost rest = field@.skip(i as int);
        let ghost before = out@;
        if field[i] == 0x5c && i + 1 < field.len() {
            let b: u8 = match field[i + 1] {
                0x62 => 0x08,
                0x66 => 0x0c,
                0x6e => 0x0a,
                0x72 => 0x0d,
                0x74 => 0x09,
                0x76 => 0x0b,
                // Any other backslashed character is taken literally.
                other => other,
            };
            out.push(b);
            proof {
                assert(rest[0] == field@[i as int]);
                assert(rest[1] == field@[i + 1]);
                assert(rest.skip(2) =~= field@.skip(i + 2));
                let t = unescaped(field@.skip(i + 2));
                assert(before + (seq![b] + t) =~= before.push(b) + t);
            }
            i += 2;
        } else {
            let b: u8 = field[i];
            out.push(b);
            proof {
                assert(rest[0] == field@[i as int]);
                assert(rest.drop_first() =~= field@.skip(i + 1));
                let t = unescaped(field@.skip(i + 1));
                assert(before + (seq![b] + t) =~= before.push(b) + t);
            }
            i += 1;
        }
    }
    proof {
        assert(field@.skip(field@.len() as int) =~= Seq::<u8>::empty());
        assert(out@ + Seq::<u8>::empty() =~= out@);
    }
    Some(out)
}

/// The position of the first `b` from `at` on, or the length.
pub open spec fn byte_from(s: Seq<u8>, b: u8, at: int) -> int
    decreases s.len() - at,
{
    if at >= s.len() || s[at] == b {
        at
    } else {
        byte_from(s, b, at + 1)
    }
}

proof fn lemma_byte_from(s: Seq<u8>, b: u8, at: int)
    requires
        0 <= at <= s.len(),
    ensures
        at <= byte_from(s, b, at) <= s.len(),
        byte_from(s, b, at) < s.len() ==> s[byte_from(s, b, at)] == b,
        forall|k: int| at <= k < byte_from(s, b, at) ==> s[k] != b,
    decreases s.len() - at,
{
    if at < s.len() && s[at] != b {
        lemma_byte_from(s, b, at + 1);
    }
}

proof fn lemma_byte_from_is(s: Seq<u8>, b: u8, at: int, p: int)
    requires
        0 <= at <= p <= s.len(),
        p < s.len() ==> s[p] == b,
        forall|k: int| at <= k < p ==> s[k] != b,
    ensures
        byte_from(s, b, at) == p,
{
    lemma_byte_from(s, b, at);
}

/// The position of the first `b` from `at` on, or the length.
fn find_byte(s: &[u8], b: u8, at: usize) -> (r: usize)
    requires
        at <= s@.len(),
    ensures
        r == byte_from(s@, b, at as int),
        at <= r <= s@.len(),
{
    let mut i: usize = at;
    while i < s.len() && s[i] != b
        invariant
            at <= i <= s@.len(),
            forall|k: int| at <= k < i ==> s@[k] != b,
        decreases s@.len() - i,
    {
        i += 1;
    }
    proof {
        lemma_byte_from_is(s@, b, at as int, i as int);
    }
    i
}

/// Field `k` of the tab-separated fields from `at` on.
pub open spec fn field_from(line: Seq<u8>, at: int, k: nat) -> Option<Seq<u8>>
    decreases k,
{
    let end = byte_from(line, 0x09, at);
    if k == 0 {
        Some(line.subrange(at, end))
    } else if end >= line.len() {
        None
    } else {
        field_from(line, end + 1, (k - 1) as nat)
    }
}

/// The row without its newline.
pub open spec fn line_of(row: Seq<u8>) -> Seq<u8> {
    if row.len() > 0 && row.last() == 0x0a {
        row.drop_last()
    } else {
        row
    }
}

/// The shard-key value of a row of COPY text, as the column's type has it.
pub open spec fn row_key(row: Seq<u8>, key_index: nat, ty: ScalarType) -> Result<
    KeyValue,
    CopyFault,
> {
    match field_from(line_of(row), 0, key_index) {
        None => Err(
            CopyFault::Malformed(
                "row has fewer than "@ + text::decimal(key_index as int + 1) + " columns"@,
            ),
        ),
        Some(f) => match field_value(f) {
            None => Err(CopyFault::Filter(FilterFault::UnroutableCell)),
            Some(v) => match bytes::text_of(v) {
                None => Err(CopyFault::Filter(FilterFault::InvalidUtf8)),
                Some(s) => match filter::text_key(s, ty) {
                    Err(e) => Err(CopyFault::Filter(e)),
                    Ok(k) => Ok(k),
                },
            },
        },
    }
}

fn find_field<'a>(line: &'a [u8], key_index: usize) -> (r: Option<&'a [u8]>)
    ensures
        match r {
            Some(f) => field_from(line@, 0, key_index as nat) == Some(f@),
            None => field_from(line@, 0, key_index as nat) is None,
        },
{
    let mut at: usize = 0;
    let mut k: usize = key_index;
    loop
        invariant
            at <= line@.len(),
            field_from(line@, 0, key_index as nat) == field_from(line@, at as int, k as nat),
        decreases k,
    {
        let end: usize = find_byte(line, 0x09, at);
        if k == 0 {
            return Some(slice_subrange(line, at, end));
        }
        if end >= line.len() {
            return None;
        }
        at = end + 1;
        k = k - 1;
    }
}

/// Whether one COPY row's shard-key column falls in the target range. `row`
/// has its trailing newline.
pub fn row_in_range<F: ShardFunction>(
    row: &[u8],
    key_index: usize,
    ty: ScalarType,
    range: &KeyRange,
    shard_fn: &F,
) -> (r: Result<bool, CopyError>)
    requires
        key_index < usize::MAX,
    ensures
        match r {
            Ok(keep) => row_key(row@, key_index as nat, ty) matches Ok(v) && keep == range.holds(
                shard_fn.id_of(v),
            ),
            Err(e) => row_key(row@, key_index as nat, ty) == Err::<KeyValue, CopyFault>(e@),
        },
{
    let n: usize = row.len();
    let line = if n > 0 && row[n - 1] == 0x0a {
        slice_subrange(row, 0, n - 1)
    } else {
        row
    };
    proof {
        assert(line@ =~= line_of(row@));
    }
    let field = match find_field(line, key_index) {
        Some(f) => f,
        None => {
            let count = text::decimal_u64((key_index + 1) as u64);
            return Err(
                CopyError::Malformed(
                    text::concat3("row has fewer than ", count.as_str(), " columns"),
                ),
            );
        },
    };
    let value = match copy_field_unescape(field) {
        Some(v) => v,
        None => return Err(CopyError::Filter(FilterError::UnroutableCell)),
    };
    let s = match bytes::utf8_str(value.as_slice()) {
        Some(s) => s,
        None => return Err(CopyError::Filter(FilterError::InvalidUtf8)),
    };
    match text_keyspace_id(s, ty, shard_fn) {
        Ok(id) => Ok(range.contains(id)),
        Err(e) => Err(CopyError::Filter(e)),
    }
}

// ---------------------------------------------------------------------------------------
// Rows of a stream.
// ---------------------------------------------------------------------------------------

/// The complete rows of a byte stream, each with its newline. COPY text format terminates
/// every row with an unescaped newline (embedded newlines are escaped), so a raw newline is
/// always a row boundary.
pub open spec fn rows(b: Seq<u8>) -> Seq<Seq<u8>>
    decreases b.len(),
    via rows_decreases
{
    let nl = byte_from(b, 0x0a, 0);
    if nl >= b.len() {
        Seq::empty()
    } else {
        seq![b.subrange(0, nl + 1)] + rows(b.skip(nl + 1))
    }
}

#[via_fn]
proof fn rows_decreases(b: Seq<u8>) {
    lemma_byte_from(b, 0x0a, 0);
}

/// What follows the last newline.
pub open spec fn partial_row(b: Seq<u8>) -> Seq<u8>
    decreases b.len(),
    via partial_row_decreases
{
    let nl = byte_from(b, 0x0a, 0);
    if nl >= b.len() {
        b
    } else {
        partial_row(b.skip(nl + 1))
    }
}

#[via_fn]
proof fn partial_row_decreases(b: Seq<u8>) {
    lemma_byte_from(b, 0x0a, 0);
}

/// What a filter keeps of rows up to the first whose shard key cannot be resolved.
pub open spec fn kept<F: ShardFunction>(
    rs: Seq<Seq<u8>>,
    key_index: nat,
    ty: ScalarType,
    range: KeyRange,
    f: F,
) -> Seq<Seq<u8>>
    decreases rs.len(),
{
    if rs.len() == 0 {
        Seq::empty()
    } else {
        match row_key(rs[0], key_index, ty) {
            Err(_) => Seq::empty(),
            Ok(v) => if range.holds(f.id_of(v)) {
                seq![rs[0]] + kept(rs.drop_first(), key_index, ty, range, f)
            } else {
                kept(rs.drop_first(), key_index, ty, range, f)
            },
        }
    }
}

/// The first row whose shard key cannot be resolved, and why.
pub open spec fn first_fault(rs: Seq<Seq<u8>>, key_index: nat, ty: ScalarType) -> Option<CopyFault>
    decreases rs.len(),
{
    if rs.len() == 0 {
        None
    } else {
        match row_key(rs[0], key_index, ty) {
            Err(e) => Some(e),
            Ok(_) => first_fault(rs.drop_first(), key_index, ty),
        }
    }
}

pub open spec fn byte_views(s: Seq<Vec<u8>>) -> Seq<Seq<u8>> {
    s.map_values(|v: Vec<u8>| v@)
}

/// Splits the bytes of an outgoing COPY into rows and keeps those in the target range.
pub struct RowFilter {
    /// The bytes of a row that has not ended.
    pub buf: Vec<u8>,
    pub key_index: usize,
    pub ty: ScalarType,
    pub range: KeyRange,
    /// The number of rows kept.
    pub copied: u64,
}

/// The rows that a chunk completes and that are kept, and the error that ends the copy.
pub struct FilteredRows {
    pub rows: Vec<Vec<u8>>,
    pub error: Option<CopyError>,
}

impl RowFilter {
    pub fn new(key_index: usize, ty: ScalarType, range: KeyRange) -> (r: RowFilter)
        ensures
            r.buf@.len() == 0,
            r.key_index == key_index,
            r.ty == ty,
            r.range == range,
            r.copied == 0,
    {
        RowFilter { buf: Vec::new(), key_index, ty, range, copied: 0 }
    }

    /// Takes the next bytes of the stream. The rows come in order; a row whose shard key
    /// cannot be resolved ends the copy, and only the rows before it are handed out.
    pub fn feed<F: ShardFunction>(&mut self, chunk: &[u8], shard_fn: &F) -> (r: FilteredRows)
        requires
            old(self).key_index < usize::MAX,
            old(self).copied + rows(old(self).buf@ + chunk@).len() <= u64::MAX,
        ensures
            final(self).key_index == old(self).key_index,
            final(self).ty == old(self).ty,
            final(self).range == old(self).range,
            byte_views(r.rows@) == kept(
                rows(old(self).buf@ + chunk@),
                old(self).key_index as nat,
                old(self).ty,
                old(self).range,
                *shard_fn,
            ),
            match r.error {
                None => first_fault(
                    rows(old(self).buf@ + chunk@),
                    old(self).key_index as nat,
                    old(self).ty,
                ) is None,
                Some(e) => first_fault(
                    rows(old(self).buf@ + chunk@),
                    old(self).key_index as nat,
                    old(self).ty,
                ) == Some(e@),
            },
            r.error is None ==> final(self).buf@ == partial_row(old(self).buf@ + chunk@),
            final(self).copied == old(self).copied + r.rows@.len(),
    {
        let mut all: Vec<u8> = Vec::new();
        std::mem::swap(&mut all, &mut self.buf);
        bytes::push_all(&mut all, chunk);
        let ghost k = self.key_index as nat;
        let ghost input = all@;
        let mut out: Vec<Vec<u8>> = Vec::new();
        let mut at: usize = 0;
        proof {
            assert(input.skip(0) =~= input);
            assert(byte_views(out@) =~= Seq::<Seq<u8>>::empty());
            assert(byte_views(out@) + kept(rows(input), k, self.ty, self.range, *shard_fn)
                =~= kept(rows(input), k, self.ty, self.range, *shard_fn));
        }
        loop
            invariant
                self.key_index == old(self).key_index,
                self.key_index < usize::MAX,
                k == self.key_index,
                self.ty == old(self).ty,
                self.range == old(self).range,
                input == old(self).buf@ + chunk@,
                all@ == input,
                at <= all@.len(),
                self.copied == old(self).copied + out@.len(),
                out@.len() + rows(input.skip(at as int)).len() <= rows(input).len(),
                old(self).copied + rows(input).len() <= u64::MAX,
                byte_views(out@) + kept(
                    rows(input.skip(at as int)),
                    k,
                    self.ty,
                    self.range,
                    *shard_fn,
                ) == kept(rows(input), k, self.ty, self.range, *shard_fn),
                first_fault(rows(input.skip(at as int)), k, self.ty) == first_fault(
                    rows(input),
                    k,
                    self.ty,
                ),
                partial_row(input.skip(at as int)) == partial_row(input),
            decreases all@.len() - at,
        {
            let ghost rest = input.skip(at as int);
            let nl: usize = find_byte(all.as_slice(), 0x0a, at);
            proof {
                lemma_byte_from(input, 0x0a, at as int);
                lemma_byte_from_is(rest, 0x0a, 0, nl - at);
            }
            if nl == all.len() {
                self.buf = bytes::copy(all.as_slice(), at, nl);
                proof {
                    assert(self.buf@ =~= rest);
                    assert(rows(rest) =~= Seq::<Seq<u8>>::empty());
                    assert(byte_views(out@) + Seq::<Seq<u8>>::empty() =~= byte_views(out@));
                }
                return FilteredRows { rows: out, error: None };
            }
            let row = bytes::copy(all.as_slice(), at, nl + 1);
            let ghost rs = rows(rest);
            proof {
                assert(rest.subrange(0, nl - at + 1) =~= row@);
                assert(rest.skip(nl - at + 1) =~= input.skip(nl + 1));
                assert(rs[0] == row@);
                assert(rs.drop_first() =~= rows(input.skip(nl + 1)));
            }
            let ghost before = out@;
            match row_in_range(row.as_slice(), self.key_index, self.ty, &self.range, shard_fn) {
                Ok(keep) => {
                    if keep {
                        let ghost rv = row@;
                        out.push(row);
                        self.copied = self.copied + 1;
                        proof {
                            let t = kept(
                                rows(input.skip(nl + 1)),
                                k,
                                self.ty,
                                self.range,
                                *shard_fn,
                            );
                            assert(byte_views(out@) =~= byte_views(before).push(rv));
                            assert(byte_views(before) + (seq![rv] + t) =~= byte_views(before).push(
                                rv,
                            ) + t);
                        }
                    }
                },
                Err(e) => {
                    proof {
                        assert(byte_views(out@) + Seq::<Seq<u8>>::empty() =~= byte_views(out@));
                    }
                    return FilteredRows { rows: out, error: Some(e) };
                },
            }
            at = nl + 1;
        }
    }

    /// The end of the stream: nothing may be left of an unended row.
    pub fn finish(&self) -> (r: Result<u64, CopyError>)
        ensures
            match r {
                Ok(n) => self.buf@.len() == 0 && n == self.copied,
                Err(e) => self.buf@.len() > 0 && e@ == CopyFault::Malformed(
                    "COPY stream ended without a final row terminator"@,
                ),
            },
    {
        if self.buf.len() > 0 {
            return Err(
                CopyError::Malformed("COPY stream ended without a final row terminator".to_owned()),
            );
        }
        Ok(self.copied)
    }
}

proof fn lemma_byte_from_prefix(a: Seq<u8>, c: Seq<u8>, b: u8)
    ensures
        byte_from(a, b, 0) < a.len() ==> byte_from(a + c, b, 0) == byte_from(a, b, 0),
{
    lemma_byte_from(a, b, 0);
    if byte_from(a, b, 0) < a.len() {
        lemma_byte_from_is(a + c, b, 0, byte_from(a, b, 0));
    }
}

/// Where the stream is cut into chunks makes no difference: the rows of two chunks are those
/// that the first completes, then those of what it left with the second.
pub proof fn law_chunk_boundaries_do_not_matter(a: Seq<u8>, c: Seq<u8>)
    ensures
        rows(a + c) == rows(a) + rows(partial_row(a) + c),
        partial_row(a + c) == partial_row(partial_row(a) + c),
    decreases a.len(),
{
    lemma_byte_from(a, 0x0a, 0);
    let nl = byte_from(a, 0x0a, 0);
    if nl >= a.len() {
        assert(rows(a) + rows(a + c) =~= rows(a + c));
    } else {
        lemma_byte_from_prefix(a, c, 0x0a);
        let t = a.skip(nl + 1);
        law_chunk_boundaries_do_not_matter(t, c);
        assert((a + c).skip(nl + 1) =~= t + c);
        assert((a + c).subrange(0, nl + 1) =~= a.subrange(0, nl + 1));
        assert(rows(a + c) =~= rows(a) + rows(partial_row(a) + c));
    }
}

/// No byte is lost or added: the rows and what is left make up the stream.
pub proof fn law_rows_are_verbatim(b: Seq<u8>)
    ensures
        rows(b).flatten() + partial_row(b) == b,
    decreases b.len(),
{
    lemma_byte_from(b, 0x0a, 0);
    let nl = byte_from(b, 0x0a, 0);
    if nl >= b.len() {
        assert(rows(b) =~= Seq::<Seq<u8>>::empty());
        assert(rows(b).flatten() =~= Seq::<u8>::empty());
        assert(Seq::<u8>::empty() + b =~= b);
    } else {
        let head = b.subrange(0, nl + 1);
        let t = b.skip(nl + 1);
        law_rows_are_verbatim(t);
        assert(rows(b).drop_first() =~= rows(t));
        assert(rows(b).flatten() =~= head + rows(t).flatten());
        assert(head + t =~= b);
        assert((head + rows(t).flatten()) + partial_row(t) =~= head + (rows(t).flatten()
            + partial_row(t)));
    }
}

/// The snapshot pass and the stream keep the same rows: the value of a key column resolves in
/// a COPY row as it does in a replicated cell.
pub proof fn law_copy_and_stream_agree(row: Seq<u8>, key_index: nat, ty: ScalarType, f: Seq<u8>)
    requires
        field_from(line_of(row), 0, key_index) == Some(f),
        field_value(f) is Some,
    ensures
        match (
            row_key(row, key_index, ty),
            filter::cell_key(crate::pgoutput::Cell::Text(field_value(f)->0), ty),
        ) {
            (Ok(a), Ok(b)) => a == b,
            (Err(CopyFault::Filter(a)), Err(b)) => a == b,
            _ => false,
        },
{
}

// ---------------------------------------------------------------------------------------
// Running a copy.
// ---------------------------------------------------------------------------------------

/// Whether a snapshot id is hyphen-separated hex, so that it cannot end the literal it is
/// put into.
pub open spec fn valid_snapshot(s: Seq<char>) -> bool {
    s.len() > 0 && forall|i: int|
        0 <= i < s.len() ==> (text::digit_value(#[trigger] s[i]) < 16 || s[i] == '-')
}

fn is_valid_snapshot(s: &str) -> (r: bool)
    ensures
        r == valid_snapshot(s@),
{
    let cs = text::chars(s);
    if cs.len() == 0 {
        return false;
    }
    let mut i: usize = 0;
    while i < cs.len()
        invariant
            i <= cs@.len(),
            cs@ == s@,
            forall|k: int|
                0 <= k < i ==> (text::digit_value(#[trigger] cs@[k]) < 16 || cs@[k] == '-'),
        decreases cs@.len() - i,
    {
        if text::digit(cs[i]) >= 16 && cs[i] != '-' {
            assert(!(text::digit_value(s@[i as int]) < 16 || s@[i as int] == '-'));
            return false;
        }
        i += 1;
    }
    true
}

/// The quoted names, with `, ` between them.
pub open spec fn ident_list(cols: Seq<String>) -> Seq<char> {
    text::joined(cols.map_values(|c: String| quote::ident(c@)), ", "@)
}

/// The quoted names, with `, ` between them.
pub fn quote_list(cols: &[String]) -> (r: String)
    ensures
        r@ == ident_list(cols@),
{
    let mut quoted: Vec<String> = Vec::new();
    let mut i: usize = 0;
    while i < cols.len()
        invariant
            i <= cols@.len(),
            quoted@.len() == i,
            forall|k: int| 0 <= k < i ==> (#[trigger] quoted@[k])@ == quote::ident(cols@[k]@),
        decreases cols@.len() - i,
    {
        quoted.push(quote::quote_ident(cols[i].as_str()));
        i += 1;
    }
    proof {
        assert(text::views(quoted@) =~= cols@.map_values(|c: String| quote::ident(c@)));
    }
    text::join(&quoted, ", ")
}

/// What binds the source to the snapshot: the copy sees exactly the slot's consistent point,
/// row security fails closed, and the output settings are those of the stream.
pub open spec fn snapshot_setup(snapshot: Seq<char>) -> Seq<char> {
    "SET TRANSACTION SNAPSHOT '"@ + snapshot
        + "'; SET LOCAL row_security = off; SET LOCAL bytea_output = 'hex'; SET LOCAL DateStyle = 'ISO'; SET LOCAL IntervalStyle = 'postgres'; SET LOCAL extra_float_digits = 3"@
}

pub open spec fn begin_source() -> Seq<char> {
    "BEGIN ISOLATION LEVEL REPEATABLE READ READ ONLY"@
}

pub open spec fn begin_target() -> Seq<char> {
    "BEGIN; SET LOCAL session_replication_role = replica; SET LOCAL DateStyle = 'ISO'; SET LOCAL IntervalStyle = 'postgres'"@
}

/// How a copy ended.
#[derive(Debug, PartialEq, Eq)]
pub enum CopyOutcome {
    /// So many rows were copied.
    Copied(u64),
    Failed(CopyError),
}

/// Where a copy is.
pub enum CopyState {
    /// The source transaction is being opened.
    BeginSource,
    /// The snapshot is being bound.
    SetupSource,
    /// The target transaction is being opened.
    SetupTarget,
    /// Rows are streaming.
    Streaming,
    /// The target transaction is being committed after so many rows.
    Committing(u64),
    /// The target transaction is being rolled back.
    Aborting(CopyError),
    /// The source transaction is being ended.
    Ending(CopyOutcome),
    Done(CopyOutcome),
}

/// What to do next.
#[derive(Debug, PartialEq, Eq)]
pub enum CopyAction {
    /// Run this on the source.
    Source(String),
    /// Run this on the target.
    Target(String),
    /// Stream the first statement's rows, filtered, into the second.
    Stream { from: String, to: String },
    /// Nothing: the copy has ended.
    Stop,
}

/// How an action went.
pub enum CopyEvent {
    Done,
    /// The stream ended after so many rows.
    Streamed(u64),
    Failed(CopyError),
}

/// One copy.
pub struct CopyRun {
    pub state: CopyState,
    pub snapshot: String,
    /// The quoted table.
    pub table: String,
    /// The quoted columns.
    pub columns: String,
    /// The position of the shard-key column among them.
    pub key_index: usize,
}

/// Begins a copy: what it needs is checked before anything runs.
pub fn copy_filtered(snapshot: &str, spec_: &CopySpec<'_>) -> (r: Result<CopyRun, CopyError>)
    ensures
        match r {
            Ok(run) => {
                &&& valid_snapshot(snapshot@)
                &&& run.state is BeginSource
                &&& run.snapshot@ == snapshot@
                &&& run.table@ == quote::qualified(spec_.schema@, spec_.table@)
                &&& run.columns@ == ident_list(spec_.columns@)
                &&& run.key_index < spec_.columns@.len()
                &&& spec_.columns@[run.key_index as int]@ == spec_.shard_key_column@
                &&& forall|k: int|
                    0 <= k < run.key_index ==> (#[trigger] spec_.columns@[k])@
                        != spec_.shard_key_column@
            },
            Err(e) => {
                ||| !valid_snapshot(snapshot@) && e@ == CopyFault::BadSnapshot(snapshot@)
                ||| valid_snapshot(snapshot@) && e@ == CopyFault::NoShardKeyColumn(
                    spec_.shard_key_column@,
                ) && forall|k: int|
                    0 <= k < spec_.columns@.len() ==> (#[trigger] spec_.columns@[k])@
                        != spec_.shard_key_column@
            },
        },
{
    if !is_valid_snapshot(snapshot) {
        return Err(CopyError::BadSnapshot(snapshot.to_owned()));
    }
    let mut k: usize = 0;
    while k < spec_.columns.len() && !text::same(spec_.columns[k].as_str(), spec_.shard_key_column)
        invariant
            k <= spec_.columns@.len(),
            forall|j: int|
                0 <= j < k ==> (#[trigger] spec_.columns@[j])@ != spec_.shard_key_column@,
        decreases spec_.columns@.len() - k,
    {
        k += 1;
    }
    if k == spec_.columns.len() {
        return Err(CopyError::NoShardKeyColumn(spec_.shard_key_column.to_owned()));
    }
    Ok(
        CopyRun {
            state: CopyState::BeginSource,
            snapshot: snapshot.to_owned(),
            table: quote::quote_qualified(spec_.schema, spec_.table),
            columns: quote_list(spec_.columns),
            key_index: k,
        },
    )
}

/// What an action says.
#[verifier::ext_equal]
pub enum CopyStep {
    Source(Seq<char>),
    Target(Seq<char>),
    Stream { from: Seq<char>, to: Seq<char> },
    Stop,
}

impl View for CopyAction {
    type V = CopyStep;

    open spec fn view(&self) -> CopyStep {
        match self {
            CopyAction::Source(s) => CopyStep::Source(s@),
            CopyAction::Target(s) => CopyStep::Target(s@),
            CopyAction::Stream { from, to } => CopyStep::Stream { from: from@, to: to@ },
            CopyAction::Stop => CopyStep::Stop,
        }
    }
}

/// What to do in a state.
pub open spec fn copy_action(run: CopyRun) -> CopyStep {
    match run.state {
        CopyState::BeginSource => CopyStep::Source(begin_source()),
        CopyState::SetupSource => CopyStep::Source(snapshot_setup(run.snapshot@)),
        CopyState::SetupTarget => CopyStep::Target(begin_target()),
        CopyState::Streaming => CopyStep::Stream {
            from: "COPY "@ + run.table@ + " ("@ + run.columns@ + ") TO STDOUT"@,
            to: "COPY "@ + run.table@ + " ("@ + run.columns@ + ") FROM STDIN"@,
        },
        CopyState::Committing(_) => CopyStep::Target("COMMIT"@),
        CopyState::Aborting(_) => CopyStep::Target("ROLLBACK"@),
        CopyState::Ending(_) => CopyStep::Source("ROLLBACK"@),
        CopyState::Done(_) => CopyStep::Stop,
    }
}

/// The state after an action went so. A failure to open the source transaction ends the copy;
/// from then on every way leads through the end of the source transaction, whose outcome
/// does not matter. The target is committed only after the whole stream.
pub open spec fn copy_next(s: CopyState, e: CopyEvent) -> CopyState {
    match (s, e) {
        (CopyState::BeginSource, CopyEvent::Failed(f)) => CopyState::Done(CopyOutcome::Failed(f)),
        (CopyState::BeginSource, _) => CopyState::SetupSource,
        (CopyState::SetupSource, CopyEvent::Failed(f)) => CopyState::Ending(CopyOutcome::Failed(f)),
        (CopyState::SetupSource, _) => CopyState::SetupTarget,
        (CopyState::SetupTarget, CopyEvent::Failed(f)) => CopyState::Aborting(f),
        (CopyState::SetupTarget, _) => CopyState::Streaming,
        (CopyState::Streaming, CopyEvent::Streamed(n)) => CopyState::Committing(n),
        (CopyState::Streaming, CopyEvent::Failed(f)) => CopyState::Aborting(f),
        (CopyState::Streaming, CopyEvent::Done) => CopyState::Streaming,
        (CopyState::Committing(n), CopyEvent::Failed(f)) => CopyState::Ending(
            CopyOutcome::Failed(f),
        ),
        (CopyState::Committing(n), _) => CopyState::Ending(CopyOutcome::Copied(n)),
        (CopyState::Aborting(f), _) => CopyState::Ending(CopyOutcome::Failed(f)),
        (CopyState::Ending(o), _) => CopyState::Done(o),
        (CopyState::Done(o), _) => CopyState::Done(o),
    }
}

impl CopyRun {
    /// What to do now.
    pub fn action(&self) -> (r: CopyAction)
        ensures
            r@ == copy_action(*self),
    {
        match &self.state {
            CopyState::BeginSource => CopyAction::Source(
                "BEGIN ISOLATION LEVEL REPEATABLE READ READ ONLY".to_owned(),
            ),
            CopyState::SetupSource => CopyAction::Source(
                text::concat3(
                    "SET TRANSACTION SNAPSHOT '",
                    self.snapshot.as_str(),
                    "'; SET LOCAL row_security = off; SET LOCAL bytea_output = 'hex'; SET LOCAL DateStyle = 'ISO'; SET LOCAL IntervalStyle = 'postgres'; SET LOCAL extra_float_digits = 3",
                ),
            ),
            CopyState::SetupTarget => CopyAction::Target(
                "BEGIN; SET LOCAL session_replication_role = replica; SET LOCAL DateStyle = 'ISO'; SET LOCAL IntervalStyle = 'postgres'".to_owned(),
            ),
            CopyState::Streaming => CopyAction::Stream {
                from: text::concat5(
                    "COPY ",
                    self.table.as_str(),
                    " (",
                    self.columns.as_str(),
                    ") TO STDOUT",
                ),
                to: text::concat5(
                    "COPY ",
                    self.table.as_str(),
                    " (",
                    self.columns.as_str(),
                    ") FROM STDIN",
                ),
            },
            CopyState::Committing(_) => CopyAction::Target("COMMIT".to_owned()),
            CopyState::Aborting(_) => CopyAction::Target("ROLLBACK".to_owned()),
            CopyState::Ending(_) => CopyAction::Source("ROLLBACK".to_owned()),
            CopyState::Done(_) => CopyAction::Stop,
        }
    }

    /// Takes note of how the action went.
    pub fn advance(self, event: CopyEvent) -> (r: CopyRun)
        ensures
            r.state == copy_next(self.state, event),
            r.snapshot == self.snapshot,
            r.table == self.table,
            r.columns == self.columns,
            r.key_index == self.key_index,
    {
        let state = match (self.state, event) {
            (CopyState::BeginSource, CopyEvent::Failed(f)) => CopyState::Done(
                CopyOutcome::Failed(f),
            ),
            (CopyState::BeginSource, _) => CopyState::SetupSource,
            (CopyState::SetupSource, CopyEvent::Failed(f)) => CopyState::Ending(
                CopyOutcome::Failed(f),
            ),
            (CopyState::SetupSource, _) => CopyState::SetupTarget,
            // BEGIN may have succeeded before a later statement in the batch failed.
            (CopyState::SetupTarget, CopyEvent::Failed(f)) => CopyState::Aborting(f),
            (CopyState::SetupTarget, _) => CopyState::Streaming,
            (CopyState::Streaming, CopyEvent::Streamed(n)) => CopyState::Committing(n),
            (CopyState::Streaming, CopyEvent::Failed(f)) => CopyState::Aborting(f),
            (CopyState::Streaming, CopyEvent::Done) => CopyState::Streaming,
            (CopyState::Committing(n), CopyEvent::Failed(f)) => CopyState::Ending(
                CopyOutcome::Failed(f),
            ),
            (CopyState::Committing(n), _) => CopyState::Ending(CopyOutcome::Copied(n)),
            (CopyState::Aborting(f), _) => CopyState::Ending(CopyOutcome::Failed(f)),
            (CopyState::Ending(o), _) => CopyState::Done(o),
            (CopyState::Done(o), _) => CopyState::Done(o),
        };
        CopyRun {
            state,
            snapshot: self.snapshot,
            table: self.table,
            columns: self.columns,
            key_index: self.key_index,
        }
    }
}

/// The target is committed only where the whole stream went through, and a copy that ends
/// well has committed what it counts.
pub proof fn law_commit_only_after_the_whole_stream(s: CopyState, e: CopyEvent, n: u64)
    ensures
        copy_next(s, e) == CopyState::Committing(n) ==> s is Streaming && e
            == CopyEvent::Streamed(n),
        copy_next(s, e) == CopyState::Ending(CopyOutcome::Copied(n)) && !(s is Ending) ==> s
            == CopyState::Committing(n) && !(e is Failed),
{
}

/// Once the source transaction is open, a copy ends only through its ROLLBACK, and a target
/// transaction that was opened is committed or rolled back before that.
pub proof fn law_no_transaction_is_left_open(s: CopyState, e: CopyEvent)
    ensures
        copy_next(s, e) is Done ==> s is BeginSource || s is Ending || s is Done,
        copy_next(s, e) is Ending && !(s is Ending) ==> s is SetupSource || s is Committing
            || s is Aborting,
        s is Streaming || s is SetupTarget ==> !(copy_next(s, e) is Ending),
{
}

/// What an error says.
pub open spec fn fault_text(e: CopyFault) -> Seq<char> {
    match e {
        CopyFault::Source(m) => "source database error: "@ + m,
        CopyFault::Target(m) => "target database error: "@ + m,
        CopyFault::Filter(f) => "filtering a row's shard key: "@ + filter::fault_text(f),
        CopyFault::NoShardKeyColumn(c) => "shard-key column "@ + text::debug_text(c)
            + " is not among the copied columns"@,
        CopyFault::Malformed(m) => "malformed COPY data: "@ + m,
        CopyFault::BadSnapshot(s) => "snapshot id "@ + text::debug_text(s)
            + " is not a valid PostgreSQL snapshot identifier"@,
    }
}

impl CopyError {
    pub fn to_string(&self) -> (r: String)
        ensures
            r@ == fault_text(self@),
    {
        match self {
            CopyError::Source(m) => text::concat2("source database error: ", m.as_str()),
            CopyError::Target(m) => text::concat2("target database error: ", m.as_str()),
            CopyError::Filter(f) => text::concat2(
                "filtering a row's shard key: ",
                f.to_string().as_str(),
            ),
            CopyError::NoShardKeyColumn(c) => text::concat3(
                "shard-key column ",
                text::debug_string(c.as_str()).as_str(),
                " is not among the copied columns",
            ),
            CopyError::Malformed(m) => text::concat2("malformed COPY data: ", m.as_str()),
            CopyError::BadSnapshot(s) => text::concat3(
                "snapshot id ",
                text::debug_string(s.as_str()).as_str(),
                " is not a valid PostgreSQL snapshot identifier",
            ),
        }
    }
}

// ---------------------------------------------------------------------------------------
// What COPY writes is what is read.
// ---------------------------------------------------------------------------------------

/// Fields with tabs between them.
pub open spec fn tab_joined(fields: Seq<Seq<u8>>) -> Seq<u8>
    decreases fields.len(),
{
    if fields.len() == 0 {
        Seq::empty()
    } else if fields.len() == 1 {
        fields[0]
    } else {
        fields[0] + seq![0x09u8] + tab_joined(fields.drop_first())
    }
}

proof fn lemma_field_at(line: Seq<u8>, at: int, fields: Seq<Seq<u8>>, k: nat)
    requires
        0 <= at <= line.len(),
        line.skip(at) == tab_joined(fields),
        fields.len() > 0,
        forall|i: int| 0 <= i < fields.len() ==> !(#[trigger] fields[i]).contains(0x09u8),
    ensures
        field_from(line, at, k) == (if k < fields.len() {
            Some(fields[k as int])
        } else {
            None
        }),
    decreases k,
{
    let rest = line.skip(at);
    let f = fields[0];
    let end = at + f.len();
    assert(!fields[0].contains(0x09u8));
    assert(rest.len() == line.len() - at);
    assert(tab_joined(fields).len() >= f.len());
    assert forall|i: int| 0 <= i < rest.len() implies #[trigger] rest[i] == line[at + i] by {}
    assert forall|i: int| at <= i < end implies line[i] != 0x09 by {
        assert(rest[i - at] == f[i - at]);
        assert(f.contains(f[i - at]));
    }
    if fields.len() > 1 {
        assert(rest[f.len() as int] == 0x09);
        assert(line[end] == 0x09);
    } else {
        assert(rest.len() == f.len());
    }
    lemma_byte_from_is(line, 0x09, at, end);
    assert(line.subrange(at, end) =~= f) by {
        assert forall|i: int| 0 <= i < f.len() implies line[at + i] == f[i] by {
            assert(rest[i] == f[i]);
        }
    }
    if k > 0 && fields.len() > 1 {
        let t = fields.drop_first();
        assert(line.skip(end + 1) =~= tab_joined(t)) by {
            assert forall|i: int| 0 <= i < tab_joined(t).len() implies line[end + 1 + i]
                == tab_joined(t)[i] by {
                assert(rest[f.len() + 1 + i] == tab_joined(t)[i]);
            }
        }
        assert forall|i: int| 0 <= i < t.len() implies !(#[trigger] t[i]).contains(0x09u8) by {
            assert(t[i] == fields[i + 1]);
        }
        lemma_field_at(line, end + 1, t, (k - 1) as nat);
    }
}

/// A line is its fields with tabs between them: field `k` is the `k`-th of them, whole and
/// alone, and there is none after the last.
pub proof fn law_fields_stand_between_tabs(fields: Seq<Seq<u8>>, k: nat)
    requires
        fields.len() > 0,
        forall|i: int| 0 <= i < fields.len() ==> !(#[trigger] fields[i]).contains(0x09u8),
    ensures
        field_from(tab_joined(fields), 0, k) == (if k < fields.len() {
            Some(fields[k as int])
        } else {
            None
        }),
{
    assert(tab_joined(fields).skip(0) =~= tab_joined(fields));
    lemma_field_at(tab_joined(fields), 0, fields, k);
}

/// How COPY writes a byte of a value.
pub open spec fn escape_byte(b: u8) -> Seq<u8> {
    if b == 0x5c {
        seq![0x5cu8, 0x5cu8]
    } else if b == 0x08 {
        seq![0x5cu8, 0x62u8]
    } else if b == 0x09 {
        seq![0x5cu8, 0x74u8]
    } else if b == 0x0a {
        seq![0x5cu8, 0x6eu8]
    } else if b == 0x0b {
        seq![0x5cu8, 0x76u8]
    } else if b == 0x0c {
        seq![0x5cu8, 0x66u8]
    } else if b == 0x0d {
        seq![0x5cu8, 0x72u8]
    } else {
        seq![b]
    }
}

/// How COPY writes a value.
pub open spec fn escape(v: Seq<u8>) -> Seq<u8>
    decreases v.len(),
{
    if v.len() == 0 {
        Seq::empty()
    } else {
        escape_byte(v[0]) + escape(v.drop_first())
    }
}

proof fn lemma_escape(v: Seq<u8>)
    ensures
        unescaped(escape(v)) == v,
        !escape(v).contains(0x09u8),
        !escape(v).contains(0x0au8),
        v.len() > 0 ==> escape(v).len() > 0,
        escape(v).len() >= 2 && escape(v)[0] == 0x5c ==> escape(v)[1] != 0x4e,
    decreases v.len(),
{
    if v.len() == 0 {
        assert(unescaped(escape(v)) =~= v);
    } else {
        let t = v.drop_first();
        lemma_escape(t);
        let h = escape_byte(v[0]);
        let e = escape(v);
        assert(e == h + escape(t));
        assert forall|i: int| 0 <= i < e.len() implies e[i] != 0x09 && e[i] != 0x0a by {
            if i >= h.len() {
                assert(e[i] == escape(t)[i - h.len()]);
                assert(escape(t).contains(escape(t)[i - h.len()]));
            }
        }
        if h.len() == 2 {
            assert(e.skip(2) =~= escape(t));
        } else {
            assert(e.drop_first() =~= escape(t));
        }
        assert(seq![v[0]] + t =~= v);
        assert(unescaped(e) =~= seq![v[0]] + unescaped(escape(t)));
    }
}

/// How COPY writes a column; NULL is `\N`.
pub open spec fn copy_field(v: Option<Seq<u8>>) -> Seq<u8> {
    match v {
        Some(v) => escape(v),
        None => seq![0x5cu8, 0x4eu8],
    }
}

/// How COPY writes a row.
pub open spec fn copy_row(values: Seq<Option<Seq<u8>>>) -> Seq<u8> {
    tab_joined(values.map_values(|v: Option<Seq<u8>>| copy_field(v))).push(0x0a)
}

/// Every value reads back from its field: whatever bytes it has, and NULL is no value.
pub proof fn law_copied_values_read_back(v: Option<Seq<u8>>)
    ensures
        field_value(copy_field(v)) == v,
        !copy_field(v).contains(0x09u8),
        !copy_field(v).contains(0x0au8),
{
    match v {
        Some(s) => {
            lemma_escape(s);
            if escape(s) == seq![0x5cu8, 0x4eu8] {
                assert(escape(s)[0] == 0x5c && escape(s)[1] == 0x4e);
            }
        },
        None => {
            let f = seq![0x5cu8, 0x4eu8];
            assert(f[0] == 0x5c && f[1] == 0x4e && f.len() == 2);
        },
    }
}

/// Every column of a copied row reads back as its value, and a row has no further column.
pub proof fn law_copied_rows_read_back(values: Seq<Option<Seq<u8>>>, k: nat)
    requires
        values.len() > 0,
    ensures
        k < values.len() ==> field_from(line_of(copy_row(values)), 0, k) is Some && field_value(
            field_from(line_of(copy_row(values)), 0, k)->0,
        ) == values[k as int],
        k >= values.len() ==> field_from(line_of(copy_row(values)), 0, k) is None,
{
    let fields = values.map_values(|v: Option<Seq<u8>>| copy_field(v));
    assert(line_of(copy_row(values)) =~= tab_joined(fields));
    assert forall|i: int| 0 <= i < fields.len() implies !(#[trigger] fields[i]).contains(0x09u8) by {
        law_copied_values_read_back(values[i]);
    }
    law_fields_stand_between_tabs(fields, k);
    if k < values.len() {
        law_copied_values_read_back(values[k as int]);
    }
}

/// The shard key of a copied row is the value of its key column, read as the stream reads it;
/// a NULL key has no shard, and a row without that column is malformed.
pub proof fn law_copied_rows_are_placed_by_their_key(
    values: Seq<Option<Seq<u8>>>,
    k: nat,
    ty: ScalarType,
)
    requires
        values.len() > 0,
    ensures
        k >= values.len() ==> row_key(copy_row(values), k, ty) matches Err(CopyFault::Malformed(_)),
        k < values.len() ==> (match values[k as int] {
            None => row_key(copy_row(values), k, ty) == Err::<KeyValue, CopyFault>(
                CopyFault::Filter(FilterFault::UnroutableCell),
            ),
            Some(v) => match filter::cell_key(crate::pgoutput::Cell::Text(v), ty) {
                Ok(key) => row_key(copy_row(values), k, ty) == Ok::<KeyValue, CopyFault>(key),
                Err(e) => row_key(copy_row(values), k, ty) == Err::<KeyValue, CopyFault>(
                    CopyFault::Filter(e),
                ),
            },
        }),
{
    law_copied_rows_read_back(values, k);
    if k < values.len() && values[k as int] is Some {
        law_copy_and_stream_agree(
            copy_row(values),
            k,
            ty,
            field_from(line_of(copy_row(values)), 0, k)->0,
        );
    }
}

/// A stream splits into its rows at the newlines that end them, and into nothing else.
pub proof fn law_rows_end_at_newlines(line: Seq<u8>, rest: Seq<u8>)
    requires
        !line.contains(0x0au8),
    ensures
        rows(line.push(0x0a) + rest) == seq![line.push(0x0a)] + rows(rest),
        partial_row(line.push(0x0a) + rest) == partial_row(rest),
        rows(line) == Seq::<Seq<u8>>::empty(),
        partial_row(line) == line,
{
    let b = line.push(0x0a) + rest;
    assert forall|i: int| 0 <= i < line.len() implies b[i] != 0x0a && line[i] != 0x0a by {
        assert(line.contains(line[i]));
    }
    lemma_byte_from_is(b, 0x0a, 0, line.len() as int);
    lemma_byte_from_is(line, 0x0a, 0, line.len() as int);
    assert(b.subrange(0, (line.len() + 1) as int) =~= line.push(0x0a));
    assert(b.skip((line.len() + 1) as int) =~= rest);
}

/// Exactly the rows whose key the range holds are kept, in their order, up to the first row
/// whose key cannot be resolved: that row and those behind it are not.
pub proof fn law_exactly_the_rows_in_range_are_kept<F: ShardFunction>(
    row: Seq<u8>,
    rest: Seq<Seq<u8>>,
    key_index: nat,
    ty: ScalarType,
    range: KeyRange,
    f: F,
)
    ensures
        kept(Seq::empty(), key_index, ty, range, f) == Seq::<Seq<u8>>::empty(),
        first_fault(Seq::empty(), key_index, ty) is None,
        match row_key(row, key_index, ty) {
            Ok(v) => {
                &&& range.lower() <= f.id_of(v) < range.limit() ==> kept(
                    seq![row] + rest,
                    key_index,
                    ty,
                    range,
                    f,
                ) == seq![row] + kept(rest, key_index, ty, range, f)
                &&& !(range.lower() <= f.id_of(v) < range.limit()) ==> kept(
                    seq![row] + rest,
                    key_index,
                    ty,
                    range,
                    f,
                ) == kept(rest, key_index, ty, range, f)
                &&& first_fault(seq![row] + rest, key_index, ty) == first_fault(
                    rest,
                    key_index,
                    ty,
                )
            },
            Err(e) => {
                &&& kept(seq![row] + rest, key_index, ty, range, f) == Seq::<Seq<u8>>::empty()
                &&& first_fault(seq![row] + rest, key_index, ty) == Some(e)
            },
        },
{
    assert((seq![row] + rest).drop_first() =~= rest);
    assert((seq![row] + rest)[0] == row);
}

/// A copy reads and writes one table by one column list, binds the source to the snapshot,
/// commits the target only where it says so, and never commits the source.
pub proof fn law_copy_statements_fit(run: CopyRun)
    ensures
        copy_action(run) matches CopyStep::Stream { from, to } ==> run.state is Streaming && from
            == "COPY "@ + run.table@ + " ("@ + run.columns@ + ") TO STDOUT"@ && to == "COPY "@
            + run.table@ + " ("@ + run.columns@ + ") FROM STDIN"@,
        copy_action(run) == CopyStep::Target("COMMIT"@) <==> run.state is Committing,
        run.state is Aborting ==> copy_action(run) == CopyStep::Target("ROLLBACK"@),
        run.state is Ending ==> copy_action(run) == CopyStep::Source("ROLLBACK"@),
        run.state is SetupSource ==> (copy_action(run) matches CopyStep::Source(s) && s.len() > 26
            + run.snapshot@.len() && s.take((26 + run.snapshot@.len() + 1) as int)
            == "SET TRANSACTION SNAPSHOT '"@ + run.snapshot@ + "'"@),
        copy_action(run) is Stop <==> run.state is Done,
{
    reveal_strlit("COMMIT");
    reveal_strlit("ROLLBACK");
    assert("COMMIT"@[0] != "ROLLBACK"@[0]);
    reveal_strlit(
        "BEGIN; SET LOCAL session_replication_role = replica; SET LOCAL DateStyle = 'ISO'; SET LOCAL IntervalStyle = 'postgres'",
    );
    assert(begin_target()[0] != "COMMIT"@[0]);
    if run.state is SetupSource {
        reveal_strlit("SET TRANSACTION SNAPSHOT '");
        reveal_strlit(
            "'; SET LOCAL row_security = off; SET LOCAL bytea_output = 'hex'; SET LOCAL DateStyle = 'ISO'; SET LOCAL IntervalStyle = 'postgres'; SET LOCAL extra_float_digits = 3",
        );
        let s = snapshot_setup(run.snapshot@);
        reveal_strlit("'");
        assert(s.take((26 + run.snapshot@.len() + 1) as int) =~= "SET TRANSACTION SNAPSHOT '"@
            + run.snapshot@ + "'"@);
    }
}

/// A copy that goes well runs every step in its order, each once.
pub proof fn law_a_copy_goes_through_its_steps(n: u64)
    ensures
        copy_next(CopyState::BeginSource, CopyEvent::Done) is SetupSource,
        copy_next(CopyState::SetupSource, CopyEvent::Done) is SetupTarget,
        copy_next(CopyState::SetupTarget, CopyEvent::Done) is Streaming,
        copy_next(CopyState::Streaming, CopyEvent::Streamed(n)) == CopyState::Committing(n),
        copy_next(CopyState::Committing(n), CopyEvent::Done) == CopyState::Ending(
            CopyOutcome::Copied(n),
        ),
        copy_next(CopyState::Ending(CopyOutcome::Copied(n)), CopyEvent::Done) == CopyState::Done(
            CopyOutcome::Copied(n),
        ),
{
}

/// A copy in which a step fails does not end well, and it ends with what failed first.
pub proof fn law_a_failure_is_reported(s: CopyState, e: CopyEvent, f: CopyError)
    ensures
        !(s is Ending || s is Aborting || s is Done) ==> (match copy_next(s, CopyEvent::Failed(f)) {
            CopyState::Done(CopyOutcome::Failed(g)) => g == f,
            CopyState::Ending(CopyOutcome::Failed(g)) => g == f,
            CopyState::Aborting(g) => g == f,
            _ => false,
        }),
        copy_next(CopyState::Aborting(f), e) == CopyState::Ending(CopyOutcome::Failed(f)),
        copy_next(CopyState::Ending(CopyOutcome::Failed(f)), e) == CopyState::Done(
            CopyOutcome::Failed(f),
        ),
{
}

/// A snapshot id that is accepted ends no literal and starts no comment: it is not empty and
/// holds hex digits and hyphens alone.
pub proof fn law_snapshots_are_hex(s: Seq<char>, i: int)
    requires
        valid_snapshot(s),
    ensures
        s.len() > 0,
        0 <= i < s.len() ==> ('0' <= s[i] <= '9' || 'a' <= s[i] <= 'f' || 'A' <= s[i] <= 'F' || s[i]
            == '-'),
{
    if 0 <= i < s.len() {
        assert(text::digit_value(s[i]) < 16 || s[i] == '-');
    }
}

} // verus!
