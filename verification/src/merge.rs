//! Sound cross-shard `ORDER BY` merge.
//!
//! Each shard runs the same query — including its `ORDER BY` — so it returns its
//! own rows already sorted. To combine them the router decodes *only* the
//! sort-key columns, by their real PostgreSQL type, and orders the combined rows
//! with a comparator that matches PostgreSQL. A text-mode
//! byte-order sort would misorder numbers (`"10" < "9"`).
//!
//! Sort keys may have the types where PostgreSQL's on-shard order
//! equals the router's decoded order *unconditionally* — integers, floats, and
//! booleans. Text is deliberately excluded: a byte-order merge of text sorted
//! under a non-C collation produces provably wrong output, so an `ORDER BY` on an
//! unsupported column type is rejected (`0A000`).
//!
//! A float is represented by its rank: an integer that orders as PostgreSQL orders the
//! floats (`NaN` above `Infinity`, `-0.0` equal to `0.0`). The caller ranks the texts that
//! [`float_texts`] lists.
use crate::bytes;
use crate::results::{self, DataRow, Fault, Field, FieldFormat, WireError};
use crate::text;
use std::cmp::Ordering;
use vstd::prelude::*;
use vstd::string::*;
use vstd::utf8::*;

verus! {

/// A sort key parsed from an `ORDER BY` item.
#[derive(Debug, PartialEq, Eq)]
pub struct SortKey {
    pub column: SortColumn,
    pub descending: bool,
    pub nulls_first: bool,
}

/// Which output column a sort key names.
#[derive(Debug, PartialEq, Eq)]
pub enum SortColumn {
    /// By name (`ORDER BY note`).
    Name(String),
    /// By 1-based output position (`ORDER BY 2`).
    Position(usize),
}

/// The decoded form the router can compare — one per supported orderable type
/// family.
#[derive(Debug, Clone, Copy, PartialEq, Eq, Structural)]
pub enum SortKind {
    /// int2 / int4 / int8.
    Int,
    /// float4 / float8.
    Float,
    Bool,
}

/// A sort key resolved against the result schema: the column index to read, how
/// to decode it, and its direction / null placement.
#[derive(Debug, Clone, Copy, PartialEq, Eq, Structural)]
pub struct ResolvedKey {
    pub index: usize,
    pub kind: SortKind,
    pub descending: bool,
    pub nulls_first: bool,
}

/// The decoded value of a sort-key cell.
#[derive(Debug, Clone, Copy, PartialEq, Eq, Structural)]
pub enum SortValue {
    Null,
    Int(i64),
    /// The float's rank.
    Float(i64),
    Bool(bool),
}

/// The rank of the float that a text denotes, or why it denotes none.
#[derive(Debug, PartialEq, Eq)]
pub struct FloatRank {
    pub text: String,
    pub rank: Result<i64, String>,
}

pub const BOOL_OID: u32 = 16;

pub const INT8_OID: u32 = 20;

pub const INT2_OID: u32 = 21;

pub const INT4_OID: u32 = 23;

pub const FLOAT4_OID: u32 = 700;

pub const FLOAT8_OID: u32 = 701;

// ---------------------------------------------------------------------------------------
// Resolving the keys.
// ---------------------------------------------------------------------------------------

pub open spec fn kind_of(type_oid: u32) -> Option<SortKind> {
    if type_oid == INT2_OID || type_oid == INT4_OID || type_oid == INT8_OID {
        Some(SortKind::Int)
    } else if type_oid == FLOAT4_OID || type_oid == FLOAT8_OID {
        Some(SortKind::Float)
    } else if type_oid == BOOL_OID {
        Some(SortKind::Bool)
    } else {
        None
    }
}

/// The merge kind for a column type, or `None` for a type that cannot be sorted
/// soundly across shards (text/numeric/uuid/timestamp/…). Text is excluded
/// because a byte-order merge disagrees with a non-C collation's on-shard order.
pub fn sort_kind(type_oid: u32) -> (r: Option<SortKind>)
    ensures
        r == kind_of(type_oid),
{
    if type_oid == INT2_OID || type_oid == INT4_OID || type_oid == INT8_OID {
        Some(SortKind::Int)
    } else if type_oid == FLOAT4_OID || type_oid == FLOAT8_OID {
        Some(SortKind::Float)
    } else if type_oid == BOOL_OID {
        Some(SortKind::Bool)
    } else {
        None
    }
}

/// What pgwire's `Type` shows of the built-in type with the OID, where there is one.
pub uninterp spec fn builtin_label(type_oid: u32) -> Option<Seq<char>>;

/// `pgwire::api::Type::from_oid`: the built-in type with the OID, here as its `Display`
/// shows it. It depends on the OID alone.
#[verifier::external_body]
fn builtin_type(type_oid: u32) -> (r: Option<String>)
    ensures
        text::option_view(r) == builtin_label(type_oid),
{
    match pgwire::api::Type::from_oid(type_oid) {
        Some(t) => Some(t.to_string()),
        None => None,
    }
}

/// How a type is named in a message: a type that is not built in is unknown.
pub open spec fn type_label(builtin: Option<Seq<char>>) -> Seq<char> {
    match builtin {
        Some(l) => l,
        None => "unknown"@,
    }
}

pub open spec fn unsupported(message: Seq<char>) -> Fault {
    results::fault("0A000"@, message)
}

/// The position of the first column with the name at or after `from`, or the number of
/// columns.
pub open spec fn column_from(schema: Seq<Field>, name: Seq<char>, from: int) -> int
    decreases schema.len() - from,
{
    if from >= schema.len() || schema[from].name@ == name {
        from
    } else {
        column_from(schema, name, from + 1)
    }
}

/// The position of the column that a sort key names, or why it names none.
pub open spec fn key_index(schema: Seq<Field>, column: SortColumn) -> Result<int, Seq<char>> {
    match column {
        SortColumn::Position(p) => if 1 <= p <= schema.len() {
            Ok(p - 1)
        } else {
            Err(
                "ORDER BY position "@ + text::decimal(p as int)
                    + " is out of range for the result"@,
            )
        },
        SortColumn::Name(name) => {
            let first = column_from(schema, name@, 0);
            if first >= schema.len() {
                Err(
                    "ORDER BY column "@ + text::debug_text(name@)
                        + " is not in the SELECT list; sorting by a non-output column is not supported in a scatter read"@,
                )
            } else if column_from(schema, name@, first + 1) < schema.len() {
                Err(
                    "ORDER BY column "@ + text::debug_text(name@)
                        + " is ambiguous in the result"@,
                )
            } else {
                Ok(first)
            }
        },
    }
}

/// A key resolved against the schema, or why it cannot be.
pub open spec fn resolved_key(schema: Seq<Field>, key: SortKey) -> Result<ResolvedKey, Fault> {
    match key_index(schema, key.column) {
        Err(m) => Err(unsupported(m)),
        Ok(i) => if schema[i].format != FieldFormat::Text {
            Err(unsupported("cross-shard ORDER BY on a binary-format column is not supported"@))
        } else {
            match kind_of(schema[i].type_oid) {
                None => Err(
                    unsupported(
                        "cross-shard ORDER BY on a column of type "@ + type_label(
                            builtin_label(schema[i].type_oid),
                        ) + " is not supported yet"@,
                    ),
                ),
                Some(kind) => Ok(
                    ResolvedKey {
                        index: i as usize,
                        kind,
                        descending: key.descending,
                        nulls_first: key.nulls_first,
                    },
                ),
            }
        },
    }
}

/// The first `n` keys resolved, or the first reason against it.
pub open spec fn resolved_keys(schema: Seq<Field>, keys: Seq<SortKey>, n: nat) -> Result<
    Seq<ResolvedKey>,
    Fault,
>
    decreases n,
{
    if n == 0 {
        Ok(Seq::empty())
    } else {
        match resolved_keys(schema, keys, (n - 1) as nat) {
            Err(f) => Err(f),
            Ok(ks) => match resolved_key(schema, keys[n - 1]) {
                Err(f) => Err(f),
                Ok(k) => Ok(ks.push(k)),
            },
        }
    }
}

fn find_column(schema: &[Field], name: &str, from: usize) -> (r: usize)
    requires
        from <= schema@.len(),
    ensures
        r == column_from(schema@, name@, from as int),
        from <= r <= schema@.len(),
{
    let mut i: usize = from;
    while i < schema.len() && !text::same(schema[i].name.as_str(), name)
        invariant
            from <= i <= schema@.len(),
            column_from(schema@, name@, i as int) == column_from(schema@, name@, from as int),
        decreases schema@.len() - i,
    {
        i += 1;
    }
    i
}

fn resolve_column(schema: &[Field], column: &SortColumn) -> (r: Result<usize, String>)
    ensures
        match key_index(schema@, *column) {
            Ok(i) => r is Ok && r->Ok_0 == i && i < schema@.len(),
            Err(m) => r is Err && r->Err_0@ == m,
        },
{
    match column {
        SortColumn::Position(p) => {
            if 1 <= *p && *p <= schema.len() {
                Ok(*p - 1)
            } else {
                Err(
                    text::concat3(
                        "ORDER BY position ",
                        text::decimal_u64(*p as u64).as_str(),
                        " is out of range for the result",
                    ),
                )
            }
        },
        SortColumn::Name(name) => {
            let first: usize = find_column(schema, name.as_str(), 0);
            if first == schema.len() {
                return Err(
                    text::concat3(
                        "ORDER BY column ",
                        text::debug_string(name.as_str()).as_str(),
                        " is not in the SELECT list; sorting by a non-output column is not supported in a scatter read",
                    ),
                );
            }
            if find_column(schema, name.as_str(), first + 1) < schema.len() {
                return Err(
                    text::concat3(
                        "ORDER BY column ",
                        text::debug_string(name.as_str()).as_str(),
                        " is ambiguous in the result",
                    ),
                );
            }
            Ok(first)
        },
    }
}

fn resolve_key(schema: &[Field], key: &SortKey) -> (r: Result<ResolvedKey, WireError>)
    ensures
        match resolved_key(schema@, *key) {
            Ok(k) => r is Ok && r->Ok_0 == k,
            Err(f) => results::refuses(r, f),
        },
{
    let index: usize = match resolve_column(schema, &key.column) {
        Ok(i) => i,
        Err(m) => {
            return Err(results::user_error("0A000", m));
        },
    };
    // The decode path parses the text wire form; a binary-format column
    // would be misread. Simple-query results are always text, so this only
    // guards against an unexpected backend rather than a real query shape.
    if schema[index].format != FieldFormat::Text {
        return Err(
            results::user_error(
                "0A000",
                "cross-shard ORDER BY on a binary-format column is not supported".to_owned(),
            ),
        );
    }
    match sort_kind(schema[index].type_oid) {
        Some(kind) => Ok(
            ResolvedKey {
                index,
                kind,
                descending: key.descending,
                nulls_first: key.nulls_first,
            },
        ),
        None => {
            let label = match builtin_type(schema[index].type_oid) {
                Some(l) => l,
                None => "unknown".to_owned(),
            };
            Err(
                results::user_error(
                    "0A000",
                    text::concat3(
                        "cross-shard ORDER BY on a column of type ",
                        label.as_str(),
                        " is not supported yet",
                    ),
                ),
            )
        },
    }
}

proof fn lemma_resolve_stops(schema: Seq<Field>, keys: Seq<SortKey>, n: nat, m: nat)
    requires
        n <= m,
        resolved_keys(schema, keys, n) is Err,
    ensures
        resolved_keys(schema, keys, m) == resolved_keys(schema, keys, n),
    decreases m,
{
    if n < m {
        lemma_resolve_stops(schema, keys, n, (m - 1) as nat);
    }
}

/// Resolve each [`SortKey`] against the result schema to a column index and
/// decode kind. Rejects (`0A000`) a key that names no output column, an
/// ambiguous name, an out-of-range position, or a column whose type
/// cannot be merged.
pub fn resolve_keys(schema: &[Field], keys: &[SortKey]) -> (r: Result<Vec<ResolvedKey>, WireError>)
    ensures
        match resolved_keys(schema@, keys@, keys@.len()) {
            Ok(ks) => r is Ok && r->Ok_0@ == ks,
            Err(f) => results::refuses(r, f),
        },
{
    let mut out: Vec<ResolvedKey> = Vec::new();
    let mut i: usize = 0;
    while i < keys.len()
        invariant
            i <= keys@.len(),
            resolved_keys(schema@, keys@, i as nat) == Ok::<Seq<ResolvedKey>, Fault>(out@),
        decreases keys@.len() - i,
    {
        match resolve_key(schema, &keys[i]) {
            Ok(k) => {
                out.push(k);
            },
            Err(e) => {
                proof {
                    lemma_resolve_stops(schema@, keys@, (i + 1) as nat, keys@.len());
                }
                return Err(e);
            },
        }
        i += 1;
    }
    Ok(out)
}

// ---------------------------------------------------------------------------------------
// Decoding the key cells.
// ---------------------------------------------------------------------------------------

/// What `std::str::from_utf8` says against bytes that are not valid UTF-8.
pub uninterp spec fn utf8_fault_text(b: Seq<u8>) -> Seq<char>;

/// `std::str::from_utf8`: its error as text. It depends on the bytes alone.
#[verifier::external_body]
fn utf8_fault(b: &[u8]) -> (r: String)
    ensures
        r@ == utf8_fault_text(b@),
{
    match std::str::from_utf8(b) {
        Ok(_) => String::new(),
        Err(e) => e.to_string(),
    }
}

/// What `str::parse::<i64>` says against a text that is no 64-bit integer.
pub uninterp spec fn int_fault_text(s: Seq<char>) -> Seq<char>;

/// `str::parse::<i64>`: its error as text. It depends on the text alone.
#[verifier::external_body]
fn int_fault(s: &str) -> (r: String)
    ensures
        r@ == int_fault_text(s@),
{
    match s.parse::<i64>() {
        Ok(_) => String::new(),
        Err(e) => e.to_string(),
    }
}

pub open spec fn internal(message: Seq<char>) -> Fault {
    results::fault("XX000"@, message)
}

pub open spec fn rank_view(r: Result<i64, String>) -> Result<i64, Seq<char>> {
    match r {
        Ok(v) => Ok(v),
        Err(e) => Err(e@),
    }
}

/// The rank that is given for a text.
pub open spec fn rank_of(floats: Seq<FloatRank>, s: Seq<char>) -> Option<Result<i64, Seq<char>>>
    decreases floats.len(),
{
    if floats.len() == 0 {
        None
    } else if floats[0].text@ == s {
        Some(rank_view(floats[0].rank))
    } else {
        rank_of(floats.drop_first(), s)
    }
}

/// The value of a cell's text.
pub open spec fn text_value(s: Seq<char>, kind: SortKind, floats: Seq<FloatRank>) -> Result<
    SortValue,
    Fault,
> {
    match kind {
        SortKind::Int => match text::parse_i64(s) {
            Some(v) => Ok(SortValue::Int(v)),
            None => Err(
                internal(
                    "unparsable integer sort key "@ + text::debug_text(s) + ": "@ + int_fault_text(
                        s,
                    ),
                ),
            ),
        },
        SortKind::Float => match rank_of(floats, s) {
            Some(Ok(v)) => Ok(SortValue::Float(v)),
            Some(Err(e)) => Err(
                internal("unparsable float sort key "@ + text::debug_text(s) + ": "@ + e),
            ),
            None => Err(internal("unranked float sort key "@ + text::debug_text(s))),
        },
        SortKind::Bool => if s == "t"@ {
            Ok(SortValue::Bool(true))
        } else if s == "f"@ {
            Ok(SortValue::Bool(false))
        } else {
            Err(internal("unparsable boolean sort key "@ + text::debug_text(s)))
        },
    }
}

/// The value of a cell (`None` = SQL NULL).
pub open spec fn cell_value(c: Option<Seq<u8>>, kind: SortKind, floats: Seq<FloatRank>) -> Result<
    SortValue,
    Fault,
> {
    match c {
        None => Ok(SortValue::Null),
        Some(b) => match bytes::text_of(b) {
            Some(s) => text_value(s, kind, floats),
            None => Err(internal("non-UTF-8 sort key from backend: "@ + utf8_fault_text(b))),
        },
    }
}

proof fn lemma_rank_of(floats: Seq<FloatRank>, s: Seq<char>, p: int)
    requires
        0 <= p <= floats.len(),
        p < floats.len() ==> floats[p].text@ == s,
        forall|k: int| 0 <= k < p ==> (#[trigger] floats[k]).text@ != s,
    ensures
        rank_of(floats, s) == (if p < floats.len() {
            Some(rank_view(floats[p].rank))
        } else {
            None
        }),
    decreases floats.len(),
{
    if p > 0 {
        assert(floats[0].text@ != s);
        let t = floats.drop_first();
        assert forall|k: int| 0 <= k < p - 1 implies (#[trigger] t[k]).text@ != s by {
            assert(t[k] == floats[k + 1]);
        }
        lemma_rank_of(t, s, p - 1);
    }
}

fn ranked(text: &str, floats: &[FloatRank]) -> (r: Result<SortValue, WireError>)
    ensures
        match text_value(text@, SortKind::Float, floats@) {
            Ok(v) => r is Ok && r->Ok_0 == v,
            Err(f) => results::refuses(r, f),
        },
{
    let mut i: usize = 0;
    while i < floats.len() && !text::same(floats[i].text.as_str(), text)
        invariant
            i <= floats@.len(),
            forall|k: int| 0 <= k < i ==> (#[trigger] floats@[k]).text@ != text@,
        decreases floats@.len() - i,
    {
        i += 1;
    }
    proof {
        lemma_rank_of(floats@, text@, i as int);
    }
    if i == floats.len() {
        return Err(
            results::user_error(
                "XX000",
                text::concat2("unranked float sort key ", text::debug_string(text).as_str()),
            ),
        );
    }
    match &floats[i].rank {
        Ok(v) => Ok(SortValue::Float(*v)),
        Err(e) => Err(
            results::user_error(
                "XX000",
                text::concat4(
                    "unparsable float sort key ",
                    text::debug_string(text).as_str(),
                    ": ",
                    e.as_str(),
                ),
            ),
        ),
    }
}

/// Decode a sort-key cell's raw text bytes (`None` = SQL NULL) by its kind. A
/// parse failure is impossible for bytes PostgreSQL produced, so it is an
/// internal error rather than silently mis-sorted data.
pub fn decode(cell: Option<&[u8]>, kind: SortKind, floats: &[FloatRank]) -> (r: Result<
    SortValue,
    WireError,
>)
    ensures
        match cell_value(results::slice_view(cell), kind, floats@) {
            Ok(v) => r is Ok && r->Ok_0 == v,
            Err(f) => results::refuses(r, f),
        },
{
    let b = match cell {
        Some(b) => b,
        None => {
            return Ok(SortValue::Null);
        },
    };
    let text = match bytes::utf8_str(b) {
        Some(s) => s,
        None => {
            return Err(
                results::user_error(
                    "XX000",
                    text::concat2("non-UTF-8 sort key from backend: ", utf8_fault(b).as_str()),
                ),
            );
        },
    };
    match kind {
        SortKind::Int => match text::read_i64(&text::chars(text)) {
            Some(v) => Ok(SortValue::Int(v)),
            None => Err(
                results::user_error(
                    "XX000",
                    text::concat4(
                        "unparsable integer sort key ",
                        text::debug_string(text).as_str(),
                        ": ",
                        int_fault(text).as_str(),
                    ),
                ),
            ),
        },
        SortKind::Float => ranked(text, floats),
        SortKind::Bool => {
            if text::same(text, "t") {
                Ok(SortValue::Bool(true))
            } else if text::same(text, "f") {
                Ok(SortValue::Bool(false))
            } else {
                Err(
                    results::user_error(
                        "XX000",
                        text::concat2(
                            "unparsable boolean sort key ",
                            text::debug_string(text).as_str(),
                        ),
                    ),
                )
            }
        },
    }
}

/// The value of a row's key cell.
pub open spec fn key_value(row: DataRow, key: ResolvedKey, floats: Seq<FloatRank>) -> Result<
    SortValue,
    Fault,
> {
    match results::cell(row, key.index as int) {
        None => Err(results::malformed()),
        Some(c) => cell_value(c, key.kind, floats),
    }
}

/// The values of a row's first `n` keys, or the first reason against them.
pub open spec fn row_values(
    row: DataRow,
    keys: Seq<ResolvedKey>,
    floats: Seq<FloatRank>,
    n: nat,
) -> Result<Seq<SortValue>, Fault>
    decreases n,
{
    if n == 0 {
        Ok(Seq::empty())
    } else {
        match row_values(row, keys, floats, (n - 1) as nat) {
            Err(f) => Err(f),
            Ok(vs) => match key_value(row, keys[n - 1], floats) {
                Err(f) => Err(f),
                Ok(v) => Ok(vs.push(v)),
            },
        }
    }
}

/// The key values of the first `n` rows, or the first reason against them.
pub open spec fn all_values(
    rows: Seq<DataRow>,
    keys: Seq<ResolvedKey>,
    floats: Seq<FloatRank>,
    n: nat,
) -> Result<Seq<Seq<SortValue>>, Fault>
    decreases n,
{
    if n == 0 {
        Ok(Seq::empty())
    } else {
        match all_values(rows, keys, floats, (n - 1) as nat) {
            Err(f) => Err(f),
            Ok(vs) => match row_values(rows[n - 1], keys, floats, keys.len()) {
                Err(f) => Err(f),
                Ok(v) => Ok(vs.push(v)),
            },
        }
    }
}

proof fn lemma_row_stops(
    row: DataRow,
    keys: Seq<ResolvedKey>,
    floats: Seq<FloatRank>,
    n: nat,
    m: nat,
)
    requires
        n <= m,
        row_values(row, keys, floats, n) is Err,
    ensures
        row_values(row, keys, floats, m) == row_values(row, keys, floats, n),
    decreases m,
{
    if n < m {
        lemma_row_stops(row, keys, floats, n, (m - 1) as nat);
    }
}

proof fn lemma_rows_stop(
    rows: Seq<DataRow>,
    keys: Seq<ResolvedKey>,
    floats: Seq<FloatRank>,
    n: nat,
    m: nat,
)
    requires
        n <= m,
        all_values(rows, keys, floats, n) is Err,
    ensures
        all_values(rows, keys, floats, m) == all_values(rows, keys, floats, n),
    decreases m,
{
    if n < m {
        lemma_rows_stop(rows, keys, floats, n, (m - 1) as nat);
    }
}

fn decode_row(row: &DataRow, keys: &Vec<ResolvedKey>, floats: &[FloatRank]) -> (r: Result<
    Vec<SortValue>,
    WireError,
>)
    ensures
        match row_values(*row, keys@, floats@, keys@.len()) {
            Ok(vs) => r is Ok && r->Ok_0@ == vs,
            Err(f) => results::refuses(r, f),
        },
{
    let mut out: Vec<SortValue> = Vec::new();
    let mut i: usize = 0;
    while i < keys.len()
        invariant
            i <= keys@.len(),
            row_values(*row, keys@, floats@, i as nat) == Ok::<Seq<SortValue>, Fault>(out@),
        decreases keys@.len() - i,
    {
        let value = match results::field_bytes(row, keys[i].index) {
            Ok(c) => decode(c, keys[i].kind, floats),
            Err(e) => Err(e),
        };
        match value {
            Ok(v) => {
                out.push(v);
            },
            Err(e) => {
                proof {
                    lemma_row_stops(*row, keys@, floats@, (i + 1) as nat, keys@.len());
                }
                return Err(e);
            },
        }
        i += 1;
    }
    Ok(out)
}

/// The values of each row.
pub open spec fn value_views(s: Seq<Vec<SortValue>>) -> Seq<Seq<SortValue>> {
    s.map_values(|v: Vec<SortValue>| v@)
}

fn decode_rows(rows: &Vec<DataRow>, keys: &Vec<ResolvedKey>, floats: &[FloatRank]) -> (r: Result<
    Vec<Vec<SortValue>>,
    WireError,
>)
    ensures
        match all_values(rows@, keys@, floats@, rows@.len()) {
            Ok(vs) => r is Ok && value_views(r->Ok_0@) == vs,
            Err(f) => results::refuses(r, f),
        },
{
    let mut out: Vec<Vec<SortValue>> = Vec::new();
    let mut i: usize = 0;
    proof {
        assert(value_views(out@) =~= Seq::<Seq<SortValue>>::empty());
    }
    while i < rows.len()
        invariant
            i <= rows@.len(),
            all_values(rows@, keys@, floats@, i as nat) == Ok::<Seq<Seq<SortValue>>, Fault>(
                value_views(out@),
            ),
        decreases rows@.len() - i,
    {
        let ghost start = out@;
        match decode_row(&rows[i], keys, floats) {
            Ok(v) => {
                out.push(v);
                proof {
                    assert(value_views(out@) =~= value_views(start).push(v@));
                }
            },
            Err(e) => {
                proof {
                    lemma_rows_stop(rows@, keys@, floats@, (i + 1) as nat, rows@.len());
                }
                return Err(e);
            },
        }
        i += 1;
    }
    Ok(out)
}

// ---------------------------------------------------------------------------------------
// Comparing.
// ---------------------------------------------------------------------------------------

/// The sign of a difference.
pub open spec fn sign(a: i64, b: i64) -> int {
    if a < b {
        -1
    } else if a > b {
        1
    } else {
        0
    }
}

pub open spec fn flag(b: bool) -> i64 {
    if b {
        1
    } else {
        0
    }
}

/// How two present values compare: negative where the first is smaller.
pub open spec fn present_sign(a: SortValue, b: SortValue) -> int {
    match (a, b) {
        (SortValue::Int(x), SortValue::Int(y)) => sign(x, y),
        (SortValue::Float(x), SortValue::Float(y)) => sign(x, y),
        (SortValue::Bool(x), SortValue::Bool(y)) => sign(flag(x), flag(y)),
        _ => 0,
    }
}

/// How two values stand in the order: NULL placement is independent of the direction, and
/// present values are reversed when descending.
pub open spec fn value_sign(a: SortValue, b: SortValue, descending: bool, nulls_first: bool) -> int {
    let null = if nulls_first {
        -1int
    } else {
        1int
    };
    if a is Null && b is Null {
        0
    } else if a is Null {
        null
    } else if b is Null {
        -null
    } else if descending {
        -present_sign(a, b)
    } else {
        present_sign(a, b)
    }
}

/// How two rows stand in the order of the first `n` keys: the first difference decides.
pub open spec fn rows_sign(
    a: Seq<SortValue>,
    b: Seq<SortValue>,
    keys: Seq<ResolvedKey>,
    n: nat,
) -> int
    decreases n,
{
    if n == 0 {
        0
    } else {
        let s = rows_sign(a, b, keys, (n - 1) as nat);
        if s != 0 {
            s
        } else {
            value_sign(a[n - 1], b[n - 1], keys[n - 1].descending, keys[n - 1].nulls_first)
        }
    }
}

/// The ordering of a sign.
pub open spec fn ordering(s: int) -> Ordering {
    if s < 0 {
        Ordering::Less
    } else if s > 0 {
        Ordering::Greater
    } else {
        Ordering::Equal
    }
}

fn compare_i64(x: i64, y: i64) -> (r: Ordering)
    ensures
        r == ordering(sign(x, y)),
{
    if x < y {
        Ordering::Less
    } else if x > y {
        Ordering::Greater
    } else {
        Ordering::Equal
    }
}

/// Order two decoded values as PostgreSQL would: NULL placement is independent of
/// the ASC/DESC direction, and present values are reversed when descending.
pub fn cmp_value(a: &SortValue, b: &SortValue, descending: bool, nulls_first: bool) -> (r: Ordering)
    ensures
        r == ordering(value_sign(*a, *b, descending, nulls_first)),
{
    let present = match (a, b) {
        (SortValue::Null, SortValue::Null) => {
            return Ordering::Equal;
        },
        (SortValue::Null, _) => {
            return if nulls_first {
                Ordering::Less
            } else {
                Ordering::Greater
            };
        },
        (_, SortValue::Null) => {
            return if nulls_first {
                Ordering::Greater
            } else {
                Ordering::Less
            };
        },
        (SortValue::Int(x), SortValue::Int(y)) => compare_i64(*x, *y),
        (SortValue::Float(x), SortValue::Float(y)) => compare_i64(*x, *y),
        (SortValue::Bool(x), SortValue::Bool(y)) => {
            if *x == *y {
                Ordering::Equal
            } else if *x {
                Ordering::Greater
            } else {
                Ordering::Less
            }
        },
        // The schema agrees across shards, so both sides are the same variant;
        // guard defensively rather than panic on the impossible.
        _ => Ordering::Equal,
    };
    if descending {
        match present {
            Ordering::Less => Ordering::Greater,
            Ordering::Equal => Ordering::Equal,
            Ordering::Greater => Ordering::Less,
        }
    } else {
        present
    }
}

/// Whether a value is one of the kind, or NULL.
pub open spec fn of_kind(v: SortValue, kind: SortKind) -> bool {
    v is Null || match kind {
        SortKind::Int => v is Int,
        SortKind::Float => v is Float,
        SortKind::Bool => v is Bool,
    }
}

/// Whether a row's values are those of the keys.
pub open spec fn typed(v: Seq<SortValue>, keys: Seq<ResolvedKey>) -> bool {
    v.len() == keys.len() && forall|i: int|
        0 <= i < keys.len() ==> of_kind(#[trigger] v[i], keys[i].kind)
}

pub open spec fn all_typed(values: Seq<Seq<SortValue>>, keys: Seq<ResolvedKey>) -> bool {
    forall|i: int| 0 <= i < values.len() ==> typed(#[trigger] values[i], keys)
}

/// Whether row `i` stands before row `j`: by the keys, else by its arrival.
pub open spec fn precedes(
    values: Seq<Seq<SortValue>>,
    keys: Seq<ResolvedKey>,
    i: int,
    j: int,
) -> bool {
    let s = rows_sign(values[i], values[j], keys, keys.len());
    s < 0 || (s == 0 && i < j)
}

/// Compare two rows' decoded key tuples left to right, first difference wins.
fn cmp_rows(a: &Vec<SortValue>, b: &Vec<SortValue>, keys: &Vec<ResolvedKey>) -> (r: Ordering)
    requires
        typed(a@, keys@),
        typed(b@, keys@),
    ensures
        r == ordering(rows_sign(a@, b@, keys@, keys@.len())),
{
    first_difference(a, b, keys, keys.len())
}

fn first_difference(
    a: &Vec<SortValue>,
    b: &Vec<SortValue>,
    keys: &Vec<ResolvedKey>,
    n: usize,
) -> (r: Ordering)
    requires
        typed(a@, keys@),
        typed(b@, keys@),
        n <= keys@.len(),
    ensures
        r == ordering(rows_sign(a@, b@, keys@, nat_of(n))),
    decreases n,
{
    if n == 0 {
        return Ordering::Equal;
    }
    match first_difference(a, b, keys, n - 1) {
        Ordering::Equal => cmp_value(
            &a[n - 1],
            &b[n - 1],
            keys[n - 1].descending,
            keys[n - 1].nulls_first,
        ),
        other => other,
    }
}

pub open spec fn nat_of(n: usize) -> nat {
    n as nat
}

/// Whether row `i` stands before row `j`.
fn stands_before(
    values: &Vec<Vec<SortValue>>,
    keys: &Vec<ResolvedKey>,
    i: usize,
    j: usize,
) -> (r: bool)
    requires
        i < values@.len(),
        j < values@.len(),
        all_typed(value_views(values@), keys@),
    ensures
        r == precedes(value_views(values@), keys@, int_of(i), int_of(j)),
{
    assert(typed(value_views(values@)[int_of(i)], keys@));
    assert(typed(value_views(values@)[int_of(j)], keys@));
    match cmp_rows(&values[i], &values[j], keys) {
        Ordering::Less => true,
        Ordering::Equal => i < j,
        Ordering::Greater => false,
    }
}

pub open spec fn int_of(n: usize) -> int {
    n as int
}

proof fn lemma_sign_flips(a: Seq<SortValue>, b: Seq<SortValue>, keys: Seq<ResolvedKey>, n: nat)
    ensures
        rows_sign(a, b, keys, n) == -rows_sign(b, a, keys, n),
    decreases n,
{
    if n > 0 {
        lemma_sign_flips(a, b, keys, (n - 1) as nat);
    }
}

proof fn lemma_sign_chains(
    a: Seq<SortValue>,
    b: Seq<SortValue>,
    c: Seq<SortValue>,
    keys: Seq<ResolvedKey>,
    n: nat,
)
    requires
        typed(a, keys),
        typed(b, keys),
        typed(c, keys),
        n <= keys.len(),
        rows_sign(a, b, keys, n) <= 0,
        rows_sign(b, c, keys, n) <= 0,
    ensures
        rows_sign(a, c, keys, n) <= 0,
        rows_sign(a, c, keys, n) == 0 <==> rows_sign(a, b, keys, n) == 0 && rows_sign(
            b,
            c,
            keys,
            n,
        ) == 0,
    decreases n,
{
    if n > 0 {
        assert(of_kind(a[n - 1], keys[n - 1].kind));
        assert(of_kind(b[n - 1], keys[n - 1].kind));
        assert(of_kind(c[n - 1], keys[n - 1].kind));
        lemma_sign_chains(a, b, c, keys, (n - 1) as nat);
    }
}

/// The order of rows is transitive.
proof fn lemma_precedes_chains(
    values: Seq<Seq<SortValue>>,
    keys: Seq<ResolvedKey>,
    i: int,
    j: int,
    k: int,
)
    requires
        all_typed(values, keys),
        0 <= i < values.len(),
        0 <= j < values.len(),
        0 <= k < values.len(),
        precedes(values, keys, i, j),
        precedes(values, keys, j, k),
    ensures
        precedes(values, keys, i, k),
{
    assert(typed(values[i], keys) && typed(values[j], keys) && typed(values[k], keys));
    lemma_sign_chains(values[i], values[j], values[k], keys, keys.len());
}

/// Of two rows one stands before the other, and not also the other way round.
proof fn lemma_precedes_decides(
    values: Seq<Seq<SortValue>>,
    keys: Seq<ResolvedKey>,
    i: int,
    j: int,
)
    ensures
        i != j ==> (precedes(values, keys, i, j) <==> !precedes(values, keys, j, i)),
        !precedes(values, keys, i, i),
{
    lemma_sign_flips(values[i], values[j], keys, keys.len());
    lemma_sign_flips(values[i], values[i], keys, keys.len());
}

proof fn lemma_row_typed(
    row: DataRow,
    keys: Seq<ResolvedKey>,
    floats: Seq<FloatRank>,
    n: nat,
)
    requires
        n <= keys.len(),
        row_values(row, keys, floats, n) is Ok,
    ensures
        row_values(row, keys, floats, n)->Ok_0.len() == n,
        forall|i: int|
            0 <= i < n ==> of_kind(
                #[trigger] row_values(row, keys, floats, n)->Ok_0[i],
                keys[i].kind,
            ),
    decreases n,
{
    if n > 0 {
        lemma_row_typed(row, keys, floats, (n - 1) as nat);
    }
}

proof fn lemma_all_typed(
    rows: Seq<DataRow>,
    keys: Seq<ResolvedKey>,
    floats: Seq<FloatRank>,
    n: nat,
)
    requires
        all_values(rows, keys, floats, n) is Ok,
    ensures
        all_values(rows, keys, floats, n)->Ok_0.len() == n,
        all_typed(all_values(rows, keys, floats, n)->Ok_0, keys),
    decreases n,
{
    if n > 0 {
        lemma_all_typed(rows, keys, floats, (n - 1) as nat);
        lemma_row_typed(rows[n - 1], keys, floats, keys.len());
        let vs = all_values(rows, keys, floats, n)->Ok_0;
        assert forall|i: int| 0 <= i < vs.len() implies typed(#[trigger] vs[i], keys) by {
            if i < n - 1 {
                assert(vs[i] == all_values(rows, keys, floats, (n - 1) as nat)->Ok_0[i]);
            }
        }
    }
}

// ---------------------------------------------------------------------------------------
// Ordering the rows.
// ---------------------------------------------------------------------------------------

/// Whether row numbers stand in the order of the rows.
pub open spec fn in_order(
    order: Seq<usize>,
    values: Seq<Seq<SortValue>>,
    keys: Seq<ResolvedKey>,
) -> bool {
    forall|k: int, l: int|
        0 <= k < l < order.len() ==> precedes(
            values,
            keys,
            int_of(#[trigger] order[k]),
            int_of(#[trigger] order[l]),
        )
}

/// Whether all row numbers lie in the range.
pub open spec fn within(order: Seq<usize>, lo: int, hi: int) -> bool {
    forall|k: int| 0 <= k < order.len() ==> lo <= #[trigger] order[k] < hi
}

/// Whether every number of the first list stands before every number of the second from
/// position `from` on.
spec fn all_before(
    a: Seq<usize>,
    b: Seq<usize>,
    from: int,
    values: Seq<Seq<SortValue>>,
    keys: Seq<ResolvedKey>,
) -> bool {
    forall|k: int, l: int|
        0 <= k < a.len() && from <= l < b.len() ==> precedes(
            values,
            keys,
            int_of(#[trigger] a[k]),
            int_of(#[trigger] b[l]),
        )
}

/// Appending the next number of `b` keeps everything in order.
proof fn lemma_take_next(
    out: Seq<usize>,
    a: Seq<usize>,
    i: int,
    b: Seq<usize>,
    j: int,
    values: Seq<Seq<SortValue>>,
    keys: Seq<ResolvedKey>,
    hi: int,
)
    requires
        all_typed(values, keys),
        hi <= values.len(),
        within(a, 0, hi),
        within(b, 0, hi),
        in_order(out, values, keys),
        in_order(a, values, keys),
        in_order(b, values, keys),
        all_before(out, a, i, values, keys),
        all_before(out, b, j, values, keys),
        0 <= i <= a.len(),
        0 <= j < b.len(),
        i < a.len() ==> precedes(values, keys, int_of(b[j]), int_of(a[i])),
    ensures
        in_order(out.push(b[j]), values, keys),
        all_before(out.push(b[j]), a, i, values, keys),
        all_before(out.push(b[j]), b, j + 1, values, keys),
{
    let next = out.push(b[j]);
    assert forall|k: int, l: int| 0 <= k < l < next.len() implies precedes(
        values,
        keys,
        int_of(#[trigger] next[k]),
        int_of(#[trigger] next[l]),
    ) by {
        if l < out.len() {
            assert(next[k] == out[k] && next[l] == out[l]);
        } else {
            assert(next[k] == out[k] && next[l] == b[j]);
        }
    }
    assert forall|k: int, l: int| 0 <= k < next.len() && i <= l < a.len() implies precedes(
        values,
        keys,
        int_of(#[trigger] next[k]),
        int_of(#[trigger] a[l]),
    ) by {
        if k < out.len() {
            assert(next[k] == out[k]);
        } else if l > i {
            assert(precedes(values, keys, int_of(a[i]), int_of(a[l])));
            lemma_precedes_chains(values, keys, int_of(b[j]), int_of(a[i]), int_of(a[l]));
        }
    }
    assert forall|k: int, l: int| 0 <= k < next.len() && j + 1 <= l < b.len() implies precedes(
        values,
        keys,
        int_of(#[trigger] next[k]),
        int_of(#[trigger] b[l]),
    ) by {
        if k < out.len() {
            assert(next[k] == out[k]);
        } else {
            assert(next[k] == b[j]);
        }
    }
}

/// Merges two lists of row numbers that stand in order.
fn merge_runs(
    a: &Vec<usize>,
    b: &Vec<usize>,
    values: &Vec<Vec<SortValue>>,
    keys: &Vec<ResolvedKey>,
    lo: usize,
    mid: usize,
    hi: usize,
) -> (r: Vec<usize>)
    requires
        lo <= mid <= hi <= values@.len(),
        all_typed(value_views(values@), keys@),
        a@.len() == mid - lo,
        b@.len() == hi - mid,
        within(a@, lo as int, mid as int),
        within(b@, mid as int, hi as int),
        in_order(a@, value_views(values@), keys@),
        in_order(b@, value_views(values@), keys@),
    ensures
        r@.len() == hi - lo,
        within(r@, lo as int, hi as int),
        in_order(r@, value_views(values@), keys@),
{
    let ghost vs = value_views(values@);
    let mut out: Vec<usize> = Vec::new();
    let mut i: usize = 0;
    let mut j: usize = 0;
    while i < a.len() || j < b.len()
        invariant
            lo <= mid <= hi <= values@.len(),
            vs == value_views(values@),
            all_typed(vs, keys@),
            a@.len() == mid - lo,
            b@.len() == hi - mid,
            within(a@, lo as int, mid as int),
            within(b@, mid as int, hi as int),
            in_order(a@, vs, keys@),
            in_order(b@, vs, keys@),
            i <= a@.len(),
            j <= b@.len(),
            out@.len() == i + j,
            within(out@, lo as int, hi as int),
            in_order(out@, vs, keys@),
            all_before(out@, a@, i as int, vs, keys@),
            all_before(out@, b@, j as int, vs, keys@),
        decreases a@.len() - i + b@.len() - j,
    {
        let from_b: bool = i == a.len() || (j < b.len() && stands_before(values, keys, b[j], a[i]));
        if from_b {
            proof {
                lemma_take_next(out@, a@, i as int, b@, j as int, vs, keys@, hi as int);
            }
            out.push(b[j]);
            j += 1;
        } else {
            proof {
                if j < b@.len() {
                    lemma_precedes_decides(vs, keys@, a@[i as int] as int, b@[j as int] as int);
                }
                lemma_take_next(out@, b@, j as int, a@, i as int, vs, keys@, hi as int);
            }
            out.push(a[i]);
            i += 1;
        }
    }
    out
}

/// The rows from `lo` up to, not including, `hi` in order.
fn sort_range(
    values: &Vec<Vec<SortValue>>,
    keys: &Vec<ResolvedKey>,
    lo: usize,
    hi: usize,
) -> (r: Vec<usize>)
    requires
        lo <= hi <= values@.len(),
        all_typed(value_views(values@), keys@),
    ensures
        r@.len() == hi - lo,
        within(r@, lo as int, hi as int),
        in_order(r@, value_views(values@), keys@),
    decreases hi - lo,
{
    if hi - lo <= 1 {
        let mut out: Vec<usize> = Vec::new();
        if lo < hi {
            out.push(lo);
        }
        return out;
    }
    let mid: usize = lo + (hi - lo) / 2;
    let a = sort_range(values, keys, lo, mid);
    let b = sort_range(values, keys, mid, hi);
    merge_runs(&a, &b, values, keys, lo, mid, hi)
}

/// Whether a list of row numbers is the order of the rows: it has every row, and they stand
/// by their keys, rows equal on all keys in their arrival order.
pub open spec fn stable_order(
    order: Seq<usize>,
    values: Seq<Seq<SortValue>>,
    keys: Seq<ResolvedKey>,
) -> bool {
    &&& order.len() == values.len()
    &&& within(order, 0, values.len() as int)
    &&& in_order(order, values, keys)
}

/// The rows in the given order.
pub open spec fn arranged(rows: Seq<DataRow>, order: Seq<usize>) -> Seq<DataRow> {
    order.map_values(|i: usize| rows[i as int])
}

/// Moves the rows into the given order.
fn arrange(rows: Vec<DataRow>, order: &Vec<usize>) -> (r: Vec<DataRow>)
    requires
        within(order@, 0, rows@.len() as int),
        order@.no_duplicates(),
    ensures
        r@ == arranged(rows@, order@),
{
    let ghost start = rows@;
    let mut rows = rows;
    let mut out: Vec<DataRow> = Vec::new();
    let mut k: usize = 0;
    while k < order.len()
        invariant
            k <= order@.len(),
            out@.len() == k,
            rows@.len() == start.len(),
            within(order@, 0, start.len() as int),
            order@.no_duplicates(),
            forall|l: int| k <= l < order@.len() ==> rows@[#[trigger] order@[l] as int]
                == start[order@[l] as int],
            forall|l: int| 0 <= l < k ==> #[trigger] out@[l] == start[order@[l] as int],
        decreases order@.len() - k,
    {
        let mut row = DataRow { data: Vec::new(), field_count: 0 };
        let at: usize = order[k];
        std::mem::swap(&mut row, &mut rows[at]);
        proof {
            assert(row == start[order@[k as int] as int]);
        }
        out.push(row);
        k += 1;
    }
    proof {
        assert(out@ =~= arranged(start, order@));
    }
    out
}

/// Whether the merged rows are the given rows in their order.
pub open spec fn merged(
    out: Seq<DataRow>,
    rows: Seq<DataRow>,
    values: Seq<Seq<SortValue>>,
    keys: Seq<ResolvedKey>,
) -> bool {
    exists|order: Seq<usize>|
        #[trigger] stable_order(order, values, keys) && out == arranged(rows, order)
}

proof fn lemma_order_distinct(
    order: Seq<usize>,
    values: Seq<Seq<SortValue>>,
    keys: Seq<ResolvedKey>,
)
    requires
        in_order(order, values, keys),
    ensures
        order.no_duplicates(),
{
    assert forall|k: int, l: int| 0 <= k < order.len() && 0 <= l < order.len() && k
        != l implies order[k] != order[l] by {
        lemma_precedes_decides(values, keys, int_of(order[k]), int_of(order[k]));
        lemma_precedes_decides(values, keys, int_of(order[l]), int_of(order[l]));
        if k < l {
            assert(precedes(values, keys, int_of(order[k]), int_of(order[l])));
        } else {
            assert(precedes(values, keys, int_of(order[l]), int_of(order[k])));
        }
    }
}

/// Merge already-per-shard-sorted `rows` into one globally ordered stream
/// matching `keys`. The sort columns are decoded once per row, then the combined
/// set is ordered — so the result is correct even if a shard's local order were
/// somehow off. Returns `0A000` if `keys` cannot be resolved against `schema`.
pub fn merge_ordered(
    schema: &[Field],
    rows: Vec<DataRow>,
    keys: &[SortKey],
    floats: &[FloatRank],
) -> (r: Result<Vec<DataRow>, WireError>)
    ensures
        match resolved_keys(schema@, keys@, keys@.len()) {
            Err(f) => results::refuses(r, f),
            Ok(ks) => match all_values(rows@, ks, floats@, rows@.len()) {
                Err(f) => results::refuses(r, f),
                Ok(vs) => r is Ok && merged(r->Ok_0@, rows@, vs, ks),
            },
        },
{
    let resolved = match resolve_keys(schema, keys) {
        Ok(ks) => ks,
        Err(e) => {
            return Err(e);
        },
    };
    let values = match decode_rows(&rows, &resolved, floats) {
        Ok(vs) => vs,
        Err(e) => {
            return Err(e);
        },
    };
    proof {
        lemma_all_typed(rows@, resolved@, floats@, rows@.len());
    }
    // A stable sort keeps rows equal on all keys in their arrival order.
    let order = sort_range(&values, &resolved, 0, values.len());
    proof {
        lemma_order_distinct(order@, value_views(values@), resolved@);
        assert(stable_order(order@, value_views(values@), resolved@));
    }
    Ok(arrange(rows, &order))
}

// ---------------------------------------------------------------------------------------
// The texts to rank.
// ---------------------------------------------------------------------------------------

/// The text of a float key cell, where it has one.
pub open spec fn float_text(row: DataRow, key: ResolvedKey) -> Option<Seq<char>> {
    if key.kind == SortKind::Float {
        match results::cell(row, key.index as int) {
            Some(Some(b)) => bytes::text_of(b),
            _ => None,
        }
    } else {
        None
    }
}

/// The texts of a row's first `n` float key cells.
pub open spec fn row_floats(row: DataRow, keys: Seq<ResolvedKey>, n: nat) -> Seq<Seq<char>>
    decreases n,
{
    if n == 0 {
        Seq::empty()
    } else {
        let head = row_floats(row, keys, (n - 1) as nat);
        match float_text(row, keys[n - 1]) {
            Some(s) => head.push(s),
            None => head,
        }
    }
}

/// The texts of the first `n` rows' float key cells.
pub open spec fn rows_floats(rows: Seq<DataRow>, keys: Seq<ResolvedKey>, n: nat) -> Seq<Seq<char>>
    decreases n,
{
    if n == 0 {
        Seq::empty()
    } else {
        rows_floats(rows, keys, (n - 1) as nat) + row_floats(rows[n - 1], keys, keys.len())
    }
}

/// The texts whose ranks a merge of the rows asks for; none where the keys do not resolve.
pub fn float_texts(schema: &[Field], rows: &Vec<DataRow>, keys: &[SortKey]) -> (r: Vec<String>)
    ensures
        match resolved_keys(schema@, keys@, keys@.len()) {
            Ok(ks) => text::views(r@) == rows_floats(rows@, ks, rows@.len()),
            Err(_) => r@.len() == 0,
        },
{
    let resolved = match resolve_keys(schema, keys) {
        Ok(ks) => ks,
        Err(_) => {
            return Vec::new();
        },
    };
    let mut out: Vec<String> = Vec::new();
    let mut i: usize = 0;
    proof {
        assert(text::views(out@) =~= Seq::<Seq<char>>::empty());
    }
    while i < rows.len()
        invariant
            i <= rows@.len(),
            text::views(out@) == rows_floats(rows@, resolved@, i as nat),
        decreases rows@.len() - i,
    {
        push_row_floats(&rows[i], &resolved, &mut out);
        i += 1;
    }
    out
}

fn push_row_floats(row: &DataRow, keys: &Vec<ResolvedKey>, out: &mut Vec<String>)
    ensures
        text::views(final(out)@) == text::views(old(out)@) + row_floats(*row, keys@, keys@.len()),
{
    let ghost start = text::views(out@);
    let mut k: usize = 0;
    proof {
        assert(start + Seq::<Seq<char>>::empty() =~= start);
    }
    while k < keys.len()
        invariant
            k <= keys@.len(),
            text::views(out@) == start + row_floats(*row, keys@, k as nat),
        decreases keys@.len() - k,
    {
        let ghost before = out@;
        if keys[k].kind == SortKind::Float {
            if let Ok(Some(b)) = results::field_bytes(row, keys[k].index) {
                if let Some(s) = bytes::utf8(b) {
                    out.push(s);
                    proof {
                        assert(text::views(out@) =~= text::views(before).push(s@));
                        assert(text::views(before).push(s@) =~= start + row_floats(
                            *row,
                            keys@,
                            k as nat,
                        ).push(s@));
                    }
                }
            }
        }
        k += 1;
    }
}

// ---------------------------------------------------------------------------------------
// Laws.
// ---------------------------------------------------------------------------------------

/// Nothing is lost: every row has its place in a stable order, and only one.
pub proof fn law_merge_keeps_every_row(
    order: Seq<usize>,
    values: Seq<Seq<SortValue>>,
    keys: Seq<ResolvedKey>,
    i: usize,
)
    requires
        stable_order(order, values, keys),
        i < values.len() <= usize::MAX,
    ensures
        order.contains(i),
        order.no_duplicates(),
{
    let n = values.len();
    lemma_order_distinct(order, values, keys);
    order.unique_seq_to_set();
    let all = Set::<usize>::new(|k: usize| k < n);
    lemma_usize_range(n);
    assert(order.to_set().subset_of(all)) by {
        assert forall|k: usize| order.to_set().contains(k) implies all.contains(k) by {
            let p = choose|p: int| 0 <= p < order.len() && order[p] == k;
            assert(order[p] < n);
        }
    }
    vstd::seq_lib::seq_to_set_is_finite(order);
    vstd::set_lib::lemma_subset_equality(order.to_set(), all);
    assert(all.contains(i));
}

proof fn lemma_usize_range(n: nat)
    requires
        n <= usize::MAX,
    ensures
        Set::<usize>::new(|k: usize| k < n).finite(),
        Set::<usize>::new(|k: usize| k < n).len() == n,
    decreases n,
{
    let all = Set::<usize>::new(|k: usize| k < n);
    if n == 0 {
        assert(all =~= Set::empty());
    } else {
        let less = Set::<usize>::new(|k: usize| k < n - 1);
        lemma_usize_range((n - 1) as nat);
        assert(Set::<usize>::new(|k: usize| k < (n - 1) as nat) =~= less);
        assert(all =~= less.insert((n - 1) as usize));
    }
}

/// The merge is determined: rows have one stable order.
pub proof fn law_merge_is_determined(
    p: Seq<usize>,
    q: Seq<usize>,
    values: Seq<Seq<SortValue>>,
    keys: Seq<ResolvedKey>,
)
    requires
        all_typed(values, keys),
        stable_order(p, values, keys),
        stable_order(q, values, keys),
        values.len() <= usize::MAX,
    ensures
        p == q,
{
    assert forall|k: int| 0 <= k < p.len() implies p[k] == q[k] by {
        lemma_same_place(p, q, values, keys, k);
    }
    assert(p =~= q);
}

proof fn lemma_same_place(
    p: Seq<usize>,
    q: Seq<usize>,
    values: Seq<Seq<SortValue>>,
    keys: Seq<ResolvedKey>,
    k: int,
)
    requires
        all_typed(values, keys),
        stable_order(p, values, keys),
        stable_order(q, values, keys),
        values.len() <= usize::MAX,
        0 <= k < p.len(),
    ensures
        p[k] == q[k],
    decreases k,
{
    assert forall|l: int| 0 <= l < k implies p[l] == q[l] by {
        lemma_same_place(p, q, values, keys, l);
    }
    if p[k] != q[k] {
        law_merge_keeps_every_row(q, values, keys, p[k]);
        law_merge_keeps_every_row(p, values, keys, q[k]);
        let m = q.index_of(p[k]);
        let l = p.index_of(q[k]);
        assert(q[m] == p[k] && p[l] == q[k]);
        if m < k {
            assert(p[m] == q[m]);
        }
        if l < k {
            assert(q[l] == p[l]);
        }
        assert(precedes(values, keys, int_of(q[k]), int_of(q[m])));
        assert(precedes(values, keys, int_of(p[k]), int_of(p[l])));
        lemma_precedes_decides(values, keys, int_of(p[k]), int_of(q[k]));
    }
}

/// Merged rows stand in the order of the keys, and those equal on all keys in their arrival
/// order.
pub proof fn law_merged_rows_are_sorted(
    order: Seq<usize>,
    values: Seq<Seq<SortValue>>,
    keys: Seq<ResolvedKey>,
    k: int,
    l: int,
)
    requires
        stable_order(order, values, keys),
        0 <= k < l < order.len(),
    ensures
        rows_sign(values[order[k] as int], values[order[l] as int], keys, keys.len()) <= 0,
        rows_sign(values[order[k] as int], values[order[l] as int], keys, keys.len()) == 0
            ==> order[k] < order[l],
{
    assert(precedes(values, keys, int_of(order[k]), int_of(order[l])));
}

/// Where a NULL stands does not depend on the direction.
pub proof fn law_null_placement_ignores_direction(v: SortValue, nulls_first: bool)
    requires
        !(v is Null),
    ensures
        value_sign(SortValue::Null, v, true, nulls_first) == value_sign(
            SortValue::Null,
            v,
            false,
            nulls_first,
        ),
        value_sign(SortValue::Null, v, true, nulls_first) < 0 <==> nulls_first,
{
}

/// Whether a rank is given for each text.
pub open spec fn all_ranked(texts: Seq<Seq<char>>, floats: Seq<FloatRank>) -> bool {
    forall|i: int| 0 <= i < texts.len() ==> rank_of(floats, #[trigger] texts[i]) is Some
}

/// The listed texts are all that a merge asks for: where each has its rank, every float key
/// cell that is text has the value that its rank says.
pub proof fn law_float_texts_suffice(
    rows: Seq<DataRow>,
    keys: Seq<ResolvedKey>,
    floats: Seq<FloatRank>,
    i: int,
    k: int,
)
    requires
        all_ranked(rows_floats(rows, keys, rows.len()), floats),
        0 <= i < rows.len(),
        0 <= k < keys.len(),
        float_text(rows[i], keys[k]) is Some,
    ensures
        match rank_of(floats, float_text(rows[i], keys[k])->0) {
            Some(Ok(v)) => key_value(rows[i], keys[k], floats) == Ok::<SortValue, Fault>(
                SortValue::Float(v),
            ),
            Some(Err(_)) => key_value(rows[i], keys[k], floats) is Err,
            None => false,
        },
{
    lemma_listed_in_row(rows[i], keys, k, keys.len());
    lemma_listed(rows, keys, i, rows.len(), float_text(rows[i], keys[k])->0);
}

proof fn lemma_listed_in_row(row: DataRow, keys: Seq<ResolvedKey>, k: int, n: nat)
    requires
        0 <= k < n <= keys.len(),
        float_text(row, keys[k]) is Some,
    ensures
        row_floats(row, keys, n).contains(float_text(row, keys[k])->0),
    decreases n,
{
    let head = row_floats(row, keys, (n - 1) as nat);
    let s = float_text(row, keys[k])->0;
    if k == n - 1 {
        assert(row_floats(row, keys, n)[head.len() as int] == s);
    } else {
        lemma_listed_in_row(row, keys, k, (n - 1) as nat);
        let p = head.index_of(s);
        assert(row_floats(row, keys, n)[p] == s);
    }
}

proof fn lemma_listed(rows: Seq<DataRow>, keys: Seq<ResolvedKey>, i: int, n: nat, s: Seq<char>)
    requires
        0 <= i < n <= rows.len(),
        row_floats(rows[i], keys, keys.len()).contains(s),
    ensures
        rows_floats(rows, keys, n).contains(s),
    decreases n,
{
    let head = rows_floats(rows, keys, (n - 1) as nat);
    let last = row_floats(rows[n - 1], keys, keys.len());
    if i == n - 1 {
        let p = last.index_of(s);
        assert((head + last)[head.len() + p] == s);
    } else {
        lemma_listed(rows, keys, i, (n - 1) as nat, s);
        let p = head.index_of(s);
        assert((head + last)[p] == s);
    }
}

/// Descending is ascending reversed, for any two values that are there.
pub proof fn law_descending_reverses_ascending(a: SortValue, b: SortValue, nulls_first: bool)
    requires
        !(a is Null),
        !(b is Null),
    ensures
        value_sign(a, b, true, nulls_first) == -value_sign(a, b, false, nulls_first),
        value_sign(a, b, true, nulls_first) == value_sign(b, a, false, nulls_first),
{
}

/// Ascending values rise: integers and floats by their numbers, and false comes before true.
pub proof fn law_ascending_values_rise(x: i64, y: i64, p: bool, q: bool, nulls_first: bool)
    ensures
        value_sign(SortValue::Int(x), SortValue::Int(y), false, nulls_first) < 0 <==> x < y,
        value_sign(SortValue::Int(x), SortValue::Int(y), false, nulls_first) == 0 <==> x == y,
        value_sign(SortValue::Float(x), SortValue::Float(y), false, nulls_first) < 0 <==> x < y,
        value_sign(SortValue::Float(x), SortValue::Float(y), false, nulls_first) == 0 <==> x == y,
        value_sign(SortValue::Bool(p), SortValue::Bool(q), false, nulls_first) < 0 <==> !p && q,
        value_sign(SortValue::Bool(p), SortValue::Bool(q), false, nulls_first) == 0 <==> p == q,
{
}

/// NULLs stand together, before or after everything that is there as the key says, and the
/// order of any two values is the reverse of the order of the same two swapped.
pub proof fn law_nulls_stand_together(
    a: SortValue,
    b: SortValue,
    descending: bool,
    nulls_first: bool,
)
    ensures
        value_sign(SortValue::Null, SortValue::Null, descending, nulls_first) == 0,
        !(a is Null) ==> (value_sign(SortValue::Null, a, descending, nulls_first) < 0
            <==> nulls_first),
        !(a is Null) ==> (value_sign(a, SortValue::Null, descending, nulls_first) < 0
            <==> !nulls_first),
        !(a is Null) ==> value_sign(a, SortValue::Null, descending, nulls_first) != 0,
        value_sign(a, b, descending, nulls_first) == -value_sign(b, a, descending, nulls_first),
{
}

/// A comparison is named for its sign.
pub proof fn law_comparisons_are_named_for_their_sign(s: int)
    ensures
        ordering(s) == Ordering::Less <==> s < 0,
        ordering(s) == Ordering::Equal <==> s == 0,
        ordering(s) == Ordering::Greater <==> s > 0,
{
}

/// The first key on which two rows differ decides, whatever the keys behind it say; rows that
/// differ on none are equal.
pub proof fn law_the_first_difference_decides(
    a: Seq<SortValue>,
    b: Seq<SortValue>,
    keys: Seq<ResolvedKey>,
    n: nat,
    k: int,
)
    requires
        0 <= k <= n,
        forall|j: int|
            0 <= j < k ==> value_sign(
                #[trigger] a[j],
                b[j],
                keys[j].descending,
                keys[j].nulls_first,
            ) == 0,
    ensures
        k == n ==> rows_sign(a, b, keys, n) == 0,
        k < n && value_sign(a[k], b[k], keys[k].descending, keys[k].nulls_first) != 0 ==> rows_sign(
            a,
            b,
            keys,
            n,
        ) == value_sign(a[k], b[k], keys[k].descending, keys[k].nulls_first),
    decreases n,
{
    if n > 0 {
        if k < n {
            law_the_first_difference_decides(a, b, keys, (n - 1) as nat, k);
        } else {
            law_the_first_difference_decides(a, b, keys, (n - 1) as nat, k - 1);
            assert(value_sign(a[k - 1], b[k - 1], keys[k - 1].descending, keys[k - 1].nulls_first)
                == 0);
        }
    }
}

/// The number by which a present value is ordered.
pub open spec fn number(v: SortValue) -> int {
    match v {
        SortValue::Int(x) => x as int,
        SortValue::Float(x) => x as int,
        SortValue::Bool(p) => if p {
            1
        } else {
            0
        },
        SortValue::Null => 0,
    }
}

/// Merged rows follow the `ORDER BY`: of two rows of the result, on the first key on which
/// their values differ the earlier one has the smaller number, or the larger one where the
/// key is descending; a NULL stands first or last as the key says.
pub proof fn law_merged_rows_follow_the_order_by(
    order: Seq<usize>,
    values: Seq<Seq<SortValue>>,
    keys: Seq<ResolvedKey>,
    k: int,
    l: int,
    j: int,
)
    requires
        all_typed(values, keys),
        stable_order(order, values, keys),
        0 <= k < l < order.len(),
        0 <= j < keys.len(),
        forall|i: int|
            0 <= i < j ==> #[trigger] values[order[k] as int][i] == values[order[l] as int][i],
        values[order[k] as int][j] != values[order[l] as int][j],
    ensures
        ({
            let x = values[order[k] as int][j];
            let y = values[order[l] as int][j];
            if x is Null {
                keys[j].nulls_first
            } else if y is Null {
                !keys[j].nulls_first
            } else if keys[j].descending {
                number(x) > number(y)
            } else {
                number(x) < number(y)
            }
        }),
{
    law_merged_rows_are_sorted(order, values, keys, k, l);
    let a = values[order[k] as int];
    let b = values[order[l] as int];
    assert(within(order, 0, values.len() as int));
    assert(order[k] < values.len() && order[l] < values.len());
    assert(typed(a, keys) && typed(b, keys));
    assert forall|i: int| 0 <= i < j implies value_sign(
        #[trigger] a[i],
        b[i],
        keys[i].descending,
        keys[i].nulls_first,
    ) == 0 by {
        assert(values[order[k] as int][i] == values[order[l] as int][i]);
    }
    assert(of_kind(a[j], keys[j].kind) && of_kind(b[j], keys[j].kind));
    law_the_first_difference_decides(a, b, keys, keys.len(), j);
}

/// Integers, floats and booleans can be merged, and no other type: text has an order that
/// depends on its collation.
pub proof fn law_only_numbers_and_booleans_merge(type_oid: u32)
    ensures
        kind_of(type_oid) == Some(SortKind::Int) <==> type_oid == 20 || type_oid == 21 || type_oid
            == 23,
        kind_of(type_oid) == Some(SortKind::Float) <==> type_oid == 700 || type_oid == 701,
        kind_of(type_oid) == Some(SortKind::Bool) <==> type_oid == 16,
{
}

/// Key cells read back: the text of an integer is that integer, `t` and `f` are the booleans,
/// a missing cell is NULL, and a float has the rank that is given for its text.
pub proof fn law_key_cells_read_back(v: i64, kind: SortKind, floats: Seq<FloatRank>, p: int)
    ensures
        cell_value(None, kind, floats) == Ok::<SortValue, Fault>(SortValue::Null),
        cell_value(Some(encode_utf8(text::decimal(v as int))), SortKind::Int, floats) == Ok::<
            SortValue,
            Fault,
        >(SortValue::Int(v)),
        cell_value(Some(encode_utf8("t"@)), SortKind::Bool, floats) == Ok::<SortValue, Fault>(
            SortValue::Bool(true),
        ),
        cell_value(Some(encode_utf8("f"@)), SortKind::Bool, floats) == Ok::<SortValue, Fault>(
            SortValue::Bool(false),
        ),
        0 <= p < floats.len() && (forall|k: int|
            0 <= k < p ==> (#[trigger] floats[k]).text@ != floats[p].text@) ==> (match floats[p].rank {
            Ok(r) => cell_value(Some(encode_utf8(floats[p].text@)), SortKind::Float, floats)
                == Ok::<SortValue, Fault>(SortValue::Float(r)),
            Err(_) => cell_value(
                Some(encode_utf8(floats[p].text@)),
                SortKind::Float,
                floats,
            ) is Err,
        }),
{
    text::law_integers_read_back(v, 0);
    bytes::law_text_is_its_encoding(text::decimal(v as int), Seq::empty());
    bytes::law_text_is_its_encoding("t"@, Seq::empty());
    bytes::law_text_is_its_encoding("f"@, Seq::empty());
    reveal_strlit("t");
    reveal_strlit("f");
    assert("t"@[0] != "f"@[0]);
    if 0 <= p < floats.len() && (forall|k: int|
        0 <= k < p ==> (#[trigger] floats[k]).text@ != floats[p].text@) {
        bytes::law_text_is_its_encoding(floats[p].text@, Seq::empty());
        lemma_rank_of(floats, floats[p].text@, p);
    }
}

proof fn lemma_column_from(schema: Seq<Field>, name: Seq<char>, from: int)
    requires
        0 <= from <= schema.len(),
    ensures
        from <= column_from(schema, name, from) <= schema.len(),
        column_from(schema, name, from) < schema.len() ==> schema[column_from(
            schema,
            name,
            from,
        )].name@ == name,
        forall|k: int|
            from <= k < column_from(schema, name, from) ==> (#[trigger] schema[k]).name@ != name,
    decreases schema.len() - from,
{
    if from < schema.len() && schema[from].name@ != name {
        lemma_column_from(schema, name, from + 1);
    }
}

/// A sort key sorts by the column it means: the one at its position, counted from one, or the
/// only one with its name; a name that no column or several columns have is refused.
pub proof fn law_sort_keys_mean_one_column(schema: Seq<Field>, column: SortColumn)
    ensures
        key_index(schema, column) matches Ok(i) ==> 0 <= i < schema.len(),
        match column {
            SortColumn::Position(p) => match key_index(schema, column) {
                Ok(i) => i + 1 == p,
                Err(_) => p == 0 || p > schema.len(),
            },
            SortColumn::Name(name) => match key_index(schema, column) {
                Ok(i) => schema[i].name@ == name@ && forall|k: int|
                    0 <= k < schema.len() && k != i ==> (#[trigger] schema[k]).name@ != name@,
                Err(_) => (forall|k: int|
                    0 <= k < schema.len() ==> (#[trigger] schema[k]).name@ != name@) || exists|
                    k: int,
                    l: int,
                |
                    0 <= k < l < schema.len() && (#[trigger] schema[k]).name@ == name@ && (
                    #[trigger] schema[l]).name@ == name@,
            },
        },
{
    if let SortColumn::Name(name) = column {
        lemma_column_from(schema, name@, 0);
        let first = column_from(schema, name@, 0);
        if first < schema.len() {
            lemma_column_from(schema, name@, first + 1);
            let second = column_from(schema, name@, first + 1);
            if second < schema.len() {
                assert(schema[first].name@ == name@ && schema[second].name@ == name@);
            }
        }
    }
}

/// Resolved keys are the keys: each reads the column that its key means, by that column's
/// type, in its key's direction and with its NULLs placed as the key says.
pub proof fn law_resolved_keys_are_the_keys(schema: Seq<Field>, keys: Seq<SortKey>, n: nat, k: int)
    requires
        n <= keys.len(),
        resolved_keys(schema, keys, n) is Ok,
        0 <= k < n,
    ensures
        ({
            let r = resolved_keys(schema, keys, n)->Ok_0;
            &&& r.len() == n
            &&& key_index(schema, keys[k].column) is Ok
            &&& r[k].index == key_index(schema, keys[k].column)->Ok_0 as usize
            &&& schema[key_index(schema, keys[k].column)->Ok_0].format == FieldFormat::Text
            &&& kind_of(schema[key_index(schema, keys[k].column)->Ok_0].type_oid) == Some(r[k].kind)
            &&& r[k].descending == keys[k].descending
            &&& r[k].nulls_first == keys[k].nulls_first
        }),
    decreases n,
{
    if n > 1 {
        law_resolved_keys_are_the_keys(
            schema,
            keys,
            (n - 1) as nat,
            if k < n - 1 {
                k
            } else {
                0
            },
        );
    } else {
        assert(resolved_keys(schema, keys, 0)->Ok_0.len() == 0);
    }
}

/// Every row is ordered by its own cells: the values of row `i` are those of its key columns.
pub proof fn law_rows_are_ordered_by_their_own_cells(
    rows: Seq<DataRow>,
    keys: Seq<ResolvedKey>,
    floats: Seq<FloatRank>,
    n: nat,
    i: int,
    k: int,
)
    requires
        n <= rows.len(),
        all_values(rows, keys, floats, n) is Ok,
        0 <= i < n,
    ensures
        all_values(rows, keys, floats, n)->Ok_0.len() == n,
        all_values(rows, keys, floats, n)->Ok_0[i].len() == keys.len(),
        0 <= k < keys.len() ==> (match results::cell(rows[i], keys[k].index as int) {
            Some(c) => cell_value(c, keys[k].kind, floats) == Ok::<SortValue, Fault>(
                all_values(rows, keys, floats, n)->Ok_0[i][k],
            ),
            None => false,
        }),
    decreases n,
{
    lemma_own_cells(rows[i], keys, floats, keys.len(), k);
    if n > 1 {
        law_rows_are_ordered_by_their_own_cells(
            rows,
            keys,
            floats,
            (n - 1) as nat,
            if i < n - 1 {
                i
            } else {
                0
            },
            k,
        );
    } else {
        assert(all_values(rows, keys, floats, 0)->Ok_0.len() == 0);
    }
}

proof fn lemma_own_cells(
    row: DataRow,
    keys: Seq<ResolvedKey>,
    floats: Seq<FloatRank>,
    n: nat,
    k: int,
)
    requires
        n <= keys.len(),
    ensures
        row_values(row, keys, floats, n) is Ok ==> row_values(row, keys, floats, n)->Ok_0.len()
            == n,
        row_values(row, keys, floats, n) is Ok && 0 <= k < n ==> key_value(row, keys[k], floats)
            == Ok::<SortValue, Fault>(row_values(row, keys, floats, n)->Ok_0[k]),
    decreases n,
{
    if n > 0 {
        lemma_own_cells(row, keys, floats, (n - 1) as nat, k);
    }
}

} // verus!
