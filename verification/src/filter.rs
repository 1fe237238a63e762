//! Filtering decoded rows by keyspace id — the core of reshard seeding and of
//! keyspace-scoped CDC.
//!
//! A reshard seeder copies only the rows whose shard key falls in the target
//! shard's key range. To decide that, it must reproduce the router's placement:
//! hash the shard-key value with the same shard function into a [`KeyspaceId`] and
//! test the target [`KeyRange`].
//!
//! pgoutput ships every value in text form, so the shard key arrives as text.
//! Reproducing the router's hash therefore needs the column's **declared type**:
//! the router coerces a literal to its column type before hashing (so `5` and
//! `'5'` route alike), and only the type lets this recover the same canonical
//! value from the text. A NULL, unshipped-TOAST, or type-invalid shard key is
//! unroutable.
use crate::bytes;
use crate::keyspace::{KeyRange, KeyspaceId};
use crate::pgoutput::{self, Cell, Relation, TupleColumn, TupleData};
use crate::shardfn::{self, KeyValue, ScalarType, ScalarValue, ShardFunction};
use crate::text;
use vstd::prelude::*;
use vstd::string::*;

verus! {

/// Why a row's shard key could not be resolved to a keyspace id.
#[derive(Debug, PartialEq, Eq)]
pub enum FilterError {
    NoShardKeyColumn(String),
    ColumnOutOfRange { index: usize, len: usize },
    /// The shard key is NULL or an unshipped TOAST value.
    UnroutableCell,
    /// The shard key is in binary format, which a text stream does not produce.
    BinaryCell,
    InvalidUtf8,
    Uncoercible { value: String, ty: ScalarType },
}

/// What an error says.
#[verifier::ext_equal]
pub enum FilterFault {
    NoShardKeyColumn(Seq<char>),
    ColumnOutOfRange { index: int, len: int },
    UnroutableCell,
    BinaryCell,
    InvalidUtf8,
    Uncoercible { value: Seq<char>, ty: ScalarType },
}

impl View for FilterError {
    type V = FilterFault;

    open spec fn view(&self) -> FilterFault {
        match self {
            FilterError::NoShardKeyColumn(c) => FilterFault::NoShardKeyColumn(c@),
            FilterError::ColumnOutOfRange { index, len } => FilterFault::ColumnOutOfRange {
                index: *index as int,
                len: *len as int,
            },
            FilterError::UnroutableCell => FilterFault::UnroutableCell,
            FilterError::BinaryCell => FilterFault::BinaryCell,
            FilterError::InvalidUtf8 => FilterFault::InvalidUtf8,
            FilterError::Uncoercible { value, ty } => FilterFault::Uncoercible {
                value: value@,
                ty: *ty,
            },
        }
    }
}

/// The index of a table's shard-key column within its [`Relation`] column list,
/// resolved by name. The apply engine caches this per relation oid so the lookup
/// happens once, not per row.
pub fn shard_key_index(relation: &Relation<'_>, shard_key_column: &str) -> (r: Result<
    usize,
    FilterError,
>)
    ensures
        match r {
            Ok(i) => i < relation.columns@.len() && relation.columns@[i as int].name@
                == shard_key_column@ && forall|k: int|
                0 <= k < i ==> (#[trigger] relation.columns@[k]).name@ != shard_key_column@,
            Err(e) => e@ == FilterFault::NoShardKeyColumn(shard_key_column@) && forall|k: int|
                0 <= k < relation.columns@.len() ==> (#[trigger] relation.columns@[k]).name@
                    != shard_key_column@,
        },
{
    let mut i: usize = 0;
    while i < relation.columns.len()
        invariant
            i <= relation.columns@.len(),
            forall|k: int|
                0 <= k < i ==> (#[trigger] relation.columns@[k]).name@ != shard_key_column@,
        decreases relation.columns@.len() - i,
    {
        if text::same(relation.columns[i].name, shard_key_column) {
            return Ok(i);
        }
        i += 1;
    }
    Err(FilterError::NoShardKeyColumn(shard_key_column.to_owned()))
}

/// The shard-key value of a cell shipped in text form, as the column's type has it.
pub open spec fn cell_key(cell: Cell, ty: ScalarType) -> Result<KeyValue, FilterFault> {
    match cell {
        Cell::Text(b) => match bytes::text_of(b) {
            Some(s) => text_key(s, ty),
            None => Err(FilterFault::InvalidUtf8),
        },
        Cell::Binary(_) => Err(FilterFault::BinaryCell),
        _ => Err(FilterFault::UnroutableCell),
    }
}

/// The shard-key value that a text spells, as the column's type has it.
pub open spec fn text_key(s: Seq<char>, ty: ScalarType) -> Result<KeyValue, FilterFault> {
    match shardfn::coerced(ty, KeyValue::Text(s)) {
        Some(v) => Ok(v),
        None => Err(FilterFault::Uncoercible { value: s, ty }),
    }
}

/// The shard-key value of a row.
pub open spec fn row_key(row: Seq<Cell>, index: int, ty: ScalarType) -> Result<
    KeyValue,
    FilterFault,
> {
    if index < row.len() {
        cell_key(row[index], ty)
    } else {
        Err(FilterFault::ColumnOutOfRange { index, len: row.len() as int })
    }
}

/// The keyspace id of a shard-key cell shipped in pgoutput text form.
///
/// `shard_key_type` is required (not optional): the declared type is what makes this
/// reproduce the router's placement soundly.
///
/// Two soundness constraints on the *topology*, not enforceable here (the shard
/// function and declared type are all this sees):
/// - `Text` must be a non-space-padded type (`text`/`varchar`), never `char(n)`
///   /`bpchar`. The router hashes the unpadded literal a client wrote (`'abc'`),
///   but pgoutput ships the *stored* value, which for `char(n)` is space-padded.
/// - `Bytea` relies on the source shipping `\x…`, which matches the router's own
///   `\x` literal form. Were a stored value ever to arrive in `escape` form, it is
///   rejected, never misplaced.
pub fn cell_keyspace_id<F: ShardFunction>(
    cell: &TupleColumn<'_>,
    shard_key_type: ScalarType,
    shard_fn: &F,
) -> (r: Result<KeyspaceId, FilterError>)
    ensures
        match r {
            Ok(id) => cell_key(cell@, shard_key_type) matches Ok(v) && id.0 == shard_fn.id_of(v),
            Err(e) => cell_key(cell@, shard_key_type) == Err::<KeyValue, FilterFault>(e@),
        },
{
    let b = match cell {
        TupleColumn::Text(b) => *b,
        TupleColumn::Binary(_) => return Err(FilterError::BinaryCell),
        TupleColumn::Null => return Err(FilterError::UnroutableCell),
        TupleColumn::UnchangedToast => return Err(FilterError::UnroutableCell),
    };
    match bytes::utf8_str(b) {
        Some(s) => text_keyspace_id(s, shard_key_type, shard_fn),
        None => Err(FilterError::InvalidUtf8),
    }
}

/// The keyspace id of a shard-key value already decoded to its text form.
///
/// This is the shared core of both the streaming filter ([`cell_keyspace_id`])
/// and the initial snapshot copy. Both must produce the same id for
/// the same logical value so a row is copied by the snapshot pass iff it would
/// also be kept by the stream — no gap or overlap at the snapshot/stream seam.
pub fn text_keyspace_id<F: ShardFunction>(
    value: &str,
    shard_key_type: ScalarType,
    shard_fn: &F,
) -> (r: Result<KeyspaceId, FilterError>)
    ensures
        match r {
            Ok(id) => text_key(value@, shard_key_type) matches Ok(v) && id.0 == shard_fn.id_of(v),
            Err(e) => text_key(value@, shard_key_type) == Err::<KeyValue, FilterFault>(e@),
        },
{
    // The router hashes the value coerced to the column type, so `5` and `'5'`
    // land on one shard; coercing the text form here reproduces that exactly.
    match shard_key_type.coerce(&ScalarValue::Text(value.to_owned())) {
        Some(canonical) => Ok(shard_fn.keyspace_id(&canonical)),
        None => Err(FilterError::Uncoercible { value: value.to_owned(), ty: shard_key_type }),
    }
}

/// The keyspace id of `tuple`'s shard-key column.
pub fn tuple_keyspace_id<F: ShardFunction>(
    tuple: &TupleData<'_>,
    shard_key_index: usize,
    shard_key_type: ScalarType,
    shard_fn: &F,
) -> (r: Result<KeyspaceId, FilterError>)
    ensures
        match r {
            Ok(id) => row_key(tuple@, shard_key_index as int, shard_key_type) matches Ok(v) && id.0
                == shard_fn.id_of(v),
            Err(e) => row_key(tuple@, shard_key_index as int, shard_key_type) == Err::<
                KeyValue,
                FilterFault,
            >(e@),
        },
{
    if shard_key_index >= tuple.columns.len() {
        return Err(
            FilterError::ColumnOutOfRange { index: shard_key_index, len: tuple.columns.len() },
        );
    }
    proof {
        assert(tuple@[shard_key_index as int] == tuple.columns@[shard_key_index as int]@);
    }
    cell_keyspace_id(&tuple.columns[shard_key_index], shard_key_type, shard_fn)
}

/// Whether `tuple`'s shard-key column falls within `range` — the seeding/CDC
/// keep-or-skip decision for one row.
pub fn tuple_in_range<F: ShardFunction>(
    tuple: &TupleData<'_>,
    shard_key_index: usize,
    shard_key_type: ScalarType,
    shard_fn: &F,
    range: &KeyRange,
) -> (r: Result<bool, FilterError>)
    ensures
        match r {
            Ok(keep) => row_key(tuple@, shard_key_index as int, shard_key_type) matches Ok(v)
                && keep == range.holds(shard_fn.id_of(v)),
            Err(e) => row_key(tuple@, shard_key_index as int, shard_key_type) == Err::<
                KeyValue,
                FilterFault,
            >(e@),
        },
{
    let id = tuple_keyspace_id(tuple, shard_key_index, shard_key_type, shard_fn)?;
    Ok(range.contains(id))
}

/// The text form of a shard key and the literal that the router reads have one keyspace id:
/// what a cell spells is what a quoted literal of the same text is.
pub proof fn law_stream_and_router_agree(b: Seq<u8>, ty: ScalarType)
    ensures
        match (cell_key(Cell::Text(b), ty), bytes::text_of(b)) {
            (Ok(v), Some(s)) => crate::plan::value_id(KeyValue::Text(s), Some(ty)) == Some(
                shardfn::xxhash64_v1_id(v),
            ),
            (Ok(_), None) => false,
            (Err(_), Some(s)) => crate::plan::value_id(KeyValue::Text(s), Some(ty)) is None,
            (Err(_), None) => true,
        },
{
}

/// What an error says.
pub open spec fn fault_text(e: FilterFault) -> Seq<char> {
    match e {
        FilterFault::NoShardKeyColumn(c) => "relation has no column named "@ + text::debug_text(c)
            + " to use as the shard key"@,
        FilterFault::ColumnOutOfRange { index, len } => "shard-key column index "@ + text::decimal(
            index,
        ) + " is out of range for a "@ + text::decimal(len) + "-column row"@,
        FilterFault::UnroutableCell => {
            "shard key is NULL or an unshipped TOAST value; the row cannot be routed"@
        },
        FilterFault::BinaryCell => {
            "shard key is in binary format, which the seeder's text stream should not produce"@
        },
        FilterFault::InvalidUtf8 => "shard key value is not valid UTF-8"@,
        FilterFault::Uncoercible { value, ty } => "shard key value "@ + text::debug_text(value)
            + " is not a valid "@ + shardfn::type_text(ty),
    }
}

impl FilterError {
    pub fn to_string(&self) -> (r: String)
        ensures
            r@ == fault_text(self@),
    {
        match self {
            FilterError::NoShardKeyColumn(c) => text::concat3(
                "relation has no column named ",
                text::debug_string(c.as_str()).as_str(),
                " to use as the shard key",
            ),
            FilterError::ColumnOutOfRange { index, len } => text::concat5(
                "shard-key column index ",
                text::decimal_u64(*index as u64).as_str(),
                " is out of range for a ",
                text::decimal_u64(*len as u64).as_str(),
                "-column row",
            ),
            FilterError::UnroutableCell => {
                "shard key is NULL or an unshipped TOAST value; the row cannot be routed".to_owned()
            },
            FilterError::BinaryCell => {
                "shard key is in binary format, which the seeder's text stream should not produce".to_owned()
            },
            FilterError::InvalidUtf8 => "shard key value is not valid UTF-8".to_owned(),
            FilterError::Uncoercible { value, ty } => text::concat4(
                "shard key value ",
                text::debug_string(value.as_str()).as_str(),
                " is not a valid ",
                shardfn::type_str(*ty),
            ),
        }
    }
}

/// Only a key that is there in text form is placed: NULL, an unshipped value, binary data, text
/// that is not UTF-8 and text that is no value of the column's type have no place.
pub proof fn law_only_text_keys_are_placed(b: Seq<u8>, ty: ScalarType)
    ensures
        cell_key(Cell::Null, ty) is Err,
        cell_key(Cell::UnchangedToast, ty) is Err,
        cell_key(Cell::Binary(b), ty) is Err,
        cell_key(Cell::Text(b), ty) is Ok <==> (bytes::text_of(b) is Some && shardfn::coerced(
            ty,
            KeyValue::Text(bytes::text_of(b)->0),
        ) is Some),
        cell_key(Cell::Text(b), ty) is Ok ==> shardfn::coerced(
            ty,
            KeyValue::Text(bytes::text_of(b)->0),
        ) == Some(cell_key(Cell::Text(b), ty)->Ok_0),
{
}

/// A row is placed by its own key column, and a row that does not have it is not placed.
pub proof fn law_rows_are_placed_by_their_key_column(
    before: Seq<Cell>,
    key: Cell,
    rest: Seq<Cell>,
    index: int,
    ty: ScalarType,
)
    ensures
        row_key(before + seq![key] + rest, before.len() as int, ty) == cell_key(key, ty),
        index >= before.len() ==> row_key(before, index, ty) is Err,
{
    assert((before + seq![key] + rest)[before.len() as int] == key);
}

} // verus!
