//! Shard-key values, their coercion to a column type, and the functions that map them to
//! keyspace ids.
use crate::bytes;
use crate::keyspace::KeyspaceId;
use crate::text;
use vstd::prelude::*;
use vstd::string::*;
use vstd::utf8::*;

verus! {

/// A shard-key value in canonical form. Integer widths all widen to i64 so
/// that e.g. `int4 5` and `int8 5` hash identically.
#[derive(Debug, Clone, PartialEq, Eq)]
pub enum ScalarValue {
    Int16(i16),
    Int32(i32),
    Int64(i64),
    Text(String),
    Uuid([u8; 16]),
    Bytea(Vec<u8>),
}

/// What a shard-key value is, whatever holds it.
#[verifier::ext_equal]
pub enum KeyValue {
    Int16(i16),
    Int32(i32),
    Int64(i64),
    Text(Seq<char>),
    Uuid(Seq<u8>),
    Bytea(Seq<u8>),
}

impl View for ScalarValue {
    type V = KeyValue;

    open spec fn view(&self) -> KeyValue {
        match self {
            ScalarValue::Int16(v) => KeyValue::Int16(*v),
            ScalarValue::Int32(v) => KeyValue::Int32(*v),
            ScalarValue::Int64(v) => KeyValue::Int64(*v),
            ScalarValue::Text(s) => KeyValue::Text(s@),
            ScalarValue::Uuid(b) => KeyValue::Uuid(b@),
            ScalarValue::Bytea(b) => KeyValue::Bytea(b@),
        }
    }
}

impl ScalarValue {
    /// A copy of the value.
    pub fn copy(&self) -> (r: ScalarValue)
        ensures
            r@ == self@,
    {
        match self {
            ScalarValue::Int16(v) => ScalarValue::Int16(*v),
            ScalarValue::Int32(v) => ScalarValue::Int32(*v),
            ScalarValue::Int64(v) => ScalarValue::Int64(*v),
            ScalarValue::Text(s) => ScalarValue::Text(s.clone()),
            ScalarValue::Uuid(b) => ScalarValue::Uuid(*b),
            ScalarValue::Bytea(b) => ScalarValue::Bytea(
                vstd::slice::slice_to_vec(b.as_slice()),
            ),
        }
    }
}

/// The declared type of a shard-key column. It is used to coerce a literal read
/// from SQL into the canonical [`ScalarValue`] the shard function hashes, so that
/// syntactically different spellings of the same value route identically (an
/// integer column matched with `customer_id = '1'` must hash the same keyspace id
/// as `customer_id = 1`). Integer widths share one variant because they already
/// hash identically.
#[derive(Debug, Clone, Copy, PartialEq, Eq, Structural)]
pub enum ScalarType {
    Int,
    Text,
    Uuid,
    Bytea,
}

/// The value of column type `ty` that a literal spells, if it spells one.
pub open spec fn coerced(ty: ScalarType, value: KeyValue) -> Option<KeyValue> {
    match (ty, value) {
        (ScalarType::Int, KeyValue::Int16(v)) => Some(KeyValue::Int64(v as i64)),
        (ScalarType::Int, KeyValue::Int32(v)) => Some(KeyValue::Int64(v as i64)),
        (ScalarType::Int, KeyValue::Int64(v)) => Some(KeyValue::Int64(v)),
        (ScalarType::Int, KeyValue::Text(s)) => match int_of(s) {
            Some(v) => Some(KeyValue::Int64(v)),
            None => None,
        },
        (ScalarType::Text, KeyValue::Text(s)) => Some(KeyValue::Text(s)),
        (ScalarType::Uuid, KeyValue::Text(s)) => match uuid_of(s) {
            Some(b) => Some(KeyValue::Uuid(b)),
            None => None,
        },
        (ScalarType::Uuid, KeyValue::Uuid(b)) => Some(KeyValue::Uuid(b)),
        (ScalarType::Bytea, KeyValue::Text(s)) => match bytea_of(s) {
            Some(b) => Some(KeyValue::Bytea(b)),
            None => None,
        },
        (ScalarType::Bytea, KeyValue::Bytea(b)) => Some(KeyValue::Bytea(b)),
        _ => None,
    }
}

/// The integer that a text spells: white space around it, a sign, digits.
pub open spec fn int_of(s: Seq<char>) -> Option<i64> {
    text::parse_i64(text::trim(s))
}

/// The bytes that pairs of hex digits denote.
pub open spec fn hex_pairs(s: Seq<char>) -> Seq<u8> {
    Seq::new(
        s.len() / 2,
        |i: int| (text::digit_value(s[2 * i]) * 16 + text::digit_value(s[2 * i + 1])) as u8,
    )
}

/// The text inside braces, where both stand there or neither does.
pub open spec fn unbraced(t: Seq<char>) -> Option<Seq<char>> {
    let opens = t.len() > 0 && t[0] == '{';
    let closes = t.len() > 0 && t.last() == '}';
    if opens && closes {
        Some(t.subrange(1, t.len() - 1))
    } else if !opens && !closes {
        Some(t)
    } else {
        None
    }
}

/// The sixteen bytes that a text spells as a UUID: white space around it, braces around
/// that, hyphens anywhere, 32 hex digits.
pub open spec fn uuid_of(s: Seq<char>) -> Option<Seq<u8>> {
    match unbraced(text::trim(s)) {
        None => None,
        Some(t) => {
            let hex = t.filter(|c: char| c != '-');
            if hex.len() == 32 && text::all_digits(hex, 16) {
                Some(hex_pairs(hex))
            } else {
                None
            }
        },
    }
}

/// The bytes that a text spells in the hex format of `bytea`.
pub open spec fn bytea_of(s: Seq<char>) -> Option<Seq<u8>> {
    if s.len() >= 2 && s[0] == '\\' && s[1] == 'x' {
        let hex = s.subrange(2, s.len() as int);
        if hex.len() % 2 == 0 && text::all_digits(hex, 16) {
            Some(hex_pairs(hex))
        } else {
            None
        }
    } else {
        None
    }
}

impl ScalarType {
    /// Coerce a literal — as read from SQL, where an integer literal arrives as
    /// [`ScalarValue::Int64`] and a string literal as [`ScalarValue::Text`] — into
    /// the canonical value for this column type. Returns `None` when the literal
    /// is not a valid value of the type (PostgreSQL itself would reject it): the
    /// planner then treats the key as unroutable rather than hashing a value the
    /// stored row could never carry.
    pub fn coerce(self, value: &ScalarValue) -> (r: Option<ScalarValue>)
        ensures
            match r {
                Some(v) => coerced(self, value@) == Some(v@),
                None => coerced(self, value@) is None,
            },
    {
        match (self, value) {
            (ScalarType::Int, ScalarValue::Int16(v)) => Some(ScalarValue::Int64(*v as i64)),
            (ScalarType::Int, ScalarValue::Int32(v)) => Some(ScalarValue::Int64(*v as i64)),
            (ScalarType::Int, ScalarValue::Int64(v)) => Some(ScalarValue::Int64(*v)),
            (ScalarType::Int, ScalarValue::Text(s)) => match coerce_int(s.as_str()) {
                Some(v) => Some(ScalarValue::Int64(v)),
                None => None,
            },
            (ScalarType::Text, ScalarValue::Text(s)) => Some(ScalarValue::Text(s.clone())),
            (ScalarType::Uuid, ScalarValue::Text(s)) => match coerce_uuid(s.as_str()) {
                Some(b) => Some(ScalarValue::Uuid(b)),
                None => None,
            },
            (ScalarType::Uuid, ScalarValue::Uuid(b)) => Some(ScalarValue::Uuid(*b)),
            (ScalarType::Bytea, ScalarValue::Text(s)) => match coerce_bytea(s.as_str()) {
                Some(b) => Some(ScalarValue::Bytea(b)),
                None => None,
            },
            (ScalarType::Bytea, ScalarValue::Bytea(b)) => Some(
                ScalarValue::Bytea(vstd::slice::slice_to_vec(b.as_slice())),
            ),
            _ => None,
        }
    }
}

/// Parse an integer literal the way PostgreSQL's integer input does: optional
/// surrounding whitespace and a leading sign. Anything else (a decimal point, a
/// non-digit, an out-of-range magnitude) is not a valid integer key.
fn coerce_int(s: &str) -> (r: Option<i64>)
    ensures
        r == int_of(s@),
{
    let t = text::trimmed(s);
    text::read_i64(&t)
}

/// The characters other than hyphens.
fn without_hyphens(t: &Vec<char>) -> (r: Vec<char>)
    ensures
        r@ == t@.filter(|c: char| c != '-'),
{
    let mut out: Vec<char> = Vec::new();
    let mut i: usize = 0;
    let ghost keep = |c: char| c != '-';
    proof {
        reveal(Seq::filter);
        assert(t@.take(0).filter(keep) =~= Seq::<char>::empty());
    }
    while i < t.len()
        invariant
            i <= t@.len(),
            keep == (|c: char| c != '-'),
            out@ == t@.take(i as int).filter(keep),
        decreases t@.len() - i,
    {
        proof {
            reveal(Seq::filter);
            assert(t@.take(i + 1).drop_last() =~= t@.take(i as int));
            assert(t@.take(i + 1).last() == t@[i as int]);
        }
        if t[i] != '-' {
            out.push(t[i]);
        }
        i += 1;
    }
    proof {
        assert(t@.take(t@.len() as int) =~= t@);
    }
    out
}

/// Whether every character is a hex digit.
fn all_hex(t: &Vec<char>) -> (r: bool)
    ensures
        r == text::all_digits(t@, 16),
{
    let mut i: usize = 0;
    while i < t.len()
        invariant
            i <= t@.len(),
            forall|k: int| 0 <= k < i ==> #[trigger] text::digit_value(t@[k]) < 16,
        decreases t@.len() - i,
    {
        if text::digit(t[i]) >= 16 {
            assert(!(text::digit_value(t@[i as int]) < 16));
            return false;
        }
        i += 1;
    }
    true
}

/// The byte that the digits at `2 * i` denote.
fn hex_pair(t: &Vec<char>, i: usize) -> (r: u8)
    requires
        2 * i + 1 < t@.len(),
        text::all_digits(t@, 16),
    ensures
        r == hex_pairs(t@)[i as int],
{
    let n: usize = t.len();
    assert(2 * i + 1 < n);
    proof {
        assert(text::digit_value(t@[2 * i]) < 16);
        assert(text::digit_value(t@[2 * i + 1]) < 16);
    }
    (text::digit(t[2 * i]) * 16 + text::digit(t[2 * i + 1])) as u8
}

/// Decode a UUID literal to its 16 bytes, accepting the forms PostgreSQL does:
/// optional surrounding braces, hyphens anywhere, and either case of hex. The 16
/// bytes are what a stored `uuid` hashes as, so any spelling of the same UUID
/// routes to one shard.
fn coerce_uuid(s: &str) -> (r: Option<[u8; 16]>)
    ensures
        match r {
            Some(b) => uuid_of(s@) == Some(b@),
            None => uuid_of(s@) is None,
        },
{
    let t = text::trimmed(s);
    let opens = t.len() > 0 && t[0] == '{';
    let closes = t.len() > 0 && t[t.len() - 1] == '}';
    if opens != closes {
        return None;
    }
    let inner = if opens {
        proof {
            assert(t@.len() >= 2);
        }
        text::slice_chars(&t, 1, t.len() - 1)
    } else {
        t
    };
    let hex = without_hyphens(&inner);
    if hex.len() != 32 || !all_hex(&hex) {
        return None;
    }
    let mut out: [u8; 16] = [0u8;16];
    let mut i: usize = 0;
    while i < 16
        invariant
            i <= 16,
            hex@.len() == 32,
            text::all_digits(hex@, 16),
            forall|k: int| 0 <= k < i ==> out@[k] == hex_pairs(hex@)[k],
        decreases 16 - i,
    {
        let b: u8 = hex_pair(&hex, i);
        out[i] = b;
        i += 1;
    }
    proof {
        assert(out@ =~= hex_pairs(hex@));
    }
    Some(out)
}

/// Decode a `bytea` literal in PostgreSQL hex format (`\x` followed by an even
/// number of hex digits). The escape format is not accepted in v1; an unparsable
/// literal is left unroutable rather than hashed as its text form.
fn coerce_bytea(s: &str) -> (r: Option<Vec<u8>>)
    ensures
        match r {
            Some(b) => bytea_of(s@) == Some(b@),
            None => bytea_of(s@) is None,
        },
{
    let t = text::chars(s);
    if t.len() < 2 || t[0] != '\\' || t[1] != 'x' {
        return None;
    }
    let hex = text::slice_chars(&t, 2, t.len());
    if hex.len() % 2 != 0 || !all_hex(&hex) {
        return None;
    }
    let n: usize = hex.len() / 2;
    let mut out: Vec<u8> = Vec::new();
    let mut i: usize = 0;
    while i < n
        invariant
            i <= n,
            hex@.len() == 2 * n,
            text::all_digits(hex@, 16),
            out@.len() == i,
            forall|k: int| 0 <= k < i ==> out@[k] == hex_pairs(hex@)[k],
        decreases n - i,
    {
        let b: u8 = hex_pair(&hex, i);
        out.push(b);
        i += 1;
    }
    proof {
        assert(out@ =~= hex_pairs(hex@));
    }
    Some(out)
}

/// Why there is no such shard function.
#[derive(Debug, PartialEq, Eq)]
pub enum ShardFnError {
    Unknown(String),
}

/// Maps a shard-key value to its keyspace id. Implementations are versioned
/// by name (recorded in the vschema); the mapping must never change for a
/// given name.
pub trait ShardFunction {
    spec fn id_name(&self) -> Seq<char>;

    spec fn id_of(&self, key: KeyValue) -> u64;

    fn name(&self) -> (r: &'static str)
        ensures
            r@ == self.id_name(),
    ;

    fn keyspace_id(&self, key: &ScalarValue) -> (r: KeyspaceId)
        ensures
            r.0 == self.id_of(key@),
    ;
}

/// xxHash64 (seed 0) over the canonical byte encoding:
/// integers as 8-byte big-endian two's complement, text as UTF-8 bytes,
/// uuid as its 16 bytes, bytea as-is.
#[derive(Debug, Clone, Copy, PartialEq, Eq, Structural)]
pub struct XxHash64V1;

pub const XXHASH64_V1: XxHash64V1 = XxHash64V1;

/// The canonical byte encoding of a shard-key value.
pub open spec fn canonical_bytes(key: KeyValue) -> Seq<u8> {
    match key {
        KeyValue::Int16(v) => bytes::be(bytes::bits64(v as i64) as nat, 8),
        KeyValue::Int32(v) => bytes::be(bytes::bits64(v as i64) as nat, 8),
        KeyValue::Int64(v) => bytes::be(bytes::bits64(v) as nat, 8),
        KeyValue::Text(s) => encode_utf8(s),
        KeyValue::Uuid(b) => b,
        KeyValue::Bytea(b) => b,
    }
}

/// What `xxhash_rust::xxh64::xxh64` returns for the given bytes and seed.
pub uninterp spec fn xxh64_value(input: Seq<u8>, seed: u64) -> u64;

/// `xxhash_rust::xxh64::xxh64`: the 64-bit xxHash of the bytes with the seed. It depends on
/// nothing else.
#[verifier::external_body]
fn hash64(input: &[u8], seed: u64) -> (r: u64)
    ensures
        r == xxh64_value(input@, seed),
{
    xxhash_rust::xxh64::xxh64(input, seed)
}

/// The keyspace id of a shard-key value under `xxhash64_v1`.
pub open spec fn xxhash64_v1_id(key: KeyValue) -> u64 {
    xxh64_value(canonical_bytes(key), 0)
}

fn int_id(v: i64) -> (r: u64)
    ensures
        r == xxhash64_v1_id(KeyValue::Int64(v)),
{
    let mut b: Vec<u8> = Vec::new();
    bytes::push_be(&mut b, bytes::to_bits64(v), 8);
    proof {
        assert(b@ =~= canonical_bytes(KeyValue::Int64(v)));
    }
    hash64(b.as_slice(), 0)
}

impl ShardFunction for XxHash64V1 {
    open spec fn id_name(&self) -> Seq<char> {
        "xxhash64_v1"@
    }

    open spec fn id_of(&self, key: KeyValue) -> u64 {
        xxhash64_v1_id(key)
    }

    fn name(&self) -> (r: &'static str) {
        "xxhash64_v1"
    }

    fn keyspace_id(&self, key: &ScalarValue) -> (r: KeyspaceId) {
        let id: u64 = match key {
            ScalarValue::Int16(v) => int_id(*v as i64),
            ScalarValue::Int32(v) => int_id(*v as i64),
            ScalarValue::Int64(v) => int_id(*v),
            ScalarValue::Text(s) => hash64(s.as_str().as_bytes(), 0),
            ScalarValue::Uuid(b) => hash64(b.as_slice(), 0),
            ScalarValue::Bytea(b) => hash64(b.as_slice(), 0),
        };
        KeyspaceId(id)
    }
}

/// The shard function of the given name.
pub fn shard_function(name: &str) -> (r: Result<XxHash64V1, ShardFnError>)
    ensures
        name@ == "xxhash64_v1"@ ==> r is Ok,
        name@ != "xxhash64_v1"@ ==> (r matches Err(ShardFnError::Unknown(n)) && n@ == name@),
{
    if text::same(name, "xxhash64_v1") {
        Ok(XXHASH64_V1)
    } else {
        Err(ShardFnError::Unknown(name.to_owned()))
    }
}

/// Integers of every width hash alike.
pub proof fn law_integer_widths_hash_identically(short: i16, long: i32)
    ensures
        xxhash64_v1_id(KeyValue::Int16(short)) == xxhash64_v1_id(KeyValue::Int32(short as i32)),
        xxhash64_v1_id(KeyValue::Int16(short)) == xxhash64_v1_id(KeyValue::Int64(short as i64)),
        xxhash64_v1_id(KeyValue::Int32(long)) == xxhash64_v1_id(KeyValue::Int64(long as i64)),
{
}

/// Coercion does nothing to what it has produced: a stored value and the literal that
/// spells it have one keyspace id.
pub proof fn law_coercion_is_idempotent(ty: ScalarType, value: KeyValue)
    ensures
        match coerced(ty, value) {
            Some(v) => coerced(ty, v) == Some(v),
            None => true,
        },
{
}

/// The decimal numeral of an integer and the integer itself coerce to one value, so that
/// a quoted and a bare integer route alike.
pub proof fn law_quoted_and_bare_integers_agree(v: i64)
    ensures
        coerced(ScalarType::Int, KeyValue::Text(text::decimal(v as int))) == coerced(
            ScalarType::Int,
            KeyValue::Int64(v),
        ),
{
    let s = text::decimal(v as int);
    let m: nat = if v < 0 {
        (-v) as nat
    } else {
        v as nat
    };
    let d = text::numeral(m, 10);
    text::lemma_numeral_value(m, 10);
    assert forall|i: int| 0 <= i < d.len() implies #[trigger] text::digit_value(d[i]) < 10
        && !text::whitespace(d[i]) && d[i] != '-' && d[i] != '+' by {
        assert(text::digit_value(d[i]) < 10);
    }
    assert(text::digit_value(d[0]) < 10);
    assert(text::digit_value(d[d.len() - 1]) < 10);
    assert(s.last() == d.last());
    assert(!text::whitespace(s[0]));
    assert(!text::whitespace(s.last()));
    assert(text::trim(s) == s);
    if v < 0 {
        assert(s.drop_first() =~= d);
    }
}

impl ShardFnError {
    pub fn to_string(&self) -> (r: String)
        ensures
            match self {
                ShardFnError::Unknown(n) => r@ == "unknown shard function "@ + text::debug_text(
                    n@,
                ),
            },
    {
        match self {
            ShardFnError::Unknown(n) => text::concat2(
                "unknown shard function ",
                text::debug_string(n.as_str()).as_str(),
            ),
        }
    }
}

/// A type's name.
pub open spec fn type_text(ty: ScalarType) -> Seq<char> {
    match ty {
        ScalarType::Int => "Int"@,
        ScalarType::Text => "Text"@,
        ScalarType::Uuid => "Uuid"@,
        ScalarType::Bytea => "Bytea"@,
    }
}

pub fn type_str(ty: ScalarType) -> (r: &'static str)
    ensures
        r@ == type_text(ty),
{
    match ty {
        ScalarType::Int => "Int",
        ScalarType::Text => "Text",
        ScalarType::Uuid => "Uuid",
        ScalarType::Bytea => "Bytea",
    }
}

/// Hex digits, two for each byte.
pub open spec fn hex_text(b: Seq<u8>) -> Seq<char> {
    Seq::new(
        b.len() * 2,
        |i: int|
            text::digit_char(
                if i % 2 == 0 {
                    b[i / 2] as nat / 16
                } else {
                    b[i / 2] as nat % 16
                },
            ),
    )
}

proof fn lemma_hex_text(b: Seq<u8>)
    ensures
        text::all_digits(hex_text(b), 16),
        hex_pairs(hex_text(b)) == b,
        forall|i: int|
            0 <= i < hex_text(b).len() ==> (#[trigger] hex_text(b)[i]) != '-' && hex_text(b)[i] != '{'
                && hex_text(b)[i] != '}' && !text::whitespace(hex_text(b)[i]),
{
    let s = hex_text(b);
    assert forall|i: int| 0 <= i < s.len() implies #[trigger] text::digit_value(s[i]) < 16 && s[i]
        != '-' && s[i] != '{' && s[i] != '}' && !text::whitespace(s[i]) by {
        let d: nat = if i % 2 == 0 {
            b[i / 2] as nat / 16
        } else {
            b[i / 2] as nat % 16
        };
        assert(d < 16);
        assert(s[i] == text::digit_char(d));
    }
    assert forall|i: int| 0 <= i < s.len() implies (#[trigger] s[i]) != '-' && s[i] != '{' && s[i]
        != '}' && !text::whitespace(s[i]) by {
        assert(text::digit_value(s[i]) < 16);
    }
    assert forall|i: int| 0 <= i < b.len() implies hex_pairs(s)[i] == b[i] by {
        assert((2 * i) / 2 == i && (2 * i) % 2 == 0);
        assert((2 * i + 1) / 2 == i && (2 * i + 1) % 2 == 1);
        let hi = b[i] as nat / 16;
        let lo = b[i] as nat % 16;
        assert(s[2 * i] == text::digit_char(hi));
        assert(s[2 * i + 1] == text::digit_char(lo));
        assert(text::digit_value(text::digit_char(hi)) == hi);
        assert(text::digit_value(text::digit_char(lo)) == lo);
        assert(hi * 16 + lo == b[i]);
    }
    assert(hex_pairs(s) =~= b);
}

proof fn lemma_no_hyphens(s: Seq<char>)
    requires
        forall|i: int| 0 <= i < s.len() ==> (#[trigger] s[i]) != '-',
    ensures
        s.filter(|c: char| c != '-') == s,
    decreases s.len(),
{
    reveal(Seq::filter);
    let keep = |c: char| c != '-';
    if s.len() == 0 {
        assert(s.filter(keep) =~= s);
    } else {
        let t = s.drop_last();
        assert forall|i: int| 0 <= i < t.len() implies (#[trigger] t[i]) != '-' by {
            assert(t[i] == s[i]);
        }
        lemma_no_hyphens(t);
        assert(s[s.len() - 1] != '-');
        assert(s.filter(keep) =~= t.push(s.last()));
        assert(t.push(s.last()) =~= s);
    }
}

/// Digits without punctuation, and the same digits in braces.
proof fn lemma_uuid_digits(h: Seq<char>)
    requires
        forall|i: int|
            0 <= i < h.len() ==> (#[trigger] h[i]) != '-' && h[i] != '{' && h[i] != '}'
                && !text::whitespace(h[i]),
        text::all_digits(h, 16),
    ensures
        uuid_of(h) == (if h.len() == 32 {
            Some(hex_pairs(h))
        } else {
            None
        }),
        uuid_of(seq!['{'] + h + seq!['}']) == uuid_of(h),
{
    lemma_no_hyphens(h);
    let none = Seq::<char>::empty();
    if h.len() > 0 {
        assert(h[0] != '{' && h[h.len() - 1] != '}');
        assert(!text::whitespace(h[0]) && !text::whitespace(h[h.len() - 1]));
    }
    text::law_trimming_takes_white_space_alone(none, h, none);
    assert(none + h + none =~= h);
    let w = seq!['{'] + h + seq!['}'];
    text::law_trimming_takes_white_space_alone(none, w, none);
    assert(none + w + none =~= w);
    assert(w.subrange(1, w.len() - 1) =~= h);
}

proof fn lemma_uuid_text(b: Seq<u8>)
    ensures
        uuid_of(hex_text(b)) == (if b.len() == 16 {
            Some(b)
        } else {
            None
        }),
        uuid_of(seq!['{'] + hex_text(b) + seq!['}']) == uuid_of(hex_text(b)),
{
    lemma_hex_text(b);
    lemma_uuid_digits(hex_text(b));
}

proof fn lemma_bytea_text(b: Seq<u8>)
    ensures
        bytea_of(seq!['\\', 'x'] + hex_text(b)) == Some(b),
        bytea_of(hex_text(b)) is None,
{
    let h = hex_text(b);
    lemma_hex_text(b);
    let x = seq!['\\', 'x'] + h;
    assert(x.subrange(2, x.len() as int) =~= h);
    if h.len() >= 2 {
        assert(text::digit_value(h[0]) < 16);
    }
}

/// Binary keys are spelled in hex: sixteen bytes are the UUID of their 32 digits, with or
/// without braces around them, and any bytes are the bytea of `\x` and their digits.
pub proof fn law_binary_keys_read_back(b: Seq<u8>)
    ensures
        b.len() == 16 ==> coerced(ScalarType::Uuid, KeyValue::Text(hex_text(b))) == Some(
            KeyValue::Uuid(b),
        ),
        b.len() == 16 ==> coerced(
            ScalarType::Uuid,
            KeyValue::Text(seq!['{'] + hex_text(b) + seq!['}']),
        ) == Some(KeyValue::Uuid(b)),
        b.len() != 16 ==> coerced(ScalarType::Uuid, KeyValue::Text(hex_text(b))) is None,
        coerced(ScalarType::Bytea, KeyValue::Text(seq!['\\', 'x'] + hex_text(b))) == Some(
            KeyValue::Bytea(b),
        ),
        coerced(ScalarType::Bytea, KeyValue::Text(hex_text(b))) is None,
        coerced(ScalarType::Uuid, KeyValue::Uuid(b)) == Some(KeyValue::Uuid(b)),
        coerced(ScalarType::Bytea, KeyValue::Bytea(b)) == Some(KeyValue::Bytea(b)),
{
    lemma_uuid_text(b);
    lemma_bytea_text(b);
}

/// Hyphens in a UUID do not count, and neither does white space around it.
pub proof fn law_uuid_punctuation_does_not_count(a: Seq<char>, b: Seq<char>)
    requires
        (a + b).len() > 0,
        a.len() > 0,
        b.len() > 0,
        !text::whitespace(a[0]) && a[0] != '{' && a[0] != '}',
        !text::whitespace(b.last()) && b.last() != '{' && b.last() != '}',
    ensures
        uuid_of(a + seq!['-'] + b) == uuid_of(a + b),
        uuid_of(seq![' '] + (a + b) + seq![' ']) == uuid_of(a + b),
{
    let s = a + b;
    let h = a + seq!['-'] + b;
    let none = Seq::<char>::empty();
    assert(s[0] == a[0] && s.last() == b.last() && h[0] == a[0] && h.last() == b.last());
    text::law_trimming_takes_white_space_alone(none, s, none);
    assert(none + s + none =~= s);
    text::law_trimming_takes_white_space_alone(none, h, none);
    assert(none + h + none =~= h);
    text::law_trimming_takes_white_space_alone(seq![' '], s, seq![' ']);
    let keep = |c: char| c != '-';
    lemma_filter_concat(a, b);
    lemma_filter_concat(a, seq!['-'] + b);
    lemma_filter_concat(seq!['-'], b);
    reveal(Seq::filter);
    assert(seq!['-'].drop_last() =~= none);
    assert(none.filter(keep) =~= none);
    assert(seq!['-'].filter(keep) =~= none);
    assert(a + (seq!['-'] + b) =~= h);
    assert(none + b.filter(keep) =~= b.filter(keep));
    assert(h.filter(keep) =~= s.filter(keep));
}

proof fn lemma_filter_concat(a: Seq<char>, b: Seq<char>)
    ensures
        (a + b).filter(|c: char| c != '-') == a.filter(|c: char| c != '-') + b.filter(
            |c: char| c != '-',
        ),
    decreases b.len(),
{
    let keep = |c: char| c != '-';
    reveal(Seq::filter);
    if b.len() == 0 {
        assert(a + b =~= a);
        assert(b.filter(keep) =~= Seq::<char>::empty());
        assert(a.filter(keep) + b.filter(keep) =~= a.filter(keep));
    } else {
        lemma_filter_concat(a, b.drop_last());
        assert((a + b).drop_last() =~= a + b.drop_last());
        assert((a + b).last() == b.last());
        assert((a + b).filter(keep) =~= a.filter(keep) + b.filter(keep));
    }
}

/// A value is only ever one of its column's type: text columns take text as it stands and no
/// number, integer columns numbers, and nothing is both.
pub proof fn law_coercion_keeps_the_type(ty: ScalarType, value: KeyValue, s: Seq<char>, v: i64)
    ensures
        coerced(ScalarType::Text, KeyValue::Text(s)) == Some(KeyValue::Text(s)),
        coerced(ScalarType::Text, KeyValue::Int64(v)) is None,
        coerced(ScalarType::Int, KeyValue::Int64(v)) == Some(KeyValue::Int64(v)),
        coerced(ScalarType::Uuid, KeyValue::Int64(v)) is None,
        coerced(ScalarType::Bytea, KeyValue::Int64(v)) is None,
        coerced(ty, value) matches Some(c) ==> match ty {
            ScalarType::Int => c is Int64,
            ScalarType::Text => c is Text && value == c,
            ScalarType::Uuid => c is Uuid,
            ScalarType::Bytea => c is Bytea,
        },
{
}

/// The id of a value is the hash of its canonical bytes, with seed zero: eight big-endian bytes
/// of an integer, the UTF-8 of a text, and binary values as they are.
pub proof fn law_ids_hash_the_canonical_bytes(v: i64, s: Seq<char>, b: Seq<u8>)
    ensures
        canonical_bytes(KeyValue::Int64(v)).len() == 8,
        bytes::be_value(canonical_bytes(KeyValue::Int64(v))) == bytes::bits64(v),
        canonical_bytes(KeyValue::Text(s)) == encode_utf8(s),
        canonical_bytes(KeyValue::Uuid(b)) == b,
        canonical_bytes(KeyValue::Bytea(b)) == b,
        xxhash64_v1_id(KeyValue::Int64(v)) == xxh64_value(canonical_bytes(KeyValue::Int64(v)), 0),
        xxhash64_v1_id(KeyValue::Text(s)) == xxh64_value(encode_utf8(s), 0),
        xxhash64_v1_id(KeyValue::Bytea(b)) == xxh64_value(b, 0),
        xxhash64_v1_id(KeyValue::Uuid(b)) == xxh64_value(b, 0),
{
    bytes::lemma_be_len(bytes::bits64(v) as nat, 8);
    vstd::arithmetic::power::lemma_pow_adds(256, 4, 4);
    bytes::lemma_pow256();
    bytes::lemma_be_value(bytes::bits64(v) as nat, 8);
}

} // verus!
