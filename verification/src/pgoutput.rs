//! Decoder for PostgreSQL's `pgoutput` logical-replication message format.
//!
//! A logical-replication walsender wraps each of these messages in a `CopyData`
//! frame during `START_REPLICATION`. [`PgOutputDecoder::decode`] turns one such
//! frame body into a [`LogicalRepMsg`]. Decoding is zero-copy — string and value
//! fields borrow the input frame — because every replicated row flows through
//! here on the reshard/CDC hot path.
//!
//! The decoder is stateful in exactly one respect: protocol v2+ prefixes the
//! per-change messages of a *streamed* (in-progress) transaction with their xid,
//! and that prefix is present only between a [`StreamStart`] and a Stream Stop.
//! The decoder tracks that bracket so it reads the prefix exactly when the wire
//! carries it.
//!
//! Every decode is fallible and never panics: a truncated or malformed frame
//! returns a [`DecodeError`] rather than indexing out of bounds.
use crate::bytes;
use crate::lsn::Lsn;
use crate::text;
use vstd::arithmetic::power::pow;
use vstd::prelude::*;
use vstd::slice::*;
use vstd::string::*;
use vstd::utf8::*;

verus! {

/// A PostgreSQL transaction id.
pub type Xid = u32;

/// A PostgreSQL object id.
pub type Oid = u32;

/// Microseconds since `2000-01-01 00:00:00 UTC` (PostgreSQL `TimestampTz`).
pub type TimestampTz = i64;

/// The highest `pgoutput` protocol version this decoder understands.
pub const MAX_SUPPORTED_PROTOCOL_VERSION: u32 = 4;

/// Why a `pgoutput` frame could not be decoded.
#[derive(Debug, Clone, Copy, PartialEq, Eq, Structural)]
pub enum DecodeError {
    /// The field at `offset` needs more bytes than there are.
    Truncated { offset: usize, needed: usize },
    UnknownMessage(u8),
    UnknownTupleKind(u8),
    /// A byte other than `K`, `O` or `N` stands where a tuple marker belongs.
    UnexpectedTupleMarker(u8),
    NegativeLength(i32),
    InvalidUtf8,
    /// So many bytes follow the message.
    TrailingBytes(usize),
}

/// One decoded `pgoutput` message.
#[derive(Debug, PartialEq, Eq)]
pub enum LogicalRepMsg<'a> {
    Begin(Begin),
    Message(Message<'a>),
    Commit(Commit),
    Origin(Origin<'a>),
    Relation(Relation<'a>),
    Type(TypeDecl<'a>),
    Insert(Insert<'a>),
    Update(Update<'a>),
    Delete(Delete<'a>),
    Truncate(Truncate),
    StreamStart(StreamStart),
    StreamStop,
    StreamCommit(StreamCommit),
    StreamAbort(StreamAbort),
    BeginPrepare(PreparedTxn<'a>),
    Prepare(PreparedTxn<'a>),
    CommitPrepared(PreparedTxn<'a>),
    StreamPrepare(PreparedTxn<'a>),
    RollbackPrepared(RollbackPrepared<'a>),
}

#[derive(Debug, Clone, Copy, PartialEq, Eq, Structural)]
pub struct Begin {
    pub final_lsn: Lsn,
    pub commit_timestamp: TimestampTz,
    pub xid: Xid,
}

/// A logical decoding message (`pg_logical_emit_message`). Reshard journals and barrier
/// markers are such messages, so decoding them is load-bearing for CDC.
#[derive(Debug, PartialEq, Eq)]
pub struct Message<'a> {
    /// Present only for a change inside a streamed transaction (protocol v2+).
    pub xid: Option<Xid>,
    pub transactional: bool,
    pub lsn: Lsn,
    pub prefix: &'a str,
    pub content: &'a [u8],
}

#[derive(Debug, Clone, Copy, PartialEq, Eq, Structural)]
pub struct Commit {
    pub commit_lsn: Lsn,
    pub end_lsn: Lsn,
    pub commit_timestamp: TimestampTz,
}

#[derive(Debug, PartialEq, Eq)]
pub struct Origin<'a> {
    pub commit_lsn: Lsn,
    pub name: &'a str,
}

#[derive(Debug, PartialEq, Eq)]
pub struct Relation<'a> {
    pub xid: Option<Xid>,
    pub oid: Oid,
    pub namespace: &'a str,
    pub name: &'a str,
    /// `relreplident` from `pg_class` (`d`/`n`/`f`/`i`).
    pub replica_identity: u8,
    pub columns: Vec<RelationColumn<'a>>,
}

#[derive(Debug, PartialEq, Eq)]
pub struct RelationColumn<'a> {
    pub flags: u8,
    pub name: &'a str,
    pub type_oid: Oid,
    pub type_modifier: i32,
}

impl<'a> RelationColumn<'a> {
    /// Whether the column is part of the replica-identity key.
    pub fn is_key(&self) -> (r: bool)
        ensures
            r == (self.flags % 2 == 1),
    {
        let f: u8 = self.flags;
        assert((f & 1 != 0) == (f % 2 == 1)) by (bit_vector);
        f & 1 != 0
    }
}

#[derive(Debug, PartialEq, Eq)]
pub struct TypeDecl<'a> {
    pub xid: Option<Xid>,
    pub oid: Oid,
    pub namespace: &'a str,
    pub name: &'a str,
}

#[derive(Debug, PartialEq, Eq)]
pub struct Insert<'a> {
    pub xid: Option<Xid>,
    pub rel_oid: Oid,
    pub new_tuple: TupleData<'a>,
}

#[derive(Debug, PartialEq, Eq)]
pub struct Update<'a> {
    pub xid: Option<Xid>,
    pub rel_oid: Oid,
    /// The old row's replica-identity key columns (`REPLICA IDENTITY` index or
    /// changed key), sent as a `K` sub-message. Mutually exclusive with `old`.
    pub key: Option<TupleData<'a>>,
    /// The full old row, sent as an `O` sub-message under `REPLICA IDENTITY FULL`.
    pub old: Option<TupleData<'a>>,
    pub new_tuple: TupleData<'a>,
}

#[derive(Debug, PartialEq, Eq)]
pub struct Delete<'a> {
    pub xid: Option<Xid>,
    pub rel_oid: Oid,
    /// Replica-identity key of the deleted row (`K`). Mutually exclusive with `old`.
    pub key: Option<TupleData<'a>>,
    /// Full deleted row (`O`, under `REPLICA IDENTITY FULL`).
    pub old: Option<TupleData<'a>>,
}

#[derive(Debug, PartialEq, Eq)]
pub struct Truncate {
    pub xid: Option<Xid>,
    pub options: u8,
    pub relations: Vec<Oid>,
}

impl Truncate {
    pub fn cascade(&self) -> (r: bool)
        ensures
            r == (self.options % 2 == 1),
    {
        let o: u8 = self.options;
        assert((o & 1 != 0) == (o % 2 == 1)) by (bit_vector);
        o & 1 != 0
    }

    pub fn restart_identity(&self) -> (r: bool)
        ensures
            r == ((self.options / 2) % 2 == 1),
    {
        let o: u8 = self.options;
        assert((o & 2 != 0) == ((o / 2) % 2 == 1)) by (bit_vector);
        o & 2 != 0
    }
}

#[derive(Debug, Clone, Copy, PartialEq, Eq, Structural)]
pub struct StreamStart {
    pub xid: Xid,
    pub first_segment: bool,
}

#[derive(Debug, Clone, Copy, PartialEq, Eq, Structural)]
pub struct StreamCommit {
    pub xid: Xid,
    pub commit_lsn: Lsn,
    pub end_lsn: Lsn,
    pub commit_timestamp: TimestampTz,
}

#[derive(Debug, Clone, Copy, PartialEq, Eq, Structural)]
pub struct StreamAbort {
    pub xid: Xid,
    pub subxid: Xid,
    /// Present only under protocol v4 with parallel streaming.
    pub abort_lsn: Option<Lsn>,
    /// Present only under protocol v4 with parallel streaming.
    pub abort_timestamp: Option<TimestampTz>,
}

/// The shared shape of Begin Prepare / Prepare / Commit Prepared / Stream Prepare.
/// The leading `flags` byte (unused, always 0) is consumed and dropped.
#[derive(Debug, PartialEq, Eq)]
pub struct PreparedTxn<'a> {
    pub lsn: Lsn,
    pub end_lsn: Lsn,
    pub timestamp: TimestampTz,
    pub xid: Xid,
    pub gid: &'a str,
}

#[derive(Debug, PartialEq, Eq)]
pub struct RollbackPrepared<'a> {
    pub prepared_end_lsn: Lsn,
    pub rollback_end_lsn: Lsn,
    pub prepare_timestamp: TimestampTz,
    pub rollback_timestamp: TimestampTz,
    pub xid: Xid,
    pub gid: &'a str,
}

/// A row image: one entry per published column, in table column order.
#[derive(Debug, PartialEq, Eq)]
pub struct TupleData<'a> {
    pub columns: Vec<TupleColumn<'a>>,
}

/// One column of a [`TupleData`]. Text and binary values borrow the input frame.
#[derive(Debug, PartialEq, Eq)]
pub enum TupleColumn<'a> {
    /// SQL `NULL` (`n`).
    Null,
    /// An unchanged TOASTed value not shipped in this row (`u`); the value must be
    /// carried over from the row's prior state.
    UnchangedToast,
    /// A text-format value (`t`).
    Text(&'a [u8]),
    /// A binary-format value (`b`).
    Binary(&'a [u8]),
}

/// The `streaming` option negotiated at `START_REPLICATION`. It determines
/// whether a Stream Abort carries the protocol-v4 abort LSN and timestamp, which
/// are sent only under parallel streaming.
#[derive(Debug, Clone, Copy, PartialEq, Eq, Structural)]
pub enum StreamMode {
    /// In-progress transactions are not streamed (`streaming off`).
    Off,
    /// In-progress transactions are streamed (`streaming on`, protocol v2+).
    On,
    /// Streamed and applied in parallel (`streaming parallel`, protocol v4+);
    /// Stream Abort additionally carries the abort LSN and timestamp.
    Parallel,
}

// ---------------------------------------------------------------------------------------
// What messages say.
// ---------------------------------------------------------------------------------------

/// What a column of a row is.
#[verifier::ext_equal]
pub enum Cell {
    Null,
    UnchangedToast,
    Text(Seq<u8>),
    Binary(Seq<u8>),
}

impl<'a> View for TupleColumn<'a> {
    type V = Cell;

    open spec fn view(&self) -> Cell {
        match self {
            TupleColumn::Null => Cell::Null,
            TupleColumn::UnchangedToast => Cell::UnchangedToast,
            TupleColumn::Text(b) => Cell::Text(b@),
            TupleColumn::Binary(b) => Cell::Binary(b@),
        }
    }
}

impl<'a> View for TupleData<'a> {
    type V = Seq<Cell>;

    open spec fn view(&self) -> Seq<Cell> {
        self.columns@.map_values(|c: TupleColumn<'a>| c@)
    }
}

/// What a row image that may be absent is.
pub open spec fn row_view(o: Option<TupleData<'_>>) -> Option<Seq<Cell>> {
    match o {
        Some(t) => Some(t@),
        None => None,
    }
}

/// What a column declaration is.
pub struct ColumnDecl {
    pub flags: u8,
    pub name: Seq<char>,
    pub type_oid: Oid,
    pub type_modifier: i32,
}

impl<'a> View for RelationColumn<'a> {
    type V = ColumnDecl;

    open spec fn view(&self) -> ColumnDecl {
        ColumnDecl {
            flags: self.flags,
            name: self.name@,
            type_oid: self.type_oid,
            type_modifier: self.type_modifier,
        }
    }
}

pub open spec fn column_views(s: Seq<RelationColumn<'_>>) -> Seq<ColumnDecl> {
    s.map_values(|c: RelationColumn<'_>| c@)
}

/// What a message says.
#[verifier::ext_equal]
#[allow(inconsistent_fields)]
pub enum Event {
    Begin(Begin),
    Message {
        xid: Option<Xid>,
        transactional: bool,
        lsn: Lsn,
        prefix: Seq<char>,
        content: Seq<u8>,
    },
    Commit(Commit),
    Origin { commit_lsn: Lsn, name: Seq<char> },
    Relation {
        xid: Option<Xid>,
        oid: Oid,
        namespace: Seq<char>,
        name: Seq<char>,
        replica_identity: u8,
        columns: Seq<ColumnDecl>,
    },
    Type { xid: Option<Xid>, oid: Oid, namespace: Seq<char>, name: Seq<char> },
    Insert { xid: Option<Xid>, rel_oid: Oid, new_tuple: Seq<Cell> },
    Update {
        xid: Option<Xid>,
        rel_oid: Oid,
        key: Option<Seq<Cell>>,
        before: Option<Seq<Cell>>,
        new_tuple: Seq<Cell>,
    },
    Delete { xid: Option<Xid>, rel_oid: Oid, key: Option<Seq<Cell>>, before: Option<Seq<Cell>> },
    Truncate { xid: Option<Xid>, options: u8, relations: Seq<Oid> },
    StreamStart(StreamStart),
    StreamStop,
    StreamCommit(StreamCommit),
    StreamAbort(StreamAbort),
    BeginPrepare(TwoPhase),
    Prepare(TwoPhase),
    CommitPrepared(TwoPhase),
    StreamPrepare(TwoPhase),
    RollbackPrepared {
        prepared_end_lsn: Lsn,
        rollback_end_lsn: Lsn,
        prepare_timestamp: TimestampTz,
        rollback_timestamp: TimestampTz,
        xid: Xid,
        gid: Seq<char>,
    },
}

/// What a message on a prepared transaction says.
#[verifier::ext_equal]
pub struct TwoPhase {
    pub lsn: Lsn,
    pub end_lsn: Lsn,
    pub timestamp: TimestampTz,
    pub xid: Xid,
    pub gid: Seq<char>,
}

impl<'a> View for PreparedTxn<'a> {
    type V = TwoPhase;

    open spec fn view(&self) -> TwoPhase {
        TwoPhase {
            lsn: self.lsn,
            end_lsn: self.end_lsn,
            timestamp: self.timestamp,
            xid: self.xid,
            gid: self.gid@,
        }
    }
}

impl<'a> View for LogicalRepMsg<'a> {
    type V = Event;

    open spec fn view(&self) -> Event {
        match self {
            LogicalRepMsg::Begin(m) => Event::Begin(*m),
            LogicalRepMsg::Message(m) => Event::Message {
                xid: m.xid,
                transactional: m.transactional,
                lsn: m.lsn,
                prefix: m.prefix@,
                content: m.content@,
            },
            LogicalRepMsg::Commit(m) => Event::Commit(*m),
            LogicalRepMsg::Origin(m) => Event::Origin { commit_lsn: m.commit_lsn, name: m.name@ },
            LogicalRepMsg::Relation(m) => Event::Relation {
                xid: m.xid,
                oid: m.oid,
                namespace: m.namespace@,
                name: m.name@,
                replica_identity: m.replica_identity,
                columns: column_views(m.columns@),
            },
            LogicalRepMsg::Type(m) => Event::Type {
                xid: m.xid,
                oid: m.oid,
                namespace: m.namespace@,
                name: m.name@,
            },
            LogicalRepMsg::Insert(m) => Event::Insert {
                xid: m.xid,
                rel_oid: m.rel_oid,
                new_tuple: m.new_tuple@,
            },
            LogicalRepMsg::Update(m) => Event::Update {
                xid: m.xid,
                rel_oid: m.rel_oid,
                key: row_view(m.key),
                before: row_view(m.old),
                new_tuple: m.new_tuple@,
            },
            LogicalRepMsg::Delete(m) => Event::Delete {
                xid: m.xid,
                rel_oid: m.rel_oid,
                key: row_view(m.key),
                before: row_view(m.old),
            },
            LogicalRepMsg::Truncate(m) => Event::Truncate {
                xid: m.xid,
                options: m.options,
                relations: m.relations@,
            },
            LogicalRepMsg::StreamStart(m) => Event::StreamStart(*m),
            LogicalRepMsg::StreamStop => Event::StreamStop,
            LogicalRepMsg::StreamCommit(m) => Event::StreamCommit(*m),
            LogicalRepMsg::StreamAbort(m) => Event::StreamAbort(*m),
            LogicalRepMsg::BeginPrepare(m) => Event::BeginPrepare(m@),
            LogicalRepMsg::Prepare(m) => Event::Prepare(m@),
            LogicalRepMsg::CommitPrepared(m) => Event::CommitPrepared(m@),
            LogicalRepMsg::StreamPrepare(m) => Event::StreamPrepare(m@),
            LogicalRepMsg::RollbackPrepared(m) => Event::RollbackPrepared {
                prepared_end_lsn: m.prepared_end_lsn,
                rollback_end_lsn: m.rollback_end_lsn,
                prepare_timestamp: m.prepare_timestamp,
                rollback_timestamp: m.rollback_timestamp,
                xid: m.xid,
                gid: m.gid@,
            },
        }
    }
}

// ---------------------------------------------------------------------------------------
// The format: each field function gives the value at a position and the position after it.
// ---------------------------------------------------------------------------------------

/// What stands at a position, with the position after it, or why nothing does.
pub type Read<T> = Result<(T, int), DecodeError>;

pub open spec fn take_at(b: Seq<u8>, at: int, n: int) -> Read<Seq<u8>> {
    if at + n <= b.len() {
        Ok((b.subrange(at, at + n), at + n))
    } else {
        Err(DecodeError::Truncated { offset: at as usize, needed: n as usize })
    }
}

pub open spec fn u8_at(b: Seq<u8>, at: int) -> Read<u8> {
    match take_at(b, at, 1) {
        Ok((s, p)) => Ok((s[0], p)),
        Err(e) => Err(e),
    }
}

pub open spec fn i16_at(b: Seq<u8>, at: int) -> Read<i16> {
    match take_at(b, at, 2) {
        Ok((s, p)) => Ok((bytes::signed16(bytes::be_value(s) as u16), p)),
        Err(e) => Err(e),
    }
}

pub open spec fn u32_at(b: Seq<u8>, at: int) -> Read<u32> {
    match take_at(b, at, 4) {
        Ok((s, p)) => Ok((bytes::be_value(s) as u32, p)),
        Err(e) => Err(e),
    }
}

pub open spec fn i32_at(b: Seq<u8>, at: int) -> Read<i32> {
    match take_at(b, at, 4) {
        Ok((s, p)) => Ok((bytes::signed32(bytes::be_value(s) as u32), p)),
        Err(e) => Err(e),
    }
}

pub open spec fn i64_at(b: Seq<u8>, at: int) -> Read<i64> {
    match take_at(b, at, 8) {
        Ok((s, p)) => Ok((bytes::signed64(bytes::be_value(s) as u64), p)),
        Err(e) => Err(e),
    }
}

pub open spec fn lsn_at(b: Seq<u8>, at: int) -> Read<Lsn> {
    match take_at(b, at, 8) {
        Ok((s, p)) => Ok((Lsn(bytes::be_value(s) as u64), p)),
        Err(e) => Err(e),
    }
}

/// The position of the first zero byte from `at` on, or the length.
pub open spec fn nul_from(b: Seq<u8>, at: int) -> int
    decreases b.len() - at,
{
    if at >= b.len() || b[at] == 0 {
        at
    } else {
        nul_from(b, at + 1)
    }
}

/// A string that ends with a zero byte.
pub open spec fn cstr_at(b: Seq<u8>, at: int) -> Read<Seq<char>> {
    let nul = nul_from(b, at);
    if nul >= b.len() {
        Err(DecodeError::Truncated { offset: at as usize, needed: 1 })
    } else {
        match bytes::text_of(b.subrange(at, nul)) {
            Some(s) => Ok((s, nul + 1)),
            None => Err(DecodeError::InvalidUtf8),
        }
    }
}

/// A 32-bit length and that many bytes.
pub open spec fn sized_at(b: Seq<u8>, at: int) -> Read<Seq<u8>> {
    match i32_at(b, at) {
        Err(e) => Err(e),
        Ok((n, p)) => if n < 0 {
            Err(DecodeError::NegativeLength(n))
        } else {
            take_at(b, p, n as int)
        },
    }
}

/// The xid that precedes a change inside a streamed transaction, and only there.
pub open spec fn xid_at(b: Seq<u8>, at: int, in_stream: bool) -> Read<Option<Xid>> {
    if in_stream {
        match u32_at(b, at) {
            Ok((x, p)) => Ok((Some(x), p)),
            Err(e) => Err(e),
        }
    } else {
        Ok((None, at))
    }
}

/// Two positions and a time.
pub open spec fn span_at(b: Seq<u8>, at: int) -> Read<(Lsn, Lsn, i64)> {
    match lsn_at(b, at) {
        Err(e) => Err(e),
        Ok((x, p)) => match lsn_at(b, p) {
            Err(e) => Err(e),
            Ok((y, q)) => match i64_at(b, q) {
                Err(e) => Err(e),
                Ok((t, r)) => Ok(((x, y, t), r)),
            },
        },
    }
}

pub open spec fn begin_at(b: Seq<u8>, at: int) -> Read<Begin> {
    match lsn_at(b, at) {
        Err(e) => Err(e),
        Ok((final_lsn, p)) => match i64_at(b, p) {
            Err(e) => Err(e),
            Ok((commit_timestamp, q)) => match u32_at(b, q) {
                Err(e) => Err(e),
                Ok((xid, r)) => Ok((Begin { final_lsn, commit_timestamp, xid }, r)),
            },
        },
    }
}

pub open spec fn message_at(b: Seq<u8>, at: int, in_stream: bool) -> Read<Event> {
    match xid_at(b, at, in_stream) {
        Err(e) => Err(e),
        Ok((xid, p)) => match u8_at(b, p) {
            Err(e) => Err(e),
            Ok((flags, q)) => match lsn_at(b, q) {
                Err(e) => Err(e),
                Ok((lsn, r)) => match cstr_at(b, r) {
                    Err(e) => Err(e),
                    Ok((prefix, s)) => match sized_at(b, s) {
                        Err(e) => Err(e),
                        Ok((content, t)) => Ok(
                            (
                                Event::Message {
                                    xid,
                                    transactional: flags % 2 == 1,
                                    lsn,
                                    prefix,
                                    content,
                                },
                                t,
                            ),
                        ),
                    },
                },
            },
        },
    }
}

pub open spec fn commit_at(b: Seq<u8>, at: int) -> Read<Commit> {
    match u8_at(b, at) {
        Err(e) => Err(e),
        Ok((_, p)) => match span_at(b, p) {
            Err(e) => Err(e),
            Ok(((commit_lsn, end_lsn, commit_timestamp), q)) => Ok(
                (Commit { commit_lsn, end_lsn, commit_timestamp }, q),
            ),
        },
    }
}

pub open spec fn origin_at(b: Seq<u8>, at: int) -> Read<Event> {
    match lsn_at(b, at) {
        Err(e) => Err(e),
        Ok((commit_lsn, p)) => match cstr_at(b, p) {
            Err(e) => Err(e),
            Ok((name, q)) => Ok((Event::Origin { commit_lsn, name }, q)),
        },
    }
}

pub open spec fn column_at(b: Seq<u8>, at: int) -> Read<ColumnDecl> {
    match u8_at(b, at) {
        Err(e) => Err(e),
        Ok((flags, p)) => match cstr_at(b, p) {
            Err(e) => Err(e),
            Ok((name, q)) => match u32_at(b, q) {
                Err(e) => Err(e),
                Ok((type_oid, r)) => match i32_at(b, r) {
                    Err(e) => Err(e),
                    Ok((type_modifier, s)) => Ok(
                        (ColumnDecl { flags, name, type_oid, type_modifier }, s),
                    ),
                },
            },
        },
    }
}

/// `n` column declarations.
pub open spec fn columns_at(b: Seq<u8>, at: int, n: nat) -> Read<Seq<ColumnDecl>>
    decreases n,
{
    if n == 0 {
        Ok((Seq::empty(), at))
    } else {
        match columns_at(b, at, (n - 1) as nat) {
            Err(e) => Err(e),
            Ok((cs, p)) => match column_at(b, p) {
                Err(e) => Err(e),
                Ok((c, q)) => Ok((cs.push(c), q)),
            },
        }
    }
}

/// The namespace and name of something with an object id.
pub open spec fn named_at(b: Seq<u8>, at: int, in_stream: bool) -> Read<
    (Option<Xid>, Oid, Seq<char>, Seq<char>),
> {
    match xid_at(b, at, in_stream) {
        Err(e) => Err(e),
        Ok((xid, p)) => match u32_at(b, p) {
            Err(e) => Err(e),
            Ok((oid, q)) => match cstr_at(b, q) {
                Err(e) => Err(e),
                Ok((namespace, r)) => match cstr_at(b, r) {
                    Err(e) => Err(e),
                    Ok((name, s)) => Ok(((xid, oid, namespace, name), s)),
                },
            },
        },
    }
}

pub open spec fn relation_at(b: Seq<u8>, at: int, in_stream: bool) -> Read<Event> {
    match named_at(b, at, in_stream) {
        Err(e) => Err(e),
        Ok(((xid, oid, namespace, name), p)) => match u8_at(b, p) {
            Err(e) => Err(e),
            Ok((replica_identity, q)) => match i16_at(b, q) {
                Err(e) => Err(e),
                Ok((n, r)) => if n < 0 {
                    Err(DecodeError::NegativeLength(n as i32))
                } else {
                    match columns_at(b, r, n as nat) {
                        Err(e) => Err(e),
                        Ok((columns, s)) => Ok(
                            (
                                Event::Relation {
                                    xid,
                                    oid,
                                    namespace,
                                    name,
                                    replica_identity,
                                    columns,
                                },
                                s,
                            ),
                        ),
                    }
                },
            },
        },
    }
}

pub open spec fn type_at(b: Seq<u8>, at: int, in_stream: bool) -> Read<Event> {
    match named_at(b, at, in_stream) {
        Err(e) => Err(e),
        Ok(((xid, oid, namespace, name), p)) => Ok((Event::Type { xid, oid, namespace, name }, p)),
    }
}

pub open spec fn cell_at(b: Seq<u8>, at: int) -> Read<Cell> {
    match u8_at(b, at) {
        Err(e) => Err(e),
        Ok((kind, p)) => if kind == 0x6e {
            Ok((Cell::Null, p))
        } else if kind == 0x75 {
            Ok((Cell::UnchangedToast, p))
        } else if kind == 0x74 {
            match sized_at(b, p) {
                Err(e) => Err(e),
                Ok((v, q)) => Ok((Cell::Text(v), q)),
            }
        } else if kind == 0x62 {
            match sized_at(b, p) {
                Err(e) => Err(e),
                Ok((v, q)) => Ok((Cell::Binary(v), q)),
            }
        } else {
            Err(DecodeError::UnknownTupleKind(kind))
        },
    }
}

/// `n` columns of a row.
pub open spec fn cells_at(b: Seq<u8>, at: int, n: nat) -> Read<Seq<Cell>>
    decreases n,
{
    if n == 0 {
        Ok((Seq::empty(), at))
    } else {
        match cells_at(b, at, (n - 1) as nat) {
            Err(e) => Err(e),
            Ok((cs, p)) => match cell_at(b, p) {
                Err(e) => Err(e),
                Ok((c, q)) => Ok((cs.push(c), q)),
            },
        }
    }
}

/// A row: a 16-bit count and that many columns.
pub open spec fn row_at(b: Seq<u8>, at: int) -> Read<Seq<Cell>> {
    match i16_at(b, at) {
        Err(e) => Err(e),
        Ok((n, p)) => if n < 0 {
            Err(DecodeError::NegativeLength(n as i32))
        } else {
            cells_at(b, p, n as nat)
        },
    }
}

/// The xid and the relation of a change.
pub open spec fn change_at(b: Seq<u8>, at: int, in_stream: bool) -> Read<(Option<Xid>, Oid)> {
    match xid_at(b, at, in_stream) {
        Err(e) => Err(e),
        Ok((xid, p)) => match u32_at(b, p) {
            Err(e) => Err(e),
            Ok((oid, q)) => Ok(((xid, oid), q)),
        },
    }
}

pub open spec fn insert_at(b: Seq<u8>, at: int, in_stream: bool) -> Read<Event> {
    match change_at(b, at, in_stream) {
        Err(e) => Err(e),
        Ok(((xid, rel_oid), p)) => match u8_at(b, p) {
            Err(e) => Err(e),
            Ok((marker, q)) => if marker != 0x4e {
                Err(DecodeError::UnexpectedTupleMarker(marker))
            } else {
                match row_at(b, q) {
                    Err(e) => Err(e),
                    Ok((new_tuple, r)) => Ok((Event::Insert { xid, rel_oid, new_tuple }, r)),
                }
            },
        },
    }
}

/// The rows of an update: an optional old one, marked `K` or `O`, then the new one, marked
/// `N`. The first component says whether the old one is a key.
pub open spec fn images_at(b: Seq<u8>, at: int) -> Read<
    (Option<Seq<Cell>>, Option<Seq<Cell>>, Seq<Cell>),
> {
    match u8_at(b, at) {
        Err(e) => Err(e),
        Ok((first, p)) => if first == 0x4b || first == 0x4f {
            match row_at(b, p) {
                Err(e) => Err(e),
                Ok((prior, q)) => match u8_at(b, q) {
                    Err(e) => Err(e),
                    Ok((marker, r)) => if marker != 0x4e {
                        Err(DecodeError::UnexpectedTupleMarker(marker))
                    } else {
                        match row_at(b, r) {
                            Err(e) => Err(e),
                            Ok((new_tuple, s)) => if first == 0x4b {
                                Ok(((Some(prior), None, new_tuple), s))
                            } else {
                                Ok(((None, Some(prior), new_tuple), s))
                            },
                        }
                    },
                },
            }
        } else if first != 0x4e {
            Err(DecodeError::UnexpectedTupleMarker(first))
        } else {
            match row_at(b, p) {
                Err(e) => Err(e),
                Ok((new_tuple, s)) => Ok(((None, None, new_tuple), s)),
            }
        },
    }
}

pub open spec fn update_at(b: Seq<u8>, at: int, in_stream: bool) -> Read<Event> {
    match change_at(b, at, in_stream) {
        Err(e) => Err(e),
        Ok(((xid, rel_oid), p)) => match images_at(b, p) {
            Err(e) => Err(e),
            Ok(((key, before, new_tuple), q)) => Ok(
                (Event::Update { xid, rel_oid, key, before, new_tuple }, q),
            ),
        },
    }
}

pub open spec fn delete_at(b: Seq<u8>, at: int, in_stream: bool) -> Read<Event> {
    match change_at(b, at, in_stream) {
        Err(e) => Err(e),
        Ok(((xid, rel_oid), p)) => match u8_at(b, p) {
            Err(e) => Err(e),
            Ok((marker, q)) => if marker == 0x4b || marker == 0x4f {
                match row_at(b, q) {
                    Err(e) => Err(e),
                    Ok((row, r)) => if marker == 0x4b {
                        Ok((Event::Delete { xid, rel_oid, key: Some(row), before: None }, r))
                    } else {
                        Ok((Event::Delete { xid, rel_oid, key: None, before: Some(row) }, r))
                    },
                }
            } else {
                Err(DecodeError::UnexpectedTupleMarker(marker))
            },
        },
    }
}

/// `n` object ids.
pub open spec fn oids_at(b: Seq<u8>, at: int, n: nat) -> Read<Seq<Oid>>
    decreases n,
{
    if n == 0 {
        Ok((Seq::empty(), at))
    } else {
        match oids_at(b, at, (n - 1) as nat) {
            Err(e) => Err(e),
            Ok((os, p)) => match u32_at(b, p) {
                Err(e) => Err(e),
                Ok((o, q)) => Ok((os.push(o), q)),
            },
        }
    }
}

pub open spec fn truncate_at(b: Seq<u8>, at: int, in_stream: bool) -> Read<Event> {
    match xid_at(b, at, in_stream) {
        Err(e) => Err(e),
        Ok((xid, p)) => match i32_at(b, p) {
            Err(e) => Err(e),
            Ok((n, q)) => if n < 0 {
                Err(DecodeError::NegativeLength(n))
            } else {
                match u8_at(b, q) {
                    Err(e) => Err(e),
                    Ok((options, r)) => match oids_at(b, r, n as nat) {
                        Err(e) => Err(e),
                        Ok((relations, s)) => Ok((Event::Truncate { xid, options, relations }, s)),
                    },
                }
            },
        },
    }
}

pub open spec fn stream_start_at(b: Seq<u8>, at: int) -> Read<StreamStart> {
    match u32_at(b, at) {
        Err(e) => Err(e),
        Ok((xid, p)) => match u8_at(b, p) {
            Err(e) => Err(e),
            Ok((first, q)) => Ok((StreamStart { xid, first_segment: first != 0 }, q)),
        },
    }
}

pub open spec fn stream_commit_at(b: Seq<u8>, at: int) -> Read<StreamCommit> {
    match u32_at(b, at) {
        Err(e) => Err(e),
        Ok((xid, p)) => match u8_at(b, p) {
            Err(e) => Err(e),
            Ok((_, q)) => match span_at(b, q) {
                Err(e) => Err(e),
                Ok(((commit_lsn, end_lsn, commit_timestamp), r)) => Ok(
                    (StreamCommit { xid, commit_lsn, end_lsn, commit_timestamp }, r),
                ),
            },
        },
    }
}

pub open spec fn stream_abort_at(b: Seq<u8>, at: int, parallel: bool) -> Read<StreamAbort> {
    match u32_at(b, at) {
        Err(e) => Err(e),
        Ok((xid, p)) => match u32_at(b, p) {
            Err(e) => Err(e),
            Ok((subxid, q)) => if !parallel {
                Ok((StreamAbort { xid, subxid, abort_lsn: None, abort_timestamp: None }, q))
            } else {
                match lsn_at(b, q) {
                    Err(e) => Err(e),
                    Ok((l, r)) => match i64_at(b, r) {
                        Err(e) => Err(e),
                        Ok((t, s)) => Ok(
                            (
                                StreamAbort {
                                    xid,
                                    subxid,
                                    abort_lsn: Some(l),
                                    abort_timestamp: Some(t),
                                },
                                s,
                            ),
                        ),
                    },
                }
            },
        },
    }
}

pub open spec fn two_phase_at(b: Seq<u8>, at: int) -> Read<TwoPhase> {
    match span_at(b, at) {
        Err(e) => Err(e),
        Ok(((lsn, end_lsn, timestamp), p)) => match u32_at(b, p) {
            Err(e) => Err(e),
            Ok((xid, q)) => match cstr_at(b, q) {
                Err(e) => Err(e),
                Ok((gid, r)) => Ok((TwoPhase { lsn, end_lsn, timestamp, xid, gid }, r)),
            },
        },
    }
}

/// The same after a byte of flags.
pub open spec fn flagged_two_phase_at(b: Seq<u8>, at: int) -> Read<TwoPhase> {
    match u8_at(b, at) {
        Err(e) => Err(e),
        Ok((_, p)) => two_phase_at(b, p),
    }
}

pub open spec fn rollback_at(b: Seq<u8>, at: int) -> Read<Event> {
    match u8_at(b, at) {
        Err(e) => Err(e),
        Ok((_, p)) => match span_at(b, p) {
            Err(e) => Err(e),
            Ok(((prepared_end_lsn, rollback_end_lsn, prepare_timestamp), q)) => match i64_at(b, q) {
                Err(e) => Err(e),
                Ok((rollback_timestamp, r)) => match u32_at(b, r) {
                    Err(e) => Err(e),
                    Ok((xid, s)) => match cstr_at(b, s) {
                        Err(e) => Err(e),
                        Ok((gid, t)) => Ok(
                            (
                                Event::RollbackPrepared {
                                    prepared_end_lsn,
                                    rollback_end_lsn,
                                    prepare_timestamp,
                                    rollback_timestamp,
                                    xid,
                                    gid,
                                },
                                t,
                            ),
                        ),
                    },
                },
            },
        },
    }
}

/// A value read, as a message.
pub open spec fn as_event<T>(r: Read<T>, f: spec_fn(T) -> Event) -> Read<Event> {
    match r {
        Ok((v, p)) => Ok((f(v), p)),
        Err(e) => Err(e),
    }
}

/// The message after its type byte.
pub open spec fn body_at(b: Seq<u8>, at: int, tag: u8, in_stream: bool, parallel: bool) -> Read<
    Event,
> {
    if tag == 0x42 {
        as_event(begin_at(b, at), |v: Begin| Event::Begin(v))
    } else if tag == 0x4d {
        message_at(b, at, in_stream)
    } else if tag == 0x43 {
        as_event(commit_at(b, at), |v: Commit| Event::Commit(v))
    } else if tag == 0x4f {
        origin_at(b, at)
    } else if tag == 0x52 {
        relation_at(b, at, in_stream)
    } else if tag == 0x59 {
        type_at(b, at, in_stream)
    } else if tag == 0x49 {
        insert_at(b, at, in_stream)
    } else if tag == 0x55 {
        update_at(b, at, in_stream)
    } else if tag == 0x44 {
        delete_at(b, at, in_stream)
    } else if tag == 0x54 {
        truncate_at(b, at, in_stream)
    } else if tag == 0x53 {
        as_event(stream_start_at(b, at), |v: StreamStart| Event::StreamStart(v))
    } else if tag == 0x45 {
        Ok((Event::StreamStop, at))
    } else if tag == 0x63 {
        as_event(stream_commit_at(b, at), |v: StreamCommit| Event::StreamCommit(v))
    } else if tag == 0x41 {
        as_event(stream_abort_at(b, at, parallel), |v: StreamAbort| Event::StreamAbort(v))
    } else if tag == 0x62 {
        as_event(two_phase_at(b, at), |v: TwoPhase| Event::BeginPrepare(v))
    } else if tag == 0x50 {
        as_event(flagged_two_phase_at(b, at), |v: TwoPhase| Event::Prepare(v))
    } else if tag == 0x4b {
        as_event(flagged_two_phase_at(b, at), |v: TwoPhase| Event::CommitPrepared(v))
    } else if tag == 0x70 {
        as_event(flagged_two_phase_at(b, at), |v: TwoPhase| Event::StreamPrepare(v))
    } else if tag == 0x72 {
        rollback_at(b, at)
    } else {
        Err(DecodeError::UnknownMessage(tag))
    }
}

/// The message that a frame holds: a type byte, its fields, and nothing after them.
pub open spec fn decoded(b: Seq<u8>, in_stream: bool, parallel: bool) -> Result<
    Event,
    DecodeError,
> {
    match u8_at(b, 0) {
        Err(e) => Err(e),
        Ok((tag, p)) => match body_at(b, p, tag, in_stream, parallel) {
            Err(e) => Err(e),
            Ok((m, q)) => if q != b.len() {
                Err(DecodeError::TrailingBytes((b.len() - q) as usize))
            } else {
                Ok(m)
            },
        },
    }
}

/// Whether the frames after a message are inside a streamed transaction.
pub open spec fn stream_after(in_stream: bool, m: Event) -> bool {
    match m {
        Event::StreamStart(_) => true,
        Event::StreamStop => false,
        _ => in_stream,
    }
}

// ---------------------------------------------------------------------------------------
// Reading.
// ---------------------------------------------------------------------------------------

/// A bounds-checked cursor over a frame. Every read either advances within the
/// buffer or returns [`DecodeError::Truncated`]; it never panics.
pub struct Reader<'a> {
    pub buf: &'a [u8],
    pub pos: usize,
}

impl<'a> Reader<'a> {
    pub open spec fn wf(self) -> bool {
        self.pos <= self.buf@.len()
    }

    /// Whether a read that is to give `want` gave `got`, starting here and ending at `then`.
    pub open spec fn reads<T>(self, want: Read<T>, got: Result<T, DecodeError>, then: Self) -> bool {
        &&& then.buf == self.buf
        &&& then.wf()
        &&& match got {
            Ok(v) => want == Ok::<(T, int), DecodeError>((v, then.pos as int)),
            Err(e) => want == Err::<(T, int), DecodeError>(e),
        }
    }

    pub fn new(buf: &'a [u8]) -> (r: Self)
        ensures
            r.buf == buf,
            r.pos == 0,
            r.wf(),
    {
        Reader { buf, pos: 0 }
    }

    pub fn remaining(&self) -> (r: usize)
        requires
            self.wf(),
        ensures
            r == self.buf@.len() - self.pos,
    {
        self.buf.len() - self.pos
    }

    pub fn take(&mut self, n: usize) -> (r: Result<&'a [u8], DecodeError>)
        requires
            old(self).wf(),
        ensures
            final(self).buf == old(self).buf,
            final(self).wf(),
            match r {
                Ok(s) => take_at(old(self).buf@, old(self).pos as int, n as int) == Ok::<
                    (Seq<u8>, int),
                    DecodeError,
                >((s@, final(self).pos as int)) && s@.len() == n,
                Err(e) => take_at(old(self).buf@, old(self).pos as int, n as int) == Err::<
                    (Seq<u8>, int),
                    DecodeError,
                >(e),
            },
    {
        if n > self.buf.len() - self.pos {
            return Err(DecodeError::Truncated { offset: self.pos, needed: n });
        }
        let end: usize = self.pos + n;
        let s = slice_subrange(self.buf, self.pos, end);
        self.pos = end;
        Ok(s)
    }

    pub fn read_u8(&mut self) -> (r: Result<u8, DecodeError>)
        requires
            old(self).wf(),
        ensures
            old(self).reads(u8_at(old(self).buf@, old(self).pos as int), r, *final(self)),
    {
        let b = self.take(1)?;
        Ok(b[0])
    }

    pub fn read_i16(&mut self) -> (r: Result<i16, DecodeError>)
        requires
            old(self).wf(),
        ensures
            old(self).reads(i16_at(old(self).buf@, old(self).pos as int), r, *final(self)),
    {
        let b = self.take(2)?;
        proof {
            bytes::lemma_pow256();
            assert(b@.subrange(0, 2) =~= b@);
        }
        Ok(bytes::to_signed16(bytes::read_be(b, 0, 2) as u16))
    }

    pub fn read_u32(&mut self) -> (r: Result<u32, DecodeError>)
        requires
            old(self).wf(),
        ensures
            old(self).reads(u32_at(old(self).buf@, old(self).pos as int), r, *final(self)),
    {
        let b = self.take(4)?;
        proof {
            bytes::lemma_pow256();
            assert(b@.subrange(0, 4) =~= b@);
        }
        Ok(bytes::read_be(b, 0, 4) as u32)
    }

    pub fn read_i32(&mut self) -> (r: Result<i32, DecodeError>)
        requires
            old(self).wf(),
        ensures
            old(self).reads(i32_at(old(self).buf@, old(self).pos as int), r, *final(self)),
    {
        let b = self.take(4)?;
        proof {
            bytes::lemma_pow256();
            assert(b@.subrange(0, 4) =~= b@);
        }
        Ok(bytes::to_signed32(bytes::read_be(b, 0, 4) as u32))
    }

    pub fn read_i64(&mut self) -> (r: Result<i64, DecodeError>)
        requires
            old(self).wf(),
        ensures
            old(self).reads(i64_at(old(self).buf@, old(self).pos as int), r, *final(self)),
    {
        let b = self.take(8)?;
        proof {
            assert(b@.subrange(0, 8) =~= b@);
        }
        Ok(bytes::to_signed64(bytes::read_be(b, 0, 8)))
    }

    pub fn read_lsn(&mut self) -> (r: Result<Lsn, DecodeError>)
        requires
            old(self).wf(),
        ensures
            old(self).reads(lsn_at(old(self).buf@, old(self).pos as int), r, *final(self)),
    {
        let b = self.take(8)?;
        proof {
            assert(b@.subrange(0, 8) =~= b@);
        }
        Ok(Lsn(bytes::read_be(b, 0, 8)))
    }

    /// Read a null-terminated string field, borrowing the frame.
    ///
    /// pgoutput string fields (schema/table/column/type names, origin name,
    /// message prefix, GID) are in the source server's encoding. This assumes
    /// that encoding is UTF-8 and fails closed (`InvalidUtf8`, halting the stream)
    /// rather than mis-decoding if it is not. Tuple values and message content are
    /// never routed through here; they stay raw bytes.
    pub fn read_cstr(&mut self) -> (r: Result<&'a str, DecodeError>)
        requires
            old(self).wf(),
        ensures
            final(self).buf == old(self).buf,
            final(self).wf(),
            match r {
                Ok(s) => cstr_at(old(self).buf@, old(self).pos as int) == Ok::<
                    (Seq<char>, int),
                    DecodeError,
                >((s@, final(self).pos as int)),
                Err(e) => cstr_at(old(self).buf@, old(self).pos as int) == Err::<
                    (Seq<char>, int),
                    DecodeError,
                >(e),
            },
    {
        let mut nul: usize = self.pos;
        while nul < self.buf.len() && self.buf[nul] != 0
            invariant
                self.pos <= nul <= self.buf@.len(),
                nul_from(self.buf@, self.pos as int) == nul_from(self.buf@, nul as int),
            decreases self.buf@.len() - nul,
        {
            nul += 1;
        }
        if nul == self.buf.len() {
            return Err(DecodeError::Truncated { offset: self.pos, needed: 1 });
        }
        match bytes::utf8_str(slice_subrange(self.buf, self.pos, nul)) {
            Some(s) => {
                self.pos = nul + 1;
                Ok(s)
            },
            None => Err(DecodeError::InvalidUtf8),
        }
    }

    /// Everything that is left.
    pub fn rest(&mut self) -> (r: &'a [u8])
        requires
            old(self).wf(),
        ensures
            final(self).buf == old(self).buf,
            final(self).pos == old(self).buf@.len(),
            final(self).wf(),
            r@ == old(self).buf@.subrange(old(self).pos as int, old(self).buf@.len() as int),
    {
        let end: usize = self.buf.len();
        let s = slice_subrange(self.buf, self.pos, end);
        self.pos = end;
        s
    }
}

/// Convert a wire count/length to a `usize`, rejecting a negative value.
fn count(value: i32) -> (r: Result<usize, DecodeError>)
    ensures
        match r {
            Ok(n) => value >= 0 && n == value,
            Err(e) => value < 0 && e == DecodeError::NegativeLength(value),
        },
{
    if value < 0 {
        Err(DecodeError::NegativeLength(value))
    } else {
        Ok(value as usize)
    }
}

/// Read a change's optional streamed-transaction xid prefix (protocol v2+).
fn stream_xid(r: &mut Reader<'_>, in_stream: bool) -> (res: Result<Option<Xid>, DecodeError>)
    requires
        old(r).wf(),
    ensures
        old(r).reads(xid_at(old(r).buf@, old(r).pos as int, in_stream), res, *final(r)),
{
    if in_stream {
        let xid = r.read_u32()?;
        Ok(Some(xid))
    } else {
        Ok(None)
    }
}

/// Read an `Int32` length followed by that many value bytes.
fn read_sized<'a>(r: &mut Reader<'a>) -> (res: Result<&'a [u8], DecodeError>)
    requires
        old(r).wf(),
    ensures
        final(r).buf == old(r).buf,
        final(r).wf(),
        match res {
            Ok(s) => sized_at(old(r).buf@, old(r).pos as int) == Ok::<(Seq<u8>, int), DecodeError>(
                (s@, final(r).pos as int),
            ),
            Err(e) => sized_at(old(r).buf@, old(r).pos as int) == Err::<
                (Seq<u8>, int),
                DecodeError,
            >(e),
        },
{
    let n = r.read_i32()?;
    let len = count(n)?;
    r.take(len)
}

/// Whether a read that is to give the event `want` gave the message `got`.
pub open spec fn reads_event(
    start: Reader<'_>,
    want: Read<Event>,
    got: Result<LogicalRepMsg<'_>, DecodeError>,
    then: Reader<'_>,
) -> bool {
    &&& then.buf == start.buf
    &&& then.wf()
    &&& match got {
        Ok(m) => want == Ok::<(Event, int), DecodeError>((m@, then.pos as int)),
        Err(e) => want == Err::<(Event, int), DecodeError>(e),
    }
}

fn begin(r: &mut Reader<'_>) -> (res: Result<Begin, DecodeError>)
    requires
        old(r).wf(),
    ensures
        old(r).reads(begin_at(old(r).buf@, old(r).pos as int), res, *final(r)),
{
    let final_lsn = r.read_lsn()?;
    let commit_timestamp = r.read_i64()?;
    let xid = r.read_u32()?;
    Ok(Begin { final_lsn, commit_timestamp, xid })
}

fn logical_message<'a>(r: &mut Reader<'a>, in_stream: bool) -> (res: Result<
    LogicalRepMsg<'a>,
    DecodeError,
>)
    requires
        old(r).wf(),
    ensures
        reads_event(
            *old(r),
            message_at(old(r).buf@, old(r).pos as int, in_stream),
            res,
            *final(r),
        ),
{
    let xid = stream_xid(r, in_stream)?;
    let flags = r.read_u8()?;
    let lsn = r.read_lsn()?;
    let prefix = r.read_cstr()?;
    let content = read_sized(r)?;
    assert((flags & 1 != 0) == (flags % 2 == 1)) by (bit_vector);
    Ok(
        LogicalRepMsg::Message(
            Message { xid, transactional: flags & 1 != 0, lsn, prefix, content },
        ),
    )
}

fn commit(r: &mut Reader<'_>) -> (res: Result<Commit, DecodeError>)
    requires
        old(r).wf(),
    ensures
        old(r).reads(commit_at(old(r).buf@, old(r).pos as int), res, *final(r)),
{
    let _flags = r.read_u8()?;
    let commit_lsn = r.read_lsn()?;
    let end_lsn = r.read_lsn()?;
    let commit_timestamp = r.read_i64()?;
    Ok(Commit { commit_lsn, end_lsn, commit_timestamp })
}

fn origin<'a>(r: &mut Reader<'a>) -> (res: Result<LogicalRepMsg<'a>, DecodeError>)
    requires
        old(r).wf(),
    ensures
        reads_event(*old(r), origin_at(old(r).buf@, old(r).pos as int), res, *final(r)),
{
    let commit_lsn = r.read_lsn()?;
    let name = r.read_cstr()?;
    Ok(LogicalRepMsg::Origin(Origin { commit_lsn, name }))
}

fn relation_column<'a>(r: &mut Reader<'a>) -> (res: Result<RelationColumn<'a>, DecodeError>)
    requires
        old(r).wf(),
    ensures
        final(r).buf == old(r).buf,
        final(r).wf(),
        match res {
            Ok(c) => column_at(old(r).buf@, old(r).pos as int) == Ok::<
                (ColumnDecl, int),
                DecodeError,
            >((c@, final(r).pos as int)),
            Err(e) => column_at(old(r).buf@, old(r).pos as int) == Err::<
                (ColumnDecl, int),
                DecodeError,
            >(e),
        },
{
    let flags = r.read_u8()?;
    let name = r.read_cstr()?;
    let type_oid = r.read_u32()?;
    let type_modifier = r.read_i32()?;
    Ok(RelationColumn { flags, name, type_oid, type_modifier })
}

proof fn lemma_columns_error(b: Seq<u8>, at: int, i: nat, n: nat)
    requires
        i <= n,
        columns_at(b, at, i) is Err,
    ensures
        columns_at(b, at, n) == columns_at(b, at, i),
    decreases n - i,
{
    if i < n {
        lemma_columns_error(b, at, i, (n - 1) as nat);
    }
}

proof fn lemma_cells_error(b: Seq<u8>, at: int, i: nat, n: nat)
    requires
        i <= n,
        cells_at(b, at, i) is Err,
    ensures
        cells_at(b, at, n) == cells_at(b, at, i),
    decreases n - i,
{
    if i < n {
        lemma_cells_error(b, at, i, (n - 1) as nat);
    }
}

proof fn lemma_oids_error(b: Seq<u8>, at: int, i: nat, n: nat)
    requires
        i <= n,
        oids_at(b, at, i) is Err,
    ensures
        oids_at(b, at, n) == oids_at(b, at, i),
    decreases n - i,
{
    if i < n {
        lemma_oids_error(b, at, i, (n - 1) as nat);
    }
}

fn relation_columns<'a>(r: &mut Reader<'a>, n: usize) -> (res: Result<
    Vec<RelationColumn<'a>>,
    DecodeError,
>)
    requires
        old(r).wf(),
    ensures
        final(r).buf == old(r).buf,
        final(r).wf(),
        match res {
            Ok(cs) => columns_at(old(r).buf@, old(r).pos as int, n as nat) == Ok::<
                (Seq<ColumnDecl>, int),
                DecodeError,
            >((column_views(cs@), final(r).pos as int)),
            Err(e) => columns_at(old(r).buf@, old(r).pos as int, n as nat) == Err::<
                (Seq<ColumnDecl>, int),
                DecodeError,
            >(e),
        },
{
    let ghost b = r.buf@;
    let ghost at = r.pos as int;
    let mut columns: Vec<RelationColumn<'a>> = Vec::new();
    let mut i: usize = 0;
    proof {
        assert(column_views(columns@) =~= Seq::<ColumnDecl>::empty());
    }
    while i < n
        invariant
            i <= n,
            r.wf(),
            r.buf == old(r).buf,
            b == old(r).buf@,
            at == old(r).pos,
            columns_at(b, at, i as nat) == Ok::<(Seq<ColumnDecl>, int), DecodeError>(
                (column_views(columns@), r.pos as int),
            ),
        decreases n - i,
    {
        match relation_column(r) {
            Ok(c) => {
                let ghost before = columns@;
                columns.push(c);
                proof {
                    assert(column_views(columns@) =~= column_views(before).push(c@));
                }
            },
            Err(e) => {
                proof {
                    lemma_columns_error(b, at, (i + 1) as nat, n as nat);
                }
                return Err(e);
            },
        }
        i += 1;
    }
    Ok(columns)
}

fn relation<'a>(r: &mut Reader<'a>, in_stream: bool) -> (res: Result<LogicalRepMsg<'a>, DecodeError>)
    requires
        old(r).wf(),
    ensures
        reads_event(
            *old(r),
            relation_at(old(r).buf@, old(r).pos as int, in_stream),
            res,
            *final(r),
        ),
{
    let xid = stream_xid(r, in_stream)?;
    let oid = r.read_u32()?;
    let namespace = r.read_cstr()?;
    let name = r.read_cstr()?;
    let replica_identity = r.read_u8()?;
    let n = r.read_i16()?;
    let n = count(n as i32)?;
    let columns = relation_columns(r, n)?;
    Ok(
        LogicalRepMsg::Relation(
            Relation { xid, oid, namespace, name, replica_identity, columns },
        ),
    )
}

fn type_decl<'a>(r: &mut Reader<'a>, in_stream: bool) -> (res: Result<
    LogicalRepMsg<'a>,
    DecodeError,
>)
    requires
        old(r).wf(),
    ensures
        reads_event(
            *old(r),
            type_at(old(r).buf@, old(r).pos as int, in_stream),
            res,
            *final(r),
        ),
{
    let xid = stream_xid(r, in_stream)?;
    let oid = r.read_u32()?;
    let namespace = r.read_cstr()?;
    let name = r.read_cstr()?;
    Ok(LogicalRepMsg::Type(TypeDecl { xid, oid, namespace, name }))
}

fn tuple_column<'a>(r: &mut Reader<'a>) -> (res: Result<TupleColumn<'a>, DecodeError>)
    requires
        old(r).wf(),
    ensures
        final(r).buf == old(r).buf,
        final(r).wf(),
        match res {
            Ok(c) => cell_at(old(r).buf@, old(r).pos as int) == Ok::<(Cell, int), DecodeError>(
                (c@, final(r).pos as int),
            ),
            Err(e) => cell_at(old(r).buf@, old(r).pos as int) == Err::<(Cell, int), DecodeError>(e),
        },
{
    let kind = r.read_u8()?;
    match kind {
        0x6e => Ok(TupleColumn::Null),
        0x75 => Ok(TupleColumn::UnchangedToast),
        0x74 => {
            let v = read_sized(r)?;
            Ok(TupleColumn::Text(v))
        },
        0x62 => {
            let v = read_sized(r)?;
            Ok(TupleColumn::Binary(v))
        },
        other => Err(DecodeError::UnknownTupleKind(other)),
    }
}

fn tuple_data<'a>(r: &mut Reader<'a>) -> (res: Result<TupleData<'a>, DecodeError>)
    requires
        old(r).wf(),
    ensures
        final(r).buf == old(r).buf,
        final(r).wf(),
        match res {
            Ok(t) => row_at(old(r).buf@, old(r).pos as int) == Ok::<(Seq<Cell>, int), DecodeError>(
                (t@, final(r).pos as int),
            ),
            Err(e) => row_at(old(r).buf@, old(r).pos as int) == Err::<
                (Seq<Cell>, int),
                DecodeError,
            >(e),
        },
{
    let n = r.read_i16()?;
    let n = count(n as i32)?;
    let ghost b = r.buf@;
    let ghost at = r.pos as int;
    let mut tuple = TupleData { columns: Vec::new() };
    let mut i: usize = 0;
    proof {
        assert(tuple@ =~= Seq::<Cell>::empty());
    }
    while i < n
        invariant
            i <= n,
            r.wf(),
            r.buf == old(r).buf,
            b == old(r).buf@,
            row_at(old(r).buf@, old(r).pos as int) == cells_at(b, at, n as nat),
            cells_at(b, at, i as nat) == Ok::<(Seq<Cell>, int), DecodeError>(
                (tuple@, r.pos as int),
            ),
        decreases n - i,
    {
        match tuple_column(r) {
            Ok(c) => {
                let ghost before = tuple@;
                tuple.columns.push(c);
                proof {
                    assert(tuple@ =~= before.push(c@));
                }
            },
            Err(e) => {
                proof {
                    lemma_cells_error(b, at, (i + 1) as nat, n as nat);
                }
                return Err(e);
            },
        }
        i += 1;
    }
    Ok(tuple)
}

fn insert<'a>(r: &mut Reader<'a>, in_stream: bool) -> (res: Result<LogicalRepMsg<'a>, DecodeError>)
    requires
        old(r).wf(),
    ensures
        reads_event(
            *old(r),
            insert_at(old(r).buf@, old(r).pos as int, in_stream),
            res,
            *final(r),
        ),
{
    let xid = stream_xid(r, in_stream)?;
    let rel_oid = r.read_u32()?;
    let marker = r.read_u8()?;
    if marker != 0x4e {
        return Err(DecodeError::UnexpectedTupleMarker(marker));
    }
    let new_tuple = tuple_data(r)?;
    Ok(LogicalRepMsg::Insert(Insert { xid, rel_oid, new_tuple }))
}

fn update<'a>(r: &mut Reader<'a>, in_stream: bool) -> (res: Result<LogicalRepMsg<'a>, DecodeError>)
    requires
        old(r).wf(),
    ensures
        reads_event(
            *old(r),
            update_at(old(r).buf@, old(r).pos as int, in_stream),
            res,
            *final(r),
        ),
{
    let xid = stream_xid(r, in_stream)?;
    let rel_oid = r.read_u32()?;
    // An update carries an optional old-row image (`K` key or `O` full) before the
    // mandatory new-row image (`N`).
    let first = r.read_u8()?;
    let mut key: Option<TupleData<'a>> = None;
    let mut prior: Option<TupleData<'a>> = None;
    let mut marker: u8 = first;
    if first == 0x4b {
        key = Some(tuple_data(r)?);
        marker = r.read_u8()?;
    } else if first == 0x4f {
        prior = Some(tuple_data(r)?);
        marker = r.read_u8()?;
    }
    if marker != 0x4e {
        return Err(DecodeError::UnexpectedTupleMarker(marker));
    }
    let new_tuple = tuple_data(r)?;
    Ok(LogicalRepMsg::Update(Update { xid, rel_oid, key, old: prior, new_tuple }))
}

fn delete<'a>(r: &mut Reader<'a>, in_stream: bool) -> (res: Result<LogicalRepMsg<'a>, DecodeError>)
    requires
        old(r).wf(),
    ensures
        reads_event(
            *old(r),
            delete_at(old(r).buf@, old(r).pos as int, in_stream),
            res,
            *final(r),
        ),
{
    let xid = stream_xid(r, in_stream)?;
    let rel_oid = r.read_u32()?;
    let marker = r.read_u8()?;
    if marker == 0x4b {
        let key = tuple_data(r)?;
        Ok(LogicalRepMsg::Delete(Delete { xid, rel_oid, key: Some(key), old: None }))
    } else if marker == 0x4f {
        let row = tuple_data(r)?;
        Ok(LogicalRepMsg::Delete(Delete { xid, rel_oid, key: None, old: Some(row) }))
    } else {
        Err(DecodeError::UnexpectedTupleMarker(marker))
    }
}

fn truncate<'a>(r: &mut Reader<'a>, in_stream: bool) -> (res: Result<
    LogicalRepMsg<'a>,
    DecodeError,
>)
    requires
        old(r).wf(),
    ensures
        reads_event(
            *old(r),
            truncate_at(old(r).buf@, old(r).pos as int, in_stream),
            res,
            *final(r),
        ),
{
    let xid = stream_xid(r, in_stream)?;
    let n = r.read_i32()?;
    let n = count(n)?;
    let options = r.read_u8()?;
    let ghost b = r.buf@;
    let ghost at = r.pos as int;
    let mut relations: Vec<Oid> = Vec::new();
    let mut i: usize = 0;
    while i < n
        invariant
            i <= n,
            r.wf(),
            r.buf == old(r).buf,
            b == old(r).buf@,
            truncate_at(old(r).buf@, old(r).pos as int, in_stream) == (match oids_at(
                b,
                at,
                n as nat,
            ) {
                Err(e) => Err(e),
                Ok((relations, s)) => Ok((Event::Truncate { xid, options, relations }, s)),
            }),
            oids_at(b, at, i as nat) == Ok::<(Seq<Oid>, int), DecodeError>(
                (relations@, r.pos as int),
            ),
        decreases n - i,
    {
        match r.read_u32() {
            Ok(o) => {
                relations.push(o);
            },
            Err(e) => {
                proof {
                    lemma_oids_error(b, at, (i + 1) as nat, n as nat);
                }
                return Err(e);
            },
        }
        i += 1;
    }
    Ok(LogicalRepMsg::Truncate(Truncate { xid, options, relations }))
}

fn stream_start(r: &mut Reader<'_>) -> (res: Result<StreamStart, DecodeError>)
    requires
        old(r).wf(),
    ensures
        old(r).reads(stream_start_at(old(r).buf@, old(r).pos as int), res, *final(r)),
{
    let xid = r.read_u32()?;
    let first = r.read_u8()?;
    Ok(StreamStart { xid, first_segment: first != 0 })
}

fn stream_commit(r: &mut Reader<'_>) -> (res: Result<StreamCommit, DecodeError>)
    requires
        old(r).wf(),
    ensures
        old(r).reads(stream_commit_at(old(r).buf@, old(r).pos as int), res, *final(r)),
{
    let xid = r.read_u32()?;
    let _flags = r.read_u8()?;
    let commit_lsn = r.read_lsn()?;
    let end_lsn = r.read_lsn()?;
    let commit_timestamp = r.read_i64()?;
    Ok(StreamCommit { xid, commit_lsn, end_lsn, commit_timestamp })
}

fn stream_abort(r: &mut Reader<'_>, parallel: bool) -> (res: Result<StreamAbort, DecodeError>)
    requires
        old(r).wf(),
    ensures
        old(r).reads(stream_abort_at(old(r).buf@, old(r).pos as int, parallel), res, *final(r)),
{
    let xid = r.read_u32()?;
    let subxid = r.read_u32()?;
    // The abort LSN and timestamp are sent only under parallel streaming (which
    // implies protocol v4). Reading them is driven by the negotiated stream mode,
    // not by guessing from the remaining length.
    if parallel {
        let abort_lsn = r.read_lsn()?;
        let abort_timestamp = r.read_i64()?;
        Ok(
            StreamAbort {
                xid,
                subxid,
                abort_lsn: Some(abort_lsn),
                abort_timestamp: Some(abort_timestamp),
            },
        )
    } else {
        Ok(StreamAbort { xid, subxid, abort_lsn: None, abort_timestamp: None })
    }
}

fn prepared<'a>(r: &mut Reader<'a>, has_flags: bool) -> (res: Result<PreparedTxn<'a>, DecodeError>)
    requires
        old(r).wf(),
    ensures
        final(r).buf == old(r).buf,
        final(r).wf(),
        ({
            let want = if has_flags {
                flagged_two_phase_at(old(r).buf@, old(r).pos as int)
            } else {
                two_phase_at(old(r).buf@, old(r).pos as int)
            };
            match res {
                Ok(t) => want == Ok::<(TwoPhase, int), DecodeError>((t@, final(r).pos as int)),
                Err(e) => want == Err::<(TwoPhase, int), DecodeError>(e),
            }
        }),
{
    if has_flags {
        let _flags = r.read_u8()?;
    }
    let lsn = r.read_lsn()?;
    let end_lsn = r.read_lsn()?;
    let timestamp = r.read_i64()?;
    let xid = r.read_u32()?;
    let gid = r.read_cstr()?;
    Ok(PreparedTxn { lsn, end_lsn, timestamp, xid, gid })
}

fn rollback_prepared<'a>(r: &mut Reader<'a>) -> (res: Result<LogicalRepMsg<'a>, DecodeError>)
    requires
        old(r).wf(),
    ensures
        reads_event(*old(r), rollback_at(old(r).buf@, old(r).pos as int), res, *final(r)),
{
    let _flags = r.read_u8()?;
    let prepared_end_lsn = r.read_lsn()?;
    let rollback_end_lsn = r.read_lsn()?;
    let prepare_timestamp = r.read_i64()?;
    let rollback_timestamp = r.read_i64()?;
    let xid = r.read_u32()?;
    let gid = r.read_cstr()?;
    Ok(
        LogicalRepMsg::RollbackPrepared(
            RollbackPrepared {
                prepared_end_lsn,
                rollback_end_lsn,
                prepare_timestamp,
                rollback_timestamp,
                xid,
                gid,
            },
        ),
    )
}

/// The message after its type byte.
fn body<'a>(r: &mut Reader<'a>, tag: u8, in_stream: bool, parallel: bool) -> (res: Result<
    LogicalRepMsg<'a>,
    DecodeError,
>)
    requires
        old(r).wf(),
    ensures
        reads_event(
            *old(r),
            body_at(old(r).buf@, old(r).pos as int, tag, in_stream, parallel),
            res,
            *final(r),
        ),
{
    match tag {
        0x42 => {
            let m = begin(r)?;
            Ok(LogicalRepMsg::Begin(m))
        },
        0x4d => logical_message(r, in_stream),
        0x43 => {
            let m = commit(r)?;
            Ok(LogicalRepMsg::Commit(m))
        },
        0x4f => origin(r),
        0x52 => relation(r, in_stream),
        0x59 => type_decl(r, in_stream),
        0x49 => insert(r, in_stream),
        0x55 => update(r, in_stream),
        0x44 => delete(r, in_stream),
        0x54 => truncate(r, in_stream),
        0x53 => {
            let m = stream_start(r)?;
            Ok(LogicalRepMsg::StreamStart(m))
        },
        0x45 => Ok(LogicalRepMsg::StreamStop),
        0x63 => {
            let m = stream_commit(r)?;
            Ok(LogicalRepMsg::StreamCommit(m))
        },
        0x41 => {
            let m = stream_abort(r, parallel)?;
            Ok(LogicalRepMsg::StreamAbort(m))
        },
        0x62 => {
            let m = prepared(r, false)?;
            Ok(LogicalRepMsg::BeginPrepare(m))
        },
        0x50 => {
            let m = prepared(r, true)?;
            Ok(LogicalRepMsg::Prepare(m))
        },
        0x4b => {
            let m = prepared(r, true)?;
            Ok(LogicalRepMsg::CommitPrepared(m))
        },
        0x70 => {
            let m = prepared(r, true)?;
            Ok(LogicalRepMsg::StreamPrepare(m))
        },
        0x72 => rollback_prepared(r),
        other => Err(DecodeError::UnknownMessage(other)),
    }
}

/// Decodes a stream of `pgoutput` frames, tracking the streamed-transaction
/// bracket so per-change xid prefixes are read exactly when present.
#[derive(Debug, Clone, Copy)]
pub struct PgOutputDecoder {
    pub protocol_version: u32,
    pub stream_mode: StreamMode,
    pub in_stream: bool,
}

impl PgOutputDecoder {
    /// A decoder for the given negotiated `pgoutput` protocol version, without
    /// streaming of in-progress transactions.
    pub fn new(protocol_version: u32) -> (r: Self)
        ensures
            r.protocol_version == protocol_version,
            r.stream_mode == StreamMode::Off,
            !r.in_stream,
    {
        Self::with_stream_mode(protocol_version, StreamMode::Off)
    }

    /// A decoder for the given negotiated protocol version and streaming mode.
    pub fn with_stream_mode(protocol_version: u32, stream_mode: StreamMode) -> (r: Self)
        ensures
            r.protocol_version == protocol_version,
            r.stream_mode == stream_mode,
            !r.in_stream,
    {
        PgOutputDecoder { protocol_version, stream_mode, in_stream: false }
    }

    pub fn protocol_version(&self) -> (r: u32)
        ensures
            r == self.protocol_version,
    {
        self.protocol_version
    }

    pub fn stream_mode(&self) -> (r: StreamMode)
        ensures
            r == self.stream_mode,
    {
        self.stream_mode
    }

    /// Whether the decoder is currently between a Stream Start and Stream Stop.
    pub fn in_stream(&self) -> (r: bool)
        ensures
            r == self.in_stream,
    {
        self.in_stream
    }

    /// Decode one `pgoutput` frame body. A frame that cannot be decoded leaves the decoder
    /// as it was, so that a following change's xid prefix is not misread.
    pub fn decode<'a>(&mut self, frame: &'a [u8]) -> (r: Result<LogicalRepMsg<'a>, DecodeError>)
        ensures
            final(self).protocol_version == old(self).protocol_version,
            final(self).stream_mode == old(self).stream_mode,
            match r {
                Ok(m) => decoded(
                    frame@,
                    old(self).in_stream,
                    old(self).stream_mode == StreamMode::Parallel,
                ) == Ok::<Event, DecodeError>(m@) && final(self).in_stream == stream_after(
                    old(self).in_stream,
                    m@,
                ),
                Err(e) => decoded(
                    frame@,
                    old(self).in_stream,
                    old(self).stream_mode == StreamMode::Parallel,
                ) == Err::<Event, DecodeError>(e) && final(self).in_stream == old(self).in_stream,
            },
    {
        let mut r = Reader::new(frame);
        let tag = r.read_u8()?;
        let in_stream = self.in_stream;
        let parallel = self.stream_mode == StreamMode::Parallel;
        let msg = body(&mut r, tag, in_stream, parallel)?;
        if r.remaining() != 0 {
            return Err(DecodeError::TrailingBytes(r.remaining()));
        }
        match &msg {
            LogicalRepMsg::StreamStart(_) => {
                self.in_stream = true;
            },
            LogicalRepMsg::StreamStop => {
                self.in_stream = false;
            },
            _ => {},
        }
        Ok(msg)
    }
}

/// The xid of a change, where the message is one.
pub open spec fn change_xid(m: Event) -> Option<Option<Xid>> {
    match m {
        Event::Message { xid, .. } => Some(xid),
        Event::Relation { xid, .. } => Some(xid),
        Event::Type { xid, .. } => Some(xid),
        Event::Insert { xid, .. } => Some(xid),
        Event::Update { xid, .. } => Some(xid),
        Event::Delete { xid, .. } => Some(xid),
        Event::Truncate { xid, .. } => Some(xid),
        _ => None,
    }
}

/// Whether a message with this type byte is a change: only the seven change messages carry
/// the xid of a streamed transaction.
pub open spec fn is_change_tag(tag: u8) -> bool {
    tag == 0x4d || tag == 0x52 || tag == 0x59 || tag == 0x49 || tag == 0x55 || tag == 0x44 || tag
        == 0x54
}

/// Whether a read gives a change with the xid that stands at its start inside a stream, and
/// with none outside.
spec fn xid_fits(r: Read<Event>, b: Seq<u8>, at: int, in_stream: bool) -> bool {
    match r {
        Ok((m, _)) => change_xid(m) == Some(
            if in_stream {
                Some(bytes::be_value(b.subrange(at, at + 4)) as u32)
            } else {
                None
            },
        ),
        Err(_) => true,
    }
}

proof fn lemma_message_xid(b: Seq<u8>, at: int, in_stream: bool)
    ensures
        xid_fits(message_at(b, at, in_stream), b, at, in_stream),
{
}

proof fn lemma_named_xid(b: Seq<u8>, at: int, in_stream: bool)
    ensures
        xid_fits(relation_at(b, at, in_stream), b, at, in_stream),
        xid_fits(type_at(b, at, in_stream), b, at, in_stream),
{
}

proof fn lemma_row_xid(b: Seq<u8>, at: int, in_stream: bool)
    ensures
        xid_fits(insert_at(b, at, in_stream), b, at, in_stream),
        xid_fits(delete_at(b, at, in_stream), b, at, in_stream),
        xid_fits(truncate_at(b, at, in_stream), b, at, in_stream),
{
}

proof fn lemma_update_xid(b: Seq<u8>, at: int, in_stream: bool)
    ensures
        xid_fits(update_at(b, at, in_stream), b, at, in_stream),
{
}

/// A change carries its transaction's id exactly inside a streamed transaction: the four
/// bytes behind the type byte, big-endian.
pub proof fn law_xid_prefix_follows_the_bracket(b: Seq<u8>, in_stream: bool, parallel: bool)
    ensures
        match decoded(b, in_stream, parallel) {
            Ok(m) => {
                &&& change_xid(m) is Some <==> is_change_tag(b[0])
                &&& change_xid(m) matches Some(x) ==> x == (if in_stream {
                    Some(bytes::be_value(b.subrange(1, 5)) as u32)
                } else {
                    None
                })
            },
            Err(_) => true,
        },
{
    if let Ok((tag, p)) = u8_at(b, 0) {
        if tag == 0x4d {
            lemma_message_xid(b, p, in_stream);
        } else if tag == 0x52 || tag == 0x59 {
            lemma_named_xid(b, p, in_stream);
        } else if tag == 0x49 || tag == 0x44 || tag == 0x54 {
            lemma_row_xid(b, p, in_stream);
        } else if tag == 0x55 {
            lemma_update_xid(b, p, in_stream);
        } else {
            lemma_other_tags(b, p, tag, in_stream, parallel);
        }
    }
}

#[verifier::rlimit(60)]
proof fn lemma_other_tags(b: Seq<u8>, at: int, tag: u8, in_stream: bool, parallel: bool)
    requires
        !is_change_tag(tag),
    ensures
        body_at(b, at, tag, in_stream, parallel) matches Ok((m, _)) ==> change_xid(m) is None,
{
}

// ---------------------------------------------------------------------------------------
// Frames that agree as far as both go.
// ---------------------------------------------------------------------------------------

/// Whether one of two frames begins with the other.
spec fn agree(b: Seq<u8>, c: Seq<u8>) -> bool {
    forall|i: int| 0 <= i < b.len() && i < c.len() ==> #[trigger] b[i] == c[i]
}

/// Whether a read from `at` on that succeeds in a frame of length `bl` stays inside it, and
/// gives the same in one of length `cl` that agrees with it, or is cut short by its end.
spec fn local<T>(fb: Read<T>, fc: Read<T>, at: int, bl: nat, cl: nat) -> bool {
    fb matches Ok((_, q)) ==> {
        &&& at <= q <= bl
        &&& q <= cl ==> fc == fb
        &&& at <= cl < q ==> fc is Err && fc->Err_0 is Truncated
    }
}

proof fn lemma_take_local(b: Seq<u8>, c: Seq<u8>, at: int, n: int)
    requires
        agree(b, c),
        0 <= at <= b.len(),
        0 <= n,
    ensures
        local(take_at(b, at, n), take_at(c, at, n), at, b.len(), c.len()),
{
    if at + n <= b.len() && at + n <= c.len() {
        let s = b.subrange(at, at + n);
        let t = c.subrange(at, at + n);
        assert forall|k: int| 0 <= k < n implies s[k] == t[k] by {
            assert(b[at + k] == c[at + k]);
        }
        assert(s =~= t);
    }
}

proof fn lemma_nul(b: Seq<u8>, at: int)
    requires
        0 <= at <= b.len(),
    ensures
        at <= nul_from(b, at) <= b.len(),
    decreases b.len() - at,
{
    if at < b.len() && b[at] != 0 {
        lemma_nul(b, at + 1);
    }
}

proof fn lemma_nul_local(b: Seq<u8>, c: Seq<u8>, at: int)
    requires
        agree(b, c),
        0 <= at <= b.len(),
        at <= c.len(),
        nul_from(b, at) < b.len(),
    ensures
        nul_from(c, at) == (if nul_from(b, at) < c.len() {
            nul_from(b, at)
        } else {
            c.len() as int
        }),
    decreases b.len() - at,
{
    lemma_nul(b, at);
    if at < c.len() {
        assert(b[at] == c[at]);
        if b[at] != 0 {
            lemma_nul(b, at + 1);
            lemma_nul_local(b, c, at + 1);
        }
    }
}

proof fn lemma_cstr_local(b: Seq<u8>, c: Seq<u8>, at: int)
    requires
        agree(b, c),
        0 <= at <= b.len(),
    ensures
        local(cstr_at(b, at), cstr_at(c, at), at, b.len(), c.len()),
{
    lemma_nul(b, at);
    if nul_from(b, at) < b.len() {
        if at <= c.len() {
            lemma_nul_local(b, c, at);
        }
        let nul = nul_from(b, at);
        if nul < c.len() {
            let s = b.subrange(at, nul);
            let t = c.subrange(at, nul);
            assert forall|k: int| 0 <= k < nul - at implies s[k] == t[k] by {
                assert(b[at + k] == c[at + k]);
            }
            assert(s =~= t);
        }
    }
}

/// Every field is read alike.
proof fn lemma_fields_local(b: Seq<u8>, c: Seq<u8>)
    requires
        agree(b, c),
    ensures
        forall|at: int|
            0 <= at <= b.len() ==> local(
                #[trigger] u8_at(b, at),
                u8_at(c, at),
                at,
                b.len(),
                c.len(),
            ),
        forall|at: int|
            0 <= at <= b.len() ==> local(
                #[trigger] i16_at(b, at),
                i16_at(c, at),
                at,
                b.len(),
                c.len(),
            ),
        forall|at: int|
            0 <= at <= b.len() ==> local(
                #[trigger] u32_at(b, at),
                u32_at(c, at),
                at,
                b.len(),
                c.len(),
            ),
        forall|at: int|
            0 <= at <= b.len() ==> local(
                #[trigger] i32_at(b, at),
                i32_at(c, at),
                at,
                b.len(),
                c.len(),
            ),
        forall|at: int|
            0 <= at <= b.len() ==> local(
                #[trigger] i64_at(b, at),
                i64_at(c, at),
                at,
                b.len(),
                c.len(),
            ),
        forall|at: int|
            0 <= at <= b.len() ==> local(
                #[trigger] lsn_at(b, at),
                lsn_at(c, at),
                at,
                b.len(),
                c.len(),
            ),
        forall|at: int|
            0 <= at <= b.len() ==> local(
                #[trigger] cstr_at(b, at),
                cstr_at(c, at),
                at,
                b.len(),
                c.len(),
            ),
        forall|at: int|
            0 <= at <= b.len() ==> local(
                #[trigger] sized_at(b, at),
                sized_at(c, at),
                at,
                b.len(),
                c.len(),
            ),
        forall|at: int, in_stream: bool|
            0 <= at <= b.len() ==> local(
                #[trigger] xid_at(b, at, in_stream),
                xid_at(c, at, in_stream),
                at,
                b.len(),
                c.len(),
            ),
{
    assert forall|at: int, n: int|
        0 <= at <= b.len() && 0 <= n implies local(
        #[trigger] take_at(b, at, n),
        take_at(c, at, n),
        at,
        b.len(),
        c.len(),
    ) by {
        lemma_take_local(b, c, at, n);
    }
    assert forall|at: int| 0 <= at <= b.len() implies local(
        #[trigger] cstr_at(b, at),
        cstr_at(c, at),
        at,
        b.len(),
        c.len(),
    ) by {
        lemma_cstr_local(b, c, at);
    }
}

proof fn lemma_columns_local(b: Seq<u8>, c: Seq<u8>, at: int, n: nat)
    requires
        agree(b, c),
        0 <= at <= b.len(),
    ensures
        local(columns_at(b, at, n), columns_at(c, at, n), at, b.len(), c.len()),
    decreases n,
{
    lemma_fields_local(b, c);
    if n > 0 {
        lemma_columns_local(b, c, at, (n - 1) as nat);
    }
}

proof fn lemma_cells_local(b: Seq<u8>, c: Seq<u8>, at: int, n: nat)
    requires
        agree(b, c),
        0 <= at <= b.len(),
    ensures
        local(cells_at(b, at, n), cells_at(c, at, n), at, b.len(), c.len()),
    decreases n,
{
    lemma_fields_local(b, c);
    if n > 0 {
        lemma_cells_local(b, c, at, (n - 1) as nat);
    }
}

proof fn lemma_oids_local(b: Seq<u8>, c: Seq<u8>, at: int, n: nat)
    requires
        agree(b, c),
        0 <= at <= b.len(),
    ensures
        local(oids_at(b, at, n), oids_at(c, at, n), at, b.len(), c.len()),
    decreases n,
{
    lemma_fields_local(b, c);
    if n > 0 {
        lemma_oids_local(b, c, at, (n - 1) as nat);
    }
}

proof fn lemma_row_local(b: Seq<u8>, c: Seq<u8>, at: int)
    requires
        agree(b, c),
        0 <= at <= b.len(),
    ensures
        local(row_at(b, at), row_at(c, at), at, b.len(), c.len()),
{
    lemma_fields_local(b, c);
    if let Ok((n, p)) = i16_at(b, at) {
        if n >= 0 {
            lemma_cells_local(b, c, p, n as nat);
        }
    }
}

proof fn lemma_change_local(b: Seq<u8>, c: Seq<u8>, at: int, in_stream: bool)
    requires
        agree(b, c),
        0 <= at <= b.len(),
    ensures
        local(message_at(b, at, in_stream), message_at(c, at, in_stream), at, b.len(), c.len()),
        local(named_at(b, at, in_stream), named_at(c, at, in_stream), at, b.len(), c.len()),
        local(type_at(b, at, in_stream), type_at(c, at, in_stream), at, b.len(), c.len()),
        local(change_at(b, at, in_stream), change_at(c, at, in_stream), at, b.len(), c.len()),
{
    lemma_fields_local(b, c);
}

proof fn lemma_listing_local(b: Seq<u8>, c: Seq<u8>, at: int, in_stream: bool)
    requires
        agree(b, c),
        0 <= at <= b.len(),
    ensures
        local(relation_at(b, at, in_stream), relation_at(c, at, in_stream), at, b.len(), c.len()),
        local(truncate_at(b, at, in_stream), truncate_at(c, at, in_stream), at, b.len(), c.len()),
{
    lemma_fields_local(b, c);
    lemma_change_local(b, c, at, in_stream);
    assert forall|p: int, n: nat| 0 <= p <= b.len() implies local(
        #[trigger] columns_at(b, p, n),
        columns_at(c, p, n),
        p,
        b.len(),
        c.len(),
    ) by {
        lemma_columns_local(b, c, p, n);
    }
    assert forall|p: int, n: nat| 0 <= p <= b.len() implies local(
        #[trigger] oids_at(b, p, n),
        oids_at(c, p, n),
        p,
        b.len(),
        c.len(),
    ) by {
        lemma_oids_local(b, c, p, n);
    }
}

proof fn lemma_images_local(b: Seq<u8>, c: Seq<u8>, at: int)
    requires
        agree(b, c),
        0 <= at <= b.len(),
    ensures
        local(images_at(b, at), images_at(c, at), at, b.len(), c.len()),
{
    lemma_fields_local(b, c);
    assert forall|p: int| 0 <= p <= b.len() implies local(
        #[trigger] row_at(b, p),
        row_at(c, p),
        p,
        b.len(),
        c.len(),
    ) by {
        lemma_row_local(b, c, p);
    }
}

proof fn lemma_rows_local(b: Seq<u8>, c: Seq<u8>, at: int, in_stream: bool)
    requires
        agree(b, c),
        0 <= at <= b.len(),
    ensures
        local(insert_at(b, at, in_stream), insert_at(c, at, in_stream), at, b.len(), c.len()),
        local(update_at(b, at, in_stream), update_at(c, at, in_stream), at, b.len(), c.len()),
        local(delete_at(b, at, in_stream), delete_at(c, at, in_stream), at, b.len(), c.len()),
{
    lemma_fields_local(b, c);
    lemma_change_local(b, c, at, in_stream);
    assert forall|p: int| 0 <= p <= b.len() implies local(
        #[trigger] row_at(b, p),
        row_at(c, p),
        p,
        b.len(),
        c.len(),
    ) by {
        lemma_row_local(b, c, p);
    }
    assert forall|p: int| 0 <= p <= b.len() implies local(
        #[trigger] images_at(b, p),
        images_at(c, p),
        p,
        b.len(),
        c.len(),
    ) by {
        lemma_images_local(b, c, p);
    }
}

proof fn lemma_stream_local(b: Seq<u8>, c: Seq<u8>, at: int, parallel: bool)
    requires
        agree(b, c),
        0 <= at <= b.len(),
    ensures
        local(begin_at(b, at), begin_at(c, at), at, b.len(), c.len()),
        local(commit_at(b, at), commit_at(c, at), at, b.len(), c.len()),
        local(origin_at(b, at), origin_at(c, at), at, b.len(), c.len()),
        local(stream_start_at(b, at), stream_start_at(c, at), at, b.len(), c.len()),
        local(stream_commit_at(b, at), stream_commit_at(c, at), at, b.len(), c.len()),
        local(
            stream_abort_at(b, at, parallel),
            stream_abort_at(c, at, parallel),
            at,
            b.len(),
            c.len(),
        ),
{
    lemma_fields_local(b, c);
}

proof fn lemma_prepared_local(b: Seq<u8>, c: Seq<u8>, at: int)
    requires
        agree(b, c),
        0 <= at <= b.len(),
    ensures
        local(two_phase_at(b, at), two_phase_at(c, at), at, b.len(), c.len()),
        local(flagged_two_phase_at(b, at), flagged_two_phase_at(c, at), at, b.len(), c.len()),
        local(rollback_at(b, at), rollback_at(c, at), at, b.len(), c.len()),
{
    lemma_fields_local(b, c);
}

#[verifier::spinoff_prover]
#[verifier::rlimit(40)]
proof fn lemma_change_body_local(
    b: Seq<u8>,
    c: Seq<u8>,
    at: int,
    tag: u8,
    in_stream: bool,
    parallel: bool,
)
    requires
        agree(b, c),
        0 <= at <= b.len(),
        is_change_tag(tag),
    ensures
        local(
            body_at(b, at, tag, in_stream, parallel),
            body_at(c, at, tag, in_stream, parallel),
            at,
            b.len(),
            c.len(),
        ),
{
    if tag == 0x4d || tag == 0x59 {
        lemma_change_local(b, c, at, in_stream);
    } else if tag == 0x52 || tag == 0x54 {
        lemma_listing_local(b, c, at, in_stream);
    } else {
        lemma_rows_local(b, c, at, in_stream);
    }
}

#[verifier::spinoff_prover]
#[verifier::rlimit(40)]
proof fn lemma_stream_body_local(
    b: Seq<u8>,
    c: Seq<u8>,
    at: int,
    tag: u8,
    in_stream: bool,
    parallel: bool,
)
    requires
        agree(b, c),
        0 <= at <= b.len(),
        tag == 0x42 || tag == 0x43 || tag == 0x4f || tag == 0x53 || tag == 0x45 || tag == 0x63
            || tag == 0x41,
    ensures
        local(
            body_at(b, at, tag, in_stream, parallel),
            body_at(c, at, tag, in_stream, parallel),
            at,
            b.len(),
            c.len(),
        ),
{
    lemma_stream_local(b, c, at, parallel);
}

#[verifier::spinoff_prover]
#[verifier::rlimit(40)]
proof fn lemma_prepared_body_local(
    b: Seq<u8>,
    c: Seq<u8>,
    at: int,
    tag: u8,
    in_stream: bool,
    parallel: bool,
)
    requires
        agree(b, c),
        0 <= at <= b.len(),
        tag == 0x62 || tag == 0x50 || tag == 0x4b || tag == 0x70 || tag == 0x72,
    ensures
        local(
            body_at(b, at, tag, in_stream, parallel),
            body_at(c, at, tag, in_stream, parallel),
            at,
            b.len(),
            c.len(),
        ),
{
    lemma_prepared_local(b, c, at);
}

#[verifier::spinoff_prover]
proof fn lemma_body_local(
    b: Seq<u8>,
    c: Seq<u8>,
    at: int,
    tag: u8,
    in_stream: bool,
    parallel: bool,
)
    requires
        agree(b, c),
        0 <= at <= b.len(),
    ensures
        local(
            body_at(b, at, tag, in_stream, parallel),
            body_at(c, at, tag, in_stream, parallel),
            at,
            b.len(),
            c.len(),
        ),
{
    if is_change_tag(tag) {
        lemma_change_body_local(b, c, at, tag, in_stream, parallel);
    } else if tag == 0x62 || tag == 0x50 || tag == 0x4b || tag == 0x70 || tag == 0x72 {
        lemma_prepared_body_local(b, c, at, tag, in_stream, parallel);
    } else if tag == 0x42 || tag == 0x43 || tag == 0x4f || tag == 0x53 || tag == 0x45 || tag == 0x63
        || tag == 0x41 {
        lemma_stream_body_local(b, c, at, tag, in_stream, parallel);
    }
}

/// A frame that is accepted is consumed exactly: with further bytes behind it, it has that
/// many trailing bytes, and every proper prefix of it is truncated.
#[verifier::spinoff_prover]
#[verifier::rlimit(40)]
pub proof fn law_frames_are_consumed_exactly(
    b: Seq<u8>,
    more: Seq<u8>,
    k: int,
    in_stream: bool,
    parallel: bool,
)
    requires
        decoded(b, in_stream, parallel) is Ok,
    ensures
        more.len() > 0 ==> decoded(b + more, in_stream, parallel) == Err::<Event, DecodeError>(
            DecodeError::TrailingBytes(more.len() as usize),
        ),
        0 <= k < b.len() ==> decoded(b.take(k), in_stream, parallel) is Err && decoded(
            b.take(k),
            in_stream,
            parallel,
        )->Err_0 is Truncated,
{
    let longer = b + more;
    lemma_fields_local(b, longer);
    lemma_body_local(b, longer, 1, b[0], in_stream, parallel);
    if 0 <= k < b.len() {
        let shorter = b.take(k);
        lemma_fields_local(b, shorter);
        if k > 0 {
            lemma_body_local(b, shorter, 1, b[0], in_stream, parallel);
        }
    }
}

// ---------------------------------------------------------------------------------------
// Frames without and with the xid of a streamed transaction.
// ---------------------------------------------------------------------------------------

/// A frame without the four bytes behind its type byte.
pub open spec fn without_xid(b: Seq<u8>) -> Seq<u8> {
    seq![b[0]] + b.skip(5)
}

/// A change with an xid.
pub open spec fn with_xid(m: Event, x: Xid) -> Event {
    match m {
        Event::Message { transactional, lsn, prefix, content, .. } => Event::Message {
            xid: Some(x),
            transactional,
            lsn,
            prefix,
            content,
        },
        Event::Relation { oid, namespace, name, replica_identity, columns, .. } => Event::Relation {
            xid: Some(x),
            oid,
            namespace,
            name,
            replica_identity,
            columns,
        },
        Event::Type { oid, namespace, name, .. } => Event::Type {
            xid: Some(x),
            oid,
            namespace,
            name,
        },
        Event::Insert { rel_oid, new_tuple, .. } => Event::Insert {
            xid: Some(x),
            rel_oid,
            new_tuple,
        },
        Event::Update { rel_oid, key, before, new_tuple, .. } => Event::Update {
            xid: Some(x),
            rel_oid,
            key,
            before,
            new_tuple,
        },
        Event::Delete { rel_oid, key, before, .. } => Event::Delete {
            xid: Some(x),
            rel_oid,
            key,
            before,
        },
        Event::Truncate { options, relations, .. } => Event::Truncate {
            xid: Some(x),
            options,
            relations,
        },
        m => m,
    }
}

/// An error as it reads four bytes later.
pub open spec fn moved(e: DecodeError) -> DecodeError {
    match e {
        DecodeError::Truncated { offset, needed } => DecodeError::Truncated {
            offset: (offset + 4) as usize,
            needed,
        },
        e => e,
    }
}

/// Whether the first frame, from its second byte on, is what the second holds four bytes
/// later.
spec fn behind(b: Seq<u8>, c: Seq<u8>) -> bool {
    &&& c.len() == b.len() + 4
    &&& c.len() <= usize::MAX
    &&& forall|i: int| 1 <= i < b.len() ==> #[trigger] b[i] == c[i + 4]
}

/// Whether a read gives the same four bytes later.
spec fn shifted<T>(fb: Read<T>, fc: Read<T>, at: int, bl: nat) -> bool {
    match fb {
        Ok((v, q)) => at <= q <= bl && fc == Ok::<(T, int), DecodeError>((v, q + 4)),
        Err(e) => fc == Err::<(T, int), DecodeError>(moved(e)),
    }
}

/// Whether a change that is read gives the same four bytes later, with the xid.
spec fn shifted_change(fb: Read<Event>, fc: Read<Event>, at: int, bl: nat, x: Xid) -> bool {
    match fb {
        Ok((m, q)) => at <= q <= bl && fc == Ok::<(Event, int), DecodeError>(
            (with_xid(m, x), q + 4),
        ),
        Err(e) => fc == Err::<(Event, int), DecodeError>(moved(e)),
    }
}

proof fn lemma_take_shifted(b: Seq<u8>, c: Seq<u8>, at: int, n: int)
    requires
        behind(b, c),
        1 <= at <= b.len(),
        0 <= n,
    ensures
        shifted(take_at(b, at, n), take_at(c, at + 4, n), at, b.len()),
{
    if at + n <= b.len() {
        let s = b.subrange(at, at + n);
        let t = c.subrange(at + 4, at + 4 + n);
        assert forall|k: int| 0 <= k < n implies s[k] == t[k] by {
            assert(b[at + k] == c[(at + k) + 4]);
        }
        assert(s =~= t);
    }
}

proof fn lemma_nul_shifted(b: Seq<u8>, c: Seq<u8>, at: int)
    requires
        behind(b, c),
        1 <= at <= b.len(),
    ensures
        nul_from(c, at + 4) == nul_from(b, at) + 4,
    decreases b.len() - at,
{
    if at < b.len() {
        assert(b[at] == c[at + 4]);
        if b[at] != 0 {
            lemma_nul_shifted(b, c, at + 1);
        }
    }
}

proof fn lemma_cstr_shifted(b: Seq<u8>, c: Seq<u8>, at: int)
    requires
        behind(b, c),
        1 <= at <= b.len(),
    ensures
        shifted(cstr_at(b, at), cstr_at(c, at + 4), at, b.len()),
{
    lemma_nul(b, at);
    lemma_nul_shifted(b, c, at);
    let nul = nul_from(b, at);
    if nul < b.len() {
        let s = b.subrange(at, nul);
        let t = c.subrange(at + 4, nul + 4);
        assert forall|k: int| 0 <= k < nul - at implies s[k] == t[k] by {
            assert(b[at + k] == c[(at + k) + 4]);
        }
        assert(s =~= t);
    }
}

/// Every field is read alike four bytes later.
proof fn lemma_fields_shifted(b: Seq<u8>, c: Seq<u8>)
    requires
        behind(b, c),
    ensures
        forall|at: int|
            1 <= at <= b.len() ==> shifted(#[trigger] u8_at(b, at), u8_at(c, at + 4), at, b.len()),
        forall|at: int|
            1 <= at <= b.len() ==> shifted(
                #[trigger] i16_at(b, at),
                i16_at(c, at + 4),
                at,
                b.len(),
            ),
        forall|at: int|
            1 <= at <= b.len() ==> shifted(
                #[trigger] u32_at(b, at),
                u32_at(c, at + 4),
                at,
                b.len(),
            ),
        forall|at: int|
            1 <= at <= b.len() ==> shifted(
                #[trigger] i32_at(b, at),
                i32_at(c, at + 4),
                at,
                b.len(),
            ),
        forall|at: int|
            1 <= at <= b.len() ==> shifted(
                #[trigger] lsn_at(b, at),
                lsn_at(c, at + 4),
                at,
                b.len(),
            ),
        forall|at: int|
            1 <= at <= b.len() ==> shifted(
                #[trigger] cstr_at(b, at),
                cstr_at(c, at + 4),
                at,
                b.len(),
            ),
        forall|at: int|
            1 <= at <= b.len() ==> shifted(
                #[trigger] sized_at(b, at),
                sized_at(c, at + 4),
                at,
                b.len(),
            ),
{
    assert forall|at: int, n: int| 1 <= at <= b.len() && 0 <= n implies shifted(
        #[trigger] take_at(b, at, n),
        take_at(c, at + 4, n),
        at,
        b.len(),
    ) by {
        lemma_take_shifted(b, c, at, n);
    }
    assert forall|at: int| 1 <= at <= b.len() implies shifted(
        #[trigger] cstr_at(b, at),
        cstr_at(c, at + 4),
        at,
        b.len(),
    ) by {
        lemma_cstr_shifted(b, c, at);
    }
}

proof fn lemma_columns_shifted(b: Seq<u8>, c: Seq<u8>, at: int, n: nat)
    requires
        behind(b, c),
        1 <= at <= b.len(),
    ensures
        shifted(columns_at(b, at, n), columns_at(c, at + 4, n), at, b.len()),
    decreases n,
{
    lemma_fields_shifted(b, c);
    if n > 0 {
        lemma_columns_shifted(b, c, at, (n - 1) as nat);
    }
}

proof fn lemma_cells_shifted(b: Seq<u8>, c: Seq<u8>, at: int, n: nat)
    requires
        behind(b, c),
        1 <= at <= b.len(),
    ensures
        shifted(cells_at(b, at, n), cells_at(c, at + 4, n), at, b.len()),
    decreases n,
{
    lemma_fields_shifted(b, c);
    if n > 0 {
        lemma_cells_shifted(b, c, at, (n - 1) as nat);
    }
}

proof fn lemma_oids_shifted(b: Seq<u8>, c: Seq<u8>, at: int, n: nat)
    requires
        behind(b, c),
        1 <= at <= b.len(),
    ensures
        shifted(oids_at(b, at, n), oids_at(c, at + 4, n), at, b.len()),
    decreases n,
{
    lemma_fields_shifted(b, c);
    if n > 0 {
        lemma_oids_shifted(b, c, at, (n - 1) as nat);
    }
}

proof fn lemma_row_shifted(b: Seq<u8>, c: Seq<u8>, at: int)
    requires
        behind(b, c),
        1 <= at <= b.len(),
    ensures
        shifted(row_at(b, at), row_at(c, at + 4), at, b.len()),
{
    lemma_fields_shifted(b, c);
    if let Ok((n, p)) = i16_at(b, at) {
        if n >= 0 {
            lemma_cells_shifted(b, c, p, n as nat);
        }
    }
}

proof fn lemma_rows_shifted(b: Seq<u8>, c: Seq<u8>)
    requires
        behind(b, c),
    ensures
        forall|at: int|
            1 <= at <= b.len() ==> shifted(
                #[trigger] row_at(b, at),
                row_at(c, at + 4),
                at,
                b.len(),
            ),
        forall|at: int|
            1 <= at <= b.len() ==> shifted(
                #[trigger] images_at(b, at),
                images_at(c, at + 4),
                at,
                b.len(),
            ),
{
    lemma_fields_shifted(b, c);
    assert forall|at: int| 1 <= at <= b.len() implies shifted(
        #[trigger] row_at(b, at),
        row_at(c, at + 4),
        at,
        b.len(),
    ) by {
        lemma_row_shifted(b, c, at);
    }
}

/// The xid stands in front of what follows the type byte.
spec fn leads(b: Seq<u8>, c: Seq<u8>, x: Xid) -> bool {
    &&& behind(b, c)
    &&& b.len() >= 1
    &&& u32_at(c, 1) == Ok::<(u32, int), DecodeError>((x, 5))
}

proof fn lemma_named_shifted(b: Seq<u8>, c: Seq<u8>, x: Xid)
    requires
        leads(b, c, x),
    ensures
        shifted_change(message_at(b, 1, false), message_at(c, 1, true), 1, b.len(), x),
        shifted_change(type_at(b, 1, false), type_at(c, 1, true), 1, b.len(), x),
{
    lemma_fields_shifted(b, c);
}

proof fn lemma_listing_shifted(b: Seq<u8>, c: Seq<u8>, x: Xid)
    requires
        leads(b, c, x),
    ensures
        shifted_change(relation_at(b, 1, false), relation_at(c, 1, true), 1, b.len(), x),
        shifted_change(truncate_at(b, 1, false), truncate_at(c, 1, true), 1, b.len(), x),
{
    lemma_fields_shifted(b, c);
    assert forall|p: int, n: nat| 1 <= p <= b.len() implies shifted(
        #[trigger] columns_at(b, p, n),
        columns_at(c, p + 4, n),
        p,
        b.len(),
    ) by {
        lemma_columns_shifted(b, c, p, n);
    }
    assert forall|p: int, n: nat| 1 <= p <= b.len() implies shifted(
        #[trigger] oids_at(b, p, n),
        oids_at(c, p + 4, n),
        p,
        b.len(),
    ) by {
        lemma_oids_shifted(b, c, p, n);
    }
}

proof fn lemma_changes_shifted(b: Seq<u8>, c: Seq<u8>, x: Xid)
    requires
        leads(b, c, x),
    ensures
        shifted_change(insert_at(b, 1, false), insert_at(c, 1, true), 1, b.len(), x),
        shifted_change(update_at(b, 1, false), update_at(c, 1, true), 1, b.len(), x),
        shifted_change(delete_at(b, 1, false), delete_at(c, 1, true), 1, b.len(), x),
{
    lemma_fields_shifted(b, c);
    lemma_rows_shifted(b, c);
}

/// Inside a stream a change is its xid and, behind it, what the frame without the xid is
/// outside: the same message but for the xid, or the same error, four bytes later. Every
/// other message reads alike inside and outside.
#[verifier::spinoff_prover]
#[verifier::rlimit(40)]
pub proof fn law_streaming_adds_only_the_xid(b: Seq<u8>, parallel: bool)
    requires
        5 <= b.len() <= usize::MAX,
    ensures
        is_change_tag(b[0]) ==> decoded(b, true, parallel) == (match decoded(
            without_xid(b),
            false,
            parallel,
        ) {
            Ok(m) => Ok::<Event, DecodeError>(
                with_xid(m, bytes::be_value(b.subrange(1, 5)) as u32),
            ),
            Err(e) => Err(moved(e)),
        }),
        !is_change_tag(b[0]) ==> decoded(b, true, parallel) == decoded(b, false, parallel),
{
    if is_change_tag(b[0]) {
        let o = without_xid(b);
        let x = bytes::be_value(b.subrange(1, 5)) as u32;
        assert(o.len() == b.len() - 4);
        assert(o[0] == b[0]);
        assert forall|i: int| 1 <= i < o.len() implies #[trigger] o[i] == b[i + 4] by {}
        assert(leads(o, b, x));
        if b[0] == 0x4d || b[0] == 0x59 {
            lemma_named_shifted(o, b, x);
        } else if b[0] == 0x52 || b[0] == 0x54 {
            lemma_listing_shifted(o, b, x);
        } else {
            lemma_changes_shifted(o, b, x);
        }
    }
}

/// An update carries at most one image of the old row, a deletion exactly one.
pub proof fn law_old_images_are_exclusive(b: Seq<u8>, at: int, in_stream: bool)
    ensures
        update_at(b, at, in_stream) matches Ok((m, _)) ==> (m matches Event::Update { key, before, .. }
            && !(key is Some && before is Some)),
        delete_at(b, at, in_stream) matches Ok((m, _)) ==> (m matches Event::Delete { key, before, .. }
            && (key is Some) != (before is Some)),
{
}

/// What an error says.
pub open spec fn fault_text(e: DecodeError) -> Seq<char> {
    match e {
        DecodeError::Truncated { offset, needed } => "truncated pgoutput message: need "@
            + text::decimal(needed as int) + " more byte(s) at offset "@ + text::decimal(
            offset as int,
        ),
        DecodeError::UnknownMessage(b) => "unknown pgoutput message type byte "@ + text::padded_hex(
            b as nat,
            2,
        ),
        DecodeError::UnknownTupleKind(b) => "unknown tuple column kind byte "@ + text::padded_hex(
            b as nat,
            2,
        ),
        DecodeError::UnexpectedTupleMarker(b) => {
            "expected a tuple marker (K/O/N) but found byte "@ + text::padded_hex(b as nat, 2)
        },
        DecodeError::NegativeLength(n) => "invalid negative field length "@ + text::decimal(
            n as int,
        ),
        DecodeError::InvalidUtf8 => "string field is not valid UTF-8"@,
        DecodeError::TrailingBytes(n) => text::decimal(n as int)
            + " unexpected trailing byte(s) after the pgoutput message"@,
    }
}

impl DecodeError {
    pub fn to_string(&self) -> (r: String)
        ensures
            r@ == fault_text(*self),
    {
        match self {
            DecodeError::Truncated { offset, needed } => text::concat4(
                "truncated pgoutput message: need ",
                text::decimal_u64(*needed as u64).as_str(),
                " more byte(s) at offset ",
                text::decimal_u64(*offset as u64).as_str(),
            ),
            DecodeError::UnknownMessage(b) => text::concat2(
                "unknown pgoutput message type byte ",
                text::padded_hex_string(*b as u64, 2).as_str(),
            ),
            DecodeError::UnknownTupleKind(b) => text::concat2(
                "unknown tuple column kind byte ",
                text::padded_hex_string(*b as u64, 2).as_str(),
            ),
            DecodeError::UnexpectedTupleMarker(b) => text::concat2(
                "expected a tuple marker (K/O/N) but found byte ",
                text::padded_hex_string(*b as u64, 2).as_str(),
            ),
            DecodeError::NegativeLength(n) => text::concat2(
                "invalid negative field length ",
                text::decimal_i64(*n as i64).as_str(),
            ),
            DecodeError::InvalidUtf8 => "string field is not valid UTF-8".to_owned(),
            DecodeError::TrailingBytes(n) => text::concat2(
                text::decimal_u64(*n as u64).as_str(),
                " unexpected trailing byte(s) after the pgoutput message",
            ),
        }
    }
}

// ---------------------------------------------------------------------------------------
// What is sent is what is read.
// ---------------------------------------------------------------------------------------

/// Whether the bytes stand in the frame from `at` on.
pub open spec fn stands(b: Seq<u8>, at: int, s: Seq<u8>) -> bool {
    0 <= at && at + s.len() <= b.len() && b.subrange(at, at + s.len()) == s
}

/// A cell as a server sends it: `n` for NULL, `u` for an unchanged value, or `t` (text) or
/// `b` (binary), the length, and the bytes.
pub open spec fn sent_cell(c: Cell) -> Seq<u8> {
    match c {
        Cell::Null => seq![0x6eu8],
        Cell::UnchangedToast => seq![0x75u8],
        Cell::Text(v) => seq![0x74u8] + (bytes::be(v.len(), 4) + v),
        Cell::Binary(v) => seq![0x62u8] + (bytes::be(v.len(), 4) + v),
    }
}

pub open spec fn sent_cells(cs: Seq<Cell>) -> Seq<u8>
    decreases cs.len(),
{
    if cs.len() == 0 {
        Seq::empty()
    } else {
        sent_cells(cs.drop_last()) + sent_cell(cs.last())
    }
}

/// A row as a server sends it: the number of its cells, and the cells.
pub open spec fn sent_row(cs: Seq<Cell>) -> Seq<u8> {
    bytes::be(cs.len(), 2) + sent_cells(cs)
}

/// Whether the lengths of a row can be stated.
pub open spec fn sendable(cs: Seq<Cell>) -> bool {
    &&& cs.len() <= i16::MAX
    &&& forall|i: int|
        0 <= i < cs.len() ==> match #[trigger] cs[i] {
            Cell::Text(v) => v.len() <= i32::MAX,
            Cell::Binary(v) => v.len() <= i32::MAX,
            _ => true,
        }
}

/// A name as a server sends it: its bytes and a zero byte.
pub open spec fn sent_name(s: Seq<char>) -> Seq<u8> {
    encode_utf8(s) + seq![0u8]
}

/// Whether a name holds no zero byte.
pub open spec fn nameable(s: Seq<char>) -> bool {
    forall|i: int| 0 <= i < encode_utf8(s).len() ==> #[trigger] encode_utf8(s)[i] != 0
}

/// A column as a server sends it: its flags, its name, its type and the type's modifier.
pub open spec fn sent_column(c: ColumnDecl) -> Seq<u8> {
    seq![c.flags] + (sent_name(c.name) + (bytes::be(c.type_oid as nat, 4) + bytes::be(
        bytes::bits32(c.type_modifier) as nat,
        4,
    )))
}

pub open spec fn sent_columns(cs: Seq<ColumnDecl>) -> Seq<u8>
    decreases cs.len(),
{
    if cs.len() == 0 {
        Seq::empty()
    } else {
        sent_columns(cs.drop_last()) + sent_column(cs.last())
    }
}

pub open spec fn sent_oids(os: Seq<Oid>) -> Seq<u8>
    decreases os.len(),
{
    if os.len() == 0 {
        Seq::empty()
    } else {
        sent_oids(os.drop_last()) + bytes::be(os.last() as nat, 4)
    }
}

proof fn lemma_parts_stand(b: Seq<u8>, at: int, x: Seq<u8>, y: Seq<u8>)
    requires
        stands(b, at, x + y),
    ensures
        stands(b, at, x),
        stands(b, at + x.len(), y),
{
    let s = x + y;
    assert forall|i: int| 0 <= i < s.len() implies b[at + i] == #[trigger] s[i] by {
        assert(b.subrange(at, at + s.len())[i] == s[i]);
    }
    assert(b.subrange(at, at + x.len()) =~= x) by {
        assert forall|i: int| 0 <= i < x.len() implies b[at + i] == x[i] by {
            assert(s[i] == x[i]);
        }
    }
    assert(b.subrange(at + x.len(), at + x.len() + y.len()) =~= y) by {
        assert forall|i: int| 0 <= i < y.len() implies b[at + x.len() + i] == y[i] by {
            assert(s[x.len() + i] == y[i]);
        }
    }
}

proof fn lemma_whole_stands(s: Seq<u8>)
    ensures
        stands(s, 0, s),
{
    assert(s.subrange(0, s.len() as int) =~= s);
}

proof fn lemma_byte_read(b: Seq<u8>, at: int, x: u8)
    requires
        stands(b, at, seq![x]),
    ensures
        u8_at(b, at) == Ok::<(u8, int), DecodeError>((x, at + 1)),
{
    assert(b.subrange(at, at + 1)[0] == x);
}

proof fn lemma_word_read(b: Seq<u8>, at: int, x: u32)
    requires
        stands(b, at, bytes::be(x as nat, 4)),
    ensures
        u32_at(b, at) == Ok::<(u32, int), DecodeError>((x, at + 4)),
        i32_at(b, at) == Ok::<(i32, int), DecodeError>((bytes::signed32(x), at + 4)),
{
    bytes::lemma_pow256();
    bytes::lemma_be_value(x as nat, 4);
}

proof fn lemma_long_read(b: Seq<u8>, at: int, x: u64)
    requires
        stands(b, at, bytes::be(x as nat, 8)),
    ensures
        lsn_at(b, at) == Ok::<(Lsn, int), DecodeError>((Lsn(x), at + 8)),
        i64_at(b, at) == Ok::<(i64, int), DecodeError>((bytes::signed64(x), at + 8)),
{
    bytes::lemma_pow256();
    bytes::lemma_be_value(x as nat, 8);
}

proof fn lemma_sized_read(b: Seq<u8>, at: int, v: Seq<u8>)
    requires
        v.len() <= i32::MAX,
        stands(b, at, bytes::be(v.len(), 4) + v),
    ensures
        sized_at(b, at) == Ok::<(Seq<u8>, int), DecodeError>((v, at + 4 + v.len())),
{
    bytes::lemma_be_len(v.len(), 4);
    lemma_parts_stand(b, at, bytes::be(v.len(), 4), v);
    lemma_word_read(b, at, v.len() as u32);
    bytes::law_signed_patterns_round_trip(0, v.len() as u32, 0, 0, 0);
}

proof fn lemma_nul_found(b: Seq<u8>, at: int, end: int)
    requires
        0 <= at <= end < b.len(),
        b[end] == 0,
        forall|i: int| at <= i < end ==> b[i] != 0,
    ensures
        nul_from(b, at) == end,
    decreases end - at,
{
    if at < end {
        lemma_nul_found(b, at + 1, end);
    }
}

proof fn lemma_name_read(b: Seq<u8>, at: int, s: Seq<char>)
    requires
        nameable(s),
        stands(b, at, sent_name(s)),
    ensures
        cstr_at(b, at) == Ok::<(Seq<char>, int), DecodeError>((s, at + sent_name(s).len())),
{
    let e = encode_utf8(s);
    let w = sent_name(s);
    let end = at + e.len();
    assert forall|i: int| 0 <= i < w.len() implies b[at + i] == #[trigger] w[i] by {
        assert(b.subrange(at, at + w.len())[i] == w[i]);
    }
    assert(w[e.len() as int] == 0);
    assert forall|i: int| at <= i < end implies b[i] != 0 by {
        assert(w[i - at] == e[i - at]);
        assert(b[at + (i - at)] == w[i - at]);
    }
    lemma_nul_found(b, at, end);
    lemma_parts_stand(b, at, e, seq![0u8]);
    bytes::law_text_is_its_encoding(s, e);
}

proof fn lemma_cell_read(b: Seq<u8>, at: int, c: Cell)
    requires
        stands(b, at, sent_cell(c)),
        match c {
            Cell::Text(v) => v.len() <= i32::MAX,
            Cell::Binary(v) => v.len() <= i32::MAX,
            _ => true,
        },
    ensures
        cell_at(b, at) == Ok::<(Cell, int), DecodeError>((c, at + sent_cell(c).len())),
{
    match c {
        Cell::Null => {
            lemma_byte_read(b, at, 0x6e);
        },
        Cell::UnchangedToast => {
            lemma_byte_read(b, at, 0x75);
        },
        Cell::Text(v) => {
            bytes::lemma_be_len(v.len(), 4);
            lemma_parts_stand(b, at, seq![0x74u8], bytes::be(v.len(), 4) + v);
            lemma_byte_read(b, at, 0x74);
            lemma_sized_read(b, at + 1, v);
        },
        Cell::Binary(v) => {
            bytes::lemma_be_len(v.len(), 4);
            lemma_parts_stand(b, at, seq![0x62u8], bytes::be(v.len(), 4) + v);
            lemma_byte_read(b, at, 0x62);
            lemma_sized_read(b, at + 1, v);
        },
    }
}

proof fn lemma_cells_read(b: Seq<u8>, at: int, cs: Seq<Cell>)
    requires
        sendable(cs),
        stands(b, at, sent_cells(cs)),
    ensures
        cells_at(b, at, cs.len()) == Ok::<(Seq<Cell>, int), DecodeError>(
            (cs, at + sent_cells(cs).len()),
        ),
    decreases cs.len(),
{
    if cs.len() > 0 {
        let t = cs.drop_last();
        lemma_parts_stand(b, at, sent_cells(t), sent_cell(cs.last()));
        assert forall|i: int| 0 <= i < t.len() implies match #[trigger] t[i] {
            Cell::Text(v) => v.len() <= i32::MAX,
            Cell::Binary(v) => v.len() <= i32::MAX,
            _ => true,
        } by {
            assert(t[i] == cs[i]);
        }
        lemma_cells_read(b, at, t);
        assert(cs.last() == cs[cs.len() - 1]);
        lemma_cell_read(b, at + sent_cells(t).len(), cs.last());
        assert(t.push(cs.last()) =~= cs);
    } else {
        assert(cs =~= Seq::<Cell>::empty());
    }
}

/// A row is read cell by cell as it was sent: NULL as NULL, an unchanged value as unchanged,
/// and every text and binary value as its bytes.
pub proof fn law_sent_rows_read_back(b: Seq<u8>, at: int, cs: Seq<Cell>)
    requires
        sendable(cs),
        stands(b, at, sent_row(cs)),
    ensures
        row_at(b, at) == Ok::<(Seq<Cell>, int), DecodeError>((cs, at + sent_row(cs).len())),
{
    let n = cs.len();
    bytes::lemma_pow256();
    bytes::lemma_be_value(n, 2);
    lemma_parts_stand(b, at, bytes::be(n, 2), sent_cells(cs));
    bytes::law_signed_patterns_round_trip(0, 0, n as u16, 0, 0);
    lemma_cells_read(b, at + 2, cs);
}

/// An insert is read with its relation and its new row.
#[verifier::spinoff_prover]
pub proof fn law_sent_inserts_read_back(rel: Oid, row: Seq<Cell>, parallel: bool)
    requires
        sendable(row),
    ensures
        decoded(
            seq![0x49u8] + (bytes::be(rel as nat, 4) + (seq![0x4eu8] + sent_row(row))),
            false,
            parallel,
        ) == Ok::<Event, DecodeError>(Event::Insert { xid: None, rel_oid: rel, new_tuple: row }),
{
    let r = seq![0x4eu8] + sent_row(row);
    let o = bytes::be(rel as nat, 4);
    let b = seq![0x49u8] + (o + r);
    bytes::lemma_be_len(rel as nat, 4);
    lemma_whole_stands(b);
    lemma_parts_stand(b, 0, seq![0x49u8], o + r);
    lemma_parts_stand(b, 1, o, r);
    lemma_parts_stand(b, 5, seq![0x4eu8], sent_row(row));
    lemma_byte_read(b, 0, 0x49);
    lemma_word_read(b, 1, rel);
    lemma_byte_read(b, 5, 0x4e);
    law_sent_rows_read_back(b, 6, row);
    lemma_insert_frame(b, Event::Insert { xid: None, rel_oid: rel, new_tuple: row }, parallel);
}

proof fn lemma_insert_frame(b: Seq<u8>, m: Event, parallel: bool)
    requires
        u8_at(b, 0) == Ok::<(u8, int), DecodeError>((0x49, 1)),
        insert_at(b, 1, false) == Ok::<(Event, int), DecodeError>((m, b.len() as int)),
    ensures
        decoded(b, false, parallel) == Ok::<Event, DecodeError>(m),
{
}

/// An update without an old image is read with its new row alone; an old image marked `K` is
/// the key that the row had, and one marked `O` the whole of it.
pub proof fn law_sent_updates_read_back(
    rel: Oid,
    mark: u8,
    prior: Seq<Cell>,
    row: Seq<Cell>,
    parallel: bool,
)
    requires
        sendable(prior),
        sendable(row),
    ensures
        decoded(
            seq![0x55u8] + (bytes::be(rel as nat, 4) + (seq![0x4eu8] + sent_row(row))),
            false,
            parallel,
        ) == Ok::<Event, DecodeError>(
            Event::Update { xid: None, rel_oid: rel, key: None, before: None, new_tuple: row },
        ),
        mark == 0x4b || mark == 0x4f ==> decoded(
            seq![0x55u8] + (bytes::be(rel as nat, 4) + (seq![mark] + (sent_row(prior) + (
            seq![0x4eu8] + sent_row(row))))),
            false,
            parallel,
        ) == Ok::<Event, DecodeError>(
            Event::Update {
                xid: None,
                rel_oid: rel,
                key: if mark == 0x4b {
                    Some(prior)
                } else {
                    None
                },
                before: if mark == 0x4f {
                    Some(prior)
                } else {
                    None
                },
                new_tuple: row,
            },
        ),
{
    lemma_plain_update_read(rel, row, parallel);
    if mark == 0x4b || mark == 0x4f {
        lemma_marked_update_read(rel, mark, prior, row, parallel);
    }
}

proof fn lemma_update_frame(b: Seq<u8>, m: Event, parallel: bool)
    requires
        u8_at(b, 0) == Ok::<(u8, int), DecodeError>((0x55, 1)),
        update_at(b, 1, false) == Ok::<(Event, int), DecodeError>((m, b.len() as int)),
    ensures
        decoded(b, false, parallel) == Ok::<Event, DecodeError>(m),
{
}

#[verifier::spinoff_prover]
proof fn lemma_plain_update_read(rel: Oid, row: Seq<Cell>, parallel: bool)
    requires
        sendable(row),
    ensures
        decoded(
            seq![0x55u8] + (bytes::be(rel as nat, 4) + (seq![0x4eu8] + sent_row(row))),
            false,
            parallel,
        ) == Ok::<Event, DecodeError>(
            Event::Update { xid: None, rel_oid: rel, key: None, before: None, new_tuple: row },
        ),
{
    let o = bytes::be(rel as nat, 4);
    let r = seq![0x4eu8] + sent_row(row);
    let b = seq![0x55u8] + (o + r);
    bytes::lemma_be_len(rel as nat, 4);
    lemma_whole_stands(b);
    lemma_parts_stand(b, 0, seq![0x55u8], o + r);
    lemma_parts_stand(b, 1, o, r);
    lemma_parts_stand(b, 5, seq![0x4eu8], sent_row(row));
    lemma_byte_read(b, 0, 0x55);
    lemma_word_read(b, 1, rel);
    lemma_byte_read(b, 5, 0x4e);
    law_sent_rows_read_back(b, 6, row);
    lemma_update_frame(
        b,
        Event::Update { xid: None, rel_oid: rel, key: None, before: None, new_tuple: row },
        parallel,
    );
}

#[verifier::spinoff_prover]
proof fn lemma_images_read(b: Seq<u8>, at: int, mark: u8, prior: Seq<Cell>, row: Seq<Cell>)
    requires
        sendable(prior),
        sendable(row),
        mark == 0x4b || mark == 0x4f,
        stands(b, at, seq![mark] + (sent_row(prior) + (seq![0x4eu8] + sent_row(row)))),
    ensures
        images_at(b, at) == Ok::<
            ((Option<Seq<Cell>>, Option<Seq<Cell>>, Seq<Cell>), int),
            DecodeError,
        >(
            (
                (
                    if mark == 0x4b {
                        Some(prior)
                    } else {
                        None
                    },
                    if mark == 0x4f {
                        Some(prior)
                    } else {
                        None
                    },
                    row,
                ),
                at + 2 + sent_row(prior).len() + sent_row(row).len(),
            ),
        ),
{
    let p = sent_row(prior);
    let r = seq![0x4eu8] + sent_row(row);
    let q = at + 1 + p.len();
    lemma_parts_stand(b, at, seq![mark], p + r);
    lemma_parts_stand(b, at + 1, p, r);
    lemma_parts_stand(b, q, seq![0x4eu8], sent_row(row));
    lemma_byte_read(b, at, mark);
    law_sent_rows_read_back(b, at + 1, prior);
    lemma_byte_read(b, q, 0x4e);
    law_sent_rows_read_back(b, q + 1, row);
}

#[verifier::spinoff_prover]
proof fn lemma_marked_update_read(
    rel: Oid,
    mark: u8,
    prior: Seq<Cell>,
    row: Seq<Cell>,
    parallel: bool,
)
    requires
        sendable(prior),
        sendable(row),
        mark == 0x4b || mark == 0x4f,
    ensures
        decoded(
            seq![0x55u8] + (bytes::be(rel as nat, 4) + (seq![mark] + (sent_row(prior) + (
            seq![0x4eu8] + sent_row(row))))),
            false,
            parallel,
        ) == Ok::<Event, DecodeError>(
            Event::Update {
                xid: None,
                rel_oid: rel,
                key: if mark == 0x4b {
                    Some(prior)
                } else {
                    None
                },
                before: if mark == 0x4f {
                    Some(prior)
                } else {
                    None
                },
                new_tuple: row,
            },
        ),
{
    let o = bytes::be(rel as nat, 4);
    let i = seq![mark] + (sent_row(prior) + (seq![0x4eu8] + sent_row(row)));
    let b = seq![0x55u8] + (o + i);
    bytes::lemma_be_len(rel as nat, 4);
    lemma_whole_stands(b);
    lemma_parts_stand(b, 0, seq![0x55u8], o + i);
    lemma_parts_stand(b, 1, o, i);
    lemma_byte_read(b, 0, 0x55);
    lemma_word_read(b, 1, rel);
    lemma_images_read(b, 5, mark, prior, row);
    assert(b.len() == 7 + sent_row(prior).len() + sent_row(row).len());
    lemma_update_frame(
        b,
        Event::Update {
            xid: None,
            rel_oid: rel,
            key: if mark == 0x4b {
                Some(prior)
            } else {
                None
            },
            before: if mark == 0x4f {
                Some(prior)
            } else {
                None
            },
            new_tuple: row,
        },
        parallel,
    );
}

/// A delete is read with the image that it brings: the key of the row where it is marked `K`,
/// the whole row where it is marked `O`.
pub proof fn law_sent_deletes_read_back(rel: Oid, row: Seq<Cell>, parallel: bool)
    requires
        sendable(row),
    ensures
        decoded(
            seq![0x44u8] + (bytes::be(rel as nat, 4) + (seq![0x4bu8] + sent_row(row))),
            false,
            parallel,
        ) == Ok::<Event, DecodeError>(
            Event::Delete { xid: None, rel_oid: rel, key: Some(row), before: None },
        ),
        decoded(
            seq![0x44u8] + (bytes::be(rel as nat, 4) + (seq![0x4fu8] + sent_row(row))),
            false,
            parallel,
        ) == Ok::<Event, DecodeError>(
            Event::Delete { xid: None, rel_oid: rel, key: None, before: Some(row) },
        ),
{
    lemma_delete_read(rel, 0x4b, row, parallel);
    lemma_delete_read(rel, 0x4f, row, parallel);
}

#[verifier::spinoff_prover]
proof fn lemma_delete_read(rel: Oid, mark: u8, row: Seq<Cell>, parallel: bool)
    requires
        sendable(row),
        mark == 0x4b || mark == 0x4f,
    ensures
        decoded(
            seq![0x44u8] + (bytes::be(rel as nat, 4) + (seq![mark] + sent_row(row))),
            false,
            parallel,
        ) == Ok::<Event, DecodeError>(
            Event::Delete {
                xid: None,
                rel_oid: rel,
                key: if mark == 0x4b {
                    Some(row)
                } else {
                    None
                },
                before: if mark == 0x4f {
                    Some(row)
                } else {
                    None
                },
            },
        ),
{
    let o = bytes::be(rel as nat, 4);
    let r = seq![mark] + sent_row(row);
    let b = seq![0x44u8] + (o + r);
    bytes::lemma_be_len(rel as nat, 4);
    lemma_whole_stands(b);
    lemma_parts_stand(b, 0, seq![0x44u8], o + r);
    lemma_parts_stand(b, 1, o, r);
    lemma_parts_stand(b, 5, seq![mark], sent_row(row));
    lemma_byte_read(b, 0, 0x44);
    lemma_word_read(b, 1, rel);
    lemma_byte_read(b, 5, mark);
    law_sent_rows_read_back(b, 6, row);
    lemma_delete_frame(
        b,
        Event::Delete {
            xid: None,
            rel_oid: rel,
            key: if mark == 0x4b {
                Some(row)
            } else {
                None
            },
            before: if mark == 0x4f {
                Some(row)
            } else {
                None
            },
        },
        parallel,
    );
}

proof fn lemma_delete_frame(b: Seq<u8>, m: Event, parallel: bool)
    requires
        u8_at(b, 0) == Ok::<(u8, int), DecodeError>((0x44, 1)),
        delete_at(b, 1, false) == Ok::<(Event, int), DecodeError>((m, b.len() as int)),
    ensures
        decoded(b, false, parallel) == Ok::<Event, DecodeError>(m),
{
}

/// A transaction's begin is read with its final position, its time and its number, and its
/// commit with the commit's position, the end of the transaction and the time.
pub proof fn law_sent_transactions_read_back(
    x: u64,
    y: u64,
    time: i64,
    xid: Xid,
    flags: u8,
    parallel: bool,
)
    ensures
        decoded(
            seq![0x42u8] + (bytes::be(x as nat, 8) + (bytes::be(bytes::bits64(time) as nat, 8)
                + bytes::be(xid as nat, 4))),
            false,
            parallel,
        ) == Ok::<Event, DecodeError>(
            Event::Begin(Begin { final_lsn: Lsn(x), commit_timestamp: time, xid }),
        ),
        decoded(
            seq![0x43u8] + (seq![flags] + (bytes::be(x as nat, 8) + (bytes::be(y as nat, 8)
                + bytes::be(bytes::bits64(time) as nat, 8)))),
            false,
            parallel,
        ) == Ok::<Event, DecodeError>(
            Event::Commit(
                Commit { commit_lsn: Lsn(x), end_lsn: Lsn(y), commit_timestamp: time },
            ),
        ),
{
    lemma_begin_read(x, time, xid, parallel);
    lemma_commit_read(x, y, time, flags, parallel);
}

proof fn lemma_begin_frame(b: Seq<u8>, v: Begin, parallel: bool)
    requires
        u8_at(b, 0) == Ok::<(u8, int), DecodeError>((0x42, 1)),
        begin_at(b, 1) == Ok::<(Begin, int), DecodeError>((v, b.len() as int)),
    ensures
        decoded(b, false, parallel) == Ok::<Event, DecodeError>(Event::Begin(v)),
{
}

proof fn lemma_commit_frame(b: Seq<u8>, v: Commit, parallel: bool)
    requires
        u8_at(b, 0) == Ok::<(u8, int), DecodeError>((0x43, 1)),
        commit_at(b, 1) == Ok::<(Commit, int), DecodeError>((v, b.len() as int)),
    ensures
        decoded(b, false, parallel) == Ok::<Event, DecodeError>(Event::Commit(v)),
{
}

#[verifier::spinoff_prover]
proof fn lemma_begin_read(x: u64, time: i64, xid: Xid, parallel: bool)
    ensures
        decoded(
            seq![0x42u8] + (bytes::be(x as nat, 8) + (bytes::be(bytes::bits64(time) as nat, 8)
                + bytes::be(xid as nat, 4))),
            false,
            parallel,
        ) == Ok::<Event, DecodeError>(
            Event::Begin(Begin { final_lsn: Lsn(x), commit_timestamp: time, xid }),
        ),
{
    let t = bytes::be(bytes::bits64(time) as nat, 8);
    let p = bytes::be(x as nat, 8);
    let w = bytes::be(xid as nat, 4);
    let b = seq![0x42u8] + (p + (t + w));
    bytes::lemma_be_len(bytes::bits64(time) as nat, 8);
    bytes::lemma_be_len(x as nat, 8);
    bytes::lemma_be_len(xid as nat, 4);
    bytes::law_signed_patterns_round_trip(0, 0, 0, time, 0);
    lemma_whole_stands(b);
    lemma_parts_stand(b, 0, seq![0x42u8], p + (t + w));
    lemma_parts_stand(b, 1, p, t + w);
    lemma_parts_stand(b, 9, t, w);
    lemma_byte_read(b, 0, 0x42);
    lemma_long_read(b, 1, x);
    lemma_long_read(b, 9, bytes::bits64(time));
    lemma_word_read(b, 17, xid);
    lemma_begin_frame(b, Begin { final_lsn: Lsn(x), commit_timestamp: time, xid }, parallel);
}

#[verifier::spinoff_prover]
proof fn lemma_commit_read(x: u64, y: u64, time: i64, flags: u8, parallel: bool)
    ensures
        decoded(
            seq![0x43u8] + (seq![flags] + (bytes::be(x as nat, 8) + (bytes::be(y as nat, 8)
                + bytes::be(bytes::bits64(time) as nat, 8)))),
            false,
            parallel,
        ) == Ok::<Event, DecodeError>(
            Event::Commit(
                Commit { commit_lsn: Lsn(x), end_lsn: Lsn(y), commit_timestamp: time },
            ),
        ),
{
    let t = bytes::be(bytes::bits64(time) as nat, 8);
    let p = bytes::be(x as nat, 8);
    let q = bytes::be(y as nat, 8);
    let b = seq![0x43u8] + (seq![flags] + (p + (q + t)));
    bytes::lemma_be_len(bytes::bits64(time) as nat, 8);
    bytes::lemma_be_len(x as nat, 8);
    bytes::lemma_be_len(y as nat, 8);
    bytes::law_signed_patterns_round_trip(0, 0, 0, time, 0);
    lemma_whole_stands(b);
    lemma_parts_stand(b, 0, seq![0x43u8], seq![flags] + (p + (q + t)));
    lemma_parts_stand(b, 1, seq![flags], p + (q + t));
    lemma_parts_stand(b, 2, p, q + t);
    lemma_parts_stand(b, 10, q, t);
    lemma_byte_read(b, 0, 0x43);
    lemma_byte_read(b, 1, flags);
    lemma_long_read(b, 2, x);
    lemma_long_read(b, 10, y);
    lemma_long_read(b, 18, bytes::bits64(time));
    lemma_commit_frame(
        b,
        Commit { commit_lsn: Lsn(x), end_lsn: Lsn(y), commit_timestamp: time },
        parallel,
    );
}

proof fn lemma_columns_read(b: Seq<u8>, at: int, cs: Seq<ColumnDecl>)
    requires
        forall|i: int| 0 <= i < cs.len() ==> nameable((#[trigger] cs[i]).name),
        stands(b, at, sent_columns(cs)),
    ensures
        columns_at(b, at, cs.len()) == Ok::<(Seq<ColumnDecl>, int), DecodeError>(
            (cs, at + sent_columns(cs).len()),
        ),
    decreases cs.len(),
{
    if cs.len() > 0 {
        let t = cs.drop_last();
        let c = cs.last();
        assert(c == cs[cs.len() - 1]);
        lemma_parts_stand(b, at, sent_columns(t), sent_column(c));
        assert forall|i: int| 0 <= i < t.len() implies nameable((#[trigger] t[i]).name) by {
            assert(t[i] == cs[i]);
        }
        lemma_columns_read(b, at, t);
        lemma_column_read(b, at + sent_columns(t).len(), c);
        assert(t.push(c) =~= cs);
    } else {
        assert(cs =~= Seq::<ColumnDecl>::empty());
    }
}

proof fn lemma_column_read(b: Seq<u8>, at: int, c: ColumnDecl)
    requires
        nameable(c.name),
        stands(b, at, sent_column(c)),
    ensures
        column_at(b, at) == Ok::<(ColumnDecl, int), DecodeError>((c, at + sent_column(c).len())),
{
    let n = sent_name(c.name);
    let o = bytes::be(c.type_oid as nat, 4);
    let m = bytes::be(bytes::bits32(c.type_modifier) as nat, 4);
    bytes::lemma_be_len(c.type_oid as nat, 4);
    bytes::lemma_be_len(bytes::bits32(c.type_modifier) as nat, 4);
    bytes::law_signed_patterns_round_trip(0, 0, 0, 0, c.type_modifier);
    lemma_parts_stand(b, at, seq![c.flags], n + (o + m));
    lemma_parts_stand(b, at + 1, n, o + m);
    lemma_parts_stand(b, at + 1 + n.len(), o, m);
    lemma_byte_read(b, at, c.flags);
    lemma_name_read(b, at + 1, c.name);
    lemma_word_read(b, at + 1 + n.len(), c.type_oid);
    lemma_word_read(b, at + 5 + n.len(), bytes::bits32(c.type_modifier));
}

/// A relation is read with its number, its namespace and name, its replica identity, and all
/// of its columns in their order.
#[verifier::spinoff_prover]
pub proof fn law_sent_relations_read_back(
    oid: Oid,
    namespace: Seq<char>,
    name: Seq<char>,
    identity: u8,
    columns: Seq<ColumnDecl>,
    parallel: bool,
)
    requires
        nameable(namespace),
        nameable(name),
        columns.len() <= i16::MAX,
        forall|i: int| 0 <= i < columns.len() ==> nameable((#[trigger] columns[i]).name),
    ensures
        decoded(
            seq![0x52u8] + (bytes::be(oid as nat, 4) + (sent_name(namespace) + (sent_name(name) + (
            seq![identity] + (bytes::be(columns.len(), 2) + sent_columns(columns)))))),
            false,
            parallel,
        ) == Ok::<Event, DecodeError>(
            Event::Relation {
                xid: None,
                oid,
                namespace,
                name,
                replica_identity: identity,
                columns,
            },
        ),
{
    let o = bytes::be(oid as nat, 4);
    let n = sent_name(namespace) + (sent_name(name) + (seq![identity] + (bytes::be(
        columns.len(),
        2,
    ) + sent_columns(columns))));
    let b = seq![0x52u8] + (o + n);
    bytes::lemma_be_len(oid as nat, 4);
    bytes::lemma_be_len(columns.len(), 2);
    lemma_whole_stands(b);
    lemma_parts_stand(b, 0, seq![0x52u8], o + n);
    lemma_parts_stand(b, 1, o, n);
    lemma_byte_read(b, 0, 0x52);
    lemma_word_read(b, 1, oid);
    lemma_relation_read(b, oid, namespace, name, identity, columns);
    assert(b.len() == 8 + sent_name(namespace).len() + sent_name(name).len() + sent_columns(
        columns,
    ).len());
    lemma_relation_frame(
        b,
        Event::Relation { xid: None, oid, namespace, name, replica_identity: identity, columns },
        parallel,
    );
}

proof fn lemma_relation_frame(b: Seq<u8>, m: Event, parallel: bool)
    requires
        u8_at(b, 0) == Ok::<(u8, int), DecodeError>((0x52, 1)),
        relation_at(b, 1, false) == Ok::<(Event, int), DecodeError>((m, b.len() as int)),
    ensures
        decoded(b, false, parallel) == Ok::<Event, DecodeError>(m),
{
}

#[verifier::spinoff_prover]
proof fn lemma_relation_read(
    b: Seq<u8>,
    oid: Oid,
    namespace: Seq<char>,
    name: Seq<char>,
    identity: u8,
    columns: Seq<ColumnDecl>,
)
    requires
        nameable(namespace),
        nameable(name),
        columns.len() <= i16::MAX,
        forall|i: int| 0 <= i < columns.len() ==> nameable((#[trigger] columns[i]).name),
        u32_at(b, 1) == Ok::<(u32, int), DecodeError>((oid, 5)),
        stands(
            b,
            5,
            sent_name(namespace) + (sent_name(name) + (seq![identity] + (bytes::be(
                columns.len(),
                2,
            ) + sent_columns(columns)))),
        ),
    ensures
        relation_at(b, 1, false) == Ok::<(Event, int), DecodeError>(
            (
                Event::Relation {
                    xid: None,
                    oid,
                    namespace,
                    name,
                    replica_identity: identity,
                    columns,
                },
                8 + sent_name(namespace).len() as int + sent_name(name).len() + sent_columns(
                    columns,
                ).len(),
            ),
        ),
{
    let s = sent_name(namespace);
    let n = sent_name(name);
    let k = bytes::be(columns.len(), 2);
    let c = sent_columns(columns);
    let i = seq![identity];
    bytes::lemma_pow256();
    bytes::lemma_be_value(columns.len(), 2);
    bytes::law_signed_patterns_round_trip(0, 0, columns.len() as u16, 0, 0);
    let p = 5 + s.len() as int;
    let q = p + n.len();
    lemma_parts_stand(b, 5, s, n + (i + (k + c)));
    lemma_parts_stand(b, p, n, i + (k + c));
    lemma_parts_stand(b, q, i, k + c);
    lemma_parts_stand(b, q + 1, k, c);
    lemma_name_read(b, 5, namespace);
    lemma_name_read(b, p, name);
    lemma_byte_read(b, q, identity);
    lemma_columns_read(b, q + 3, columns);
    assert(i16_at(b, q + 1) == Ok::<(i16, int), DecodeError>((columns.len() as i16, q + 3)));
}

proof fn lemma_oids_read(b: Seq<u8>, at: int, os: Seq<Oid>)
    requires
        stands(b, at, sent_oids(os)),
    ensures
        oids_at(b, at, os.len()) == Ok::<(Seq<Oid>, int), DecodeError>(
            (os, at + sent_oids(os).len()),
        ),
    decreases os.len(),
{
    if os.len() > 0 {
        let t = os.drop_last();
        bytes::lemma_be_len(os.last() as nat, 4);
        lemma_parts_stand(b, at, sent_oids(t), bytes::be(os.last() as nat, 4));
        lemma_oids_read(b, at, t);
        lemma_word_read(b, at + sent_oids(t).len(), os.last());
        assert(t.push(os.last()) =~= os);
    } else {
        assert(os =~= Seq::<Oid>::empty());
    }
}

/// A truncate is read with its options and all of its relations.
#[verifier::spinoff_prover]
pub proof fn law_sent_truncates_read_back(options: u8, relations: Seq<Oid>, parallel: bool)
    requires
        relations.len() <= i32::MAX,
    ensures
        decoded(
            seq![0x54u8] + (bytes::be(relations.len(), 4) + (seq![options] + sent_oids(relations))),
            false,
            parallel,
        ) == Ok::<Event, DecodeError>(Event::Truncate { xid: None, options, relations }),
{
    let n = bytes::be(relations.len(), 4);
    let r = sent_oids(relations);
    let b = seq![0x54u8] + (n + (seq![options] + r));
    bytes::lemma_be_len(relations.len(), 4);
    bytes::law_signed_patterns_round_trip(0, relations.len() as u32, 0, 0, 0);
    lemma_whole_stands(b);
    lemma_parts_stand(b, 0, seq![0x54u8], n + (seq![options] + r));
    lemma_parts_stand(b, 1, n, seq![options] + r);
    lemma_parts_stand(b, 5, seq![options], r);
    lemma_byte_read(b, 0, 0x54);
    lemma_word_read(b, 1, relations.len() as u32);
    lemma_byte_read(b, 5, options);
    lemma_oids_read(b, 6, relations);
    lemma_truncate_frame(b, Event::Truncate { xid: None, options, relations }, parallel);
}

proof fn lemma_truncate_frame(b: Seq<u8>, m: Event, parallel: bool)
    requires
        u8_at(b, 0) == Ok::<(u8, int), DecodeError>((0x54, 1)),
        truncate_at(b, 1, false) == Ok::<(Event, int), DecodeError>((m, b.len() as int)),
    ensures
        decoded(b, false, parallel) == Ok::<Event, DecodeError>(m),
{
}

/// A streamed transaction's start is read with its number and whether it is the first
/// segment, and a frame that ends a segment is its type byte alone.
#[verifier::spinoff_prover]
pub proof fn law_sent_segments_read_back(xid: Xid, first: u8, in_stream: bool, parallel: bool)
    ensures
        decoded(seq![0x53u8] + (bytes::be(xid as nat, 4) + seq![first]), in_stream, parallel)
            == Ok::<Event, DecodeError>(
            Event::StreamStart(StreamStart { xid, first_segment: first != 0 }),
        ),
        decoded(seq![0x45u8], in_stream, parallel) == Ok::<Event, DecodeError>(Event::StreamStop),
{
    let w = bytes::be(xid as nat, 4);
    let b = seq![0x53u8] + (w + seq![first]);
    bytes::lemma_be_len(xid as nat, 4);
    lemma_whole_stands(b);
    lemma_parts_stand(b, 0, seq![0x53u8], w + seq![first]);
    lemma_parts_stand(b, 1, w, seq![first]);
    lemma_byte_read(b, 0, 0x53);
    lemma_word_read(b, 1, xid);
    lemma_byte_read(b, 5, first);
    lemma_start_frame(b, StreamStart { xid, first_segment: first != 0 }, in_stream, parallel);
    lemma_whole_stands(seq![0x45u8]);
    lemma_byte_read(seq![0x45u8], 0, 0x45);
    lemma_stop_frame(in_stream, parallel);
}

proof fn lemma_start_frame(b: Seq<u8>, v: StreamStart, in_stream: bool, parallel: bool)
    requires
        u8_at(b, 0) == Ok::<(u8, int), DecodeError>((0x53, 1)),
        stream_start_at(b, 1) == Ok::<(StreamStart, int), DecodeError>((v, b.len() as int)),
    ensures
        decoded(b, in_stream, parallel) == Ok::<Event, DecodeError>(Event::StreamStart(v)),
{
}

proof fn lemma_stop_frame(in_stream: bool, parallel: bool)
    requires
        u8_at(seq![0x45u8], 0) == Ok::<(u8, int), DecodeError>((0x45, 1)),
    ensures
        decoded(seq![0x45u8], in_stream, parallel) == Ok::<Event, DecodeError>(Event::StreamStop),
{
}

} // verus!
