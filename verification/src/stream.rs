//! The streaming-replication CopyData wrapper.
//!
//! During `START_REPLICATION`, the server and client exchange `CopyData` frames
//! whose payloads are the small messages defined here — *not* pgoutput itself.
//! The server sends [`XLogData`] (a chunk of the WAL stream, whose bytes are the
//! pgoutput message) and [`PrimaryKeepalive`]; the client replies with
//! [`StandbyStatusUpdate`] (the LSN feedback that lets the server advance and
//! release WAL) and optionally [`HotStandbyFeedback`].
//!
//! This layer only splits the wrapper: an [`XLogData`]'s `data` is handed to
//! [`crate::pgoutput::PgOutputDecoder`] separately. Decoding is bounds-checked
//! and never panics; encoding produces the exact bytes to place in a `CopyData`.
use crate::bytes;
use crate::lsn::Lsn;
use crate::pgoutput::{self, DecodeError, Reader};
use vstd::prelude::*;

verus! {

/// Microseconds since `2000-01-01 00:00:00 UTC` (PostgreSQL `TimestampTz`).
pub type MicrosSince2000 = i64;

/// A server-to-client streaming-replication message.
#[derive(Debug, PartialEq, Eq)]
pub enum ReplicationMessage<'a> {
    XLogData(XLogData<'a>),
    PrimaryKeepalive(PrimaryKeepalive),
}

/// A chunk of the WAL stream. `data` is the pgoutput payload for logical
/// replication.
#[derive(Debug, PartialEq, Eq)]
pub struct XLogData<'a> {
    /// The WAL location of the start of `data`.
    pub wal_start: Lsn,
    /// The server's current end of WAL.
    pub wal_end: Lsn,
    pub server_time: MicrosSince2000,
    pub data: &'a [u8],
}

/// A liveness ping; `reply_requested` asks the client to send a status update
/// promptly so the server does not time the connection out.
#[derive(Debug, Clone, Copy, PartialEq, Eq, Structural)]
pub struct PrimaryKeepalive {
    pub wal_end: Lsn,
    pub server_time: MicrosSince2000,
    pub reply_requested: bool,
}

/// What a server message says.
#[verifier::ext_equal]
pub enum WalEvent {
    Data { wal_start: Lsn, wal_end: Lsn, server_time: i64, data: Seq<u8> },
    Keepalive(PrimaryKeepalive),
}

impl<'a> View for ReplicationMessage<'a> {
    type V = WalEvent;

    open spec fn view(&self) -> WalEvent {
        match self {
            ReplicationMessage::XLogData(x) => WalEvent::Data {
                wal_start: x.wal_start,
                wal_end: x.wal_end,
                server_time: x.server_time,
                data: x.data@,
            },
            ReplicationMessage::PrimaryKeepalive(k) => WalEvent::Keepalive(*k),
        }
    }
}

/// The message that a payload holds.
pub open spec fn decoded(b: Seq<u8>) -> Result<WalEvent, DecodeError> {
    match pgoutput::u8_at(b, 0) {
        Err(e) => Err(e),
        Ok((tag, p)) => if tag == 0x77 {
            match pgoutput::span_at(b, p) {
                Err(e) => Err(e),
                Ok(((wal_start, wal_end, server_time), q)) => Ok(
                    WalEvent::Data {
                        wal_start,
                        wal_end,
                        server_time,
                        data: b.subrange(q, b.len() as int),
                    },
                ),
            }
        } else if tag == 0x6b {
            match pgoutput::lsn_at(b, p) {
                Err(e) => Err(e),
                Ok((wal_end, q)) => match pgoutput::i64_at(b, q) {
                    Err(e) => Err(e),
                    Ok((server_time, r)) => match pgoutput::u8_at(b, r) {
                        Err(e) => Err(e),
                        Ok((reply, s)) => if s != b.len() {
                            Err(DecodeError::TrailingBytes((b.len() - s) as usize))
                        } else {
                            Ok(
                                WalEvent::Keepalive(
                                    PrimaryKeepalive {
                                        wal_end,
                                        server_time,
                                        reply_requested: reply != 0,
                                    },
                                ),
                            )
                        },
                    },
                },
            }
        } else {
            Err(DecodeError::UnknownMessage(tag))
        },
    }
}

/// Decode one server-to-client message from a `CopyData` payload.
pub fn decode<'a>(frame: &'a [u8]) -> (r: Result<ReplicationMessage<'a>, DecodeError>)
    ensures
        match r {
            Ok(m) => decoded(frame@) == Ok::<WalEvent, DecodeError>(m@),
            Err(e) => decoded(frame@) == Err::<WalEvent, DecodeError>(e),
        },
{
    let mut r = Reader::new(frame);
    let tag = r.read_u8()?;
    match tag {
        0x77 => {
            let wal_start = r.read_lsn()?;
            let wal_end = r.read_lsn()?;
            let server_time = r.read_i64()?;
            // The rest of the frame is the WAL/pgoutput payload.
            let data = r.rest();
            Ok(ReplicationMessage::XLogData(XLogData { wal_start, wal_end, server_time, data }))
        },
        0x6b => {
            let wal_end = r.read_lsn()?;
            let server_time = r.read_i64()?;
            let reply = r.read_u8()?;
            // A keepalive with extra bytes is malformed.
            if r.remaining() != 0 {
                return Err(DecodeError::TrailingBytes(r.remaining()));
            }
            Ok(
                ReplicationMessage::PrimaryKeepalive(
                    PrimaryKeepalive { wal_end, server_time, reply_requested: reply != 0 },
                ),
            )
        },
        other => Err(DecodeError::UnknownMessage(other)),
    }
}

/// The client's acknowledgement of how far it has received, flushed, and applied
/// the WAL. The server advances its slot — and releases retained WAL — from the
/// flush LSN, so a consumer must not report a flush position past what it has
/// durably checkpointed.
#[derive(Debug, Clone, Copy, PartialEq, Eq, Structural)]
pub struct StandbyStatusUpdate {
    pub write_lsn: Lsn,
    pub flush_lsn: Lsn,
    pub apply_lsn: Lsn,
    pub client_time: MicrosSince2000,
    /// Ask the server to reply immediately (a ping).
    pub reply_requested: bool,
}

/// A flag as a byte.
pub open spec fn flag_byte(b: bool) -> u8 {
    if b {
        1
    } else {
        0
    }
}

impl StandbyStatusUpdate {
    /// The payload: `r`, the three positions, the time, and whether a reply is wanted.
    pub open spec fn payload(self) -> Seq<u8> {
        seq![0x72u8] + bytes::be(self.write_lsn.0 as nat, 8) + bytes::be(
            self.flush_lsn.0 as nat,
            8,
        ) + bytes::be(self.apply_lsn.0 as nat, 8) + bytes::be(
            bytes::bits64(self.client_time) as nat,
            8,
        ) + seq![flag_byte(self.reply_requested)]
    }

    /// The bytes to place in a `CopyData` frame.
    pub fn encode(&self) -> (r: Vec<u8>)
        ensures
            r@ == self.payload(),
            r@.len() == 34,
    {
        let mut buf: Vec<u8> = Vec::new();
        buf.push(0x72);
        bytes::push_be(&mut buf, self.write_lsn.0, 8);
        bytes::push_be(&mut buf, self.flush_lsn.0, 8);
        bytes::push_be(&mut buf, self.apply_lsn.0, 8);
        bytes::push_be(&mut buf, bytes::to_bits64(self.client_time), 8);
        buf.push(
            if self.reply_requested {
                1
            } else {
                0
            },
        );
        proof {
            bytes::lemma_be_len(self.write_lsn.0 as nat, 8);
            bytes::lemma_be_len(self.flush_lsn.0 as nat, 8);
            bytes::lemma_be_len(self.apply_lsn.0 as nat, 8);
            bytes::lemma_be_len(bytes::bits64(self.client_time) as nat, 8);
            assert(buf@ =~= self.payload());
        }
        buf
    }
}

/// The client's `hot_standby_feedback`: the xmin the server must not vacuum past
/// while this consumer is connected, preventing recently-needed rows from being
/// removed out from under a snapshot.
#[derive(Debug, Clone, Copy, PartialEq, Eq, Structural)]
pub struct HotStandbyFeedback {
    pub client_time: MicrosSince2000,
    pub global_xmin: u32,
    pub global_xmin_epoch: u32,
    pub catalog_xmin: u32,
    pub catalog_xmin_epoch: u32,
}

impl HotStandbyFeedback {
    /// The payload: `h`, the time, and the four transaction numbers.
    pub open spec fn payload(self) -> Seq<u8> {
        seq![0x68u8] + bytes::be(bytes::bits64(self.client_time) as nat, 8) + bytes::be(
            self.global_xmin as nat,
            4,
        ) + bytes::be(self.global_xmin_epoch as nat, 4) + bytes::be(self.catalog_xmin as nat, 4)
            + bytes::be(self.catalog_xmin_epoch as nat, 4)
    }

    /// The bytes to place in a `CopyData` frame.
    pub fn encode(&self) -> (r: Vec<u8>)
        ensures
            r@ == self.payload(),
            r@.len() == 25,
    {
        let mut buf: Vec<u8> = Vec::new();
        buf.push(0x68);
        bytes::push_be(&mut buf, bytes::to_bits64(self.client_time), 8);
        bytes::push_be(&mut buf, self.global_xmin as u64, 4);
        bytes::push_be(&mut buf, self.global_xmin_epoch as u64, 4);
        bytes::push_be(&mut buf, self.catalog_xmin as u64, 4);
        bytes::push_be(&mut buf, self.catalog_xmin_epoch as u64, 4);
        proof {
            bytes::lemma_be_len(bytes::bits64(self.client_time) as nat, 8);
            bytes::lemma_be_len(self.global_xmin as nat, 4);
            bytes::lemma_be_len(self.global_xmin_epoch as nat, 4);
            bytes::lemma_be_len(self.catalog_xmin as nat, 4);
            bytes::lemma_be_len(self.catalog_xmin_epoch as nat, 4);
            assert(buf@ =~= self.payload());
        }
        buf
    }
}

proof fn lemma_field(b: Seq<u8>, at: int, n: nat)
    requires
        0 <= at,
        at + 8 <= b.len(),
        n <= u64::MAX,
        b.subrange(at, at + 8) == bytes::be(n, 8),
    ensures
        pgoutput::lsn_at(b, at) == Ok::<(Lsn, int), DecodeError>((Lsn(n as u64), at + 8)),
        pgoutput::i64_at(b, at) == Ok::<(i64, int), DecodeError>(
            (bytes::signed64(n as u64), at + 8),
        ),
{
    bytes::lemma_pow256();
    bytes::lemma_be_value(n, 8);
}

/// A chunk of the stream is read as it is sent: its start, the end of the WAL, the time, and
/// all of the bytes behind them.
pub proof fn law_stream_data_reads_back(start: u64, end: u64, time: i64, data: Seq<u8>)
    ensures
        decoded(
            seq![0x77u8] + bytes::be(start as nat, 8) + bytes::be(end as nat, 8) + bytes::be(
                bytes::bits64(time) as nat,
                8,
            ) + data,
        ) == Ok::<WalEvent, DecodeError>(
            WalEvent::Data {
                wal_start: Lsn(start),
                wal_end: Lsn(end),
                server_time: time,
                data,
            },
        ),
{
    let x = bytes::be(start as nat, 8);
    let y = bytes::be(end as nat, 8);
    let z = bytes::be(bytes::bits64(time) as nat, 8);
    bytes::lemma_be_len(start as nat, 8);
    bytes::lemma_be_len(end as nat, 8);
    bytes::lemma_be_len(bytes::bits64(time) as nat, 8);
    bytes::law_signed_patterns_round_trip(0, 0, 0, time, 0);
    let b = seq![0x77u8] + x + y + z + data;
    assert(b.subrange(0, 1) =~= seq![0x77u8]);
    assert(b.subrange(1, 9) =~= x);
    assert(b.subrange(9, 17) =~= y);
    assert(b.subrange(17, 25) =~= z);
    assert(b.subrange(25, b.len() as int) =~= data);
    lemma_field(b, 1, start as nat);
    lemma_field(b, 9, end as nat);
    lemma_field(b, 17, bytes::bits64(time) as nat);
}

/// A keepalive is read as it is sent, and asks for a reply with any byte but zero; one with
/// bytes to spare is refused.
pub proof fn law_keepalives_read_back(end: u64, time: i64, reply: u8, extra: Seq<u8>)
    requires
        extra.len() <= usize::MAX,
    ensures
        ({
            let b = seq![0x6bu8] + bytes::be(end as nat, 8) + bytes::be(
                bytes::bits64(time) as nat,
                8,
            ) + seq![reply] + extra;
            &&& extra.len() == 0 ==> decoded(b) == Ok::<WalEvent, DecodeError>(
                WalEvent::Keepalive(
                    PrimaryKeepalive {
                        wal_end: Lsn(end),
                        server_time: time,
                        reply_requested: reply != 0,
                    },
                ),
            )
            &&& extra.len() > 0 ==> decoded(b) == Err::<WalEvent, DecodeError>(
                DecodeError::TrailingBytes(extra.len() as usize),
            )
        }),
{
    let y = bytes::be(end as nat, 8);
    let z = bytes::be(bytes::bits64(time) as nat, 8);
    bytes::lemma_be_len(end as nat, 8);
    bytes::lemma_be_len(bytes::bits64(time) as nat, 8);
    bytes::law_signed_patterns_round_trip(0, 0, 0, time, 0);
    let b = seq![0x6bu8] + y + z + seq![reply] + extra;
    assert(b.subrange(0, 1) =~= seq![0x6bu8]);
    assert(b.subrange(1, 9) =~= y);
    assert(b.subrange(9, 17) =~= z);
    assert(b.subrange(17, 18) =~= seq![reply]);
    lemma_field(b, 1, end as nat);
    lemma_field(b, 9, bytes::bits64(time) as nat);
}

/// A status update states the written, the flushed and the applied position, each in its own
/// place, then the time, then whether a reply is wanted.
pub proof fn law_status_updates_state_their_positions(u: StandbyStatusUpdate)
    ensures
        u.payload().len() == 34,
        u.payload()[0] == 0x72,
        bytes::be_value(u.payload().subrange(1, 9)) == u.write_lsn.0,
        bytes::be_value(u.payload().subrange(9, 17)) == u.flush_lsn.0,
        bytes::be_value(u.payload().subrange(17, 25)) == u.apply_lsn.0,
        bytes::signed64(bytes::be_value(u.payload().subrange(25, 33)) as u64) == u.client_time,
        u.payload()[33] != 0 <==> u.reply_requested,
{
    let w = bytes::be(u.write_lsn.0 as nat, 8);
    let f = bytes::be(u.flush_lsn.0 as nat, 8);
    let a = bytes::be(u.apply_lsn.0 as nat, 8);
    let t = bytes::be(bytes::bits64(u.client_time) as nat, 8);
    bytes::lemma_pow256();
    bytes::lemma_be_value(u.write_lsn.0 as nat, 8);
    bytes::lemma_be_value(u.flush_lsn.0 as nat, 8);
    bytes::lemma_be_value(u.apply_lsn.0 as nat, 8);
    bytes::lemma_be_value(bytes::bits64(u.client_time) as nat, 8);
    bytes::law_signed_patterns_round_trip(0, 0, 0, u.client_time, 0);
    let p = u.payload();
    assert(p.subrange(1, 9) =~= w);
    assert(p.subrange(9, 17) =~= f);
    assert(p.subrange(17, 25) =~= a);
    assert(p.subrange(25, 33) =~= t);
}

/// Feedback states the time and the four transaction numbers, each in its own place.
pub proof fn law_feedback_states_its_numbers(h: HotStandbyFeedback)
    ensures
        h.payload().len() == 25,
        h.payload()[0] == 0x68,
        bytes::signed64(bytes::be_value(h.payload().subrange(1, 9)) as u64) == h.client_time,
        bytes::be_value(h.payload().subrange(9, 13)) == h.global_xmin,
        bytes::be_value(h.payload().subrange(13, 17)) == h.global_xmin_epoch,
        bytes::be_value(h.payload().subrange(17, 21)) == h.catalog_xmin,
        bytes::be_value(h.payload().subrange(21, 25)) == h.catalog_xmin_epoch,
{
    let t = bytes::be(bytes::bits64(h.client_time) as nat, 8);
    bytes::lemma_pow256();
    bytes::lemma_be_value(bytes::bits64(h.client_time) as nat, 8);
    bytes::lemma_be_value(h.global_xmin as nat, 4);
    bytes::lemma_be_value(h.global_xmin_epoch as nat, 4);
    bytes::lemma_be_value(h.catalog_xmin as nat, 4);
    bytes::lemma_be_value(h.catalog_xmin_epoch as nat, 4);
    bytes::law_signed_patterns_round_trip(0, 0, 0, h.client_time, 0);
    let p = h.payload();
    assert(p.subrange(1, 9) =~= t);
    assert(p.subrange(9, 13) =~= bytes::be(h.global_xmin as nat, 4));
    assert(p.subrange(13, 17) =~= bytes::be(h.global_xmin_epoch as nat, 4));
    assert(p.subrange(17, 21) =~= bytes::be(h.catalog_xmin as nat, 4));
    assert(p.subrange(21, 25) =~= bytes::be(h.catalog_xmin_epoch as nat, 4));
}

} // verus!
