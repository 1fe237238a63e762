//! A minimal PostgreSQL logical-replication client.
//!
//! It owns just enough of the wire protocol for logical replication: the startup and SCRAM
//! handshake in replication mode, slot creation, `START_REPLICATION`, and the `CopyData`
//! frames whose payloads go to [`crate::stream`] and [`crate::pgoutput`]. What is here says
//! which bytes to send and what the bytes that arrive mean; the connection itself, its
//! timeouts included, is with whoever holds the socket.
use crate::bytes;
use crate::copy;
use crate::lsn::{self, Lsn};
use crate::pgoutput::{self, DecodeError, Reader};
use crate::stream::{self, MicrosSince2000, ReplicationMessage, StandbyStatusUpdate};
use crate::text;
use postgres_protocol::authentication::sasl::{ChannelBinding, ScramSha256};
use vstd::arithmetic::power::pow;
use vstd::prelude::*;
use vstd::slice::*;
use vstd::string::*;
use vstd::utf8::*;

verus! {

/// Connection parameters for a replication connection.
#[derive(Debug, Clone, PartialEq, Eq)]
pub struct Config {
    pub host: String,
    pub port: u16,
    pub user: String,
    pub password: String,
    pub database: String,
}

/// Why a replication operation failed.
#[derive(Debug, PartialEq, Eq)]
pub enum ClientError {
    /// The connection failed.
    Io(String),
    /// The server closed the connection.
    Closed,
    Server(String),
    Auth(String),
    /// A server message of this type does not belong here.
    Unexpected(u8),
    Malformed(String),
    Decode(DecodeError),
}

/// What an error says.
#[verifier::ext_equal]
pub enum ClientFault {
    Io(Seq<char>),
    Closed,
    Server(Seq<char>),
    Auth(Seq<char>),
    Unexpected(u8),
    Malformed(Seq<char>),
    Decode(DecodeError),
}

impl View for ClientError {
    type V = ClientFault;

    open spec fn view(&self) -> ClientFault {
        match self {
            ClientError::Io(m) => ClientFault::Io(m@),
            ClientError::Closed => ClientFault::Closed,
            ClientError::Server(m) => ClientFault::Server(m@),
            ClientError::Auth(m) => ClientFault::Auth(m@),
            ClientError::Unexpected(t) => ClientFault::Unexpected(*t),
            ClientError::Malformed(m) => ClientFault::Malformed(m@),
            ClientError::Decode(e) => ClientFault::Decode(*e),
        }
    }
}

/// Reject any server message whose length header exceeds this. Real PostgreSQL
/// bounds messages near 1 GiB; a larger claim would otherwise drive an unbounded
/// buffer growth or a stalled read.
pub const MAX_MESSAGE_LEN: usize = 0x4000_0000;

/// How long a handshake or command read may block, in seconds, before it is treated as a
/// dead peer. The streaming read is exempt — it legitimately waits for the next WAL record.
pub const CONTROL_TIMEOUT_SECS: u64 = 30;

// ---------------------------------------------------------------------------------------
// Names and commands.
// ---------------------------------------------------------------------------------------

pub open spec fn is_ident_char(c: char) -> bool {
    ('0' <= c && c <= '9') || ('a' <= c && c <= 'z') || ('A' <= c && c <= 'Z') || c == '_'
}

/// Whether a name is safe to interpolate into a replication command.
pub open spec fn safe_ident(s: Seq<char>) -> bool {
    0 < s.len() <= 63 && forall|i: int| 0 <= i < s.len() ==> is_ident_char(#[trigger] s[i])
}

/// Whether `name` is safe to interpolate into a replication command. Slot and
/// publication names reach the wire as simple-query text, and replication mode
/// also accepts SQL. Accept only a
/// conservative identifier charset (a superset of PostgreSQL's slot-name rule of
/// lower-case letters, digits, and underscore).
pub fn is_safe_ident(name: &str) -> (r: bool)
    ensures
        r == safe_ident(name@),
{
    let cs = text::chars(name);
    if cs.len() == 0 || cs.len() > 63 {
        return false;
    }
    let mut i: usize = 0;
    while i < cs.len()
        invariant
            i <= cs@.len(),
            cs@ == name@,
            forall|k: int| 0 <= k < i ==> is_ident_char(#[trigger] cs@[k]),
        decreases cs@.len() - i,
    {
        let c = cs[i];
        if !(('0' <= c && c <= '9') || ('a' <= c && c <= 'z') || ('A' <= c && c <= 'Z') || c
            == '_') {
            assert(!is_ident_char(name@[i as int]));
            return false;
        }
        i += 1;
    }
    true
}

/// The command that creates a slot. A persistent slot is failover-enabled, so that slot
/// synchronization carries it to standbys; a temporary slot cannot be.
pub open spec fn create_slot_sql(name: Seq<char>, temporary: bool, export: bool) -> Seq<char> {
    "CREATE_REPLICATION_SLOT "@ + name + (if temporary {
        " TEMPORARY LOGICAL pgoutput "@
    } else {
        " LOGICAL pgoutput "@
    }) + (if temporary && export {
        "EXPORT_SNAPSHOT"@
    } else if temporary {
        "NOEXPORT_SNAPSHOT"@
    } else if export {
        "(SNAPSHOT 'export', FAILOVER true)"@
    } else {
        "(SNAPSHOT 'nothing', FAILOVER true)"@
    })
}

/// The command that starts streaming.
pub open spec fn start_sql(slot: Seq<char>, publication: Seq<char>) -> Seq<char> {
    "START_REPLICATION SLOT "@ + slot + " LOGICAL 0/0 (proto_version '4', publication_names '\""@
        + publication + "\"')"@
}

// ---------------------------------------------------------------------------------------
// Outgoing messages.
// ---------------------------------------------------------------------------------------

/// A message body with its length before it.
pub open spec fn sized(body: Seq<u8>) -> Seq<u8> {
    bytes::be(4 + body.len(), 4) + body
}

/// A message: its type byte, its length and its body.
pub open spec fn framed(tag: u8, body: Seq<u8>) -> Seq<u8> {
    seq![tag] + sized(body)
}

/// Whether a body is too long for its length to be written.
pub open spec fn too_long(body: Seq<u8>) -> bool {
    4 + body.len() > i32::MAX
}

pub open spec fn has_nul(s: Seq<char>) -> bool {
    encode_utf8(s).contains(0)
}

/// A string with its terminating zero byte.
pub open spec fn cstr(s: Seq<char>) -> Seq<u8> {
    encode_utf8(s).push(0)
}

/// `postgres_protocol::message::frontend::query`: the query message of the SQL text. It is
/// refused where the text has a zero byte, or where the message is too long.
#[verifier::external_body]
fn query_message(sql: &str) -> (r: Result<Vec<u8>, String>)
    ensures
        match r {
            Ok(b) => !has_nul(sql@) && !too_long(cstr(sql@)) && b@ == framed(0x51, cstr(sql@)),
            Err(e) => if has_nul(sql@) {
                e@ == "string contains embedded null"@
            } else {
                too_long(cstr(sql@)) && e@ == "value too large to transmit"@
            },
        },
{
    let mut buf = ::bytes::BytesMut::new();
    postgres_protocol::message::frontend::query(sql, &mut buf)
        .map(|_| buf.to_vec())
        .map_err(|e| e.to_string())
}

/// The names and values of parameters, each with its terminating zero byte.
pub open spec fn param_bytes(ps: Seq<(String, String)>) -> Seq<u8>
    decreases ps.len(),
{
    if ps.len() == 0 {
        Seq::empty()
    } else {
        param_bytes(ps.drop_last()) + cstr(ps.last().0@) + cstr(ps.last().1@)
    }
}

/// The body of a startup message: the protocol version, the parameters, and a zero byte.
pub open spec fn startup_body(ps: Seq<(String, String)>) -> Seq<u8> {
    bytes::be(0x0003_0000, 4) + param_bytes(ps) + seq![0u8]
}

pub open spec fn params_have_nul(ps: Seq<(String, String)>) -> bool {
    exists|i: int|
        0 <= i < ps.len() && (has_nul((#[trigger] ps[i]).0@) || has_nul(ps[i].1@))
}

/// `postgres_protocol::message::frontend::startup_message`: the startup message with the
/// parameters. It is refused where a name or value has a zero byte, or where the message is
/// too long.
#[verifier::external_body]
fn startup_message(params: &Vec<(String, String)>) -> (r: Result<Vec<u8>, String>)
    ensures
        match r {
            Ok(b) => !params_have_nul(params@) && !too_long(startup_body(params@)) && b@ == sized(
                startup_body(params@),
            ),
            Err(e) => if params_have_nul(params@) {
                e@ == "string contains embedded null"@
            } else {
                too_long(startup_body(params@)) && e@ == "value too large to transmit"@
            },
        },
{
    let mut buf = ::bytes::BytesMut::new();
    let pairs = params.iter().map(|p| (p.0.as_str(), p.1.as_str()));
    postgres_protocol::message::frontend::startup_message(pairs, &mut buf)
        .map(|_| buf.to_vec())
        .map_err(|e| e.to_string())
}

/// The body of the first SASL response: the mechanism, and the data with its length.
pub open spec fn sasl_initial_body(mechanism: Seq<char>, data: Seq<u8>) -> Seq<u8> {
    cstr(mechanism) + bytes::be(data.len(), 4) + data
}

/// `postgres_protocol::message::frontend::sasl_initial_response`: the first SASL response
/// with the mechanism and the data. It is refused where the mechanism has a zero byte, or
/// where the data or the message is too long.
#[verifier::external_body]
fn sasl_initial_message(mechanism: &str, data: &[u8]) -> (r: Result<Vec<u8>, String>)
    ensures
        match r {
            Ok(b) => !has_nul(mechanism@) && !too_long(sasl_initial_body(mechanism@, data@)) && b@
                == framed(0x70, sasl_initial_body(mechanism@, data@)),
            Err(e) => if has_nul(mechanism@) {
                e@ == "string contains embedded null"@
            } else {
                too_long(sasl_initial_body(mechanism@, data@)) && e@
                    == "value too large to transmit"@
            },
        },
{
    let mut buf = ::bytes::BytesMut::new();
    postgres_protocol::message::frontend::sasl_initial_response(mechanism, data, &mut buf)
        .map(|_| buf.to_vec())
        .map_err(|e| e.to_string())
}

/// `postgres_protocol::message::frontend::sasl_response`: a SASL response with the data. It
/// is refused where the message is too long.
#[verifier::external_body]
fn sasl_message(data: &[u8]) -> (r: Result<Vec<u8>, String>)
    ensures
        match r {
            Ok(b) => !too_long(data@) && b@ == framed(0x70, data@),
            Err(e) => too_long(data@) && e@ == "value too large to transmit"@,
        },
{
    let mut buf = ::bytes::BytesMut::new();
    postgres_protocol::message::frontend::sasl_response(data, &mut buf)
        .map(|_| buf.to_vec())
        .map_err(|e| e.to_string())
}

/// What a message is, or why it cannot be sent.
pub open spec fn message_or_fault(tag: u8, nul: bool, body: Seq<u8>) -> Result<
    Seq<u8>,
    ClientFault,
> {
    if nul {
        Err(ClientFault::Malformed("string contains embedded null"@))
    } else if too_long(body) {
        Err(ClientFault::Malformed("value too large to transmit"@))
    } else {
        Ok(framed(tag, body))
    }
}

/// Whether a result is what is wanted.
pub open spec fn yields(r: Result<Vec<u8>, ClientError>, want: Result<Seq<u8>, ClientFault>) -> bool {
    match r {
        Ok(b) => want == Ok::<Seq<u8>, ClientFault>(b@),
        Err(e) => want == Err::<Seq<u8>, ClientFault>(e@),
    }
}

fn send_query(sql: &str) -> (r: Result<Vec<u8>, ClientError>)
    ensures
        yields(r, message_or_fault(0x51, has_nul(sql@), cstr(sql@))),
{
    match query_message(sql) {
        Ok(b) => Ok(b),
        Err(e) => Err(ClientError::Malformed(e)),
    }
}

/// Whether a text is ASCII without zero bytes.
spec fn plain(s: Seq<char>) -> bool {
    forall|i: int| 0 <= i < s.len() ==> '\u{1}' <= #[trigger] s[i] <= '\u{7f}'
}

proof fn lemma_plain_is_sendable(s: Seq<char>)
    requires
        plain(s),
        s.len() < 1000,
    ensures
        !has_nul(s),
        !too_long(cstr(s)),
{
    assert(is_ascii_chars(s));
    is_ascii_chars_encode_utf8(s);
    assert forall|i: int| 0 <= i < encode_utf8(s).len() implies encode_utf8(s)[i] != 0 by {
        assert(s[i] as u8 == encode_utf8(s)[i]);
    }
}

/// The first answer to a SASL challenge: the data of the SCRAM computation.
pub fn sasl_initial(data: &[u8]) -> (r: Result<Vec<u8>, ClientError>)
    ensures
        yields(r, message_or_fault(0x70, false, sasl_initial_body("SCRAM-SHA-256"@, data@))),
{
    proof {
        reveal_strlit("SCRAM-SHA-256");
        lemma_plain_is_sendable("SCRAM-SHA-256"@);
    }
    match sasl_initial_message("SCRAM-SHA-256", data) {
        Ok(b) => Ok(b),
        Err(e) => Err(ClientError::Malformed(e)),
    }
}

/// A later answer to a SASL challenge.
pub fn sasl_answer(data: &[u8]) -> (r: Result<Vec<u8>, ClientError>)
    ensures
        yields(r, message_or_fault(0x70, false, data@)),
{
    match sasl_message(data) {
        Ok(b) => Ok(b),
        Err(e) => Err(ClientError::Malformed(e)),
    }
}

/// A `CopyData` message with the payload.
pub fn copy_data(payload: &[u8]) -> (r: Result<Vec<u8>, ClientError>)
    ensures
        match r {
            Ok(b) => !too_long(payload@) && b@ == framed(0x64, payload@),
            Err(e) => too_long(payload@) && e@ == ClientFault::Malformed(
                "copy-data payload too large"@,
            ),
        },
{
    let n: usize = payload.len();
    if n > 0x7fff_fffb {
        return Err(ClientError::Malformed("copy-data payload too large".to_owned()));
    }
    let mut buf: Vec<u8> = Vec::new();
    buf.push(0x64);
    bytes::push_be(&mut buf, (4 + n) as u64, 4);
    bytes::push_all(&mut buf, payload);
    proof {
        assert(buf@ =~= framed(0x64, payload@));
    }
    Ok(buf)
}

/// The parameters of a replication session. `replication=database` enters logical
/// replication while still allowing SQL and the replication commands. The settings that
/// shape output are pinned, so that the text of a value is the same whatever the server's
/// defaults are, and the same as in the snapshot copy.
pub fn startup_parameters(config: &Config) -> (r: Vec<(String, String)>)
    ensures
        r@.len() == 8,
        r@[0].0@ == "user"@ && r@[0].1@ == config.user@,
        r@[1].0@ == "database"@ && r@[1].1@ == config.database@,
        r@[2].0@ == "replication"@ && r@[2].1@ == "database"@,
        r@[3].0@ == "client_encoding"@ && r@[3].1@ == "UTF8"@,
        r@[4].0@ == "bytea_output"@ && r@[4].1@ == "hex"@,
        r@[5].0@ == "DateStyle"@ && r@[5].1@ == "ISO"@,
        r@[6].0@ == "IntervalStyle"@ && r@[6].1@ == "postgres"@,
        r@[7].0@ == "extra_float_digits"@ && r@[7].1@ == "3"@,
{
    let mut out: Vec<(String, String)> = Vec::new();
    out.push(("user".to_owned(), config.user.clone()));
    out.push(("database".to_owned(), config.database.clone()));
    out.push(("replication".to_owned(), "database".to_owned()));
    out.push(("client_encoding".to_owned(), "UTF8".to_owned()));
    out.push(("bytea_output".to_owned(), "hex".to_owned()));
    out.push(("DateStyle".to_owned(), "ISO".to_owned()));
    out.push(("IntervalStyle".to_owned(), "postgres".to_owned()));
    out.push(("extra_float_digits".to_owned(), "3".to_owned()));
    out
}

/// The startup message with the parameters.
pub fn startup(params: &Vec<(String, String)>) -> (r: Result<Vec<u8>, ClientError>)
    ensures
        match r {
            Ok(b) => !params_have_nul(params@) && !too_long(startup_body(params@)) && b@ == sized(
                startup_body(params@),
            ),
            Err(e) => if params_have_nul(params@) {
                e@ == ClientFault::Malformed("string contains embedded null"@)
            } else {
                too_long(startup_body(params@)) && e@ == ClientFault::Malformed(
                    "value too large to transmit"@,
                )
            },
        },
{
    match startup_message(params) {
        Ok(b) => Ok(b),
        Err(e) => Err(ClientError::Malformed(e)),
    }
}

// ---------------------------------------------------------------------------------------
// Incoming messages.
// ---------------------------------------------------------------------------------------

/// What is at the front of the bytes received.
#[verifier::ext_equal]
pub enum Incoming {
    /// Not yet a whole message.
    Partial,
    /// A length that no message has.
    BadLength(i32),
    /// A message, and what follows it.
    Message { tag: u8, body: Seq<u8>, rest: Seq<u8> },
}

/// A message is a type byte, a 32-bit length that covers itself and the body, and the body.
pub open spec fn incoming(b: Seq<u8>) -> Incoming {
    if b.len() < 5 {
        Incoming::Partial
    } else {
        let n = bytes::signed32(bytes::be_value(b.subrange(1, 5)) as u32);
        if n < 4 || n > MAX_MESSAGE_LEN {
            Incoming::BadLength(n)
        } else if b.len() < 1 + n {
            Incoming::Partial
        } else {
            Incoming::Message {
                tag: b[0],
                body: b.subrange(5, 1 + n),
                rest: b.subrange(1 + n, b.len() as int),
            }
        }
    }
}

/// The parts of a sequence of bytes between zero bytes.
pub open spec fn fields(b: Seq<u8>) -> Seq<Seq<u8>>
    decreases b.len(),
    via fields_decreases
{
    let nul = pgoutput::nul_from(b, 0);
    if nul >= b.len() {
        seq![b]
    } else {
        seq![b.subrange(0, nul)] + fields(b.skip(nul + 1))
    }
}

#[via_fn]
proof fn fields_decreases(b: Seq<u8>) {
    lemma_nul_from(b, 0);
}

proof fn lemma_nul_from(b: Seq<u8>, at: int)
    requires
        0 <= at <= b.len(),
    ensures
        at <= pgoutput::nul_from(b, at) <= b.len(),
        pgoutput::nul_from(b, at) < b.len() ==> b[pgoutput::nul_from(b, at)] == 0,
        forall|k: int| at <= k < pgoutput::nul_from(b, at) ==> b[k] != 0,
    decreases b.len() - at,
{
    if at < b.len() && b[at] != 0 {
        lemma_nul_from(b, at + 1);
    }
}

proof fn lemma_nul_from_is(b: Seq<u8>, at: int, p: int)
    requires
        0 <= at <= p <= b.len(),
        p < b.len() ==> b[p] == 0,
        forall|k: int| at <= k < p ==> b[k] != 0,
    ensures
        pgoutput::nul_from(b, at) == p,
{
    lemma_nul_from(b, at);
}

pub open spec fn byte_views(s: Seq<Vec<u8>>) -> Seq<Seq<u8>> {
    s.map_values(|v: Vec<u8>| v@)
}

fn split_fields(b: &[u8]) -> (r: Vec<Vec<u8>>)
    ensures
        byte_views(r@) == fields(b@),
{
    let mut out: Vec<Vec<u8>> = Vec::new();
    let mut at: usize = 0;
    proof {
        assert(b@.skip(0) =~= b@);
        assert(byte_views(out@) + fields(b@) =~= fields(b@));
    }
    loop
        invariant
            at <= b@.len(),
            byte_views(out@) + fields(b@.skip(at as int)) == fields(b@),
        decreases b@.len() - at,
    {
        let ghost rest = b@.skip(at as int);
        let ghost before = out@;
        let mut nul: usize = at;
        while nul < b.len() && b[nul] != 0
            invariant
                at <= nul <= b@.len(),
                forall|k: int| at <= k < nul ==> b@[k] != 0,
            decreases b@.len() - nul,
        {
            nul += 1;
        }
        proof {
            lemma_nul_from_is(rest, 0, nul - at);
        }
        let field = bytes::copy(b, at, nul);
        if nul == b.len() {
            proof {
                assert(field@ =~= rest);
            }
            out.push(field);
            proof {
                assert(byte_views(out@) =~= byte_views(before) + seq![rest]);
            }
            return out;
        }
        proof {
            assert(field@ =~= rest.subrange(0, nul - at));
            assert(rest.skip(nul - at + 1) =~= b@.skip(nul + 1));
        }
        let ghost fv = field@;
        out.push(field);
        proof {
            let t = fields(b@.skip(nul + 1));
            assert(byte_views(out@) =~= byte_views(before).push(fv));
            assert(byte_views(before) + (seq![fv] + t) =~= byte_views(before).push(fv) + t);
        }
        at = nul + 1;
    }
}

/// What `String::from_utf8_lossy` makes of bytes.
pub uninterp spec fn lossy_text(b: Seq<u8>) -> Seq<char>;

/// `String::from_utf8_lossy`: the text of the bytes, with a replacement character for what is
/// not valid UTF-8. Valid UTF-8 is decoded as it stands.
#[verifier::external_body]
fn lossy_string(b: &[u8]) -> (r: String)
    ensures
        r@ == lossy_text(b@),
        valid_utf8(b@) ==> r@ == decode_utf8(b@),
{
    String::from_utf8_lossy(b).into_owned()
}

/// The NUL-terminated mechanism names in an `AuthenticationSASL` body.
pub open spec fn mechanism_names(b: Seq<u8>) -> Seq<Seq<char>> {
    fields(b).filter(|f: Seq<u8>| f.len() > 0).map_values(|f: Seq<u8>| lossy_text(f))
}

/// The NUL-terminated mechanism names in an `AuthenticationSASL` body.
pub fn mechanisms(body: &[u8]) -> (r: Vec<String>)
    ensures
        text::views(r@) == mechanism_names(body@),
{
    let parts = split_fields(body);
    let ghost fs = fields(body@);
    let ghost some = |f: Seq<u8>| f.len() > 0;
    let ghost name = |f: Seq<u8>| lossy_text(f);
    let mut out: Vec<String> = Vec::new();
    let mut i: usize = 0;
    proof {
        reveal(Seq::filter);
        assert(fs.take(0).filter(some) =~= Seq::<Seq<u8>>::empty());
        assert(text::views(out@) =~= fs.take(0).filter(some).map_values(name));
    }
    while i < parts.len()
        invariant
            i <= parts@.len(),
            byte_views(parts@) == fs,
            some == (|f: Seq<u8>| f.len() > 0),
            name == (|f: Seq<u8>| lossy_text(f)),
            text::views(out@) == fs.take(i as int).filter(some).map_values(name),
        decreases parts@.len() - i,
    {
        proof {
            reveal(Seq::filter);
            assert(fs.take(i + 1).drop_last() =~= fs.take(i as int));
            assert(fs.take(i + 1).last() == parts@[i as int]@);
        }
        if parts[i].len() > 0 {
            let ghost before = out@;
            let s = lossy_string(parts[i].as_slice());
            out.push(s);
            proof {
                let t = fs.take(i as int).filter(some);
                assert(text::views(out@) =~= text::views(before).push(s@));
                assert(t.push(parts@[i as int]@).map_values(name) =~= t.map_values(name).push(
                    lossy_text(parts@[i as int]@),
                ));
            }
        }
        i += 1;
    }
    proof {
        assert(fs.take(fs.len() as int) =~= fs);
    }
    out
}

/// The message of the first field of an error that is marked `M`.
pub open spec fn error_text(fs: Seq<Seq<u8>>) -> Seq<char>
    decreases fs.len(),
{
    if fs.len() == 0 {
        "unknown server error"@
    } else if fs[0].len() > 0 && fs[0][0] == 0x4d {
        lossy_text(fs[0].drop_first())
    } else {
        error_text(fs.drop_first())
    }
}

/// What an `ErrorResponse` body says: a set of NUL-terminated `field-code + value` entries,
/// of which `M` is the primary message.
pub open spec fn server_fault(body: Seq<u8>) -> ClientFault {
    ClientFault::Server(error_text(fields(body)))
}

/// Extract the human-readable message from an `ErrorResponse` body.
pub fn server_error(body: &[u8]) -> (r: ClientError)
    ensures
        r@ == server_fault(body@),
{
    let parts = split_fields(body);
    let ghost fs = fields(body@);
    let mut i: usize = 0;
    proof {
        assert(fs.skip(0) =~= fs);
    }
    while i < parts.len()
        invariant
            i <= parts@.len(),
            byte_views(parts@) == fs,
            fs == fields(body@),
            error_text(fs) == error_text(fs.skip(i as int)),
        decreases parts@.len() - i,
    {
        let f = &parts[i];
        proof {
            assert(fs.skip(i as int)[0] == f@);
            assert(fs.skip(i as int).drop_first() =~= fs.skip(i + 1));
        }
        if f.len() > 0 && f[0] == 0x4d {
            let rest = slice_subrange(f.as_slice(), 1, f.len());
            proof {
                assert(rest@ =~= f@.drop_first());
            }
            return ClientError::Server(lossy_string(rest));
        }
        i += 1;
    }
    proof {
        assert(fs.skip(fs.len() as int) =~= Seq::<Seq<u8>>::empty());
    }
    ClientError::Server("unknown server error".to_owned())
}

/// A 32-bit integer at the front of a body, and what follows it.
pub open spec fn int_of(b: Seq<u8>) -> Result<(i32, Seq<u8>), ClientFault> {
    if b.len() < 4 {
        Err(ClientFault::Malformed("truncated int32"@))
    } else {
        Ok(
            (
                bytes::signed32(bytes::be_value(b.subrange(0, 4)) as u32),
                b.subrange(4, b.len() as int),
            ),
        )
    }
}

/// Read a big-endian `i32` from the front of a message body.
fn read_i32<'a>(body: &'a [u8]) -> (r: Result<(i32, &'a [u8]), ClientError>)
    ensures
        match r {
            Ok((n, rest)) => int_of(body@) == Ok::<(i32, Seq<u8>), ClientFault>((n, rest@)),
            Err(e) => int_of(body@) == Err::<(i32, Seq<u8>), ClientFault>(e@),
        },
{
    if body.len() < 4 {
        return Err(ClientError::Malformed("truncated int32".to_owned()));
    }
    proof {
        bytes::lemma_pow256();
    }
    let n = bytes::to_signed32(bytes::read_be(body, 0, 4) as u32);
    Ok((n, slice_subrange(body, 4, body.len())))
}

// ---------------------------------------------------------------------------------------
// Authentication.
// ---------------------------------------------------------------------------------------

/// Where the authentication is.
#[derive(Debug, Clone, Copy, PartialEq, Eq, Structural)]
pub enum AuthState {
    /// The server's first request is awaited.
    Start,
    /// The first answer was sent; the server's challenge is awaited.
    Challenge,
    /// The second answer was sent; the server's proof is awaited.
    Proof,
    /// The server's proof was verified; its consent is awaited.
    Consent,
}

/// What to do with the server's message.
#[derive(Debug, PartialEq, Eq)]
pub enum AuthAction {
    /// Begin SCRAM, send its first message, then expect a challenge.
    Begin,
    /// Give SCRAM the challenge, send its answer, then expect the proof.
    Answer(Vec<u8>),
    /// Let SCRAM verify the proof, then expect consent.
    Verify(Vec<u8>),
    /// Authentication is complete.
    Done,
}

/// What an action says.
#[verifier::ext_equal]
pub enum AuthStep {
    Begin,
    Answer(Seq<u8>),
    Verify(Seq<u8>),
    Done,
}

impl View for AuthAction {
    type V = AuthStep;

    open spec fn view(&self) -> AuthStep {
        match self {
            AuthAction::Begin => AuthStep::Begin,
            AuthAction::Answer(b) => AuthStep::Answer(b@),
            AuthAction::Verify(b) => AuthStep::Verify(b@),
            AuthAction::Done => AuthStep::Done,
        }
    }
}

/// The message of an unsupported method.
pub open spec fn unsupported_method(n: i32) -> Seq<char> {
    "unsupported authentication method "@ + text::decimal(n as int) + " (only SCRAM-SHA-256)"@
}

/// What the server's message means in a state, with the state after it.
///
/// A server that skips SCRAM has not proven it knows the password, so accepting its consent
/// while a password is configured is a trust downgrade: it is refused.
pub open spec fn auth_step(s: AuthState, has_password: bool, tag: u8, body: Seq<u8>) -> Result<
    AuthStep,
    ClientFault,
> {
    if tag == 0x45 {
        Err(server_fault(body))
    } else if s == AuthState::Start {
        if tag != 0x52 {
            Err(ClientFault::Unexpected(tag))
        } else {
            match int_of(body) {
                Err(e) => Err(e),
                Ok((n, rest)) => if n == 0 {
                    if has_password {
                        Err(
                            ClientFault::Auth(
                                "server requested no authentication but a password is configured; refusing the trust downgrade"@,
                            ),
                        )
                    } else {
                        Ok(AuthStep::Done)
                    }
                } else if n != 10 {
                    Err(ClientFault::Auth(unsupported_method(n)))
                } else if !mechanism_names(rest).contains("SCRAM-SHA-256"@) {
                    Err(ClientFault::Auth("server did not offer SCRAM-SHA-256"@))
                } else {
                    Ok(AuthStep::Begin)
                },
            }
        }
    } else {
        let want: i32 = match s {
            AuthState::Challenge => 11,
            AuthState::Proof => 12,
            _ => 0,
        };
        let expected = match s {
            AuthState::Challenge => "expected SASLContinue"@,
            AuthState::Proof => "expected SASLFinal"@,
            _ => "expected AuthenticationOk"@,
        };
        if tag != 0x52 {
            Err(ClientFault::Auth(expected))
        } else {
            match int_of(body) {
                Err(e) => Err(e),
                Ok((n, rest)) => if n != want {
                    Err(ClientFault::Auth(expected))
                } else {
                    match s {
                        AuthState::Challenge => Ok(AuthStep::Answer(rest)),
                        AuthState::Proof => Ok(AuthStep::Verify(rest)),
                        _ => Ok(AuthStep::Done),
                    }
                },
            }
        }
    }
}

/// The state after an action; none after the last.
pub open spec fn auth_next(a: AuthStep) -> Option<AuthState> {
    match a {
        AuthStep::Begin => Some(AuthState::Challenge),
        AuthStep::Answer(_) => Some(AuthState::Proof),
        AuthStep::Verify(_) => Some(AuthState::Consent),
        AuthStep::Done => None,
    }
}

fn offers_scram(body: &[u8]) -> (r: bool)
    ensures
        r == mechanism_names(body@).contains("SCRAM-SHA-256"@),
{
    let names = mechanisms(body);
    let ghost ns = mechanism_names(body@);
    let mut i: usize = 0;
    while i < names.len()
        invariant
            i <= names@.len(),
            text::views(names@) == ns,
            ns == mechanism_names(body@),
            forall|k: int| 0 <= k < i ==> ns[k] != "SCRAM-SHA-256"@,
        decreases names@.len() - i,
    {
        assert(ns[i as int] == names@[i as int]@);
        if text::same(names[i].as_str(), "SCRAM-SHA-256") {
            return true;
        }
        i += 1;
    }
    proof {
        assert(ns.len() == names@.len());
    }
    false
}

/// One step of the authentication: the server's message and what to do with it.
pub fn authenticate(state: AuthState, has_password: bool, tag: u8, body: &[u8]) -> (r: Result<
    AuthAction,
    ClientError,
>)
    ensures
        match r {
            Ok(a) => auth_step(state, has_password, tag, body@) == Ok::<AuthStep, ClientFault>(a@),
            Err(e) => auth_step(state, has_password, tag, body@) == Err::<AuthStep, ClientFault>(
                e@,
            ),
        },
{
    if tag == 0x45 {
        return Err(server_error(body));
    }
    if state == AuthState::Start {
        if tag != 0x52 {
            return Err(ClientError::Unexpected(tag));
        }
        let (n, rest) = read_i32(body)?;
        if n == 0 {
            if has_password {
                return Err(
                    ClientError::Auth(
                        "server requested no authentication but a password is configured; refusing the trust downgrade".to_owned(),
                    ),
                );
            }
            return Ok(AuthAction::Done);
        }
        if n != 10 {
            let number = text::decimal_i64(n as i64);
            return Err(
                ClientError::Auth(
                    text::concat3(
                        "unsupported authentication method ",
                        number.as_str(),
                        " (only SCRAM-SHA-256)",
                    ),
                ),
            );
        }
        if !offers_scram(rest) {
            return Err(ClientError::Auth("server did not offer SCRAM-SHA-256".to_owned()));
        }
        return Ok(AuthAction::Begin);
    }
    let want: i32 = match state {
        AuthState::Challenge => 11,
        AuthState::Proof => 12,
        _ => 0,
    };
    let expected = match state {
        AuthState::Challenge => "expected SASLContinue",
        AuthState::Proof => "expected SASLFinal",
        _ => "expected AuthenticationOk",
    };
    if tag != 0x52 {
        return Err(ClientError::Auth(expected.to_owned()));
    }
    let (n, rest) = read_i32(body)?;
    if n != want {
        return Err(ClientError::Auth(expected.to_owned()));
    }
    match state {
        AuthState::Challenge => Ok(AuthAction::Answer(slice_to_vec(rest))),
        AuthState::Proof => Ok(AuthAction::Verify(slice_to_vec(rest))),
        _ => Ok(AuthAction::Done),
    }
}

/// The state after an action; none after the last.
pub fn after(action: &AuthAction) -> (r: Option<AuthState>)
    ensures
        r == auth_next(action@),
{
    match action {
        AuthAction::Begin => Some(AuthState::Challenge),
        AuthAction::Answer(_) => Some(AuthState::Proof),
        AuthAction::Verify(_) => Some(AuthState::Consent),
        AuthAction::Done => None,
    }
}

/// With a password configured, authentication completes only from the state that follows the
/// verification of the server's proof, and that state is reached only by verifying it.
pub proof fn law_no_trust_downgrade(s: AuthState, tag: u8, body: Seq<u8>)
    ensures
        match auth_step(s, true, tag, body) {
            Ok(a) => {
                &&& a is Done ==> s == AuthState::Consent
                &&& auth_next(a) == Some(AuthState::Consent) ==> s == AuthState::Proof && a
                    is Verify
                &&& auth_next(a) == Some(AuthState::Proof) ==> s == AuthState::Challenge && a
                    is Answer
                &&& auth_next(a) == Some(AuthState::Challenge) ==> s == AuthState::Start
                    && mechanism_names(int_of(body)->Ok_0.1).contains("SCRAM-SHA-256"@)
            },
            Err(_) => true,
        },
{
}

// ---------------------------------------------------------------------------------------
// The SCRAM exchange.
// ---------------------------------------------------------------------------------------

/// The client side of a SCRAM-SHA-256 exchange.
#[verifier::external_type_specification]
#[verifier::external_body]
pub struct ExScramSha256(ScramSha256);

/// What an exchange has seen: the password, the first message to send, and the challenge
/// once it was accepted.
pub uninterp spec fn scram_history(s: ScramSha256) -> Seq<Seq<u8>>;

/// The answer of an exchange with this password and first message to a challenge, or why
/// the challenge is refused.
pub uninterp spec fn scram_answer(password: Seq<u8>, first: Seq<u8>, challenge: Seq<u8>) -> Result<
    Seq<u8>,
    Seq<char>,
>;

/// Why an exchange with this password, first message and challenge refuses the server's
/// proof, or nothing where it accepts it.
pub uninterp spec fn scram_refusal(
    password: Seq<u8>,
    first: Seq<u8>,
    challenge: Seq<u8>,
    signature: Seq<u8>,
) -> Option<Seq<char>>;

/// A first message: no channel binding was requested, no user name is given, and a nonce of
/// 24 characters follows.
pub open spec fn is_first_message(first: Seq<u8>) -> bool {
    first.len() == 32 && first.take(8) == encode_utf8("y,,n=,r="@)
}

/// `postgres_protocol::authentication::sasl::ScramSha256::new`, with channel binding not
/// requested: an exchange with the password. Its first message holds a random nonce, so only
/// the form of that message is known.
#[verifier::external_body]
fn scram_new(password: &[u8]) -> (r: ScramSha256)
    ensures
        scram_history(r).len() == 2,
        scram_history(r)[0] == password@,
        is_first_message(scram_history(r)[1]),
{
    ScramSha256::new(password, ChannelBinding::unrequested())
}

/// An answer that was given.
pub open spec fn answered(answer: Seq<u8>) -> Result<Seq<u8>, Seq<char>> {
    Ok(answer)
}

/// `postgres_protocol::authentication::sasl::ScramSha256::message`: the message to send next.
/// It panics once the exchange is over or has failed.
#[verifier::external_body]
fn scram_message(scram: &ScramSha256) -> (r: Vec<u8>)
    requires
        scram_history(*scram).len() == 2 || scram_history(*scram).len() == 3,
    ensures
        scram_history(*scram).len() == 2 ==> r@ == scram_history(*scram)[1],
        scram_history(*scram).len() == 3 ==> scram_answer(
            scram_history(*scram)[0],
            scram_history(*scram)[1],
            scram_history(*scram)[2],
        ) == answered(r@),
{
    scram.message().to_vec()
}

/// `postgres_protocol::authentication::sasl::ScramSha256::update`: gives the exchange the
/// server's challenge. What comes of it follows from the password, from the nonce, which the
/// first message shows, and from the challenge.
#[verifier::external_body]
fn scram_update(scram: &mut ScramSha256, challenge: &[u8]) -> (r: Result<(), String>)
    requires
        scram_history(*old(scram)).len() == 2,
    ensures
        match r {
            Ok(_) => scram_history(*final(scram)) == scram_history(*old(scram)).push(challenge@)
                && scram_answer(
                scram_history(*old(scram))[0],
                scram_history(*old(scram))[1],
                challenge@,
            ) is Ok,
            Err(e) => scram_answer(
                scram_history(*old(scram))[0],
                scram_history(*old(scram))[1],
                challenge@,
            ) == Err::<Seq<u8>, Seq<char>>(e@),
        },
{
    scram.update(challenge).map_err(|e| e.to_string())
}

/// `postgres_protocol::authentication::sasl::ScramSha256::finish`: gives the exchange the
/// server's proof that it knows the password too. Whether that is accepted follows from what
/// the exchange has seen and from the proof.
#[verifier::external_body]
fn scram_finish(scram: &mut ScramSha256, signature: &[u8]) -> (r: Result<(), String>)
    requires
        scram_history(*old(scram)).len() == 3,
    ensures
        scram_refusal(
            scram_history(*old(scram))[0],
            scram_history(*old(scram))[1],
            scram_history(*old(scram))[2],
            signature@,
        ) == (match r {
            Ok(_) => None::<Seq<char>>,
            Err(e) => Some(e@),
        }),
{
    scram.finish(signature).map_err(|e| e.to_string())
}

/// An authentication under way.
pub struct Authentication {
    password: String,
    state: AuthState,
    scram: Option<ScramSha256>,
    history: Ghost<Seq<Seq<u8>>>,
}

/// What an authentication is: the password, where it is, and what the SCRAM exchange has
/// seen: the password's bytes, the first message, the challenge, and the server's proof.
#[verifier::ext_equal]
pub struct AuthenticationView {
    pub password: Seq<char>,
    pub state: AuthState,
    pub history: Seq<Seq<u8>>,
}

impl AuthenticationView {
    pub open spec fn start(password: Seq<char>) -> AuthenticationView {
        AuthenticationView { password, state: AuthState::Start, history: Seq::empty() }
    }

    /// The authentication after another entry of its history.
    pub open spec fn then_saw(self, state: AuthState, entry: Seq<u8>) -> AuthenticationView {
        AuthenticationView { password: self.password, state, history: self.history.push(entry) }
    }

    /// What an authentication keeps to: past the start it goes by the configured password,
    /// past the challenge it has accepted it, and it awaits consent only after it has
    /// accepted the server's proof.
    pub open spec fn sound(self) -> bool {
        let h = self.history;
        &&& h.len() == (match self.state {
            AuthState::Start => 0nat,
            AuthState::Challenge => 2,
            AuthState::Proof => 3,
            AuthState::Consent => 4,
        })
        &&& h.len() >= 2 ==> h[0] == encode_utf8(self.password) && is_first_message(h[1])
        &&& h.len() >= 3 ==> scram_answer(h[0], h[1], h[2]) is Ok
        &&& h.len() >= 4 ==> scram_refusal(h[0], h[1], h[2], h[3]) is None
    }
}

impl View for Authentication {
    type V = AuthenticationView;

    closed spec fn view(&self) -> AuthenticationView {
        AuthenticationView {
            password: self.password@,
            state: self.state,
            history: self.history@,
        }
    }
}

/// How an authentication goes on.
pub enum Progress {
    /// Send these bytes, then await the server's next message.
    Send(Vec<u8>, Authentication),
    /// Await the server's next message.
    Await(Authentication),
    /// Authentication is complete.
    Done,
}

/// What the progress says.
#[verifier::ext_equal]
pub enum ProgressView {
    Send(Seq<u8>, AuthenticationView),
    Await(AuthenticationView),
    Done,
}

impl View for Progress {
    type V = ProgressView;

    open spec fn view(&self) -> ProgressView {
        match self {
            Progress::Send(b, a) => ProgressView::Send(b@, a@),
            Progress::Await(a) => ProgressView::Await(a@),
            Progress::Done => ProgressView::Done,
        }
    }
}

/// A message to send and the authentication that then goes on, or why there is none.
pub open spec fn sends(message: Result<Seq<u8>, ClientFault>, next: AuthenticationView) -> Result<
    ProgressView,
    ClientFault,
> {
    match message {
        Ok(b) => Ok(ProgressView::Send(b, next)),
        Err(e) => Err(e),
    }
}

/// How an authentication goes on with the server's message, where the SCRAM exchange that
/// this message may begin has the first message `first`.
pub open spec fn progress(
    a: AuthenticationView,
    first: Seq<u8>,
    tag: u8,
    body: Seq<u8>,
) -> Result<ProgressView, ClientFault> {
    let h = a.history;
    match auth_step(a.state, a.password.len() > 0, tag, body) {
        Err(e) => Err(e),
        Ok(AuthStep::Done) => Ok(ProgressView::Done),
        Ok(AuthStep::Begin) => sends(
            Ok(framed(0x70, sasl_initial_body("SCRAM-SHA-256"@, first))),
            AuthenticationView {
                password: a.password,
                state: AuthState::Challenge,
                history: seq![encode_utf8(a.password), first],
            },
        ),
        Ok(AuthStep::Answer(challenge)) => match scram_answer(h[0], h[1], challenge) {
            Ok(answer) => sends(
                message_or_fault(0x70, false, answer),
                a.then_saw(AuthState::Proof, challenge),
            ),
            Err(e) => Err(ClientFault::Auth(e)),
        },
        Ok(AuthStep::Verify(signature)) => match scram_refusal(h[0], h[1], h[2], signature) {
            None => Ok(ProgressView::Await(a.then_saw(AuthState::Consent, signature))),
            Some(e) => Err(ClientFault::Auth(e)),
        },
    }
}

/// What a step gave.
pub open spec fn outcome(r: Result<Progress, ClientError>) -> Result<ProgressView, ClientFault> {
    match r {
        Ok(p) => Ok(p@),
        Err(e) => Err(e@),
    }
}

impl Authentication {
    #[verifier::type_invariant]
    spec fn inv(self) -> bool {
        &&& self@.sound()
        &&& self.state == AuthState::Challenge || self.state == AuthState::Proof ==> self.scram
            is Some && scram_history(self.scram->0) == self.history@
    }

    /// An authentication with the password before the server's first message.
    pub fn new(password: String) -> (r: Authentication)
        ensures
            r@ == AuthenticationView::start(password@),
            r@.sound(),
    {
        Authentication {
            password,
            state: AuthState::Start,
            scram: None,
            history: Ghost(Seq::empty()),
        }
    }

    /// Takes the server's message. With an error the authentication is over.
    ///
    /// Where the message begins the SCRAM exchange, its first message holds a random nonce;
    /// all else follows from the authentication and the server's message.
    pub fn step(self, tag: u8, body: &[u8]) -> (r: Result<Progress, ClientError>)
        ensures
            exists|first: Seq<u8>|
                is_first_message(first) && #[trigger] progress(self@, first, tag, body@)
                    == outcome(r),
            r is Ok ==> self@.sound(),
            r matches Ok(Progress::Send(_, a)) ==> a@.sound(),
            r matches Ok(Progress::Await(a)) ==> a@.sound(),
    {
        proof {
            use_type_invariant(&self);
            lemma_some_first_message();
        }
        let ghost some = choose|first: Seq<u8>| #[trigger] is_first_message(first);
        let has_password = !self.password.as_str().is_empty();
        let action = match authenticate(self.state, has_password, tag, body) {
            Ok(action) => action,
            Err(e) => {
                assert(progress(self@, some, tag, body@) == Err::<ProgressView, ClientFault>(e@));
                return Err(e);
            },
        };
        match action {
            AuthAction::Done => {
                assert(progress(self@, some, tag, body@) == Ok::<ProgressView, ClientFault>(
                    ProgressView::Done,
                ));
                Ok(Progress::Done)
            },
            AuthAction::Begin => self.begin(Ghost(tag), Ghost(body@)),
            AuthAction::Answer(challenge) => {
                let r = self.answer(challenge.as_slice());
                assert(progress(self@, some, tag, body@) == outcome(r));
                r
            },
            AuthAction::Verify(signature) => {
                let r = self.verify(signature.as_slice());
                assert(progress(self@, some, tag, body@) == outcome(r));
                r
            },
        }
    }

    /// Begins the SCRAM exchange.
    fn begin(self, tag: Ghost<u8>, body: Ghost<Seq<u8>>) -> (r: Result<Progress, ClientError>)
        requires
            auth_step(self@.state, self@.password.len() > 0, tag@, body@) == Ok::<
                AuthStep,
                ClientFault,
            >(AuthStep::Begin),
        ensures
            exists|first: Seq<u8>|
                is_first_message(first) && #[trigger] progress(self@, first, tag@, body@)
                    == outcome(r),
            r matches Ok(Progress::Send(_, a)) && a@.sound(),
    {
        let scram = scram_new(self.password.as_str().as_bytes());
        let first = scram_message(&scram);
        let sent = sasl_initial(first.as_slice());
        let ghost history = scram_history(scram);
        proof {
            lemma_initial_body_fits(first@);
            assert(history =~= seq![encode_utf8(self.password@), first@]);
        }
        match sent {
            Ok(b) => {
                let next = Authentication {
                    password: self.password,
                    state: AuthState::Challenge,
                    scram: Some(scram),
                    history: Ghost(history),
                };
                let r = Ok(Progress::Send(b, next));
                assert(progress(self@, first@, tag@, body@) == outcome(r));
                r
            },
            Err(e) => Err(e),
        }
    }

    /// Answers the server's challenge.
    fn answer(self, challenge: &[u8]) -> (r: Result<Progress, ClientError>)
        requires
            self@.state == AuthState::Challenge,
        ensures
            outcome(r) == (match scram_answer(self@.history[0], self@.history[1], challenge@) {
                Ok(answer) => sends(
                    message_or_fault(0x70, false, answer),
                    self@.then_saw(AuthState::Proof, challenge@),
                ),
                Err(e) => Err(ClientFault::Auth(e)),
            }),
            self@.sound(),
            r matches Ok(p) ==> p matches Progress::Send(_, a) && a@.sound(),
    {
        proof {
            use_type_invariant(&self);
        }
        let Authentication { password, state, scram, history } = self;
        match scram {
            None => Err(ClientError::Closed),
            Some(mut scram) => match scram_update(&mut scram, challenge) {
                Err(e) => Err(ClientError::Auth(e)),
                Ok(_) => {
                    let answer = scram_message(&scram);
                    match sasl_answer(answer.as_slice()) {
                        Err(e) => Err(e),
                        Ok(b) => {
                            let ghost seen = scram_history(scram);
                            let next = Authentication {
                                password,
                                state: AuthState::Proof,
                                scram: Some(scram),
                                history: Ghost(seen),
                            };
                            Ok(Progress::Send(b, next))
                        },
                    }
                },
            },
        }
    }

    /// Verifies the server's proof.
    fn verify(self, signature: &[u8]) -> (r: Result<Progress, ClientError>)
        requires
            self@.state == AuthState::Proof,
        ensures
            outcome(r) == (match scram_refusal(
                self@.history[0],
                self@.history[1],
                self@.history[2],
                signature@,
            ) {
                None => Ok(ProgressView::Await(self@.then_saw(AuthState::Consent, signature@))),
                Some(e) => Err(ClientFault::Auth(e)),
            }),
            self@.sound(),
            r matches Ok(p) ==> p matches Progress::Await(a) && a@.sound(),
    {
        proof {
            use_type_invariant(&self);
        }
        let Authentication { password, state, scram, history } = self;
        match scram {
            None => Err(ClientError::Closed),
            Some(mut scram) => match scram_finish(&mut scram, signature) {
                Err(e) => Err(ClientError::Auth(e)),
                Ok(_) => {
                    let next = Authentication {
                        password,
                        state: AuthState::Consent,
                        scram: None,
                        history: Ghost(history@.push(signature@)),
                    };
                    Ok(Progress::Await(next))
                },
            },
        }
    }
}

proof fn lemma_some_first_message()
    ensures
        exists|first: Seq<u8>| #[trigger] is_first_message(first),
{
    reveal_strlit("y,,n=,r=");
    is_ascii_chars_encode_utf8("y,,n=,r="@);
    let first = encode_utf8("y,,n=,r="@) + Seq::new(24, |i: int| 0u8);
    assert(first.take(8) =~= encode_utf8("y,,n=,r="@));
    assert(is_first_message(first));
}

proof fn lemma_initial_body_fits(first: Seq<u8>)
    requires
        first.len() == 32,
    ensures
        !too_long(sasl_initial_body("SCRAM-SHA-256"@, first)),
{
    reveal_strlit("SCRAM-SHA-256");
    is_ascii_chars_encode_utf8("SCRAM-SHA-256"@);
    bytes::lemma_be_len(first.len(), 4);
}

/// With a password configured, an authentication completes only after the SCRAM exchange
/// with that password has accepted both the server's challenge and its proof.
pub proof fn law_completion_is_mutual(a: AuthenticationView, first: Seq<u8>, tag: u8, body: Seq<u8>)
    requires
        a.sound(),
        a.password.len() > 0,
        progress(a, first, tag, body) == Ok::<ProgressView, ClientFault>(ProgressView::Done),
    ensures
        a.history.len() == 4,
        a.history[0] == encode_utf8(a.password),
        scram_answer(a.history[0], a.history[1], a.history[2]) is Ok,
        scram_refusal(a.history[0], a.history[1], a.history[2], a.history[3]) is None,
{
    law_no_trust_downgrade(a.state, tag, body);
}

// ---------------------------------------------------------------------------------------
// Replies to commands.
// ---------------------------------------------------------------------------------------

/// What a reply is awaited to.
#[derive(Debug, Clone, Copy, PartialEq, Eq, Structural)]
pub enum Awaited {
    /// The end of the startup.
    Startup,
    /// The end of a slot's creation.
    Slot,
    /// The begin of streaming.
    Streaming,
}

/// What a server message means while a reply is awaited: whether it is the one, an error, or
/// one to pass over. A notice is never part of the exchange.
pub open spec fn reply_step(w: Awaited, tag: u8, body: Seq<u8>) -> Result<bool, ClientFault> {
    let last: u8 = if w == Awaited::Streaming {
        0x57
    } else {
        0x5a
    };
    if tag == 0x4e {
        Ok(false)
    } else if tag == last {
        Ok(true)
    } else if tag == 0x53 || (w == Awaited::Startup && tag == 0x4b) || (w == Awaited::Slot && (tag
        == 0x54 || tag == 0x44 || tag == 0x43)) {
        Ok(false)
    } else if tag == 0x45 {
        Err(server_fault(body))
    } else {
        Err(ClientFault::Unexpected(tag))
    }
}

/// Whether the message is the awaited one; an error where it is one or does not belong here.
pub fn reply(awaited: Awaited, tag: u8, body: &[u8]) -> (r: Result<bool, ClientError>)
    ensures
        match r {
            Ok(done) => reply_step(awaited, tag, body@) == Ok::<bool, ClientFault>(done),
            Err(e) => reply_step(awaited, tag, body@) == Err::<bool, ClientFault>(e@),
        },
{
    let last: u8 = if awaited == Awaited::Streaming {
        0x57
    } else {
        0x5a
    };
    if tag == 0x4e {
        Ok(false)
    } else if tag == last {
        Ok(true)
    } else if tag == 0x53 || (awaited == Awaited::Startup && tag == 0x4b) || (awaited
        == Awaited::Slot && (tag == 0x54 || tag == 0x44 || tag == 0x43)) {
        Ok(false)
    } else if tag == 0x45 {
        Err(server_error(body))
    } else {
        Err(ClientError::Unexpected(tag))
    }
}

/// Whether a message is an asynchronous notice, which a server may interleave with replies.
pub fn is_notice(tag: u8) -> (r: bool)
    ensures
        r == (tag == 0x4e),
{
    tag == 0x4e
}

// ---------------------------------------------------------------------------------------
// Streaming.
// ---------------------------------------------------------------------------------------

/// One chunk of the logical-replication stream: an `XLogData` message whose
/// `data` is a pgoutput payload to feed to a [`crate::pgoutput::PgOutputDecoder`].
#[derive(Debug, PartialEq, Eq)]
pub struct XLogData {
    pub wal_start: Lsn,
    pub wal_end: Lsn,
    pub server_time: MicrosSince2000,
    pub data: Vec<u8>,
}

/// What a message of the stream comes to.
#[derive(Debug, PartialEq, Eq)]
pub enum Streamed {
    /// A chunk of the stream.
    Data(XLogData),
    /// The server asks for a status update.
    StatusWanted,
    /// Nothing.
    Nothing,
    /// The server has ended the copy.
    End,
}

/// A logical-replication connection in streaming mode.
pub struct ReplicationClient {
    /// The bytes received and not yet consumed.
    pub read_buf: Vec<u8>,
    /// The highest end-of-WAL the server has reported; reported as the *written*
    /// position in standby status updates.
    pub last_wal_end: Lsn,
    /// The consumer's durable position, reported as the *flushed* position so the
    /// server advances the slot (and releases WAL) only up to what the consumer
    /// has committed. Left at 0 until the consumer sets it via [`Self::confirm`],
    /// so an un-checkpointed consumer never lets the slot move past a replayable
    /// point.
    pub confirmed_lsn: Lsn,
}

pub open spec fn later(a: Lsn, b: Lsn) -> Lsn {
    if b.0 > a.0 {
        b
    } else {
        a
    }
}

impl ReplicationClient {
    pub fn new() -> (r: ReplicationClient)
        ensures
            r.read_buf@.len() == 0,
            r.last_wal_end == Lsn(0),
            r.confirmed_lsn == Lsn(0),
    {
        ReplicationClient { read_buf: Vec::new(), last_wal_end: Lsn(0), confirmed_lsn: Lsn(0) }
    }

    /// Takes bytes from the server.
    pub fn fill(&mut self, chunk: &[u8])
        ensures
            final(self).read_buf@ == old(self).read_buf@ + chunk@,
            final(self).last_wal_end == old(self).last_wal_end,
            final(self).confirmed_lsn == old(self).confirmed_lsn,
    {
        bytes::push_all(&mut self.read_buf, chunk);
    }

    /// Takes one backend message out of the bytes received, its type byte and body; `None`
    /// where more bytes are needed.
    pub fn read_message(&mut self) -> (r: Result<Option<(u8, Vec<u8>)>, ClientError>)
        ensures
            final(self).last_wal_end == old(self).last_wal_end,
            final(self).confirmed_lsn == old(self).confirmed_lsn,
            match incoming(old(self).read_buf@) {
                Incoming::Partial => r matches Ok(None) && final(self).read_buf@ == old(
                    self
                ).read_buf@,
                Incoming::BadLength(n) => (r matches Err(e) && e@ == ClientFault::Malformed(
                    "bad message length "@ + text::decimal(n as int),
                )) && final(self).read_buf@ == old(self).read_buf@,
                Incoming::Message { tag, body, rest } => (r matches Ok(Some((t, b))) && t == tag
                    && b@ == body) && final(self).read_buf@ == rest,
            },
    {
        let n: usize = self.read_buf.len();
        if n < 5 {
            return Ok(None);
        }
        proof {
            bytes::lemma_pow256();
        }
        let len: i32 = bytes::to_signed32(
            bytes::read_be(self.read_buf.as_slice(), 1, 4) as u32,
        );
        if len < 4 || len > 0x4000_0000 {
            let number = text::decimal_i64(len as i64);
            return Err(
                ClientError::Malformed(text::concat2("bad message length ", number.as_str())),
            );
        }
        let total: usize = 1 + len as usize;
        if n < total {
            return Ok(None);
        }
        let tag: u8 = self.read_buf[0];
        let body = bytes::copy(self.read_buf.as_slice(), 5, total);
        let rest = bytes::copy(self.read_buf.as_slice(), total, n);
        self.read_buf = rest;
        Ok(Some((tag, body)))
    }

    /// What a message of the stream comes to. Primary keepalives are answered with a status
    /// update when the server asks for a reply, rather than surfaced.
    pub fn next(&mut self, tag: u8, body: &[u8]) -> (r: Result<Streamed, ClientError>)
        ensures
            final(self).read_buf == old(self).read_buf,
            final(self).confirmed_lsn == old(self).confirmed_lsn,
            if tag == 0x64 {
                match stream::decoded(body@) {
                    Err(e) => r matches Err(f) && f@ == ClientFault::Decode(e)
                        && final(self).last_wal_end == old(self).last_wal_end,
                    Ok(stream::WalEvent::Data { wal_start, wal_end, server_time, data }) => (
                    r matches Ok(Streamed::Data(x)) && x.wal_start == wal_start && x.wal_end
                        == wal_end && x.server_time == server_time && x.data@ == data)
                        && final(self).last_wal_end == later(old(self).last_wal_end, wal_end),
                    Ok(stream::WalEvent::Keepalive(k)) => (if k.reply_requested {
                        r matches Ok(Streamed::StatusWanted)
                    } else {
                        r matches Ok(Streamed::Nothing)
                    }) && final(self).last_wal_end == later(old(self).last_wal_end, k.wal_end),
                }
            } else {
                &&& final(self).last_wal_end == old(self).last_wal_end
                &&& if tag == 0x63 {
                    r matches Ok(Streamed::End)
                } else if tag == 0x45 {
                    r matches Err(f) && f@ == server_fault(body@)
                } else if tag == 0x4e || tag == 0x53 {
                    r matches Ok(Streamed::Nothing)
                } else {
                    r matches Err(f) && f@ == ClientFault::Unexpected(tag)
                }
            },
    {
        if tag == 0x64 {
            match stream::decode(body) {
                Err(e) => Err(ClientError::Decode(e)),
                Ok(ReplicationMessage::XLogData(x)) => {
                    if x.wal_end.0 > self.last_wal_end.0 {
                        self.last_wal_end = x.wal_end;
                    }
                    let data = slice_to_vec(x.data);
                    proof {
                        assert(data@ =~= x.data@);
                    }
                    Ok(
                        Streamed::Data(
                            XLogData {
                                wal_start: x.wal_start,
                                wal_end: x.wal_end,
                                server_time: x.server_time,
                                data,
                            },
                        ),
                    )
                },
                Ok(ReplicationMessage::PrimaryKeepalive(k)) => {
                    if k.wal_end.0 > self.last_wal_end.0 {
                        self.last_wal_end = k.wal_end;
                    }
                    if k.reply_requested {
                        Ok(Streamed::StatusWanted)
                    } else {
                        Ok(Streamed::Nothing)
                    }
                },
            }
        } else if tag == 0x63 {
            Ok(Streamed::End)
        } else if tag == 0x45 {
            Err(server_error(body))
        } else if tag == 0x4e || tag == 0x53 {
            Ok(Streamed::Nothing)
        } else {
            Err(ClientError::Unexpected(tag))
        }
    }

    /// Record the consumer's durable position. Reported as the flushed/applied
    /// LSN in the next standby status, so the server advances the slot (and frees
    /// WAL) only up to what the consumer has committed — the invariant that makes
    /// a restart replay exactly the un-applied tail. Never let this run ahead of a
    /// durable checkpoint.
    pub fn confirm(&mut self, lsn: Lsn)
        ensures
            final(self).read_buf == old(self).read_buf,
            final(self).last_wal_end == old(self).last_wal_end,
            final(self).confirmed_lsn == later(old(self).confirmed_lsn, lsn),
            final(self).confirmed_lsn.0 >= old(self).confirmed_lsn.0,
    {
        if lsn.0 > self.confirmed_lsn.0 {
            self.confirmed_lsn = lsn;
        }
    }

    /// The status to report: the WAL received as the write position, and
    /// the consumer's confirmed position (see [`Self::confirm`]) as the flush and
    /// apply positions the server advances the slot to.
    pub open spec fn status(self) -> StandbyStatusUpdate {
        StandbyStatusUpdate {
            write_lsn: self.last_wal_end,
            flush_lsn: self.confirmed_lsn,
            apply_lsn: self.confirmed_lsn,
            client_time: 0,
            reply_requested: false,
        }
    }

    /// The standby status update to send.
    pub fn send_standby_status(&self) -> (r: Result<Vec<u8>, ClientError>)
        ensures
            r matches Ok(b) && b@ == framed(0x64, self.status().payload()),
    {
        let status = StandbyStatusUpdate {
            write_lsn: self.last_wal_end,
            flush_lsn: self.confirmed_lsn,
            apply_lsn: self.confirmed_lsn,
            client_time: 0,
            reply_requested: false,
        };
        let payload = status.encode();
        copy_data(payload.as_slice())
    }

    /// The message that creates a logical replication slot with the `pgoutput` plugin.
    /// `temporary` slots are dropped when the connection ends. The reply runs to
    /// `ReadyForQuery`.
    pub fn create_logical_slot(name: &str, temporary: bool) -> (r: Result<Vec<u8>, ClientError>)
        ensures
            if !safe_ident(name@) {
                r matches Err(e) && e@ == ClientFault::Malformed(
                    "unsafe replication slot name "@ + text::debug_text(name@),
                )
            } else {
                r matches Ok(b) && b@ == framed(0x51, cstr(create_slot_sql(name@, temporary, false)))
            },
    {
        create_slot(name, temporary, false)
    }

    /// The message that creates a slot and exports the snapshot of its consistent point; the
    /// reply's row names both (see [`exported_slot`]).
    pub fn create_logical_slot_exported(name: &str, temporary: bool) -> (r: Result<
        Vec<u8>,
        ClientError,
    >)
        ensures
            if !safe_ident(name@) {
                r matches Err(e) && e@ == ClientFault::Malformed(
                    "unsafe replication slot name "@ + text::debug_text(name@),
                )
            } else {
                r matches Ok(b) && b@ == framed(0x51, cstr(create_slot_sql(name@, temporary, true)))
            },
    {
        create_slot(name, temporary, true)
    }

    /// The message that begins streaming `slot` for `publication` at protocol v4.
    pub fn start_replication(slot: &str, publication: &str) -> (r: Result<Vec<u8>, ClientError>)
        ensures
            if !safe_ident(slot@) || !safe_ident(publication@) {
                r matches Err(e) && e@ == ClientFault::Malformed(
                    "unsafe slot "@ + text::debug_text(slot@) + " or publication "@
                        + text::debug_text(publication@) + " name"@,
                )
            } else {
                r matches Ok(b) && b@ == framed(0x51, cstr(start_sql(slot@, publication@)))
            },
    {
        if !is_safe_ident(slot) || !is_safe_ident(publication) {
            let a = text::debug_string(slot);
            let b = text::debug_string(publication);
            return Err(
                ClientError::Malformed(
                    text::concat5("unsafe slot ", a.as_str(), " or publication ", b.as_str(), " name"),
                ),
            );
        }
        let sql = text::concat5(
            "START_REPLICATION SLOT ",
            slot,
            " LOGICAL 0/0 (proto_version '4', publication_names '\"",
            publication,
            "\"')",
        );
        proof {
            reveal_strlit("START_REPLICATION SLOT ");
            reveal_strlit(" LOGICAL 0/0 (proto_version '4', publication_names '\"");
            reveal_strlit("\"')");
            lemma_plain_is_sendable(sql@);
        }
        send_query(sql.as_str())
    }
}

fn create_slot(name: &str, temporary: bool, export: bool) -> (r: Result<Vec<u8>, ClientError>)
    ensures
        if !safe_ident(name@) {
            r matches Err(e) && e@ == ClientFault::Malformed(
                "unsafe replication slot name "@ + text::debug_text(name@),
            )
        } else {
            r matches Ok(b) && b@ == framed(0x51, cstr(create_slot_sql(name@, temporary, export)))
        },
{
    if !is_safe_ident(name) {
        let quoted = text::debug_string(name);
        return Err(
            ClientError::Malformed(text::concat2("unsafe replication slot name ", quoted.as_str())),
        );
    }
    let kind = if temporary {
        " TEMPORARY LOGICAL pgoutput "
    } else {
        " LOGICAL pgoutput "
    };
    let options = if temporary && export {
        "EXPORT_SNAPSHOT"
    } else if temporary {
        "NOEXPORT_SNAPSHOT"
    } else if export {
        "(SNAPSHOT 'export', FAILOVER true)"
    } else {
        "(SNAPSHOT 'nothing', FAILOVER true)"
    };
    let sql = text::concat4("CREATE_REPLICATION_SLOT ", name, kind, options);
    proof {
        reveal_strlit("CREATE_REPLICATION_SLOT ");
        reveal_strlit(" TEMPORARY LOGICAL pgoutput ");
        reveal_strlit(" LOGICAL pgoutput ");
        reveal_strlit("EXPORT_SNAPSHOT");
        reveal_strlit("NOEXPORT_SNAPSHOT");
        reveal_strlit("(SNAPSHOT 'export', FAILOVER true)");
        reveal_strlit("(SNAPSHOT 'nothing', FAILOVER true)");
        lemma_plain_is_sendable(sql@);
    }
    send_query(sql.as_str())
}

/// The columns of a row that a server sends: a 16-bit count, then a length and that many bytes
/// each; a length of -1 stands for NULL. `n` columns from `at` on.
pub open spec fn row_fields(b: Seq<u8>, at: int, n: nat) -> Result<
    (Seq<Option<Seq<u8>>>, int),
    DecodeError,
>
    decreases n,
{
    if n == 0 {
        Ok((Seq::empty(), at))
    } else {
        match row_fields(b, at, (n - 1) as nat) {
            Err(e) => Err(e),
            Ok((fs, p)) => match pgoutput::i32_at(b, p) {
                Err(e) => Err(e),
                Ok((len, q)) => if len == -1 {
                    Ok((fs.push(None), q))
                } else if len < 0 {
                    Err(DecodeError::NegativeLength(len))
                } else {
                    match pgoutput::take_at(b, q, len as int) {
                        Err(e) => Err(e),
                        Ok((v, s)) => Ok((fs.push(Some(v)), s)),
                    }
                },
            },
        }
    }
}

/// What the row of a created slot says: the snapshot's name and the slot's consistent point,
/// its third and second column.
pub open spec fn slot_row(b: Seq<u8>) -> Result<(Seq<char>, Lsn), ClientFault> {
    match pgoutput::i16_at(b, 0) {
        Err(e) => Err(ClientFault::Decode(e)),
        Ok((n, p)) => if n < 3 {
            Err(ClientFault::Malformed("slot row has no snapshot"@))
        } else {
            match row_fields(b, p, 3) {
                Err(e) => Err(ClientFault::Decode(e)),
                Ok((fs, _)) => match (fs[1], fs[2]) {
                    (Some(point), Some(name)) => match (
                        bytes::text_of(point),
                        bytes::text_of(name),
                    ) {
                        (Some(x), Some(y)) => match lsn::parsed_lsn(x) {
                            Some(v) => Ok((y, Lsn(v))),
                            None => Err(ClientFault::Malformed("slot row has no snapshot"@)),
                        },
                        _ => Err(ClientFault::Malformed("slot row has no snapshot"@)),
                    },
                    _ => Err(ClientFault::Malformed("slot row has no snapshot"@)),
                },
            }
        },
    }
}

fn row_field<'a>(r: &mut Reader<'a>) -> (res: Result<Option<&'a [u8]>, DecodeError>)
    requires
        old(r).wf(),
    ensures
        final(r).buf == old(r).buf,
        final(r).wf(),
        ({
            let b = old(r).buf@;
            match pgoutput::i32_at(b, old(r).pos as int) {
                Err(e) => res == Err::<Option<&'a [u8]>, DecodeError>(e),
                Ok((len, q)) => if len == -1 {
                    res matches Ok(None) && final(r).pos == q
                } else if len < 0 {
                    res == Err::<Option<&'a [u8]>, DecodeError>(DecodeError::NegativeLength(len))
                } else {
                    match pgoutput::take_at(b, q, len as int) {
                        Err(e) => res == Err::<Option<&'a [u8]>, DecodeError>(e),
                        Ok((v, s)) => (res matches Ok(Some(x)) && x@ == v) && final(r).pos == s,
                    }
                },
            }
        }),
{
    let len = r.read_i32()?;
    if len == -1 {
        return Ok(None);
    }
    if len < 0 {
        return Err(DecodeError::NegativeLength(len));
    }
    match r.take(len as usize) {
        Ok(v) => Ok(Some(v)),
        Err(e) => Err(e),
    }
}

/// The snapshot's name and the consistent point in the row of a created slot.
pub fn exported_slot(row: &[u8]) -> (r: Result<(String, Lsn), ClientError>)
    ensures
        match r {
            Ok((s, p)) => slot_row(row@) == Ok::<(Seq<char>, Lsn), ClientFault>((s@, p)),
            Err(e) => slot_row(row@) == Err::<(Seq<char>, Lsn), ClientFault>(e@),
        },
{
    let mut r = Reader::new(row);
    proof {
        reveal_with_fuel(row_fields, 4);
    }
    let n = match r.read_i16() {
        Ok(n) => n,
        Err(e) => return Err(ClientError::Decode(e)),
    };
    if n < 3 {
        return Err(ClientError::Malformed("slot row has no snapshot".to_owned()));
    }
    let first = match row_field(&mut r) {
        Ok(f) => f,
        Err(e) => return Err(ClientError::Decode(e)),
    };
    let point = match row_field(&mut r) {
        Ok(f) => f,
        Err(e) => return Err(ClientError::Decode(e)),
    };
    let name = match row_field(&mut r) {
        Ok(f) => f,
        Err(e) => return Err(ClientError::Decode(e)),
    };
    match (point, name) {
        (Some(point), Some(name)) => match (bytes::utf8_str(point), bytes::utf8(name)) {
            (Some(x), Some(y)) => match Lsn::parse(x) {
                Ok(l) => Ok((y, l)),
                Err(_) => Err(ClientError::Malformed("slot row has no snapshot".to_owned())),
            },
            _ => Err(ClientError::Malformed("slot row has no snapshot".to_owned())),
        },
        _ => Err(ClientError::Malformed("slot row has no snapshot".to_owned())),
    }
}

/// A message that is sent is read as it was sent, and what follows it stays.
pub proof fn law_framing_round_trips(tag: u8, body: Seq<u8>, rest: Seq<u8>)
    requires
        4 + body.len() <= MAX_MESSAGE_LEN,
    ensures
        incoming(framed(tag, body) + rest) == (Incoming::Message { tag, body, rest }),
{
    let n: int = 4 + body.len() as int;
    let b = framed(tag, body) + rest;
    bytes::lemma_pow256();
    bytes::lemma_be_value(n as nat, 4);
    assert(b.subrange(1, 5) =~= bytes::be(n as nat, 4));
    assert(b.subrange(5, 1 + n) =~= body);
    assert(b.subrange(1 + n, b.len() as int) =~= rest);
}

/// A message that has not arrived whole leaves everything as it was: more bytes lead to what
/// they would have led to at once.
pub proof fn law_partial_messages_wait(a: Seq<u8>, c: Seq<u8>)
    ensures
        match incoming(a) {
            Incoming::Message { tag, body, rest } => incoming(a + c) == (Incoming::Message {
                tag,
                body,
                rest: rest + c,
            }),
            Incoming::BadLength(n) => incoming(a + c) == Incoming::BadLength(n),
            Incoming::Partial => true,
        },
{
    if a.len() >= 5 {
        assert((a + c).subrange(1, 5) =~= a.subrange(1, 5));
        if let Incoming::Message { tag, body, rest } = incoming(a) {
            let n = bytes::signed32(bytes::be_value(a.subrange(1, 5)) as u32);
            assert((a + c).subrange(5, 1 + n) =~= a.subrange(5, 1 + n));
            assert((a + c).subrange(1 + n, (a + c).len() as int) =~= rest + c);
        }
    }
}

/// What an error says.
pub open spec fn fault_text(e: ClientFault) -> Seq<char> {
    match e {
        ClientFault::Io(m) => "i/o error: "@ + m,
        ClientFault::Closed => "connection closed by the server"@,
        ClientFault::Server(m) => "server error: "@ + m,
        ClientFault::Auth(m) => "authentication failed: "@ + m,
        ClientFault::Unexpected(t) => "unexpected server message type byte "@ + text::padded_hex(
            t as nat,
            2,
        ),
        ClientFault::Malformed(m) => "malformed server message: "@ + m,
        ClientFault::Decode(d) => "pgoutput decode error: "@ + pgoutput::fault_text(d),
    }
}

impl ClientError {
    pub fn to_string(&self) -> (r: String)
        ensures
            r@ == fault_text(self@),
    {
        match self {
            ClientError::Io(m) => text::concat2("i/o error: ", m.as_str()),
            ClientError::Closed => "connection closed by the server".to_owned(),
            ClientError::Server(m) => text::concat2("server error: ", m.as_str()),
            ClientError::Auth(m) => text::concat2("authentication failed: ", m.as_str()),
            ClientError::Unexpected(t) => text::concat2(
                "unexpected server message type byte ",
                text::padded_hex_string(*t as u64, 2).as_str(),
            ),
            ClientError::Malformed(m) => text::concat2("malformed server message: ", m.as_str()),
            ClientError::Decode(d) => text::concat2(
                "pgoutput decode error: ",
                d.to_string().as_str(),
            ),
        }
    }
}

/// A name is safe exactly where it is letters, digits and underscores, one at least and 63 at
/// most.
pub proof fn law_safe_names_are_plain(s: Seq<char>)
    ensures
        safe_ident(s) <==> 1 <= s.len() <= 63 && forall|i: int|
            0 <= i < s.len() ==> ('0' <= #[trigger] s[i] && s[i] <= '9') || ('a' <= s[i] && s[i]
                <= 'z') || ('A' <= s[i] && s[i] <= 'Z') || s[i] == '_',
{
    if safe_ident(s) {
        assert forall|i: int| 0 <= i < s.len() implies ('0' <= #[trigger] s[i] && s[i] <= '9') || (
        'a' <= s[i] && s[i] <= 'z') || ('A' <= s[i] && s[i] <= 'Z') || s[i] == '_' by {
            assert(is_ident_char(s[i]));
        }
    }
}

/// An authentication goes through its messages in order: the server's offer, its challenge,
/// its proof and its consent, each by its own number and by no other.
pub proof fn law_authentication_goes_in_order(has_password: bool, n: u32, rest: Seq<u8>)
    requires
        n < 0x8000_0000,
    ensures
        ({
            let body = bytes::be(n as nat, 4) + rest;
            let scram = mechanism_names(rest).contains("SCRAM-SHA-256"@);
            &&& auth_step(AuthState::Start, has_password, 0x52, body) is Ok <==> (n == 0
                && !has_password) || (n == 10 && scram)
            &&& n == 0 && !has_password ==> auth_step(AuthState::Start, has_password, 0x52, body)
                == Ok::<AuthStep, ClientFault>(AuthStep::Done)
            &&& n == 10 && scram ==> auth_step(AuthState::Start, has_password, 0x52, body) == Ok::<
                AuthStep,
                ClientFault,
            >(AuthStep::Begin)
            &&& auth_step(AuthState::Challenge, has_password, 0x52, body) is Ok <==> n == 11
            &&& n == 11 ==> auth_step(AuthState::Challenge, has_password, 0x52, body) == Ok::<
                AuthStep,
                ClientFault,
            >(AuthStep::Answer(rest))
            &&& auth_step(AuthState::Proof, has_password, 0x52, body) is Ok <==> n == 12
            &&& n == 12 ==> auth_step(AuthState::Proof, has_password, 0x52, body) == Ok::<
                AuthStep,
                ClientFault,
            >(AuthStep::Verify(rest))
            &&& auth_step(AuthState::Consent, has_password, 0x52, body) is Ok <==> n == 0
            &&& n == 0 ==> auth_step(AuthState::Consent, has_password, 0x52, body) == Ok::<
                AuthStep,
                ClientFault,
            >(AuthStep::Done)
        }),
{
    let body = bytes::be(n as nat, 4) + rest;
    bytes::lemma_pow256();
    bytes::lemma_be_value(n as nat, 4);
    bytes::law_signed_patterns_round_trip(0, n, 0, 0, 0);
    assert(body.subrange(0, 4) =~= bytes::be(n as nat, 4));
    assert(body.subrange(4, body.len() as int) =~= rest);
    assert(int_of(body) == Ok::<(i32, Seq<u8>), ClientFault>((n as i32, rest)));
}

/// Nothing but an authentication message goes on with an authentication, and the server's
/// own error is relayed.
pub proof fn law_other_messages_end_an_authentication(
    s: AuthState,
    has_password: bool,
    tag: u8,
    body: Seq<u8>,
)
    ensures
        tag != 0x52 ==> auth_step(s, has_password, tag, body) is Err,
        auth_step(s, has_password, 0x45, body) == Err::<AuthStep, ClientFault>(
            ClientFault::Server(error_text(fields(body))),
        ),
{
}

/// Fields end at zero bytes: the first is what stands before the first of them, and the rest
/// are those of what follows.
pub proof fn law_fields_end_at_zero_bytes(f: Seq<u8>, rest: Seq<u8>)
    requires
        forall|i: int| 0 <= i < f.len() ==> f[i] != 0,
    ensures
        fields(f + seq![0u8] + rest) == seq![f] + fields(rest),
        fields(f) == seq![f],
{
    let b = f + seq![0u8] + rest;
    lemma_nul_from_is(b, 0, f.len() as int);
    lemma_nul_from_is(f, 0, f.len() as int);
    assert(b.subrange(0, f.len() as int) =~= f);
    assert(b.skip(f.len() as int + 1) =~= rest);
}

/// A server error is told by its first message field.
pub proof fn law_errors_are_told_by_their_message(
    before: Seq<Seq<u8>>,
    message: Seq<u8>,
    after: Seq<Seq<u8>>,
)
    requires
        forall|i: int|
            0 <= i < before.len() ==> (#[trigger] before[i]).len() == 0 || before[i][0] != 0x4d,
    ensures
        error_text(before + seq![seq![0x4du8] + message] + after) == lossy_text(message),
        error_text(before) == "unknown server error"@,
    decreases before.len(),
{
    let all = before + seq![seq![0x4du8] + message] + after;
    if before.len() == 0 {
        assert(all[0] == seq![0x4du8] + message);
        assert(all[0].drop_first() =~= message);
    } else {
        let t = before.drop_first();
        assert(before[0].len() == 0 || before[0][0] != 0x4d);
        assert forall|i: int| 0 <= i < t.len() implies (#[trigger] t[i]).len() == 0 || t[i][0]
            != 0x4d by {
            assert(t[i] == before[i + 1]);
        }
        law_errors_are_told_by_their_message(t, message, after);
        assert(all[0] == before[0]);
        assert(all.drop_first() =~= t + seq![seq![0x4du8] + message] + after);
    }
}

/// A message whose length is below four or above the bound is refused, and one that is not
/// all there is waited for.
pub proof fn law_lengths_are_bounded(tag: u8, n: u32, rest: Seq<u8>)
    ensures
        ({
            let b = seq![tag] + bytes::be(n as nat, 4) + rest;
            &&& n < 4 || 0x4000_0000 < n < 0x8000_0000 ==> incoming(b) == Incoming::BadLength(
                n as i32,
            )
            &&& n >= 0x8000_0000 ==> incoming(b) is BadLength
            &&& 4 <= n <= 0x4000_0000 && rest.len() + 4 < n ==> incoming(b) is Partial
        }),
{
    let b = seq![tag] + bytes::be(n as nat, 4) + rest;
    bytes::lemma_pow256();
    bytes::lemma_be_value(n as nat, 4);
    bytes::law_signed_patterns_round_trip(0, n, 0, 0, 0);
    assert(b.subrange(1, 5) =~= bytes::be(n as nat, 4));
}

/// A wait ends with the message that it is for and with no other, notices are passed over,
/// and the server's error ends it.
pub proof fn law_waits_end_with_their_message(w: Awaited, tag: u8, body: Seq<u8>)
    ensures
        reply_step(w, tag, body) == Ok::<bool, ClientFault>(true) <==> (w is Streaming && tag
            == 0x57) || (!(w is Streaming) && tag == 0x5a),
        reply_step(w, 0x4e, body) == Ok::<bool, ClientFault>(false),
        reply_step(w, 0x53, body) == Ok::<bool, ClientFault>(false),
        reply_step(w, 0x45, body) == Err::<bool, ClientFault>(
            ClientFault::Server(error_text(fields(body))),
        ),
        reply_step(w, 0x4b, body) == Ok::<bool, ClientFault>(false) <==> w is Startup,
        reply_step(w, 0x44, body) == Ok::<bool, ClientFault>(false) <==> w is Slot,
{
}

/// What is sent is framed unless it holds a zero byte or is too long, and it can be read
/// back.
pub proof fn law_messages_are_sent_or_refused(tag: u8, nul: bool, body: Seq<u8>, rest: Seq<u8>)
    ensures
        message_or_fault(tag, nul, body) is Ok <==> !nul && 4 + body.len() <= i32::MAX,
        message_or_fault(tag, nul, body) is Ok && 4 + body.len() <= 0x4000_0000 ==> incoming(
            message_or_fault(tag, nul, body)->Ok_0 + rest,
        ) == (Incoming::Message { tag, body, rest }),
{
    if message_or_fault(tag, nul, body) is Ok && 4 + body.len() <= 0x4000_0000 {
        law_framing_round_trips(tag, body, rest);
    }
}

/// The later of two positions is the higher.
pub proof fn law_the_later_position_is_kept(a: Lsn, b: Lsn)
    ensures
        later(a, b) == a || later(a, b) == b,
        later(a, b).0 >= a.0,
        later(a, b).0 >= b.0,
{
}

/// Only what was confirmed is reported as flushed and applied, however far the stream has
/// been received.
pub proof fn law_only_confirmed_positions_are_reported(c: ReplicationClient)
    ensures
        c.status().flush_lsn == c.confirmed_lsn,
        c.status().apply_lsn == c.confirmed_lsn,
        c.status().write_lsn == c.last_wal_end,
        !c.status().reply_requested,
{
}

} // verus!
