use pgshard::client::{
    after, authenticate, copy_data, exported_slot, is_notice, is_safe_ident, mechanisms, reply,
    sasl_answer, sasl_initial, server_error, startup, startup_parameters, AuthAction, AuthState,
    Authentication, Awaited, ClientError, Config, Progress, ReplicationClient, Streamed, XLogData,
};
use pgshard::lsn::Lsn;
use pgshard::pgoutput::DecodeError;

fn config() -> Config {
    Config {
        host: "shard-a".to_owned(),
        port: 5432,
        user: "repl".to_owned(),
        password: "open".to_owned(),
        database: "app".to_owned(),
    }
}

/// An authentication request: its code and what follows.
fn auth(code: i32, rest: &[u8]) -> Vec<u8> {
    let mut out = code.to_be_bytes().to_vec();
    out.extend_from_slice(rest);
    out
}

/// A whole message.
fn message(tag: u8, body: &[u8]) -> Vec<u8> {
    let mut out = vec![tag];
    out.extend_from_slice(&(body.len() as i32 + 4).to_be_bytes());
    out.extend_from_slice(body);
    out
}

/// The row of a created slot.
fn row(cells: &[Option<&str>]) -> Vec<u8> {
    let mut out = (cells.len() as i16).to_be_bytes().to_vec();
    for cell in cells {
        match cell {
            Some(text) => {
                out.extend_from_slice(&(text.len() as i32).to_be_bytes());
                out.extend_from_slice(text.as_bytes());
            }
            None => out.extend_from_slice(&(-1i32).to_be_bytes()),
        }
    }
    out
}

#[test]
fn slot_names_are_checked_before_they_reach_sql() {
    assert!(is_safe_ident("pgshard_wf1"));
    assert!(!is_safe_ident(""));
    assert!(is_safe_ident("Slot_2"));
    assert!(!is_safe_ident("a-b"));
    assert!(!is_safe_ident("x; DROP TABLE t"));
    assert!(matches!(
        ReplicationClient::create_logical_slot("a-b", true),
        Err(ClientError::Malformed(m)) if m == "unsafe replication slot name \"a-b\""
    ));
    assert!(matches!(
        ReplicationClient::start_replication("s", "p\"q"),
        Err(ClientError::Malformed(m)) if m == "unsafe slot \"s\" or publication \"p\\\"q\" name"
    ));
}

#[test]
fn commands_are_query_messages() {
    let sql = "CREATE_REPLICATION_SLOT s1 TEMPORARY LOGICAL pgoutput NOEXPORT_SNAPSHOT\0";
    assert_eq!(
        ReplicationClient::create_logical_slot("s1", true).unwrap(),
        message(b'Q', sql.as_bytes())
    );
    let sql = "CREATE_REPLICATION_SLOT s1 TEMPORARY LOGICAL pgoutput EXPORT_SNAPSHOT\0";
    assert_eq!(
        ReplicationClient::create_logical_slot_exported("s1", true).unwrap(),
        message(b'Q', sql.as_bytes())
    );
    // Persistent slots are failover-enabled: a source-primary failover must not strand the
    // consumer into a full reseed.
    let sql = "CREATE_REPLICATION_SLOT s1 LOGICAL pgoutput (SNAPSHOT 'nothing', FAILOVER true)\0";
    assert_eq!(
        ReplicationClient::create_logical_slot("s1", false).unwrap(),
        message(b'Q', sql.as_bytes())
    );
    let sql = "CREATE_REPLICATION_SLOT s1 LOGICAL pgoutput (SNAPSHOT 'export', FAILOVER true)\0";
    assert_eq!(
        ReplicationClient::create_logical_slot_exported("s1", false).unwrap(),
        message(b'Q', sql.as_bytes())
    );
    let sql = "START_REPLICATION SLOT s1 LOGICAL 0/0 (proto_version '4', publication_names '\"p1\"')\0";
    assert_eq!(
        ReplicationClient::start_replication("s1", "p1").unwrap(),
        message(b'Q', sql.as_bytes())
    );
}

#[test]
fn startup_pins_the_text_formats() {
    let params = startup_parameters(&config());
    let shown: Vec<(&str, &str)> = params.iter().map(|p| (p.0.as_str(), p.1.as_str())).collect();
    assert_eq!(
        shown,
        vec![
            ("user", "repl"),
            ("database", "app"),
            ("replication", "database"),
            ("client_encoding", "UTF8"),
            ("bytea_output", "hex"),
            ("DateStyle", "ISO"),
            ("IntervalStyle", "postgres"),
            ("extra_float_digits", "3"),
        ]
    );
    let bytes = startup(&vec![("user".to_owned(), "u".to_owned())]).unwrap();
    assert_eq!(bytes, b"\x00\x00\x00\x10\x00\x03\x00\x00user\x00u\x00\x00".to_vec());
    let bad = startup(&vec![("user".to_owned(), "u\0v".to_owned())]);
    assert_eq!(
        bad,
        Err(ClientError::Malformed("string contains embedded null".to_owned()))
    );
}

#[test]
fn sasl_messages_carry_their_data() {
    assert_eq!(
        sasl_initial(b"abc").unwrap(),
        message(b'p', b"SCRAM-SHA-256\x00\x00\x00\x00\x03abc")
    );
    assert_eq!(sasl_answer(b"abc").unwrap(), message(b'p', b"abc"));
    assert_eq!(copy_data(b"xyz").unwrap(), message(b'd', b"xyz"));
}

#[test]
fn offered_mechanisms_are_listed() {
    assert_eq!(
        mechanisms(b"SCRAM-SHA-256-PLUS\0SCRAM-SHA-256\0\0"),
        vec!["SCRAM-SHA-256-PLUS".to_owned(), "SCRAM-SHA-256".to_owned()]
    );
    assert!(mechanisms(b"\0").is_empty());
}

#[test]
fn a_server_error_is_its_primary_message() {
    let body = b"SFATAL\0C28P01\0Mpassword authentication failed\0\0";
    assert_eq!(
        server_error(body),
        ClientError::Server("password authentication failed".to_owned())
    );
    assert_eq!(
        server_error(b"SFATAL\0\0"),
        ClientError::Server("unknown server error".to_owned())
    );
    assert_eq!(
        server_error(b"M\xff\0\0"),
        ClientError::Server("\u{fffd}".to_owned())
    );
}

#[test]
fn trust_is_honoured_only_without_a_password() {
    assert_eq!(
        authenticate(AuthState::Start, false, b'R', &auth(0, b"")),
        Ok(AuthAction::Done)
    );
    let refused = authenticate(AuthState::Start, true, b'R', &auth(0, b""));
    assert_eq!(
        refused,
        Err(ClientError::Auth(
            "server requested no authentication but a password is configured; \
             refusing the trust downgrade"
                .to_owned()
        ))
    );
}

#[test]
fn authentication_refuses_what_it_does_not_know() {
    assert_eq!(
        authenticate(AuthState::Start, true, b'R', &auth(5, b"salt")),
        Err(ClientError::Auth(
            "unsupported authentication method 5 (only SCRAM-SHA-256)".to_owned()
        ))
    );
    assert_eq!(
        authenticate(AuthState::Start, true, b'R', &auth(10, b"OTHER\0\0")),
        Err(ClientError::Auth("server did not offer SCRAM-SHA-256".to_owned()))
    );
    assert_eq!(
        authenticate(AuthState::Start, true, b'Z', b""),
        Err(ClientError::Unexpected(b'Z'))
    );
    assert_eq!(
        authenticate(AuthState::Start, true, b'R', b"\0\0"),
        Err(ClientError::Malformed("truncated int32".to_owned()))
    );
    assert_eq!(
        authenticate(AuthState::Challenge, true, b'R', &auth(12, b"")),
        Err(ClientError::Auth("expected SASLContinue".to_owned()))
    );
    assert_eq!(
        authenticate(AuthState::Proof, true, b'R', &auth(0, b"")),
        Err(ClientError::Auth("expected SASLFinal".to_owned()))
    );
    assert_eq!(
        authenticate(AuthState::Consent, true, b'Z', b""),
        Err(ClientError::Auth("expected AuthenticationOk".to_owned()))
    );
    assert_eq!(
        authenticate(AuthState::Consent, true, b'R', &auth(0, b"")),
        Ok(AuthAction::Done)
    );
    assert_eq!(after(&AuthAction::Begin), Some(AuthState::Challenge));
    assert_eq!(after(&AuthAction::Answer(vec![])), Some(AuthState::Proof));
    assert_eq!(after(&AuthAction::Verify(vec![])), Some(AuthState::Consent));
    assert_eq!(after(&AuthAction::Done), None);
}

/// An authentication that has begun SCRAM, and its nonce.
fn begun() -> (Authentication, String) {
    let offer = auth(10, b"SCRAM-SHA-256\0\0");
    match Authentication::new("open".to_owned()).step(b'R', &offer) {
        Ok(Progress::Send(bytes, next)) => {
            let data = bytes[bytes.len() - 32..].to_vec();
            let mut body = b"SCRAM-SHA-256\0\0\0\0\x20".to_vec();
            body.extend_from_slice(&data);
            assert_eq!(bytes, message(b'p', &body));
            let first = String::from_utf8(data).unwrap();
            assert!(first.starts_with("y,,n=,r="));
            (next, first[8..].to_owned())
        }
        _ => panic!("SCRAM has not begun"),
    }
}

fn challenged(nonce: &str) -> Vec<u8> {
    auth(11, format!("r={nonce}srv,s=c2FsdA==,i=1").as_bytes())
}

fn fault(r: Result<Progress, ClientError>) -> ClientError {
    match r {
        Ok(_) => panic!("the message was accepted"),
        Err(e) => e,
    }
}

#[test]
fn scram_nonces_are_fresh() {
    assert_ne!(begun().1, begun().1);
}

#[test]
fn scram_answers_a_challenge_for_its_nonce() {
    let (a, nonce) = begun();
    match a.step(b'R', &challenged(&nonce)) {
        Ok(Progress::Send(bytes, next)) => {
            let answer = String::from_utf8(bytes[5..].to_vec()).unwrap();
            assert_eq!(bytes, message(b'p', answer.as_bytes()));
            assert!(answer.starts_with(&format!("c=eSws,r={nonce}srv,p=")));
            // A proof that does not show knowledge of the password is refused.
            let zeros = auth(12, b"v=AAAAAAAAAAAAAAAAAAAAAAAAAAAAAAAAAAAAAAAAAAA=");
            assert_eq!(
                fault(next.step(b'R', &zeros)),
                ClientError::Auth("SCRAM verification error".to_owned())
            );
        }
        _ => panic!("the challenge was not answered"),
    }
}

#[test]
fn scram_refuses_another_nonce() {
    let (a, _) = begun();
    assert_eq!(
        fault(a.step(b'R', &challenged("someone-elses-"))),
        ClientError::Auth("invalid nonce".to_owned())
    );
    let (a, nonce) = begun();
    let endless = format!("r={nonce}srv,s=c2FsdA==,i=100001");
    assert_eq!(
        fault(a.step(b'R', &auth(11, endless.as_bytes()))),
        ClientError::Auth("SCRAM iteration count exceeds the maximum allowed".to_owned())
    );
}

#[test]
fn scram_passes_on_the_servers_refusal() {
    let (a, nonce) = begun();
    match a.step(b'R', &challenged(&nonce)) {
        Ok(Progress::Send(_, next)) => assert_eq!(
            fault(next.step(b'R', &auth(12, b"e=invalid-proof"))),
            ClientError::Auth("SCRAM error: invalid-proof".to_owned())
        ),
        _ => panic!("the challenge was not answered"),
    }
    let (a, _) = begun();
    assert_eq!(
        fault(a.step(b'E', b"Mno such role\0\0")),
        ClientError::Server("no such role".to_owned())
    );
    assert!(matches!(
        Authentication::new(String::new()).step(b'R', &auth(0, b"")),
        Ok(Progress::Done)
    ));
}

#[test]
fn replies_are_awaited_past_what_does_not_end_them() {
    assert_eq!(reply(Awaited::Startup, b'S', b""), Ok(false));
    assert_eq!(reply(Awaited::Startup, b'K', b""), Ok(false));
    assert_eq!(reply(Awaited::Startup, b'N', b""), Ok(false));
    assert_eq!(reply(Awaited::Startup, b'Z', b"I"), Ok(true));
    assert_eq!(reply(Awaited::Startup, b'T', b""), Err(ClientError::Unexpected(b'T')));
    assert_eq!(reply(Awaited::Slot, b'T', b""), Ok(false));
    assert_eq!(reply(Awaited::Slot, b'D', b""), Ok(false));
    assert_eq!(reply(Awaited::Slot, b'C', b""), Ok(false));
    assert_eq!(reply(Awaited::Slot, b'Z', b"I"), Ok(true));
    assert_eq!(reply(Awaited::Streaming, b'W', b""), Ok(true));
    assert_eq!(
        reply(Awaited::Streaming, b'E', b"Mslot is active\0\0"),
        Err(ClientError::Server("slot is active".to_owned()))
    );
    assert!(is_notice(b'N'));
    assert!(!is_notice(b'E'));
}

#[test]
fn messages_are_read_whole() {
    let mut client = ReplicationClient::new();
    let whole = message(b'd', b"payload");
    client.fill(&whole[..3]);
    assert_eq!(client.read_message(), Ok(None));
    client.fill(&whole[3..]);
    client.fill(&message(b'Z', b"I")[..2]);
    assert_eq!(client.read_message(), Ok(Some((b'd', b"payload".to_vec()))));
    assert_eq!(client.read_message(), Ok(None));
    assert_eq!(client.read_buf, vec![b'Z', 0]);
}

#[test]
fn impossible_lengths_are_refused() {
    let mut client = ReplicationClient::new();
    client.fill(&[b'd', 0, 0, 0, 3]);
    assert_eq!(
        client.read_message(),
        Err(ClientError::Malformed("bad message length 3".to_owned()))
    );
    let mut client = ReplicationClient::new();
    client.fill(&[b'd', 0xff, 0xff, 0xff, 0xff]);
    assert_eq!(
        client.read_message(),
        Err(ClientError::Malformed("bad message length -1".to_owned()))
    );
    let mut client = ReplicationClient::new();
    client.fill(&[b'd', 0x40, 0, 0, 1]);
    assert_eq!(
        client.read_message(),
        Err(ClientError::Malformed("bad message length 1073741825".to_owned()))
    );
}

fn xlog(start: u64, end: u64, data: &[u8]) -> Vec<u8> {
    let mut out = vec![b'w'];
    out.extend_from_slice(&start.to_be_bytes());
    out.extend_from_slice(&end.to_be_bytes());
    out.extend_from_slice(&7i64.to_be_bytes());
    out.extend_from_slice(data);
    out
}

fn keepalive(end: u64, wanted: u8) -> Vec<u8> {
    let mut out = vec![b'k'];
    out.extend_from_slice(&end.to_be_bytes());
    out.extend_from_slice(&7i64.to_be_bytes());
    out.push(wanted);
    out
}

#[test]
fn the_stream_moves_the_written_position_forward_only() {
    let mut client = ReplicationClient::new();
    assert_eq!(
        client.next(b'd', &xlog(0x10, 0x30, b"B")),
        Ok(Streamed::Data(XLogData {
            wal_start: Lsn(0x10),
            wal_end: Lsn(0x30),
            server_time: 7,
            data: b"B".to_vec(),
        }))
    );
    assert_eq!(client.last_wal_end, Lsn(0x30));
    assert_eq!(client.next(b'd', &keepalive(0x20, 0)), Ok(Streamed::Nothing));
    assert_eq!(client.last_wal_end, Lsn(0x30));
    assert_eq!(client.next(b'd', &keepalive(0x40, 1)), Ok(Streamed::StatusWanted));
    assert_eq!(client.last_wal_end, Lsn(0x40));
    assert_eq!(client.next(b'c', b""), Ok(Streamed::End));
    assert_eq!(
        client.next(b'd', b"z"),
        Err(ClientError::Decode(DecodeError::UnknownMessage(b'z')))
    );
    assert_eq!(
        client.next(b'E', b"Mgone\0\0"),
        Err(ClientError::Server("gone".to_owned()))
    );
    assert_eq!(client.next(b'Q', b""), Err(ClientError::Unexpected(b'Q')));
}

#[test]
fn an_unconfirmed_consumer_never_moves_the_slot() {
    let mut client = ReplicationClient::new();
    client.next(b'd', &keepalive(0x40, 0)).unwrap();
    let status = client.send_standby_status().unwrap();
    // CopyData: the type byte `r`, then the written, flushed and applied positions.
    assert_eq!(&status[..6], &[b'd', 0, 0, 0, 38, b'r']);
    assert_eq!(status[6..14], 0x40u64.to_be_bytes());
    assert_eq!(status[14..22], 0u64.to_be_bytes());
    client.confirm(Lsn(0x30));
    client.confirm(Lsn(0x20));
    let status = client.send_standby_status().unwrap();
    assert_eq!(status[14..22], 0x30u64.to_be_bytes());
}

#[test]
fn an_exported_slot_gives_its_snapshot_and_point() {
    let whole = row(&[Some("s1"), Some("0/16B3748"), Some("00000003-1"), Some("pgoutput")]);
    assert_eq!(
        exported_slot(&whole),
        Ok(("00000003-1".to_owned(), Lsn(0x16B_3748)))
    );
    let missing = row(&[Some("s1"), Some("0/16B3748"), None, Some("pgoutput")]);
    let refused = Err(ClientError::Malformed("slot row has no snapshot".to_owned()));
    assert_eq!(exported_slot(&missing), refused);
    assert_eq!(exported_slot(&row(&[Some("s1")])), refused);
    assert!(matches!(
        exported_slot(&whole[..6]),
        Err(ClientError::Decode(DecodeError::Truncated { .. }))
    ));
}

#[test]
fn client_errors_are_readable() {
    assert_eq!(ClientError::Closed.to_string(), "connection closed by the server");
    assert_eq!(ClientError::Io("reset".to_owned()).to_string(), "i/o error: reset");
    assert_eq!(ClientError::Auth("no".to_owned()).to_string(), "authentication failed: no");
    assert_eq!(
        ClientError::Unexpected(0x51).to_string(),
        "unexpected server message type byte 0x51"
    );
}
