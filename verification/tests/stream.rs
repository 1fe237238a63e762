use pgshard::lsn::Lsn;
use pgshard::pgoutput::DecodeError;
use pgshard::stream::{
    decode, HotStandbyFeedback, PrimaryKeepalive, ReplicationMessage, StandbyStatusUpdate,
};

fn be64(v: u64) -> [u8; 8] {
    v.to_be_bytes()
}

#[test]
fn decodes_xlogdata_and_exposes_the_payload() {
    let mut frame = vec![b'w'];
    frame.extend_from_slice(&be64(0x1000)); // wal_start
    frame.extend_from_slice(&be64(0x2000)); // wal_end
    frame.extend_from_slice(&725_000_000i64.to_be_bytes()); // server_time
    frame.extend_from_slice(b"pgoutput-bytes"); // payload
    let ReplicationMessage::XLogData(x) = decode(&frame).unwrap() else {
        panic!("expected XLogData");
    };
    assert_eq!(x.wal_start, Lsn(0x1000));
    assert_eq!(x.wal_end, Lsn(0x2000));
    assert_eq!(x.server_time, 725_000_000);
    assert_eq!(x.data, b"pgoutput-bytes");
}

#[test]
fn decodes_an_empty_payload_xlogdata() {
    let mut frame = vec![b'w'];
    frame.extend_from_slice(&be64(0x1000));
    frame.extend_from_slice(&be64(0x1000));
    frame.extend_from_slice(&0i64.to_be_bytes());
    let ReplicationMessage::XLogData(x) = decode(&frame).unwrap() else {
        panic!("expected XLogData");
    };
    assert_eq!(x.data, b"");
}

#[test]
fn decodes_primary_keepalive() {
    let mut frame = vec![b'k'];
    frame.extend_from_slice(&be64(0x2000));
    frame.extend_from_slice(&725i64.to_be_bytes());
    frame.push(1);
    assert_eq!(
        decode(&frame).unwrap(),
        ReplicationMessage::PrimaryKeepalive(PrimaryKeepalive {
            wal_end: Lsn(0x2000),
            server_time: 725,
            reply_requested: true,
        })
    );
}

#[test]
fn rejects_unknown_type_truncation_and_trailing_bytes() {
    assert_eq!(decode(b"z").unwrap_err(), DecodeError::UnknownMessage(b'z'));
    assert!(matches!(
        decode(b"w\x00\x00").unwrap_err(),
        DecodeError::Truncated { .. }
    ));
    // A keepalive with an extra trailing byte is malformed.
    let mut frame = vec![b'k'];
    frame.extend_from_slice(&be64(1));
    frame.extend_from_slice(&1i64.to_be_bytes());
    frame.push(0);
    frame.push(0xFF);
    assert_eq!(decode(&frame).unwrap_err(), DecodeError::TrailingBytes(1));
}

#[test]
fn standby_status_update_encodes_the_exact_wire_bytes() {
    let ssu = StandbyStatusUpdate {
        write_lsn: Lsn(0x11),
        flush_lsn: Lsn(0x22),
        apply_lsn: Lsn(0x33),
        client_time: 725,
        reply_requested: true,
    };
    let mut expected = vec![b'r'];
    expected.extend_from_slice(&be64(0x11));
    expected.extend_from_slice(&be64(0x22));
    expected.extend_from_slice(&be64(0x33));
    expected.extend_from_slice(&725i64.to_be_bytes());
    expected.push(1);
    assert_eq!(ssu.encode(), expected);
    assert_eq!(ssu.encode().len(), 34);
}

#[test]
fn hot_standby_feedback_encodes_the_exact_wire_bytes() {
    let hsf = HotStandbyFeedback {
        client_time: 725,
        global_xmin: 100,
        global_xmin_epoch: 1,
        catalog_xmin: 90,
        catalog_xmin_epoch: 1,
    };
    let mut expected = vec![b'h'];
    expected.extend_from_slice(&725i64.to_be_bytes());
    expected.extend_from_slice(&100u32.to_be_bytes());
    expected.extend_from_slice(&1u32.to_be_bytes());
    expected.extend_from_slice(&90u32.to_be_bytes());
    expected.extend_from_slice(&1u32.to_be_bytes());
    assert_eq!(hsf.encode(), expected);
    assert_eq!(hsf.encode().len(), 25);
}
