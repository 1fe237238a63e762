use pgshard::lsn::Lsn;
use pgshard::pgoutput::{
    Begin, Commit, DecodeError, LogicalRepMsg, Origin, PgOutputDecoder, PreparedTxn,
    RollbackPrepared, StreamAbort, StreamMode, StreamStart, TupleColumn, TypeDecl,
    MAX_SUPPORTED_PROTOCOL_VERSION,
};

/// A little-endian-free big-endian frame builder for hand-written fixtures.
#[derive(Default)]
struct Frame(Vec<u8>);

impl Frame {
    fn tag(tag: u8) -> Self {
        Frame(vec![tag])
    }
    fn u8(mut self, v: u8) -> Self {
        self.0.push(v);
        self
    }
    fn i16(mut self, v: i16) -> Self {
        self.0.extend_from_slice(&v.to_be_bytes());
        self
    }
    fn u32(mut self, v: u32) -> Self {
        self.0.extend_from_slice(&v.to_be_bytes());
        self
    }
    fn i32(mut self, v: i32) -> Self {
        self.0.extend_from_slice(&v.to_be_bytes());
        self
    }
    fn i64(mut self, v: i64) -> Self {
        self.0.extend_from_slice(&v.to_be_bytes());
        self
    }
    fn u64(mut self, v: u64) -> Self {
        self.0.extend_from_slice(&v.to_be_bytes());
        self
    }
    fn cstr(mut self, s: &str) -> Self {
        self.0.extend_from_slice(s.as_bytes());
        self.0.push(0);
        self
    }
    fn raw(mut self, b: &[u8]) -> Self {
        self.0.extend_from_slice(b);
        self
    }
    fn build(self) -> Vec<u8> {
        self.0
    }
}

fn dec() -> PgOutputDecoder {
    PgOutputDecoder::new(MAX_SUPPORTED_PROTOCOL_VERSION)
}

#[test]
fn decodes_begin_and_commit() {
    let begin = Frame::tag(b'B')
        .u64(0x16_B374_D848)
        .i64(725_000_000)
        .u32(910);
    assert_eq!(
        dec().decode(&begin.build()).unwrap(),
        LogicalRepMsg::Begin(Begin {
            final_lsn: Lsn(0x16_B374_D848),
            commit_timestamp: 725_000_000,
            xid: 910,
        })
    );
    let commit = Frame::tag(b'C')
        .u8(0)
        .u64(0x100)
        .u64(0x200)
        .i64(725_000_001);
    assert_eq!(
        dec().decode(&commit.build()).unwrap(),
        LogicalRepMsg::Commit(Commit {
            commit_lsn: Lsn(0x100),
            end_lsn: Lsn(0x200),
            commit_timestamp: 725_000_001,
        })
    );
}

#[test]
fn decodes_insert_with_text_null_and_toast_columns() {
    // I, rel_oid=42, N, tuple{ "abc", NULL, unchanged-toast }
    let frame = Frame::tag(b'I')
        .u32(42)
        .u8(b'N')
        .i16(3)
        .u8(b't')
        .i32(3)
        .raw(b"abc")
        .u8(b'n')
        .u8(b'u')
        .build();
    let LogicalRepMsg::Insert(ins) = dec().decode(&frame).unwrap() else {
        panic!("expected insert");
    };
    assert_eq!(ins.xid, None);
    assert_eq!(ins.rel_oid, 42);
    assert_eq!(
        ins.new_tuple.columns,
        vec![
            TupleColumn::Text(b"abc"),
            TupleColumn::Null,
            TupleColumn::UnchangedToast,
        ]
    );
}

#[test]
fn decodes_update_with_key_full_and_new_only() {
    let new_only = Frame::tag(b'U')
        .u32(7)
        .u8(b'N')
        .i16(1)
        .u8(b't')
        .i32(1)
        .raw(b"z")
        .build();
    let LogicalRepMsg::Update(u) = dec().decode(&new_only).unwrap() else {
        panic!("expected update");
    };
    assert_eq!((u.key.is_some(), u.old.is_some()), (false, false));

    let with_key = Frame::tag(b'U')
        .u32(7)
        .u8(b'K')
        .i16(1)
        .u8(b't')
        .i32(1)
        .raw(b"1")
        .u8(b'N')
        .i16(1)
        .u8(b't')
        .i32(1)
        .raw(b"2")
        .build();
    let LogicalRepMsg::Update(u) = dec().decode(&with_key).unwrap() else {
        panic!("expected update");
    };
    assert_eq!(u.key.unwrap().columns, vec![TupleColumn::Text(b"1")]);
    assert!(u.old.is_none());
    assert_eq!(u.new_tuple.columns, vec![TupleColumn::Text(b"2")]);

    let with_old = Frame::tag(b'U')
        .u32(7)
        .u8(b'O')
        .i16(1)
        .u8(b'n')
        .u8(b'N')
        .i16(1)
        .u8(b't')
        .i32(1)
        .raw(b"2")
        .build();
    let LogicalRepMsg::Update(u) = dec().decode(&with_old).unwrap() else {
        panic!("expected update");
    };
    assert!(u.key.is_none());
    assert_eq!(u.old.unwrap().columns, vec![TupleColumn::Null]);
}

#[test]
fn decodes_delete_with_key() {
    let frame = Frame::tag(b'D')
        .u32(9)
        .u8(b'K')
        .i16(1)
        .u8(b't')
        .i32(2)
        .raw(b"42")
        .build();
    let LogicalRepMsg::Delete(d) = dec().decode(&frame).unwrap() else {
        panic!("expected delete");
    };
    assert_eq!(d.rel_oid, 9);
    assert_eq!(d.key.unwrap().columns, vec![TupleColumn::Text(b"42")]);
    assert!(d.old.is_none());
}

#[test]
fn decodes_relation_with_key_flag() {
    let frame = Frame::tag(b'R')
        .u32(16400)
        .cstr("public")
        .cstr("orders")
        .u8(b'd')
        .i16(2)
        .u8(1)
        .cstr("id")
        .u32(23)
        .i32(-1)
        .u8(0)
        .cstr("note")
        .u32(25)
        .i32(-1)
        .build();
    let LogicalRepMsg::Relation(rel) = dec().decode(&frame).unwrap() else {
        panic!("expected relation");
    };
    assert_eq!(
        (rel.oid, rel.namespace, rel.name),
        (16400, "public", "orders")
    );
    assert_eq!(rel.replica_identity, b'd');
    assert_eq!(rel.columns.len(), 2);
    assert!(rel.columns[0].is_key());
    assert_eq!(rel.columns[0].name, "id");
    assert_eq!(rel.columns[0].type_oid, 23);
    assert!(!rel.columns[1].is_key());
}

#[test]
fn decodes_truncate_options() {
    let frame = Frame::tag(b'T').i32(2).u8(3).u32(100).u32(200).build();
    let LogicalRepMsg::Truncate(t) = dec().decode(&frame).unwrap() else {
        panic!("expected truncate");
    };
    assert_eq!(t.relations, vec![100, 200]);
    assert!(t.cascade());
    assert!(t.restart_identity());
}

#[test]
fn decodes_logical_message_transactional_flag() {
    let frame = Frame::tag(b'M')
        .u8(1)
        .u64(0xABCD)
        .cstr("pgshard")
        .i32(4)
        .raw(b"jrnl")
        .build();
    let LogicalRepMsg::Message(m) = dec().decode(&frame).unwrap() else {
        panic!("expected message");
    };
    assert!(m.transactional);
    assert_eq!(m.xid, None);
    assert_eq!(m.lsn, Lsn(0xABCD));
    assert_eq!(m.prefix, "pgshard");
    assert_eq!(m.content, b"jrnl");
}

#[test]
fn decodes_origin_and_type() {
    let origin = Frame::tag(b'O').u64(0x50).cstr("pgshard_reverse").build();
    assert_eq!(
        dec().decode(&origin).unwrap(),
        LogicalRepMsg::Origin(Origin {
            commit_lsn: Lsn(0x50),
            name: "pgshard_reverse",
        })
    );
    let ty = Frame::tag(b'Y')
        .u32(1234)
        .cstr("public")
        .cstr("mood")
        .build();
    assert_eq!(
        dec().decode(&ty).unwrap(),
        LogicalRepMsg::Type(TypeDecl {
            xid: None,
            oid: 1234,
            namespace: "public",
            name: "mood",
        })
    );
}

#[test]
fn tracks_the_stream_bracket_for_the_xid_prefix() {
    let mut d = dec();
    let start = Frame::tag(b'S').u32(555).u8(1).build();
    assert_eq!(
        d.decode(&start).unwrap(),
        LogicalRepMsg::StreamStart(StreamStart {
            xid: 555,
            first_segment: true,
        })
    );
    assert!(d.in_stream());

    // Inside the stream, an insert carries the xid prefix before rel_oid.
    let streamed_insert = Frame::tag(b'I')
        .u32(555)
        .u32(42)
        .u8(b'N')
        .i16(1)
        .u8(b't')
        .i32(2)
        .raw(b"hi")
        .build();
    let LogicalRepMsg::Insert(ins) = d.decode(&streamed_insert).unwrap() else {
        panic!("expected insert");
    };
    assert_eq!(ins.xid, Some(555));
    assert_eq!(ins.rel_oid, 42);

    assert_eq!(d.decode(b"E").unwrap(), LogicalRepMsg::StreamStop);
    assert!(!d.in_stream());

    // Outside the stream the same layout has no prefix.
    let plain_insert = Frame::tag(b'I')
        .u32(42)
        .u8(b'N')
        .i16(1)
        .u8(b't')
        .i32(2)
        .raw(b"hi")
        .build();
    let LogicalRepMsg::Insert(ins) = d.decode(&plain_insert).unwrap() else {
        panic!("expected insert");
    };
    assert_eq!(ins.xid, None);
}

#[test]
fn stream_abort_reads_abort_fields_per_negotiated_stream_mode() {
    let with_extra = Frame::tag(b'A').u32(1).u32(2).u64(0x99).i64(725).build();
    let bare = Frame::tag(b'A').u32(1).u32(2).build();

    // Parallel streaming: the abort LSN + timestamp are read.
    assert_eq!(
        PgOutputDecoder::with_stream_mode(4, StreamMode::Parallel)
            .decode(&with_extra)
            .unwrap(),
        LogicalRepMsg::StreamAbort(StreamAbort {
            xid: 1,
            subxid: 2,
            abort_lsn: Some(Lsn(0x99)),
            abort_timestamp: Some(725),
        })
    );
    // Non-parallel: only the two xids, no guessing from length.
    assert_eq!(
        PgOutputDecoder::with_stream_mode(4, StreamMode::On)
            .decode(&bare)
            .unwrap(),
        LogicalRepMsg::StreamAbort(StreamAbort {
            xid: 1,
            subxid: 2,
            abort_lsn: None,
            abort_timestamp: None,
        })
    );
    // The mode makes it exact rather than heuristic: a non-parallel frame that
    // carries 16 stray bytes is rejected, and a parallel frame missing them is
    // truncated — neither is silently misread.
    assert_eq!(
        PgOutputDecoder::with_stream_mode(4, StreamMode::On)
            .decode(&with_extra)
            .unwrap_err(),
        DecodeError::TrailingBytes(16)
    );
    assert!(matches!(
        PgOutputDecoder::with_stream_mode(4, StreamMode::Parallel)
            .decode(&bare)
            .unwrap_err(),
        DecodeError::Truncated { .. }
    ));
}

#[test]
fn a_decode_error_does_not_corrupt_the_stream_bracket() {
    // A malformed Stream Start (trailing byte) must not leave in_stream set;
    // otherwise a following plain change would be misread as carrying a prefix.
    let mut d = dec();
    let bad_start = Frame::tag(b'S').u32(9).u8(1).u8(0xFF).build();
    assert_eq!(
        d.decode(&bad_start).unwrap_err(),
        DecodeError::TrailingBytes(1)
    );
    assert!(!d.in_stream());
}

#[test]
fn decodes_two_phase_prepare_and_rollback() {
    let prepare = Frame::tag(b'P')
        .u8(0)
        .u64(0x10)
        .u64(0x20)
        .i64(725)
        .u32(77)
        .cstr("gid-1")
        .build();
    assert_eq!(
        dec().decode(&prepare).unwrap(),
        LogicalRepMsg::Prepare(PreparedTxn {
            lsn: Lsn(0x10),
            end_lsn: Lsn(0x20),
            timestamp: 725,
            xid: 77,
            gid: "gid-1",
        })
    );
    let rollback = Frame::tag(b'r')
        .u8(0)
        .u64(0x10)
        .u64(0x30)
        .i64(725)
        .i64(726)
        .u32(77)
        .cstr("gid-1")
        .build();
    assert_eq!(
        dec().decode(&rollback).unwrap(),
        LogicalRepMsg::RollbackPrepared(RollbackPrepared {
            prepared_end_lsn: Lsn(0x10),
            rollback_end_lsn: Lsn(0x30),
            prepare_timestamp: 725,
            rollback_timestamp: 726,
            xid: 77,
            gid: "gid-1",
        })
    );
}

#[test]
fn rejects_malformed_frames() {
    // Empty frame: no tag byte.
    assert_eq!(
        dec().decode(&[]).unwrap_err(),
        DecodeError::Truncated {
            offset: 0,
            needed: 1
        }
    );
    // Unknown top-level message type.
    assert_eq!(
        dec().decode(b"Z").unwrap_err(),
        DecodeError::UnknownMessage(b'Z')
    );
    // Insert missing its 'N' marker.
    let bad_marker = Frame::tag(b'I').u32(1).u8(b'X').build();
    assert_eq!(
        dec().decode(&bad_marker).unwrap_err(),
        DecodeError::UnexpectedTupleMarker(b'X')
    );
    // Unknown tuple column kind.
    let bad_kind = Frame::tag(b'I').u32(1).u8(b'N').i16(1).u8(b'?').build();
    assert_eq!(
        dec().decode(&bad_kind).unwrap_err(),
        DecodeError::UnknownTupleKind(b'?')
    );
    // A field length that overruns the frame.
    let overrun = Frame::tag(b'I')
        .u32(1)
        .u8(b'N')
        .i16(1)
        .u8(b't')
        .i32(99)
        .raw(b"ab")
        .build();
    assert!(matches!(
        dec().decode(&overrun).unwrap_err(),
        DecodeError::Truncated { .. }
    ));
    // Trailing bytes after an otherwise complete message.
    let trailing = Frame::tag(b'B').u64(0).i64(0).u32(0).raw(b"extra").build();
    assert_eq!(
        dec().decode(&trailing).unwrap_err(),
        DecodeError::TrailingBytes(5)
    );
}

#[test]
fn a_decoder_keeps_what_was_negotiated() {
    assert_eq!(PgOutputDecoder::new(2).stream_mode(), StreamMode::Off);
    let parallel = PgOutputDecoder::with_stream_mode(4, StreamMode::Parallel);
    assert_eq!(parallel.protocol_version(), 4);
    assert_eq!(parallel.stream_mode(), StreamMode::Parallel);
}

#[test]
fn an_accepted_frame_is_consumed_exactly() {
    let frames = [
        Frame::tag(b'B').u64(1).i64(2).u32(3).build(),
        Frame::tag(b'E').build(),
        Frame::tag(b'Y').u32(7).cstr("public").cstr("mood").build(),
        Frame::tag(b'I')
            .u32(16384)
            .u8(b'N')
            .i16(2)
            .u8(b't')
            .i32(2)
            .raw(b"42")
            .u8(b'n')
            .build(),
        Frame::tag(b'T').i32(2).u8(1).u32(10).u32(11).build(),
    ];
    for frame in frames {
        assert!(dec().decode(&frame).is_ok());
        for k in 0..frame.len() {
            assert!(matches!(
                dec().decode(&frame[..k]),
                Err(DecodeError::Truncated { .. })
            ));
        }
        for n in 1..4 {
            let mut longer = frame.clone();
            longer.resize(frame.len() + n, b'N');
            assert_eq!(dec().decode(&longer), Err(DecodeError::TrailingBytes(n)));
        }
    }
}

#[test]
fn streaming_adds_only_the_xid() {
    let outside = Frame::tag(b'I').u32(16384).u8(b'N').i16(1).u8(b'n').build();
    let mut inside = vec![outside[0], 0x01, 0x02, 0x03, 0x04];
    inside.extend_from_slice(&outside[1..]);
    let mut d = PgOutputDecoder::with_stream_mode(2, StreamMode::On);
    d.decode(&Frame::tag(b'S').u32(9).u8(1).build()).unwrap();
    let LogicalRepMsg::Insert(streamed) = d.decode(&inside).unwrap() else {
        panic!("not an insert");
    };
    let mut plain = dec();
    let LogicalRepMsg::Insert(change) = plain.decode(&outside).unwrap() else {
        panic!("not an insert");
    };
    assert_eq!(streamed.xid, Some(0x0102_0304));
    assert_eq!(change.xid, None);
    assert_eq!(streamed.rel_oid, change.rel_oid);
    assert_eq!(streamed.new_tuple, change.new_tuple);
    // What is wrong behind the xid is wrong four bytes later.
    assert_eq!(
        dec().decode(&outside[..3]),
        Err(DecodeError::Truncated { offset: 1, needed: 4 })
    );
    assert_eq!(
        d.decode(&inside[..7]),
        Err(DecodeError::Truncated { offset: 5, needed: 4 })
    );
}
