use bytes::{BufMut, Bytes, BytesMut};

use pg_replication::{
    parse, Error, LogicalReplicationMessage, OldTuple, PgOutputMessage, Relation, TupleData,
    TupleValue,
};

fn message(tag: u8, body: &[u8]) -> Result<LogicalReplicationMessage, Error> {
    let mut payload = BytesMut::new();
    payload.put_u8(tag);
    payload.put_slice(body);
    parse(payload.freeze())
}

fn error(tag: u8, body: &[u8]) -> Error {
    match message(tag, body) {
        Ok(_) => panic!("expected an error"),
        Err(e) => e,
    }
}

/// A row of a null, an unchanged and a text column.
fn put_row(body: &mut BytesMut, text: &str) {
    body.put_i16(3);
    body.put_u8(b'n');
    body.put_u8(b'u');
    body.put_u8(b't');
    body.put_i32(text.len() as i32);
    body.put_slice(text.as_bytes());
}

fn assert_row(row: &TupleData, text: &str) {
    assert_eq!(row.columns.len(), 3);
    assert!(matches!(row.columns[0], TupleValue::Null));
    assert!(matches!(row.columns[1], TupleValue::UnchangedToast));
    match &row.columns[2] {
        TupleValue::Text(t) => assert_eq!(&t[..], text.as_bytes()),
        _ => panic!("expected text"),
    }
}

#[test]
fn begin_is_decoded() {
    let mut body = BytesMut::new();
    body.put_i64(-1);
    body.put_i64(i64::MIN);
    body.put_i32(-7);
    match message(b'B', &body) {
        Ok(LogicalReplicationMessage::Begin(m)) => {
            assert_eq!((m.final_lsn, m.commit_timestamp, m.xid), (-1, i64::MIN, -7));
        }
        _ => panic!("expected Begin"),
    }
    assert_eq!(error(b'B', &body[..19]), Error::UnexpectedEof { need: 20, have: 19 });
}

#[test]
fn commit_wants_thirty_three_bytes() {
    let mut body = BytesMut::new();
    body.put_i8(-1);
    body.put_i64(1);
    body.put_i64(2);
    body.put_i64(3);
    assert_eq!(error(b'C', &body), Error::UnexpectedEof { need: 33, have: 25 });
    body.put_i64(4);
    match message(b'C', &body) {
        Ok(LogicalReplicationMessage::Commit(m)) => {
            assert_eq!((m.flags, m.commit_lsn, m.end_lsn, m.commit_timestamp), (-1, 1, 2, 3));
        }
        _ => panic!("expected Commit"),
    }
}

#[test]
fn origin_is_decoded() {
    match message(b'O', b"\0\0\0\0\0\0\0\x05upstream\0") {
        Ok(LogicalReplicationMessage::Origin(m)) => {
            assert_eq!((m.commit_lsn, m.name.as_str()), (5, "upstream"));
        }
        _ => panic!("expected Origin"),
    }
    assert_eq!(error(b'O', b"\0\0\0\0\0\0\0\x05upstream"), Error::MissingTerminator);
    assert_eq!(error(b'O', b"\0\0\0\0\0\0\0\x05\xff\0"), Error::InvalidUtf8);
}

fn relation_body(count: i16) -> BytesMut {
    let mut body = BytesMut::new();
    body.put_i32(42);
    body.put_slice(b"public\0users\0");
    body.put_i8(b'd' as i8);
    body.put_i16(count);
    body.put_i8(1);
    body.put_slice(b"id\0");
    body.put_i32(23);
    body.put_i32(-1);
    body.put_i8(0);
    body.put_slice("na\u{ef}ve\0".as_bytes());
    body.put_i32(25);
    body.put_i32(7);
    body
}

#[test]
fn relation_is_decoded() {
    match message(b'R', &relation_body(2)) {
        Ok(LogicalReplicationMessage::Relation(m)) => {
            assert_eq!(m.xid, None);
            assert_eq!(m.relation_id, 42);
            assert_eq!((m.namespace.as_str(), m.name.as_str()), ("public", "users"));
            assert_eq!(m.replica_identity, b'd' as i8);
            assert_eq!(m.columns.len(), 2);
            assert_eq!(m.columns[0].flags, 1);
            assert_eq!(m.columns[0].name, "id");
            assert_eq!((m.columns[0].type_id, m.columns[0].type_modifier), (23, -1));
            assert_eq!(m.columns[1].name, "na\u{ef}ve");
            assert_eq!((m.columns[1].type_id, m.columns[1].type_modifier), (25, 7));
        }
        _ => panic!("expected Relation"),
    }
}

#[test]
fn relation_reads_no_more_than_its_columns() {
    let mut buf = relation_body(1).freeze();
    let relation = match Relation::parse_body(&mut buf) {
        Ok(relation) => relation,
        Err(e) => panic!("{e:?}"),
    };
    assert_eq!(relation.columns.len(), 1);
    assert_eq!(buf.len(), 1 + 7 + 8);
}

#[test]
fn announced_columns_must_be_there() {
    assert_eq!(error(b'R', &relation_body(3)), Error::UnexpectedEof { need: 1, have: 0 });
    assert_eq!(error(b'R', &relation_body(-1)), Error::UnexpectedEof { need: 1, have: 0 });
    assert_eq!(error(b'I', b"\0\0\0\x01N\xff\xff"), Error::UnexpectedEof { need: 1, have: 0 });
}

#[test]
fn type_is_decoded() {
    match message(b'Y', b"\0\0\0\x09pg\0mood\0") {
        Ok(LogicalReplicationMessage::Type(m)) => {
            assert_eq!((m.xid, m.type_id), (None, 9));
            assert_eq!((m.namespace.as_str(), m.name.as_str()), ("pg", "mood"));
        }
        _ => panic!("expected Type"),
    }
}

#[test]
fn insert_is_decoded() {
    let mut body = BytesMut::new();
    body.put_i32(7);
    body.put_u8(b'N');
    put_row(&mut body, "hello");
    match message(b'I', &body) {
        Ok(LogicalReplicationMessage::Insert(m)) => {
            assert_eq!((m.xid, m.relation_id), (None, 7));
            assert_row(&m.new_tuple, "hello");
        }
        _ => panic!("expected Insert"),
    }
    assert_eq!(error(b'I', b"\0\0\0\x07K\0\0"), Error::ExpectedNewTuple { tag: b'K' });
    assert_eq!(error(b'I', b"\0\0\0\x07N\0\x01x"), Error::UnsupportedTupleValue { tag: b'x' });
    assert_eq!(
        error(b'I', b"\0\0\0\x07N\0\x01t\0\0\0\x05abc"),
        Error::UnexpectedEof { need: 5, have: 3 }
    );
}

#[test]
fn update_is_decoded() {
    let mut body = BytesMut::new();
    body.put_i32(7);
    body.put_u8(b'N');
    put_row(&mut body, "new");
    match message(b'U', &body) {
        Ok(LogicalReplicationMessage::Update(m)) => {
            assert!(m.old_tuple.is_none());
            assert_row(&m.new_tuple, "new");
        }
        _ => panic!("expected Update"),
    }

    for tag in [b'K', b'O'] {
        let mut body = BytesMut::new();
        body.put_i32(7);
        body.put_u8(tag);
        put_row(&mut body, "old");
        body.put_u8(b'N');
        put_row(&mut body, "new");
        match message(b'U', &body) {
            Ok(LogicalReplicationMessage::Update(m)) => {
                match m.old_tuple {
                    Some(OldTuple::Key(row)) if tag == b'K' => assert_row(&row, "old"),
                    Some(OldTuple::Old(row)) if tag == b'O' => assert_row(&row, "old"),
                    _ => panic!("wrong old tuple"),
                }
                assert_row(&m.new_tuple, "new");
            }
            _ => panic!("expected Update"),
        }
    }

    assert_eq!(error(b'U', b"\0\0\0\x07X"), Error::UnexpectedUpdateTuple { tag: b'X' });
    assert_eq!(error(b'U', b"\0\0\0\x07K\0\0Z"), Error::ExpectedNewTuple { tag: b'Z' });
    assert_eq!(error(b'U', b"\0\0\0\x07K\0\0"), Error::UnexpectedEof { need: 1, have: 0 });
}

#[test]
fn delete_is_decoded() {
    let mut body = BytesMut::new();
    body.put_i32(7);
    body.put_u8(b'O');
    put_row(&mut body, "gone");
    match message(b'D', &body) {
        Ok(LogicalReplicationMessage::Delete(m)) => match m.old_tuple {
            OldTuple::Old(row) => assert_row(&row, "gone"),
            OldTuple::Key(_) => panic!("wrong old tuple"),
        },
        _ => panic!("expected Delete"),
    }
    assert_eq!(error(b'D', b"\0\0\0\x07N"), Error::UnexpectedDeleteTuple { tag: b'N' });
}

#[test]
fn truncate_is_decoded() {
    match message(b'T', b"\0\0\0\x02\x03\0\0\0\x05\xff\xff\xff\xff") {
        Ok(LogicalReplicationMessage::Truncate(m)) => {
            assert_eq!(m.relation_ids, vec![5, -1]);
            assert!(m.options.cascade && m.options.restart_identity);
        }
        _ => panic!("expected Truncate"),
    }
    match message(b'T', b"\0\0\0\0\x02") {
        Ok(LogicalReplicationMessage::Truncate(m)) => {
            assert!(m.relation_ids.is_empty());
            assert!(!m.options.cascade && m.options.restart_identity);
        }
        _ => panic!("expected Truncate"),
    }
    assert_eq!(
        error(b'T', b"\0\0\0\x02\x03\0\0\0\x05"),
        Error::UnexpectedEof { need: 8, have: 4 }
    );
    assert!(message(b'T', b"\xff\xff\xff\xff\x00\0\0\0\x05").is_err());
}

#[test]
fn logical_decoding_message_is_decoded() {
    let mut body = BytesMut::new();
    body.put_i8(1);
    body.put_i64(9);
    body.put_slice(b"prefix\0");
    body.put_i32(3);
    body.put_slice(b"abcdef");
    match message(b'M', &body) {
        Ok(LogicalReplicationMessage::Message(m)) => {
            assert_eq!((m.xid, m.flags, m.lsn), (None, 1, 9));
            assert_eq!(m.prefix, "prefix");
            assert_eq!(&m.content[..], b"abc");
        }
        _ => panic!("expected Message"),
    }
    let mut body = BytesMut::new();
    body.put_i8(1);
    body.put_i64(9);
    body.put_slice(b"\0");
    body.put_i32(-1);
    assert_eq!(
        error(b'M', &body),
        Error::UnexpectedEof { need: usize::MAX, have: 0 }
    );
}

#[test]
fn stream_messages_are_decoded() {
    match message(b'S', b"\0\0\0\x04\x01") {
        Ok(LogicalReplicationMessage::StreamStart(m)) => {
            assert_eq!((m.xid, m.first_segment), (4, true));
        }
        _ => panic!("expected StreamStart"),
    }
    assert!(matches!(message(b'E', b""), Ok(LogicalReplicationMessage::StreamStop(_))));
    let mut body = BytesMut::new();
    body.put_i32(4);
    body.put_i8(0);
    body.put_i64(1);
    body.put_i64(2);
    body.put_i64(3);
    match message(b'c', &body) {
        Ok(LogicalReplicationMessage::StreamCommit(m)) => {
            assert_eq!(
                (m.xid, m.flags, m.commit_lsn, m.end_lsn, m.commit_timestamp),
                (4, 0, 1, 2, 3)
            );
        }
        _ => panic!("expected StreamCommit"),
    }
    match message(b'A', b"\0\0\0\x04\xff\xff\xff\xfe") {
        Ok(LogicalReplicationMessage::StreamAbort(m)) => assert_eq!((m.xid, m.subxid), (4, -2)),
        _ => panic!("expected StreamAbort"),
    }
}

#[test]
fn unknown_and_empty_payloads_are_refused() {
    assert_eq!(error(b'Q', b""), Error::UnsupportedLogicalMessage { tag: b'Q' });
    match parse(Bytes::new()) {
        Err(e) => assert_eq!(e, Error::UnexpectedEof { need: 1, have: 0 }),
        Ok(_) => panic!("expected an error"),
    }
}
