use bytes::{BufMut, Bytes, BytesMut};

use pg_replication::backend::{
    parse, parse_replication_message, Authentication, CopyFormat, MessageFormat,
    ReplicationMessage,
};
use pg_replication::codec::encode_startup_message;
use pg_replication::protocol::{
    Codec, CopyDone, Query, SASLInitialResponse, SASLResponse, StartupMessage,
};
use pg_replication::wire::{find, put_cstr, read_cstring, set_u32, starts_with, strip_prefix};
use pg_replication::{start_replication, ConnectParams, Error};

fn frame(tag: u8, body: &[u8]) -> Bytes {
    let mut buf = BytesMut::new();
    buf.put_u8(tag);
    buf.put_u32((4 + body.len()) as u32);
    buf.put_slice(body);
    buf.freeze()
}

fn error(tag: u8, body: &[u8]) -> Error {
    match parse(frame(tag, body)) {
        Ok(_) => panic!("expected an error"),
        Err(e) => e,
    }
}

#[test]
fn start_replication_names_the_slot() {
    assert_eq!(start_replication("locus"), "START_REPLICATION SLOT locus LOGICAL 0/0");
    assert_eq!(start_replication(""), "START_REPLICATION SLOT  LOGICAL 0/0");
}

#[test]
fn strings_are_read_as_written() {
    let mut buf = BytesMut::new();
    put_cstr(&mut buf, "gr\u{fc}n");
    put_cstr(&mut buf, "");
    buf.put_u8(9);
    let mut buf = buf.freeze();
    assert_eq!(read_cstring(&mut buf), Ok("gr\u{fc}n".to_string()));
    assert_eq!(read_cstring(&mut buf), Ok(String::new()));
    assert_eq!(read_cstring(&mut buf), Err(Error::MissingTerminator));
    assert_eq!(&buf[..], &[9]);

    let mut buf = Bytes::from_static(b"\xff\0x");
    assert_eq!(read_cstring(&mut buf), Err(Error::InvalidUtf8));
    assert_eq!(&buf[..], b"x");
}

#[test]
fn numbers_are_overwritten_in_place() {
    let mut buf = BytesMut::new();
    buf.put_slice(&[1, 2, 3, 4, 5, 6]);
    set_u32(&mut buf, 1, 0xa1b2_c3d4);
    assert_eq!(&buf[..], &[1, 0xa1, 0xb2, 0xc3, 0xd4, 6]);
}

#[test]
fn bytes_are_found() {
    assert_eq!(find(b"a,b,c", b','), Some(1));
    assert_eq!(find(b"abc", b','), None);
    assert!(starts_with(b"abc", b"ab"));
    assert!(!starts_with(b"a", b"ab"));
    assert_eq!(strip_prefix(b"r=x", b"r="), Some(&b"x"[..]));
    assert_eq!(strip_prefix(b"s=x", b"r="), None);
}

#[test]
fn messages_of_the_client_are_exact() {
    assert_eq!(&CopyDone {}.encode().unwrap()[..], b"c\0\0\0\x04");
    assert_eq!(
        &Query { sql: "SELECT 1".to_string() }.encode().unwrap()[..],
        b"Q\0\0\0\x0dSELECT 1\0"
    );
    assert_eq!(
        &SASLResponse { data: Bytes::from_static(b"xyz") }.encode().unwrap()[..],
        b"p\0\0\0\x07xyz"
    );
    assert_eq!(
        &SASLInitialResponse {
            auth_mechanism: "M".to_string(),
            data: Bytes::from_static(b"xyz"),
        }
        .encode()
        .unwrap()[..],
        b"p\0\0\0\x0dM\0\0\0\0\x03xyz"
    );
    let startup = StartupMessage {
        user_name: "u".to_string(),
        database: "d".to_string(),
        replication: "database".to_string(),
    }
    .encode()
    .unwrap();
    assert_eq!(
        &startup[..],
        b"\0\0\0\x30\0\x03\0\0user\0u\0database\0d\0replication\0database\0\0"
    );
    let params = ConnectParams {
        user_name: "u".to_string(),
        password: "secret".to_string(),
        database: "d".to_string(),
        replication_mode: "database".to_string(),
    };
    assert_eq!(encode_startup_message(&params), startup);
}

#[test]
fn authentication_requests_are_decoded() {
    match parse(frame(b'R', b"\0\0\0\0")) {
        Ok(MessageFormat::Authentication(Authentication::AuthOk)) => {}
        _ => panic!("expected AuthOk"),
    }
    match parse(frame(b'R', b"\0\0\0\x0aA\0BC\0\0rest")) {
        Ok(MessageFormat::Authentication(Authentication::Sasl(s))) => {
            assert_eq!(s.mechanisms, vec!["A".to_string(), "BC".to_string()]);
        }
        _ => panic!("expected Sasl"),
    }
    match parse(frame(b'R', b"\0\0\0\x0aA\0")) {
        Ok(MessageFormat::Authentication(Authentication::Sasl(s))) => {
            assert_eq!(s.mechanisms, vec!["A".to_string()]);
        }
        _ => panic!("expected Sasl"),
    }
    assert_eq!(error(b'R', b"\0\0\0\x0aA"), Error::MissingTerminator);
    match parse(frame(b'R', b"\0\0\0\x0bdata")) {
        Ok(MessageFormat::Authentication(Authentication::SaslContinue(s))) => {
            assert_eq!(&s.data[..], b"data");
        }
        _ => panic!("expected SaslContinue"),
    }
    match parse(frame(b'R', b"\0\0\0\x0cdata")) {
        Ok(MessageFormat::Authentication(Authentication::SaslFinal(s))) => {
            assert_eq!(&s.data[..], b"data");
        }
        _ => panic!("expected SaslFinal"),
    }
    assert_eq!(error(b'R', b"\0\0\0\x05salt"), Error::UnsupportedAuthentication { code: 5 });
    assert_eq!(error(b'R', b"\0\0"), Error::UnexpectedEof { need: 4, have: 2 });
}

#[test]
fn copy_both_response_is_decoded() {
    match parse(frame(b'W', b"\0\0\0\x02\0\x01\0\0")) {
        Ok(MessageFormat::CopyBothResponse(c)) => {
            assert!(matches!(c.format, CopyFormat::Text));
            assert_eq!(c.column_formats.len(), 2);
            assert!(matches!(c.column_formats[0], CopyFormat::Binary));
            assert!(matches!(c.column_formats[1], CopyFormat::Text));
        }
        _ => panic!("expected CopyBothResponse"),
    }
    assert_eq!(error(b'W', b"\0\x02\0\0"), Error::UnsupportedCopyFormat);
    assert_eq!(error(b'W', b"\0\0\0\x01\0\x07"), Error::UnsupportedCopyFormat);
    assert_eq!(error(b'W', b"\0\0\0\x01"), Error::UnexpectedEof { need: 2, have: 0 });
}

#[test]
fn reports_are_decoded() {
    match parse(frame(b'S', b"server_version\x0016.0\0")) {
        Ok(MessageFormat::ParameterStatus(p)) => {
            assert_eq!((p.name.as_str(), p.value.as_str()), ("server_version", "16.0"));
        }
        _ => panic!("expected ParameterStatus"),
    }
    match parse(frame(b'K', b"\0\0\x04\xd2\xff\xff\xff\xff")) {
        Ok(MessageFormat::BackendKeyData(k)) => {
            assert_eq!((k.process_id, k.secret_key), (1234, -1));
        }
        _ => panic!("expected BackendKeyData"),
    }
    match parse(frame(b'C', b"COPY 0\0")) {
        Ok(MessageFormat::CommandComplete(c)) => assert_eq!(c.tag, "COPY 0"),
        _ => panic!("expected CommandComplete"),
    }
    match parse(frame(b'Z', b"T")) {
        Ok(MessageFormat::ReadyForQuery(r)) => assert_eq!(r.tx_status, b'T'),
        _ => panic!("expected ReadyForQuery"),
    }
    match parse(frame(b'd', b"data")) {
        Ok(MessageFormat::CopyData(c)) => assert_eq!(&c.payload[..], b"data"),
        _ => panic!("expected CopyData"),
    }
    assert_eq!(error(b'K', b"\0\0\0\0"), Error::UnexpectedEof { need: 8, have: 4 });
    assert_eq!(error(b'Z', b""), Error::UnexpectedEof { need: 1, have: 0 });
    assert_eq!(error(b'S', b"name\0value"), Error::MissingTerminator);
}

#[test]
fn frames_are_cut_to_their_length() {
    // Four bytes of body are announced, two are there.
    match parse(Bytes::from_static(b"R\0\0\0\x08\0\0")) {
        Err(e) => assert_eq!(e, Error::UnexpectedEof { need: 4, have: 2 }),
        Ok(_) => panic!("expected an error"),
    }
    match parse(Bytes::from_static(b"d\0\0\0\x06abcd")) {
        Ok(MessageFormat::CopyData(c)) => assert_eq!(&c.payload[..], b"ab"),
        _ => panic!("expected CopyData"),
    }
    match parse(Bytes::from_static(b"d\0\0\0")) {
        Err(e) => assert_eq!(e, Error::UnexpectedEof { need: 5, have: 4 }),
        Ok(_) => panic!("expected an error"),
    }
}

#[test]
fn replication_messages_are_decoded() {
    let mut payload = BytesMut::new();
    payload.put_u8(b'w');
    payload.put_i64(1);
    payload.put_i64(-2);
    payload.put_i64(3);
    payload.put_slice(b"wal");
    match parse_replication_message(payload.freeze()) {
        Ok(ReplicationMessage::XlogData(x)) => {
            assert_eq!((x.start_lsn, x.end_lsn, x.send_time), (1, -2, 3));
            assert_eq!(&x.wal_data[..], b"wal");
        }
        _ => panic!("expected XLogData"),
    }
    match parse_replication_message(Bytes::from_static(b"k123")) {
        Err(e) => assert_eq!(e, Error::UnexpectedEof { need: 17, have: 3 }),
        Ok(_) => panic!("expected an error"),
    }
}
