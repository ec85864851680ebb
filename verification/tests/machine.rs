use bytes::{BufMut, Bytes, BytesMut};

use pg_replication::auth::scram::{ScramClient, SCRAM_SHA_256_NAME};
use pg_replication::machine::SLOT_NAME;
use pg_replication::{
    start_replication, ConnectParams, Core, CoreEvent, CoreStatus, Error, LogicalReplicationMessage,
};

fn backend_frame(tag: u8, body: &[u8]) -> Bytes {
    let mut buf = BytesMut::new();
    buf.put_u8(tag);
    buf.put_u32((4 + body.len()) as u32);
    buf.put_slice(body);
    buf.freeze()
}

fn auth_ok() -> Bytes {
    let mut body = BytesMut::new();
    body.put_i32(0);
    backend_frame(b'R', &body)
}

fn ready_for_query() -> Bytes {
    backend_frame(b'Z', &[b'I'])
}

fn parameter_status(name: &str, value: &str) -> Bytes {
    let mut body = BytesMut::new();
    body.put_slice(name.as_bytes());
    body.put_u8(0);
    body.put_slice(value.as_bytes());
    body.put_u8(0);
    backend_frame(b'S', &body)
}

fn backend_key_data(pid: i32, secret: i32) -> Bytes {
    let mut body = BytesMut::new();
    body.put_i32(pid);
    body.put_i32(secret);
    backend_frame(b'K', &body)
}

fn copy_both_response() -> Bytes {
    let mut body = BytesMut::new();
    body.put_u16(0); // overall format: text
    body.put_u16(0); // zero column formats
    backend_frame(b'W', &body)
}

fn command_complete(tag: &str) -> Bytes {
    let mut body = BytesMut::new();
    body.put_slice(tag.as_bytes());
    body.put_u8(0);
    backend_frame(b'C', &body)
}

fn error_response() -> Bytes {
    backend_frame(b'E', &[0]) // empty field list (null terminator only)
}

fn authentication(code: i32, data: &[u8]) -> Bytes {
    let mut body = BytesMut::new();
    body.put_i32(code);
    body.put_slice(data);
    backend_frame(b'R', &body)
}

fn connect_params() -> ConnectParams {
    ConnectParams {
        user_name: "test".into(),
        password: "test".into(),
        database: "test".into(),
        replication_mode: "database".into(),
    }
}

fn new_core_authenticated() -> Core {
    let mut core = Core::new();
    core.desire_connect(connect_params()).unwrap();
    core.poll_write(); // drain StartupMessage
    core.handle(auth_ok()).unwrap();
    core
}

fn new_core_start_replication() -> Core {
    let mut core = new_core_authenticated();
    core.handle(ready_for_query()).unwrap();
    core.poll_write(); // drain START_REPLICATION Query
    core.poll_event(); // drain Connected
    core
}

fn new_core_streaming() -> Core {
    let mut core = new_core_start_replication();
    core.handle(copy_both_response()).unwrap();
    core.poll_event(); // drain ReplicationStarted
    core
}

#[test]
fn fragmented_frame_no_event_before_complete() {
    let mut core = Core::new();
    core.desire_connect(connect_params()).unwrap();
    core.poll_write(); // drain StartupMessage

    let frame = auth_ok(); // 9 bytes: [R, 0,0,0,8, 0,0,0,0]
    let mid = frame.len() / 2; // split at byte 4
    let first = frame.slice(..mid);
    let second = frame.slice(mid..);

    core.handle(first).unwrap();
    assert!(
        core.poll_event().is_none(),
        "no event before frame is complete"
    );
    assert!(
        core.poll_write().is_none(),
        "no output before frame is complete"
    );

    core.handle(second).unwrap();
    // auth_ok itself emits no event; validate state via RFQ
    core.handle(ready_for_query()).unwrap();
    assert!(
        core.poll_write().is_some(),
        "START_REPLICATION query must be queued after full frame processed"
    );
    assert!(
        matches!(core.poll_event(), Some(CoreEvent::Connected)),
        "Connected event must fire"
    );
}

#[test]
fn multiple_frames_in_one_chunk_processed_in_order() {
    let mut core = Core::new();
    core.desire_connect(connect_params()).unwrap();
    core.poll_write(); // drain StartupMessage

    // Combine auth_ok + ready_for_query into a single Bytes.
    // Processing in order: Authenticated, then StartReplication.
    let mut combined = BytesMut::new();
    combined.put_slice(&auth_ok());
    combined.put_slice(&ready_for_query());

    core.handle(combined.freeze()).unwrap();

    assert!(
        core.poll_write().is_some(),
        "START_REPLICATION query queued means both frames were processed in order"
    );
    assert!(matches!(core.poll_event(), Some(CoreEvent::Connected)));
}

#[test]
fn auth_ok_then_ready_for_query_queues_start_replication() {
    let mut core = Core::new();
    core.desire_connect(connect_params()).unwrap();
    core.poll_write(); // drain StartupMessage

    core.handle(auth_ok()).unwrap();
    assert!(core.poll_event().is_none(), "no event after AuthOk alone");

    core.handle(ready_for_query()).unwrap();

    let write = core.poll_write().expect("expected Query frame");
    assert_eq!(write[0], b'Q', "frontend message must have Query tag");

    let length = u32::from_be_bytes(write[1..5].try_into().unwrap()) as usize;
    assert!(
        length >= 4,
        "length must include the 4-byte length field itself"
    );

    // body = SQL string + nul terminator
    let body = &write[5..5 + length - 4];
    assert_eq!(body.last(), Some(&0u8), "SQL must be nul-terminated");
    let sql = std::str::from_utf8(&body[..body.len() - 1]).unwrap();
    assert!(
        sql.contains("START_REPLICATION"),
        "Query must contain START_REPLICATION; got: {sql}"
    );
    assert_eq!(sql, start_replication(SLOT_NAME));
    assert_eq!(write.len(), 1 + length);

    assert!(
        matches!(core.poll_event(), Some(CoreEvent::Connected)),
        "Connected event must be emitted"
    );
}

#[test]
fn parameter_status_and_backend_key_data_do_not_error() {
    let mut core = new_core_authenticated();

    core.handle(parameter_status("server_version", "16.0"))
        .unwrap();
    core.handle(backend_key_data(1234, 5678)).unwrap();

    assert!(core.poll_event().is_none());

    // State is still Authenticated; ReadyForQuery must still work.
    core.handle(ready_for_query()).unwrap();
    assert!(matches!(core.poll_event(), Some(CoreEvent::Connected)));
}

#[test]
fn copy_both_response_emits_replication_started() {
    let mut core = new_core_start_replication();

    core.handle(copy_both_response()).unwrap();

    assert!(
        matches!(core.poll_event(), Some(CoreEvent::ReplicationStarted)),
        "ReplicationStarted must be emitted"
    );

    // Streaming state: benign no-op messages still accepted without error.
    core.handle(parameter_status("foo", "bar")).unwrap();
}

#[test]
fn error_response_emits_server_error_and_poisons_state() {
    let mut core = Core::new();
    core.desire_connect(connect_params()).unwrap();
    core.poll_write();

    core.handle(error_response()).unwrap();

    assert!(
        matches!(core.poll_event(), Some(CoreEvent::ServerError(_))),
        "ServerError must be emitted"
    );

    // Core is now in Failed state; ReadyForQuery must be rejected.
    let result = core.handle(ready_for_query());
    assert!(
        result.is_err(),
        "messages after ServerError must not succeed silently"
    );
}

#[test]
fn close_sends_copy_done_and_close_flow_completes() {
    let mut core = new_core_streaming();

    core.close().unwrap();

    let write = core.poll_write().expect("expected CopyDone frame");
    assert_eq!(
        &write[..],
        &[b'c', 0, 0, 0, 4],
        "CopyDone must be exactly [c, 0, 0, 0, 4]"
    );

    // Feed CommandComplete + ReadyForQuery to finish the close handshake.
    core.handle(command_complete("START_REPLICATION")).unwrap();
    core.handle(ready_for_query()).unwrap();

    assert!(core.poll_event().is_none(), "no events after clean close");
    assert!(
        core.poll_write().is_none(),
        "no pending output after clean close"
    );
}

#[test]
fn startup_message_is_exact() {
    let mut core = Core::new();
    core.desire_connect(connect_params()).unwrap();
    let write = core.poll_write().expect("expected startup message");
    let mut expected = BytesMut::new();
    expected.put_u32(54);
    expected.put_u32(196608);
    expected.put_slice(b"user\0test\0database\0test\0replication\0database\0\0");
    assert_eq!(expected.len(), 54);
    assert_eq!(write, expected.freeze());
    assert!(core.poll_write().is_none());
}

#[test]
fn connecting_twice_sends_one_startup_message() {
    let mut core = Core::new();
    core.desire_connect(connect_params()).unwrap();
    core.desire_connect(connect_params()).unwrap();
    assert!(core.poll_write().is_some());
    assert!(core.poll_write().is_none());
}

#[test]
fn a_closed_session_can_be_opened_again() {
    let mut core = new_core_streaming();
    core.close().unwrap();
    core.poll_write();
    core.handle(command_complete("COPY 0")).unwrap();
    core.handle(ready_for_query()).unwrap();
    core.desire_connect(connect_params()).unwrap();
    assert!(core.poll_write().is_some());
}

#[test]
fn closing_counts_only_while_streaming() {
    let mut core = Core::new();
    core.close().unwrap();
    assert!(core.poll_write().is_none());

    let mut core = new_core_start_replication();
    core.close().unwrap();
    assert!(core.poll_write().is_none());

    let mut core = new_core_streaming();
    core.close().unwrap();
    core.close().unwrap();
    assert!(core.poll_write().is_some());
    assert!(core.poll_write().is_none());
}

#[test]
fn there_is_no_timeout() {
    assert!(Core::new().poll_timeout().is_none());
}

#[test]
fn byte_by_byte_is_as_good_as_at_once() {
    let mut all = BytesMut::new();
    all.put_slice(&auth_ok());
    all.put_slice(&parameter_status("a", "b"));
    all.put_slice(&ready_for_query());
    all.put_slice(&copy_both_response());
    let all = all.freeze();

    let mut at_once = Core::new();
    at_once.desire_connect(connect_params()).unwrap();
    at_once.handle(all.clone()).unwrap();

    let mut by_byte = Core::new();
    by_byte.desire_connect(connect_params()).unwrap();
    for i in 0..all.len() {
        by_byte.handle(all.slice(i..i + 1)).unwrap();
    }

    for core in [&mut at_once, &mut by_byte] {
        assert!(core.poll_write().is_some());
        assert_eq!(core.poll_write().map(|b| b[0]), Some(b'Q'));
        assert!(core.poll_write().is_none());
        assert!(matches!(core.poll_event(), Some(CoreEvent::Connected)));
        assert!(matches!(core.poll_event(), Some(CoreEvent::ReplicationStarted)));
        assert!(core.poll_event().is_none());
        assert_eq!(core.buffered(), 0);
    }
}

#[test]
fn an_incomplete_frame_is_kept() {
    let mut core = new_core_authenticated();
    core.handle(ready_for_query().slice(..4)).unwrap();
    assert_eq!(core.buffered(), 4);
    assert!(core.poll_event().is_none());
    core.handle(ready_for_query().slice(4..)).unwrap();
    assert_eq!(core.buffered(), 0);
    assert!(matches!(core.poll_event(), Some(CoreEvent::Connected)));
}

#[test]
fn impossible_frame_lengths_are_refused() {
    let mut core = Core::new();
    assert_eq!(
        core.handle(Bytes::from_static(&[b'Z', 0, 0, 0, 3])),
        Err(Error::InvalidFrameLength { length: 3 })
    );
    // The bytes stay, and so does the error.
    assert_eq!(
        core.handle(Bytes::new()),
        Err(Error::InvalidFrameLength { length: 3 })
    );

    let mut core = Core::new();
    assert_eq!(
        core.handle(Bytes::from_static(&[b'Z', 1, 0, 0, 1])),
        Err(Error::FrameTooLarge { length: 0x100_0001 })
    );

    // The largest length that can be is waited for.
    let mut core = Core::new();
    assert_eq!(core.handle(Bytes::from_static(&[b'Z', 1, 0, 0, 0])), Ok(()));
}

#[test]
fn unknown_frames_are_refused_and_dropped() {
    let mut core = new_core_authenticated();
    assert_eq!(
        core.handle(backend_frame(b'?', &[1, 2, 3])),
        Err(Error::UnsupportedBackendMessage { tag: b'?' })
    );
    assert_eq!(core.buffered(), 0);
    core.handle(ready_for_query()).unwrap();
    assert!(matches!(core.poll_event(), Some(CoreEvent::Connected)));
}

#[test]
fn messages_out_of_turn_are_refused() {
    let refused = |state: CoreStatus| Err(Error::IncorrectState { state });

    let mut core = Core::new();
    assert_eq!(core.handle(ready_for_query()), refused(CoreStatus::Disconnected));
    assert_eq!(core.handle(copy_both_response()), refused(CoreStatus::Disconnected));
    assert_eq!(core.handle(command_complete("X")), refused(CoreStatus::Disconnected));
    assert_eq!(core.handle(backend_frame(b'd', b"k")), refused(CoreStatus::Disconnected));
    assert_eq!(core.handle(authentication(11, b"")), refused(CoreStatus::Disconnected));
    assert_eq!(core.handle(authentication(12, b"")), refused(CoreStatus::Disconnected));

    core.desire_connect(connect_params()).unwrap();
    assert_eq!(core.handle(ready_for_query()), refused(CoreStatus::Startup));

    let mut core = new_core_authenticated();
    assert_eq!(core.handle(copy_both_response()), refused(CoreStatus::Authenticated));

    let mut core = new_core_start_replication();
    assert_eq!(core.handle(ready_for_query()), refused(CoreStatus::StartReplication));

    let mut core = new_core_streaming();
    assert_eq!(core.handle(copy_both_response()), refused(CoreStatus::Streaming));
    core.close().unwrap();
    assert_eq!(core.handle(copy_both_response()), refused(CoreStatus::ClosingCopy));

    let mut core = new_core_streaming();
    core.handle(error_response()).unwrap();
    assert_eq!(core.handle(backend_frame(b'd', b"k")), refused(CoreStatus::Failed));
    assert_eq!(core.handle(authentication(12, b"")), refused(CoreStatus::Failed));
}

#[test]
fn frames_behind_a_refused_one_wait() {
    let mut core = new_core_authenticated();
    let mut both = BytesMut::new();
    both.put_slice(&copy_both_response());
    both.put_slice(&ready_for_query());
    assert!(core.handle(both.freeze()).is_err());
    assert_eq!(core.buffered(), ready_for_query().len());
    assert!(core.poll_event().is_none());
    core.handle(Bytes::new()).unwrap();
    assert!(matches!(core.poll_event(), Some(CoreEvent::Connected)));
}

#[test]
fn server_error_keeps_its_fields() {
    let mut core = Core::new();
    core.handle(backend_frame(b'E', b"SFATAL\0\0")).unwrap();
    match core.poll_event() {
        Some(CoreEvent::ServerError(e)) => assert_eq!(&e.fields[..], b"SFATAL\0\0"),
        _ => panic!("expected ServerError"),
    }
}

#[test]
fn replication_stream_is_reported() {
    let mut core = new_core_streaming();

    let mut keepalive = BytesMut::new();
    keepalive.put_u8(b'k');
    keepalive.put_i64(0x0102_0304_0506_0708);
    keepalive.put_i64(-2);
    keepalive.put_u8(1);
    core.handle(backend_frame(b'd', &keepalive)).unwrap();
    match core.poll_event() {
        Some(CoreEvent::KeepAlive(k)) => {
            assert_eq!(k.end_lsn, 0x0102_0304_0506_0708);
            assert_eq!(k.send_time, -2);
            assert_eq!(k.reply_requested, 1);
        }
        _ => panic!("expected KeepAlive"),
    }

    let mut xlog = BytesMut::new();
    xlog.put_u8(b'w');
    xlog.put_i64(1);
    xlog.put_i64(2);
    xlog.put_i64(3);
    xlog.put_u8(b'B');
    xlog.put_i64(4);
    xlog.put_i64(5);
    xlog.put_i32(6);
    core.handle(backend_frame(b'd', &xlog)).unwrap();
    match core.poll_event() {
        Some(CoreEvent::LogicalMessage(LogicalReplicationMessage::Begin(b))) => {
            assert_eq!((b.final_lsn, b.commit_timestamp, b.xid), (4, 5, 6));
        }
        _ => panic!("expected Begin"),
    }

    assert_eq!(
        core.handle(backend_frame(b'd', b"x")),
        Err(Error::UnsupportedReplicationMessage { tag: b'x' })
    );
    assert_eq!(
        core.handle(backend_frame(b'd', b"")),
        Err(Error::UnexpectedEof { need: 1, have: 0 })
    );
    assert!(core.poll_event().is_none());
}

#[test]
fn sasl_without_parameters_is_refused() {
    let mut core = Core::new();
    assert_eq!(
        core.handle(authentication(10, b"SCRAM-SHA-256\0\0")),
        Err(Error::MissingConnectParams)
    );
}

#[test]
fn sasl_without_scram_is_refused() {
    let mut core = Core::new();
    core.desire_connect(connect_params()).unwrap();
    assert_eq!(
        core.handle(authentication(10, b"SCRAM-SHA-256-PLUS\0\0")),
        Err(Error::UnsupportedMechanisms)
    );
}

#[test]
fn sasl_offer_is_answered_with_a_nonce() {
    let mut core = Core::new();
    core.desire_connect(connect_params()).unwrap();
    core.poll_write();
    core.handle(authentication(10, b"SCRAM-SHA-256-PLUS\0SCRAM-SHA-256\0\0")).unwrap();
    let first = core.poll_write().expect("expected SASLInitialResponse");
    assert_eq!(&first[..5], &[b'p', 0, 0, 0, 54]);
    assert_eq!(&first[5..23], b"SCRAM-SHA-256\0\0\0\0\x20");
    assert_eq!(&first[23..31], b"n,,n=,r=");
    assert_eq!(first.len(), 55);
    assert!(core.poll_event().is_none());

    // What is not from the server that knows the nonce is refused.
    assert_eq!(
        core.handle(authentication(11, b"r=other,s=c2FsdA==,i=1")),
        Err(Error::NonceMismatch)
    );
    let nonce = String::from_utf8(first[31..].to_vec()).unwrap();
    let told = format!("r={nonce},s=c2FsdA==,i=1");
    assert_eq!(
        core.handle(authentication(11, told.as_bytes())),
        Err(Error::NonceNotExtended)
    );
    let told = format!("r={nonce}server,s=c2FsdA==,i=1");
    core.handle(authentication(11, told.as_bytes())).unwrap();
    let last = core.poll_write().expect("expected SASLResponse");
    assert_eq!(last[0], b'p');
    let head = format!("c=biws,r={nonce}server,p=");
    assert_eq!(&last[5..5 + head.len()], head.as_bytes());
    assert_eq!(last.len(), 5 + head.len() + 44);
    assert_eq!(
        core.handle(authentication(12, b"v=AAAA")),
        Err(Error::InvalidServerSignature)
    );
    assert_eq!(
        core.handle(ready_for_query()),
        Err(Error::IncorrectState { state: CoreStatus::Authenticating })
    );
}

#[test]
fn scram_login_with_known_values() {
    let mut core = Core::new();
    core.desire_connect(connect_params()).unwrap();
    core.poll_write();
    let client = ScramClient::with_nonce(
        vec![SCRAM_SHA_256_NAME.to_string()],
        "test".to_string(),
        "abcdefghijklmnopqrstuvwx".to_string(),
    );
    core.begin_scram(client).unwrap();
    let first = core.poll_write().expect("expected SASLInitialResponse");
    assert_eq!(
        &first[..],
        b"p\0\0\0\x36SCRAM-SHA-256\0\0\0\0\x20n,,n=,r=abcdefghijklmnopqrstuvwx"
    );

    core.handle(authentication(11, b"r=abcdefghijklmnopqrstuvwxSRV,s=c2FsdA==,i=2")).unwrap();
    let last = core.poll_write().expect("expected SASLResponse");
    let text = "c=biws,r=abcdefghijklmnopqrstuvwxSRV,p=z0KqWscsvkM30HSXcguinJGsZlkbSWzNlZxNgzxeoK0=";
    assert_eq!(&last[..5], &[b'p', 0, 0, 0, 4 + text.len() as u8]);
    assert_eq!(&last[5..], text.as_bytes());

    // Only the right signature logs in.
    assert_eq!(
        core.handle(authentication(12, b"v=AAAA")),
        Err(Error::InvalidServerSignature)
    );
    core.handle(authentication(12, b"v=HXzwUnjJfGHrgQj7hApgqSgFTrqcPqJLMTZDyqZCN8w=")).unwrap();
    assert!(core.poll_event().is_none());
    core.handle(ready_for_query()).unwrap();
    assert!(matches!(core.poll_event(), Some(CoreEvent::Connected)));
}

#[test]
fn what_is_queued_stays_in_order() {
    let mut core = new_core_start_replication();
    core.handle(copy_both_response()).unwrap();
    core.close().unwrap();
    core.handle(command_complete("COPY 0")).unwrap();
    core.handle(error_response()).unwrap();
    assert!(matches!(core.poll_event(), Some(CoreEvent::ReplicationStarted)));
    assert!(matches!(core.poll_event(), Some(CoreEvent::ServerError(_))));
    assert!(core.poll_event().is_none());
    assert_eq!(core.poll_write().map(|b| b[0]), Some(b'c'));
    assert!(core.poll_write().is_none());
}

#[test]
fn a_failed_machine_takes_no_authentication() {
    for message in [
        auth_ok(),
        authentication(10, b"SCRAM-SHA-256\0\0"),
        authentication(11, b"r=a,s=c2FsdA==,i=1"),
        authentication(12, b"v=AAAA"),
    ] {
        let mut core = Core::new();
        core.desire_connect(connect_params()).unwrap();
        core.poll_write();
        core.handle(error_response()).unwrap();
        core.poll_event();

        assert_eq!(
            core.handle(message),
            Err(Error::IncorrectState { state: CoreStatus::Failed })
        );
        assert!(core.poll_write().is_none());
        assert!(core.poll_event().is_none());
        // The machine is still failed.
        assert_eq!(
            core.handle(ready_for_query()),
            Err(Error::IncorrectState { state: CoreStatus::Failed })
        );
        core.handle(parameter_status("a", "b")).unwrap();
        core.handle(backend_key_data(1, 2)).unwrap();
        assert!(core.poll_event().is_none());
    }
}

#[test]
fn an_exchange_can_be_cut_short_by_acceptance() {
    let mut core = Core::new();
    core.desire_connect(connect_params()).unwrap();
    core.handle(authentication(10, b"SCRAM-SHA-256\0\0")).unwrap();
    core.handle(auth_ok()).unwrap();
    core.handle(ready_for_query()).unwrap();
    assert!(matches!(core.poll_event(), Some(CoreEvent::Connected)));
}

#[test]
fn many_payloads_come_to_as_many_events() {
    let mut all = BytesMut::new();
    for i in 0..3i64 {
        let mut keepalive = BytesMut::new();
        keepalive.put_u8(b'k');
        keepalive.put_i64(i);
        keepalive.put_i64(0);
        keepalive.put_u8(0);
        all.put_slice(&backend_frame(b'd', &keepalive));
        let mut xlog = BytesMut::new();
        xlog.put_u8(b'w');
        xlog.put_slice(&[0; 24]);
        xlog.put_u8(b'E');
        all.put_slice(&backend_frame(b'd', &xlog));
    }
    let all = all.freeze();

    let mut core = new_core_streaming();
    core.handle(all.clone()).unwrap();
    for i in 0..3i64 {
        match core.poll_event() {
            Some(CoreEvent::KeepAlive(k)) => assert_eq!(k.end_lsn, i),
            _ => panic!("expected KeepAlive"),
        }
        assert!(matches!(
            core.poll_event(),
            Some(CoreEvent::LogicalMessage(LogicalReplicationMessage::StreamStop(_)))
        ));
    }
    assert!(core.poll_event().is_none());
    assert!(core.poll_write().is_none());
    assert_eq!(core.buffered(), 0);

    let mut core = new_core_start_replication();
    let first = 5 + 18;
    assert_eq!(
        core.handle(all.clone()),
        Err(Error::IncorrectState { state: CoreStatus::StartReplication })
    );
    assert_eq!(core.buffered(), all.len() - first);
    assert!(core.poll_event().is_none());
    assert!(core.poll_write().is_none());
}
