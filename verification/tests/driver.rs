use bytes::{BufMut, Bytes, BytesMut};

use pg_replication::{
    ClientCommand, ConnectParams, Core, CoreEvent, CoreStatus, DriverState, Error, NextEvent,
    Outcome, WriteAction,
};

fn frame(tag: u8, body: &[u8]) -> Bytes {
    let mut buf = BytesMut::new();
    buf.put_u8(tag);
    buf.put_u32((4 + body.len()) as u32);
    buf.put_slice(body);
    buf.freeze()
}

fn connecting() -> Core {
    let mut core = Core::new();
    core.desire_connect(ConnectParams {
        user_name: "u".into(),
        password: "p".into(),
        database: "d".into(),
        replication_mode: "database".into(),
    })
    .unwrap();
    core
}

fn streaming() -> Core {
    let mut core = connecting();
    core.poll_write();
    core.handle(frame(b'R', &[0, 0, 0, 0])).unwrap();
    core.handle(frame(b'Z', b"I")).unwrap();
    core.handle(frame(b'W', &[0, 0, 0, 0])).unwrap();
    core.poll_write();
    core.poll_event();
    core.poll_event();
    core
}

/// Writes all that there is, at most `step` bytes at a time.
fn drain(driver: &mut DriverState, step: usize) -> Vec<Vec<u8>> {
    let mut messages = Vec::new();
    let mut current: Vec<u8> = Vec::new();
    loop {
        match driver.next_write() {
            WriteAction::Idle => return messages,
            WriteAction::Write => {
                let rest = driver.unwritten();
                let n = step.min(rest.len());
                current.extend_from_slice(&rest[..n]);
                driver.on_written(n).unwrap();
            }
            WriteAction::Flush => {
                assert!(driver.unwritten().is_empty());
                driver.on_flushed();
                messages.push(std::mem::take(&mut current));
            }
        }
    }
}

#[test]
fn output_is_written_piece_by_piece() {
    let expected = connecting().poll_write().unwrap().to_vec();
    for step in [1, 7, 1000] {
        let mut driver = DriverState::new(connecting());
        assert_eq!(drain(&mut driver, step), vec![expected.clone()]);
    }
}

#[test]
fn there_may_be_no_output() {
    let mut driver = DriverState::new(Core::new());
    assert!(matches!(driver.next_write(), WriteAction::Idle));
    assert!(driver.unwritten().is_empty());
}

#[test]
fn a_write_of_nothing_is_an_error() {
    let mut driver = DriverState::new(connecting());
    assert!(matches!(driver.next_write(), WriteAction::Write));
    assert_eq!(driver.on_written(0), Err(Error::WriteZero));
    assert_eq!(driver.send_offset(), 0);
    driver.on_written(1).unwrap();
    assert_eq!(driver.send_offset(), 1);
}

#[test]
fn commands_are_carried_out() {
    let mut driver = DriverState::new(streaming());
    assert_eq!(driver.drive_commands(), Ok(false));
    driver.enqueue_command(ClientCommand::Close);
    driver.enqueue_command(ClientCommand::Close);
    assert_eq!(driver.drive_commands(), Ok(true));
    assert_eq!(driver.drive_commands(), Ok(false));
    assert_eq!(drain(&mut driver, 2), vec![vec![b'c', 0, 0, 0, 4]]);
}

#[test]
fn bytes_read_reach_the_core_when_reading_blocks() {
    let mut driver = DriverState::new(connecting());
    let room = driver.room();
    let bytes = frame(b'R', &[0, 0, 0, 0]);
    driver.on_read(&bytes[..3]);
    driver.on_read(&bytes[3..]);
    driver.on_read(&frame(b'Z', b"I"));
    assert_eq!(driver.room(), room - bytes.len() - 6);
    assert!(!driver.drive_events());
    assert_eq!(driver.on_read_blocked(false), Ok(false));
    assert!(!driver.drive_events());
    assert_eq!(driver.on_read_blocked(true), Ok(true));
    assert_eq!(driver.room(), room);
    assert!(matches!(driver.next_event(), NextEvent::Pending));
    assert!(driver.drive_events());
    assert!(!driver.drive_events());
    assert!(matches!(driver.next_event(), NextEvent::Event(CoreEvent::Connected)));
    assert!(matches!(driver.next_event(), NextEvent::Pending));
    assert_eq!(drain(&mut driver, 1000).len(), 2);
}

#[test]
fn what_the_core_refuses_is_an_error() {
    let mut driver = DriverState::new(connecting());
    driver.on_read(&frame(b'Z', b"I"));
    assert_eq!(
        driver.on_read_blocked(true),
        Err(Error::IncorrectState { state: CoreStatus::Startup })
    );
}

#[test]
fn events_come_before_the_end() {
    let mut driver = DriverState::new(Core::new());
    driver.on_read(&frame(b'E', &[0]));
    driver.on_read_blocked(true).unwrap();
    driver.on_end_of_stream();
    assert!(driver.drive_events());
    assert!(matches!(driver.next_event(), NextEvent::Event(CoreEvent::ServerError(_))));
    assert!(matches!(driver.next_event(), NextEvent::Closed));
}

#[test]
fn bytes_read_at_the_end_are_dropped() {
    let mut driver = DriverState::new(Core::new());
    driver.on_read(&frame(b'E', &[0]));
    driver.on_end_of_stream();
    assert!(!driver.drive_events());
    assert!(matches!(driver.next_event(), NextEvent::Closed));
}

#[test]
fn turns_end_as_they_should() {
    let mut driver = DriverState::new(Core::new());
    let turn = driver.turn(true, false);
    assert!(matches!(turn.outcome, Outcome::Again) && !turn.wake_reader);
    let turn = driver.turn(true, true);
    assert!(matches!(turn.outcome, Outcome::Again) && turn.wake_reader);
    let turn = driver.turn(false, false);
    assert!(matches!(turn.outcome, Outcome::Park) && !turn.wake_reader);
    driver.on_end_of_stream();
    let turn = driver.turn(true, false);
    assert!(matches!(turn.outcome, Outcome::Finished) && turn.wake_reader);
}

#[test]
fn a_read_of_nothing_is_the_end() {
    let mut driver = DriverState::new(Core::new());
    assert!(driver.on_read_ready(&frame(b'E', &[0])));
    assert_eq!(driver.on_read_blocked(true), Ok(true));
    assert!(driver.drive_events());
    assert!(matches!(driver.turn(true, true).outcome, Outcome::Again));
    assert!(!driver.on_read_ready(&[]));
    assert!(matches!(driver.turn(true, false).outcome, Outcome::Finished));
    assert!(matches!(driver.next_event(), NextEvent::Event(CoreEvent::ServerError(_))));
    assert!(matches!(driver.next_event(), NextEvent::Closed));
}

#[test]
fn a_message_is_fetched_after_the_flush_of_the_last() {
    let mut core = connecting();
    core.handle(frame(b'R', &[0, 0, 0, 0])).unwrap();
    core.handle(frame(b'Z', b"I")).unwrap();
    let mut driver = DriverState::new(core);
    assert!(matches!(driver.next_write(), WriteAction::Write));
    let n = driver.unwritten().len();
    driver.on_written(n).unwrap();
    // The flush is not answered yet.
    assert!(matches!(driver.next_write(), WriteAction::Flush));
    assert!(matches!(driver.next_write(), WriteAction::Flush));
    driver.on_flushed();
    assert!(matches!(driver.next_write(), WriteAction::Write));
    assert_eq!(driver.unwritten()[0], b'Q');
}
