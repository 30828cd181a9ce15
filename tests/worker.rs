use wsserver::coordinator::{Command, Conn};
use wsserver::packet::Packet;
use wsserver::worker::{Event, Phase, Worker};

#[test]
fn worker_commands_in_order() {
    let conn = Conn { id: 5, ip: 42 };
    let mut worker = Worker::new(conn);
    assert!(matches!(worker.on_event(Event::Start), Some(Command::Connect(c)) if c == conn));
    match worker.on_event(Event::Upgraded("dGhlIHNhbXBsZSBub25jZQ==".to_owned())) {
        Some(Command::Handshake(c, token)) => {
            assert_eq!(c, conn);
            assert_eq!(token, "s3pPLMBiTxaQ9kYGzzhZRbK+xOo=");
        }
        other => panic!("expected a handshake, got {other:?}"),
    }
    match worker.on_event(Event::Received(Packet::Text("hi".to_owned()))) {
        Some(Command::Echo(c, text)) => {
            assert_eq!(c, conn);
            assert_eq!(text, "hi");
        }
        other => panic!("expected an echo, got {other:?}"),
    }
    assert_eq!(worker.phase, Phase::Open);
    match worker.on_event(Event::Received(Packet::Close(1001, None))) {
        Some(Command::Close(c, code, reason)) => {
            assert_eq!((c, code, reason), (conn, 1001, None));
        }
        other => panic!("expected a close, got {other:?}"),
    }
    assert_eq!(worker.phase, Phase::Closed);
    assert!(worker.on_event(Event::Received(Packet::Text("late".to_owned()))).is_none());
}

#[test]
fn worker_refuses_message_before_handshake() {
    let mut worker = Worker::new(Conn { id: 1, ip: 1 });
    assert!(worker.on_event(Event::Start).is_some());
    assert!(worker.on_event(Event::Received(Packet::Text("early".to_owned()))).is_none());
    assert_eq!(worker.phase, Phase::Closed);
}

#[test]
fn worker_failure_ends_connection() {
    let mut worker = Worker::new(Conn { id: 1, ip: 1 });
    worker.on_event(Event::Start);
    assert!(worker.on_event(Event::Failed).is_none());
    assert_eq!(worker.phase, Phase::Closed);
}
