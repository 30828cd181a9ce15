use wsserver::coordinator::{close_frame_payload, Command, Conn, Coordinator};

const IP: u128 = 0xffff_7f00_0001;

#[test]
fn duplicate_ip_connect_is_shut_down() {
    let mut coordinator = Coordinator::new();
    let first = Conn { id: 1, ip: IP };
    let second = Conn { id: 2, ip: IP };
    let a = coordinator.step(Command::Connect(first));
    assert_eq!((a.conn, a.bytes.len(), a.shutdown), (1, 0, false));
    assert_eq!(coordinator.registered(IP), Some(1));
    let b = coordinator.step(Command::Connect(second));
    assert_eq!((b.conn, b.bytes.len(), b.shutdown), (2, 0, true));
    assert_eq!(coordinator.registered(IP), Some(1));
    let c = coordinator.step(Command::Close(second, 1000, None));
    assert!(c.shutdown);
    assert_eq!(coordinator.registered(IP), Some(1));
}

#[test]
fn distinct_addresses_both_registered() {
    let mut coordinator = Coordinator::new();
    coordinator.step(Command::Connect(Conn { id: 1, ip: IP }));
    let b = coordinator.step(Command::Connect(Conn { id: 2, ip: IP + 1 }));
    assert!(!b.shutdown);
    assert_eq!(coordinator.registered(IP), Some(1));
    assert_eq!(coordinator.registered(IP + 1), Some(2));
}

#[test]
fn close_writes_frame_and_unregisters() {
    let mut coordinator = Coordinator::new();
    let conn = Conn { id: 7, ip: IP };
    coordinator.step(Command::Connect(conn));
    let a = coordinator.step(Command::Close(conn, 1000, Some("bye".to_owned())));
    assert_eq!(a.conn, 7);
    assert_eq!(a.bytes, vec![136, 5, 3, 232, 98, 121, 101]);
    assert!(a.shutdown);
    assert_eq!(coordinator.registered(IP), None);
    let again = coordinator.step(Command::Connect(Conn { id: 8, ip: IP }));
    assert!(!again.shutdown);
    assert_eq!(coordinator.registered(IP), Some(8));
}

#[test]
fn echo_writes_unmasked_text_frame() {
    let mut coordinator = Coordinator::new();
    let conn = Conn { id: 3, ip: IP };
    let a = coordinator.step(Command::Echo(conn, "Hello!".to_owned()));
    assert_eq!(a.bytes, vec![129, 6, 72, 101, 108, 108, 111, 33]);
    assert!(!a.shutdown);
    assert_eq!(coordinator.registered(IP), None);
}

#[test]
fn handshake_writes_switching_protocols() {
    let mut coordinator = Coordinator::new();
    let conn = Conn { id: 4, ip: IP };
    let a = coordinator.step(Command::Handshake(conn, "s3pPLMBiTxaQ9kYGzzhZRbK+xOo=".to_owned()));
    assert_eq!(
        String::from_utf8(a.bytes).unwrap(),
        "HTTP/1.1 101 Switching Protocols\r\nUpgrade: websocket\r\nConnection: Upgrade\r\nSec-WebSocket-Accept: s3pPLMBiTxaQ9kYGzzhZRbK+xOo=\r\n\r\n",
    );
    assert!(!a.shutdown);
}

#[test]
fn close_payload_layout() {
    assert_eq!(close_frame_payload(1001, None), vec![3, 233]);
    assert_eq!(close_frame_payload(258, Some("é".to_owned())), vec![1, 2, 0xC3, 0xA9]);
}
