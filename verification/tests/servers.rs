use punpun::chat::{self, Server, Step, FIRST_CLIENT, MAX_CLIENTS};
use punpun::connection::{Connection, RECV_CAPACITY};
use punpun::events::{EventSet, PollOpt, Registration};
use punpun::result::IoFailureKind;
use punpun::handshake::{socket_key, ClientState, MyHandler, Ready, SERVER};

const REQUEST: &[u8] = b"GET /chat HTTP/1.1\r\nHost: 127.0.0.1:10001\r\nUpgrade: websocket\r\nConnection: Upgrade\r\nSec-WebSocket-Key: dGhlIHNhbXBsZSBub25jZQ==\r\nSec-WebSocket-Version: 13\r\n\r\n";

fn eo() -> PollOpt {
    PollOpt::edge_oneshot()
}

#[test]
fn handshake_server_walks_a_client_through_the_handshake() {
    let mut h = MyHandler::new();
    assert_eq!(h.ready(SERVER, EventSet::readable()), Ready::Accept);
    let reg = h.accept();
    assert_eq!(reg, Registration { token: 1, interest: EventSet::readable(), opts: eo() });
    let reg2 = h.accept();
    assert_eq!(reg2.token, 2);
    assert_eq!(h.ready(1, EventSet::readable()), Ready::ReadHandshake);
    let reg = h.read_handshake(1, REQUEST);
    assert_eq!(reg, Registration { token: 1, interest: EventSet::writable(), opts: eo() });
    let c = h.client(1).unwrap();
    assert_eq!(c.state, ClientState::HandshakeResponse);
    assert_eq!(c.header.uri, "/chat");
    assert_eq!(socket_key(&c.header), Some(&"dGhlIHNhbXBsZSBub25jZQ==".to_string()));
    assert_eq!(h.ready(1, EventSet::writable()), Ready::WriteHandshake);
    let (resp, reg) = h.write_handshake(1);
    assert!(resp.contains("Sec-WebSocket-Accept: s3pPLMBiTxaQ9kYGzzhZRbK+xOo=\r\n"));
    assert!(resp.starts_with("HTTP/1.1 101 Switching Protocols\r\n"));
    assert_eq!(reg, Registration { token: 1, interest: EventSet::readable(), opts: eo() });
    assert_eq!(h.client(1).unwrap().state, ClientState::Connected);
    assert_eq!(h.ready(1, EventSet::readable()), Ready::ReadFrame);
    // the other client is untouched
    assert_eq!(h.client(2).unwrap().state, ClientState::AwaitingHandshake);
    assert!(h.client(3).is_none());
}

#[test]
fn connection_queue_and_interest() {
    let mut c = Connection::new(7);
    assert_eq!(c.token(), 7);
    assert_eq!(c.interest(), EventSet::hup());
    let err = c.writable().unwrap_err();
    assert_eq!(err.kind, IoFailureKind::Other);
    assert_eq!(err.message, "Could not pop send queue");
    let reg = c.register();
    assert_eq!(reg.interest, EventSet { readable: true, writable: false, error: false, hup: true });
    c.send_message(b"one".to_vec()).unwrap();
    c.send_message(b"two".to_vec()).unwrap();
    assert!(c.interest().is_writable());
    // last in, first out
    let b = c.writable().unwrap();
    assert_eq!(b, b"two");
    c.write_done(b, Ok(None)).unwrap();
    let b = c.writable().unwrap();
    assert_eq!(b, b"two");
    c.write_done(b, Ok(Some(3))).unwrap();
    assert!(c.interest().is_writable());
    let b = c.writable().unwrap();
    assert_eq!(b, b"one");
    let e = c.write_done(b, Err(std::io::Error::new(std::io::ErrorKind::BrokenPipe, "gone")));
    assert_eq!(e.unwrap_err().kind(), std::io::ErrorKind::BrokenPipe);
    assert!(c.interest().is_writable());
    c.send_message(b"three".to_vec()).unwrap();
    let b = c.writable().unwrap();
    c.write_done(b, Ok(Some(5))).unwrap();
    assert!(!c.interest().is_writable());
    assert!(c.interest().is_readable());
    assert_eq!(c.reregister().interest, c.interest());
}

#[test]
fn readable_reads_again_only_after_a_full_buffer() {
    let mut received = Vec::new();
    assert!(!Connection::readable(&mut received, Some(b"hello")));
    assert_eq!(received, b"hello");
    assert!(!Connection::readable(&mut received, None));
    let mut big = Vec::new();
    let full = vec![1u8; RECV_CAPACITY];
    assert!(Connection::readable(&mut big, Some(&full)));
    assert!(!Connection::readable(&mut big, Some(b"")));
    assert_eq!(big.len(), RECV_CAPACITY);
}

#[test]
fn chat_server_accepts_until_full() {
    let mut s = Server::new();
    assert_eq!(s.register(), Registration { token: chat::SERVER, interest: EventSet::readable(), opts: eo() });
    let mut tokens = Vec::new();
    for _ in 0..MAX_CLIENTS {
        let reg = s.accept().unwrap();
        assert_eq!(reg.interest, EventSet::readable());
        assert!(reg.token >= FIRST_CLIENT && reg.token < FIRST_CLIENT + MAX_CLIENTS);
        assert!(!tokens.contains(&reg.token));
        tokens.push(reg.token);
    }
    assert!(s.accept().is_none());
    assert!(!s.reset_connection(tokens[10]));
    assert!(!s.contains(tokens[10]));
    let again = s.accept().unwrap();
    assert_eq!(again.token, tokens[10]);
    assert!(s.reset_connection(chat::SERVER));
    assert!(s.contains(again.token));
}

#[test]
fn chat_server_reset_outside_the_client_range_changes_nothing() {
    let mut s = Server::new();
    let a = s.accept().unwrap().token;
    assert!(!s.reset_connection(0));
    assert!(!s.reset_connection(FIRST_CLIENT + MAX_CLIENTS + 5));
    assert!(s.contains(a));
    assert!(!s.contains(0));
    assert!(!s.contains(usize::MAX));
    assert!(!s.reset_connection(a));
    assert!(!s.contains(a));
    assert_eq!(s.accept().unwrap().token, a);
}

#[test]
fn chat_server_broadcasts_each_message() {
    let mut s = Server::new();
    let a = s.accept().unwrap().token;
    let b = s.accept().unwrap().token;
    assert_eq!((a, b), (2, 3));
    assert_eq!(s.ready(chat::SERVER, EventSet::readable()), vec![Step::Accept]);
    assert_eq!(s.ready(a, EventSet::readable()), vec![Step::Read]);
    let both = EventSet { readable: true, writable: true, error: false, hup: false };
    assert_eq!(s.ready(a, both), vec![Step::Read, Step::Write]);
    assert_eq!(s.ready(a, EventSet::hup()), vec![]);
    let (first, regs) = s.read(a, 0, b"");
    assert!(first.is_none());
    assert_eq!(regs.len(), 2);
    let (first, regs) = s.read(a, 4, b"pipo");
    let w = EventSet { readable: true, writable: true, error: false, hup: false };
    assert_eq!(first, Some(Registration { token: a, interest: w, opts: eo() }));
    assert_eq!(regs, vec![
        Registration { token: a, interest: w, opts: eo() },
        Registration { token: b, interest: w, opts: eo() },
    ]);
    // each client has both messages; the newest goes out first
    let m = s.write(b).unwrap();
    assert_eq!(m, b"pipo");
    s.write_done(b, m, Ok(4)).unwrap();
    let m = s.write(b).unwrap();
    assert_eq!(m, b"");
    s.write_done(b, m, Ok(0)).unwrap();
    let m = s.write(b).unwrap();
    assert_eq!(m, b"");
    s.write_done(b, m, Ok(1)).unwrap();
    let err = s.write(b).unwrap_err();
    assert_eq!((err.kind, err.message.as_str()), (IoFailureKind::Other, "Could not pop send queue"));
    let m = s.write(a).unwrap();
    assert_eq!(m, b"pipo");
}
