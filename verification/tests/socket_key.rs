use punpun::handshake::{handshake_response, switching_protocols};
use punpun::socket_key::gen_key;

#[test]
fn accept_key_of_the_protocol_example() {
    assert_eq!(gen_key(&"dGhlIHNhbXBsZSBub25jZQ==".to_string()), "s3pPLMBiTxaQ9kYGzzhZRbK+xOo=");
}

#[test]
fn accept_key_of_the_browser_handshake() {
    let k = gen_key(&"xr6Vrz9ltdC+EFfKPRQ4Bw==".to_string());
    assert_eq!(k.len(), 28);
    assert!(k.ends_with('='));
    assert!(!k[..27].contains('='));
    assert_ne!(k, "xr6Vrz9ltdC+EFfKPRQ4Bw==");
}

#[test]
fn handshake_answer() {
    assert_eq!(
        handshake_response(&"dGhlIHNhbXBsZSBub25jZQ==".to_string()),
        "HTTP/1.1 101 Switching Protocols\r\nUpgrade: websocket\r\nConnection: Upgrade\r\nSec-WebSocket-Accept: s3pPLMBiTxaQ9kYGzzhZRbK+xOo=\r\nSec-WebSocket-Version: 13\r\n\r\n"
    );
    assert_eq!(
        switching_protocols("abc"),
        "HTTP/1.1 101 Switching Protocols\r\nUpgrade: websocket\r\nConnection: Upgrade\r\nSec-WebSocket-Accept: abc\r\nSec-WebSocket-Version: 13\r\n\r\n"
    );
}
