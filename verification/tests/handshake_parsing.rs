use punpun::parser::{parsable, Fields, Header, Parser};
use punpun::text::{split, trim, remove_colons};

const REQUEST: &[u8] = b"GET / HTTP/1.1\r\nHost: 127.0.0.1:8003\r\nConnection: Upgrade\r\nPragma: no-cache\r\nCache-Control: no-cache\r\nUpgrade: websocket\r\nOrigin: http://localhost:3000\r\nSec-WebSocket-Version: 13\r\nUser-Agent: Mozilla/5.0 (Macintosh; Intel Mac OS X 10_10_5) AppleWebKit/537.36 (KHTML, like Gecko) Chrome/44.0.2403.130 Safari/537.36\r\nAccept-Encoding: gzip, deflate, sdch\r\nAccept-Language: en-US,en;q=0.8,it;q=0.6\r\nSec-WebSocket-Key: xr6Vrz9ltdC+EFfKPRQ4Bw==\r\nSec-WebSocket-Extensions: permessage-deflate; client_max_window_bits\r\n\r\n";

fn field(h: &Header, name: &str) -> Option<String> {
    h.fields.get(&name.to_string()).cloned()
}

#[test]
fn test_macro() {
    let b = b"GET / HTTP/1.1\r\nHost: 127.0.0.1:8003";
    let mut h = Header::new();
    Parser::new().parser(b, &mut h);
    assert_eq!(h.method, "Get");
    assert_eq!(h.uri, "/");
    assert_eq!(h.http_version, "1.1");
    assert_eq!(field(&h, "Host"), Some("127.0.0.1:8003".to_string()));
}

#[test]
fn parses_a_browser_handshake() {
    let mut h = Header::new();
    Parser::new().parser(REQUEST, &mut h);
    assert_eq!(h.uri, "/");
    assert_eq!(field(&h, "Host"), Some("127.0.0.1:8003".to_string()));
    assert_eq!(field(&h, "Connection"), Some("Upgrade".to_string()));
    assert_eq!(field(&h, "Upgrade"), Some("websocket".to_string()));
    assert_eq!(field(&h, "Sec-WebSocket-Version"), Some("13".to_string()));
    assert_eq!(field(&h, "Sec-WebSocket-Key"), Some("xr6Vrz9ltdC+EFfKPRQ4Bw==".to_string()));
    // only the first word after the name is kept
    assert_eq!(field(&h, "User-Agent"), Some("Mozilla/5.0".to_string()));
    assert_eq!(field(&h, "Accept-Encoding"), Some("gzip,".to_string()));
    // the blank line and the end of the buffer give an empty name
    assert_eq!(field(&h, ""), Some("".to_string()));
    assert_eq!(field(&h, "Sec-WebSocket-Accept"), None);
}

#[test]
fn parses_a_zero_padded_buffer() {
    let mut buf = [0u8; 1024];
    buf[..REQUEST.len()].copy_from_slice(REQUEST);
    let mut h = Header::new();
    Parser::new().parser(&buf, &mut h);
    assert_eq!(h.uri, "/");
    assert_eq!(field(&h, "Sec-WebSocket-Key"), Some("xr6Vrz9ltdC+EFfKPRQ4Bw==".to_string()));
    let padding: String = std::iter::repeat('\0').take(1024 - REQUEST.len()).collect();
    assert_eq!(field(&h, &padding), Some("".to_string()));
}

#[test]
fn later_field_lines_win_and_fields_accumulate() {
    let mut h = Header::new();
    Parser::new().parser(b"GET /chat HTTP/1.1\r\nX: one\r\nX: two\r\n", &mut h);
    assert_eq!(h.uri, "/chat");
    assert_eq!(field(&h, "X"), Some("two".to_string()));
    Parser::new().parser(b"GET /room HTTP/1.1\r\nY: three", &mut h);
    assert_eq!(h.uri, "/room");
    assert_eq!(field(&h, "X"), Some("two".to_string()));
    assert_eq!(field(&h, "Y"), Some("three".to_string()));
}

#[test]
fn field_names_lose_colons_after_trimming() {
    let mut h = Header::new();
    Parser::new().parser(b"GET / HTTP/1.1\nA:b:\t c\nname-only\n\t:x", &mut h);
    assert_eq!(field(&h, "Ab"), Some("c".to_string()));
    assert_eq!(field(&h, "name-only"), Some("".to_string()));
    assert_eq!(field(&h, "x"), Some("".to_string()));
}

#[test]
fn fields_map_insert_and_get() {
    let mut f = Fields::new();
    assert_eq!(f.get(&"k".to_string()), None);
    f.insert("k".to_string(), "v1".to_string());
    f.insert("j".to_string(), "w".to_string());
    f.insert("k".to_string(), "v2".to_string());
    assert_eq!(f.get(&"k".to_string()), Some(&"v2".to_string()));
    assert_eq!(f.get(&"j".to_string()), Some(&"w".to_string()));
}

#[test]
fn split_keeps_empty_pieces() {
    let p = split(b"a  b", b' ');
    assert_eq!(p, vec![&b"a"[..], &b""[..], &b"b"[..]]);
    assert_eq!(split(b"", b' '), vec![&b""[..]]);
    assert_eq!(split(b" ", b' '), vec![&b""[..], &b""[..]]);
}

#[test]
fn trim_removes_unicode_white_space() {
    let s: Vec<char> = "\u{a0}\t hi there\r\n\u{3000}".chars().collect();
    assert_eq!(trim(&s).into_iter().collect::<String>(), "hi there");
    let t: Vec<char> = "  ".chars().collect();
    assert!(trim(&t).is_empty());
    let u: Vec<char> = "a:b::c".chars().collect();
    assert_eq!(remove_colons(&u).into_iter().collect::<String>(), "abc");
}

#[test]
fn parsable_requests() {
    assert!(parsable(REQUEST));
    assert!(parsable(b"GET / HTTP/1.1\r\nHost: 127.0.0.1:8003"));
    // the request line needs a second word
    assert!(!parsable(b"GET"));
    assert!(!parsable(b""));
    // the URI and the words of the fields are UTF-8
    assert!(!parsable(b"GET /\xff HTTP/1.1"));
    assert!(!parsable(b"GET / HTTP/1.1\n\xc3 value"));
    assert!(!parsable(b"GET / HTTP/1.1\nname \xe2\x82"));
    // bytes past the second word are never decoded
    assert!(parsable(b"GET / \xff\nname value \xff"));
    let mut h = Header::new();
    Parser::new().parser(b"GET /caf\xc3\xa9 x\nK\xc3\xa9y: v", &mut h);
    assert_eq!(h.uri, "/caf\u{e9}");
    assert_eq!(h.fields.get(&"K\u{e9}y".to_string()), Some(&"v".to_string()));
}

#[test]
fn parsing_twice_is_parsing_once() {
    let body = b"GET /x HTTP/1.1\r\nA: 1\r\nB: 2\r\nA: 3\r\n";
    let mut once = Header::new();
    Parser::new().parser(body, &mut once);
    let mut twice = Header::new();
    Parser::new().parser(body, &mut twice);
    Parser::new().parser(body, &mut twice);
    for name in ["A", "B", ""] {
        assert_eq!(field(&once, name), field(&twice, name));
    }
    assert_eq!(field(&twice, "A"), Some("3".to_string()));
    assert_eq!((once.uri, once.method, once.http_version), (twice.uri, twice.method, twice.http_version));
}
