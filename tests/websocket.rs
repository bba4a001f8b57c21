use simple_websocket::frame::{
    decode_frame, encode_frame, header_len, mask_payload, payload_len,
};
use simple_websocket::handshake::{accept_token, negotiate, read_header, trim_bytes};
use simple_websocket::{ErrorClass, WebSocket, WsError};

fn lines(ls: &[&str]) -> Vec<Vec<u8>> {
    ls.iter().map(|l| l.as_bytes().to_vec()).collect()
}

fn client_frame(payload: &[u8], key: [u8; 4]) -> Vec<u8> {
    let mut f = vec![129u8];
    let n = payload.len();
    if n <= 125 {
        f.push(128 | n as u8);
    } else {
        f.push(128 | 126);
        f.push((n >> 8) as u8);
        f.push((n & 0xff) as u8);
    }
    f.extend_from_slice(&key);
    for (i, b) in payload.iter().enumerate() {
        f.push(b ^ key[i % 4]);
    }
    f
}

fn open_session() -> WebSocket {
    let req = lines(&[
        "GET /chat HTTP/1.1\r\n",
        "Host: server.example.com\r\n",
        "Sec-WebSocket-Key: dGhlIHNhbXBsZSBub25jZQ==\r\n",
        "\r\n",
    ]);
    let mut ws = WebSocket::new(&req).unwrap();
    ws.take_output();
    ws
}

#[test]
fn accept_token_fixture() {
    let tok = accept_token(b"dGhlIHNhbXBsZSBub25jZQ==");
    assert_eq!(String::from_utf8(tok).unwrap(), "s3pPLMBiTxaQ9kYGzzhZRbK+xOo=");
}

#[test]
fn handshake_writes_upgrade_response() {
    let req = lines(&[
        "GET /chat HTTP/1.1\r\n",
        "Host: server.example.com\r\n",
        "Upgrade: websocket\r\n",
        "Sec-WebSocket-Key: dGhlIHNhbXBsZSBub25jZQ==\r\n",
        "\r\n",
    ]);
    let mut ws = WebSocket::new(&req).unwrap();
    assert!(ws.is_open());
    let out = String::from_utf8(ws.take_output()).unwrap();
    assert_eq!(
        out,
        "HTTP/1.1 101 Switching Protocols\r\nUpgrade: websocket\r\nConnection: Upgrade\r\nSec-WebSocket-Accept: s3pPLMBiTxaQ9kYGzzhZRbK+xOo=\r\n\r\n"
    );
    assert!(ws.take_output().is_empty());
}

#[test]
fn handshake_without_key_fails() {
    let req = lines(&["GET / HTTP/1.1\r\n", "Host: a\r\n", "\r\n"]);
    let r = WebSocket::new(&req);
    assert!(matches!(r, Err(WsError::MissingChallenge)));
    assert_eq!(WsError::MissingChallenge.class(), ErrorClass::ProtocolViolation);
    assert_eq!(negotiate(&req), Err(WsError::MissingChallenge));
}

#[test]
fn handshake_on_empty_request_fails() {
    assert_eq!(negotiate(&Vec::new()), Err(WsError::MissingChallenge));
}

#[test]
fn request_line_is_not_a_header() {
    let req = lines(&["Sec-WebSocket-Key: abc\r\n", "\r\n"]);
    assert_eq!(negotiate(&req), Err(WsError::MissingChallenge));
}

#[test]
fn malformed_line_stops_header_parsing() {
    let req = lines(&[
        "GET / HTTP/1.1\r\n",
        "Host: a\r\n",
        "garbage line\r\n",
        "Sec-WebSocket-Key: dGhlIHNhbXBsZSBub25jZQ==\r\n",
    ]);
    assert_eq!(negotiate(&req), Err(WsError::MissingChallenge));
    let req = lines(&[
        "GET / HTTP/1.1\r\n",
        "Sec-WebSocket-Key: dGhlIHNhbXBsZSBub25jZQ==\r\n",
        "garbage line\r\n",
        "Sec-WebSocket-Key: other\r\n",
    ]);
    let resp = String::from_utf8(negotiate(&req).unwrap()).unwrap();
    assert!(resp.contains("Sec-WebSocket-Accept: s3pPLMBiTxaQ9kYGzzhZRbK+xOo=\r\n"));
}

#[test]
fn duplicate_header_last_wins() {
    let req = lines(&[
        "GET / HTTP/1.1\r\n",
        "Sec-WebSocket-Key: first\r\n",
        "Sec-WebSocket-Key: dGhlIHNhbXBsZSBub25jZQ==\r\n",
        "\r\n",
    ]);
    let resp = String::from_utf8(negotiate(&req).unwrap()).unwrap();
    assert!(resp.ends_with("Sec-WebSocket-Accept: s3pPLMBiTxaQ9kYGzzhZRbK+xOo=\r\n\r\n"));
}

#[test]
fn header_names_are_case_sensitive() {
    let req = lines(&["GET / HTTP/1.1\r\n", "sec-websocket-key: dGhl\r\n", "\r\n"]);
    assert_eq!(negotiate(&req), Err(WsError::MissingChallenge));
}

#[test]
fn header_line_parsing() {
    let h = read_header(b"  Host :  example.com \r\n").unwrap();
    assert_eq!(h.name, b"Host".to_vec());
    assert_eq!(h.value, b"example.com".to_vec());
    let h = read_header(b"Host: localhost:9000\r\n").unwrap();
    assert_eq!(h.value, b"localhost".to_vec());
    let h = read_header(b"Empty:\r\n").unwrap();
    assert_eq!(h.name, b"Empty".to_vec());
    assert!(h.value.is_empty());
    assert!(read_header(b"no separator here\r\n").is_none());
    assert!(read_header(b"\r\n").is_none());
}

#[test]
fn trimming_ascii_whitespace() {
    assert_eq!(trim_bytes(b" \t a b \r\n"), b"a b".to_vec());
    assert_eq!(trim_bytes(b"   "), Vec::<u8>::new());
}

#[test]
fn trimming_unicode_whitespace() {
    let h = read_header(b"a:\x0b").unwrap();
    assert!(h.value.is_empty());
    let h = read_header("\u{a0}Name\u{3000}:\u{b}\u{a0}va lue\u{85}\u{2009}\u{202f}\r\n".as_bytes())
        .unwrap();
    assert_eq!(h.name, b"Name".to_vec());
    assert_eq!(h.value, b"va lue".to_vec());
    let all = "\u{9}\u{a}\u{b}\u{c}\u{d}\u{20}\u{85}\u{a0}\u{1680}\u{2000}\u{200a}\u{2028}\u{2029}\u{202f}\u{205f}\u{3000}";
    let text = format!("{}x{}", all, all);
    assert_eq!(trim_bytes(text.as_bytes()), b"x".to_vec());
    assert_eq!(trim_bytes(all.as_bytes()), Vec::<u8>::new());
    // U+200B is no White_Space character and stays.
    assert_eq!(trim_bytes("\u{200b}x".as_bytes()), "\u{200b}x".as_bytes().to_vec());
}

#[test]
fn accept_token_shape() {
    for key in ["", "x", "dGhlIHNhbXBsZSBub25jZQ==", "another key of some length"] {
        let tok = accept_token(key.as_bytes());
        assert_eq!(tok.len(), 28);
        assert_eq!(tok[27], b'=');
        assert!(tok[..27].iter().all(|c| c.is_ascii_alphanumeric() || *c == b'+' || *c == b'/'));
    }
}

#[test]
fn encode_short_payload() {
    assert_eq!(encode_frame(b"").unwrap(), vec![129u8, 0]);
    assert_eq!(encode_frame(b"Hi").unwrap(), vec![129u8, 2, b'H', b'i']);
}

#[test]
fn encode_length_boundaries() {
    let f = encode_frame(&vec![7u8; 125]).unwrap();
    assert_eq!(&f[..2], &[129u8, 125]);
    assert_eq!(f.len(), 127);
    let f = encode_frame(&vec![7u8; 126]).unwrap();
    assert_eq!(&f[..4], &[129u8, 126, 0, 126]);
    assert_eq!(f.len(), 130);
    let f = encode_frame(&vec![7u8; 300]).unwrap();
    assert_eq!(&f[..4], &[129u8, 126, 1, 44]);
    let f = encode_frame(&vec![7u8; 65535]).unwrap();
    assert_eq!(&f[..4], &[129u8, 126, 255, 255]);
    assert_eq!(f.len(), 65539);
    assert_eq!(encode_frame(&vec![7u8; 65536]), Err(WsError::UnsupportedFrameLength));
}

#[test]
fn send_queues_frames() {
    let mut ws = open_session();
    assert_eq!(ws.send(b"Test message"), Ok(()));
    assert_eq!(ws.send(b"ab"), Ok(()));
    let mut expected = vec![129u8, 12];
    expected.extend_from_slice(b"Test message");
    expected.extend_from_slice(&[129u8, 2, b'a', b'b']);
    assert_eq!(ws.take_output(), expected);
}

#[test]
fn send_too_long_closes_session() {
    let mut ws = open_session();
    assert_eq!(ws.send(&vec![0u8; 65536]), Err(WsError::UnsupportedFrameLength));
    assert!(!ws.is_open());
    assert!(ws.take_output().is_empty());
    assert_eq!(ws.send(b"x"), Err(WsError::SessionClosed));
}

#[test]
fn recv_unmasks_text() {
    let mut ws = open_session();
    let frame = client_frame(b"Hello", [0x37, 0xfa, 0x21, 0x3d]);
    assert_eq!(frame, vec![0x81, 0x85, 0x37, 0xfa, 0x21, 0x3d, 0x7f, 0x9f, 0x4d, 0x51, 0x58]);
    assert_eq!(ws.recv(&frame).unwrap(), "Hello");
    assert!(ws.is_open());
}

#[test]
fn round_trip_at_boundaries() {
    let key = [1u8, 0x80, 0x55, 0xff];
    for n in [0usize, 1, 125, 126, 1000, 65535] {
        let payload: Vec<u8> = (0..n).map(|i| b'a' + (i % 26) as u8).collect();
        let sent = encode_frame(&payload).unwrap();
        assert_eq!(&sent[sent.len() - n..], &payload[..]);
        let frame = client_frame(&payload, key);
        assert_eq!(decode_frame(&frame).unwrap(), payload);
        let mut ws = open_session();
        assert_eq!(ws.recv(&frame).unwrap().as_bytes(), &payload[..]);
    }
}

#[test]
fn recv_multibyte_text() {
    let mut ws = open_session();
    let text = "héllo wörld €";
    let frame = client_frame(text.as_bytes(), [9, 8, 7, 6]);
    assert_eq!(ws.recv(&frame).unwrap(), text);
}

#[test]
fn recv_rejects_64_bit_length() {
    let mut ws = open_session();
    let mut frame = vec![129u8, 128 | 127, 0, 0, 0, 0, 0, 1, 0, 0];
    frame.extend_from_slice(&[0u8; 4]);
    assert_eq!(ws.recv(&frame), Err(WsError::UnsupportedFrameLength));
    assert!(!ws.is_open());
    assert_eq!(header_len(255), Err(WsError::UnsupportedFrameLength));
}

#[test]
fn recv_rejects_invalid_utf8() {
    let mut ws = open_session();
    let frame = client_frame(&[0x80], [0x11, 0x22, 0x33, 0x44]);
    let e = ws.recv(&frame).unwrap_err();
    assert_eq!(e, WsError::InvalidText);
    assert_eq!(e.class(), ErrorClass::ContentValidation);
    assert!(!ws.is_open());
    assert_eq!(ws.recv(&client_frame(b"ok", [0; 4])), Err(WsError::SessionClosed));
}

#[test]
fn recv_short_frame_is_io_failure() {
    let mut ws = open_session();
    let mut frame = client_frame(b"Hello", [1, 2, 3, 4]);
    frame.pop();
    let e = ws.recv(&frame).unwrap_err();
    assert_eq!(e, WsError::Truncated);
    assert_eq!(e.class(), ErrorClass::IoFailure);
    assert_eq!(decode_frame(&[129u8]), Err(WsError::Truncated));
    assert_eq!(decode_frame(&[129u8, 254, 0]), Err(WsError::Truncated));
}

#[test]
fn header_and_payload_lengths() {
    assert_eq!(header_len(0x85), Ok(2));
    assert_eq!(header_len(125), Ok(2));
    assert_eq!(header_len(0x80 | 126), Ok(4));
    assert_eq!(payload_len(&[129, 0x85]), 5);
    assert_eq!(payload_len(&[129, 0xfe, 1, 0]), 256);
    assert_eq!(payload_len(&[129, 0xfe, 255, 255]), 65535);
}

#[test]
fn masking_twice_restores_data() {
    let data = b"some payload bytes".to_vec();
    let key = [0xde, 0xad, 0xbe, 0xef];
    for offset in 0..4usize {
        let once = mask_payload(&data, &key, offset);
        assert_ne!(once, data);
        assert_eq!(mask_payload(&once, &key, offset), data);
    }
    assert_eq!(mask_payload(&[0, 0, 0, 0, 0], &key, 1), vec![0xad, 0xbe, 0xef, 0xde, 0xad]);
}
