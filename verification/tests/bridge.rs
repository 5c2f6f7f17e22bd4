use wsbridge::conn::handle_request;
use wsbridge::frame::{close_frame, decode_frames, decode_header, check_header, unmask, FrameError, FrameHeader};
use wsbridge::frame::{frame_step, FrameAction};
use wsbridge::frame::{FIN_BIT, OP_TEXT, OP_CLOSE, MASK_BIT};
use wsbridge::handshake::handshake_response;

#[test]
fn split_query() {
    assert_eq!(wsbridge::http::split_query("/no_query"), ("/no_query", ""));
    assert_eq!(wsbridge::http::split_query("/empty?"), ("/empty", ""));
    assert_eq!(
        wsbridge::http::split_query("/query?the=query"),
        ("/query", "the=query")
    );
}

#[test]
fn parse_headers_empty() {
    let empty: Vec<(&str, &str)> = vec![];
    let ret = wsbridge::http::parse_headers("");
    assert_eq!(ret, empty);
    let ret = wsbridge::http::parse_headers("HTTP/1.1 GET /\r\n\r\n");
    assert_eq!(ret, empty);
}

#[test]
fn parse_headers() {
    let ret = wsbridge::http::parse_headers(
        "HTTP/1.1 GET /\r\nSome: header\r\nAnother:   header with leading spaces\r\n\r\n",
    );
    assert_eq!(
        ret,
        vec![
            ("Some", "header"),
            ("Another", "header with leading spaces"),
        ]
    );
}

#[test]
fn handle_req_root() {
    let (out, upgraded) = handle_request("GET / HTTP/1.0\r\n\r\n", b"content");
    assert_eq!(
        String::from_utf8(out).unwrap(),
        "HTTP/1.1 200 OK\r\n\r\ncontent"
    );
    assert!(!upgraded);
}

#[test]
fn handle_req_post() {
    let (out, upgraded) = handle_request("POST / HTTP/1.0\r\n\r\n", b"");
    assert_eq!(
        String::from_utf8(out).unwrap(),
        "HTTP/1.1 405 Method Not Allowed\r\n\r\n"
    );
    assert!(!upgraded);
}

#[test]
fn handle_req_sub() {
    let (out, upgraded) = handle_request("GET /sub HTTP/1.0\r\n\r\n", b"");
    assert_eq!(
        String::from_utf8(out).unwrap(),
        "HTTP/1.1 404 Not Found\r\n\r\n"
    );
    assert!(!upgraded);
}

#[test]
fn ws_handshake() {
    let out = handshake_response("dGVzdA==");
    assert_eq!(
        out,
        "HTTP/1.1 101 Switching Protocols\r\n\
         Upgrade: websocket\r\n\
         Connection: Upgrade\r\n\
         Sec-WebSocket-Accept: T3TQpOmnRqmZUfV9OrgZq2FJw54=\r\n\r\n"
    );
}

#[test]
fn ws_key() {
    assert_eq!(wsbridge::handshake::ws_key("test0"), "4lAXywWR6DL+ZXTWPjAgSWCKq9U=");
    assert_eq!(wsbridge::handshake::ws_key("test1"), "4RZrzunikRkJcfTKOVCtDTZUTec=");
}

#[test]
fn handle_ws() {
    let mask = b"\x00\x01\x02\x03";
    let mut v: Vec<u8> = Vec::new();
    v.push(FIN_BIT | OP_TEXT);
    v.push(MASK_BIT | 5u8);
    v.extend(mask);
    v.extend(b"\x74\x69\x6b\x70\x20");
    v.push(FIN_BIT | OP_TEXT);
    v.push(MASK_BIT | 3u8);
    v.extend(mask);
    v.extend(b"\x69\x72\x22");
    v.push(FIN_BIT | OP_TEXT);
    v.push(MASK_BIT | 2u8);
    v.extend(mask);
    v.extend(b"\x61\x21");
    v.push(FIN_BIT | OP_TEXT);
    v.push(MASK_BIT | 4u8);
    v.extend(mask);
    v.extend(b"\x74\x64\x71\x77");
    v.push(FIN_BIT | OP_CLOSE);
    v.push(0u8);
    let payloads = decode_frames(&v).unwrap();
    assert_eq!(String::from_utf8(payloads[0].clone()).unwrap(), "this ");
    assert_eq!(String::from_utf8(payloads[1].clone()).unwrap(), "is ");
    assert_eq!(String::from_utf8(payloads[2].clone()).unwrap(), "a ");
    assert_eq!(String::from_utf8(payloads[3].clone()).unwrap(), "test");
    assert_eq!(close_frame(), vec![FIN_BIT | OP_CLOSE, 0u8]);
}

#[test]
fn handle_req_upgrade() {
    let req = "GET / HTTP/1.1\r\nUpgrade: websocket\r\nSec-WebSocket-Key: dGVzdA==\r\n\r\n";
    let (out, upgraded) = handle_request(req, b"unused");
    assert!(upgraded);
    assert_eq!(
        String::from_utf8(out).unwrap(),
        "HTTP/1.1 101 Switching Protocols\r\n\
         Upgrade: websocket\r\n\
         Connection: Upgrade\r\n\
         Sec-WebSocket-Accept: T3TQpOmnRqmZUfV9OrgZq2FJw54=\r\n\r\n"
    );
}

#[test]
fn decode_header_bits() {
    let h = decode_header(0x81, 0x85);
    assert_eq!(
        h,
        FrameHeader { fin: true, opcode: OP_TEXT, mask: true, len: 5 }
    );
    let h = decode_header(0x08, 0x7f);
    assert_eq!(
        h,
        FrameHeader { fin: false, opcode: OP_CLOSE, mask: false, len: 127 }
    );
}

#[test]
fn unmask_is_involutive() {
    let key = [0x12u8, 0x34, 0x56, 0x78];
    let original: Vec<u8> = b"a longer payload, masked and unmasked".to_vec();
    let mut data = original.clone();
    unmask(&mut data, &key);
    assert_ne!(data, original);
    unmask(&mut data, &key);
    assert_eq!(data, original);
}

#[test]
fn frame_length_boundary() {
    // Length 125 is the extended-length sentinel and must be refused.
    let h = decode_header(FIN_BIT | OP_TEXT, 125);
    assert_eq!(check_header(&h), Err(FrameError::LengthUnsupported));
    // Length 124 decodes normally.
    let mut v: Vec<u8> = vec![FIN_BIT | OP_TEXT, MASK_BIT | 124];
    v.extend(b"\x00\x00\x00\x00");
    v.extend(vec![b'x'; 124]);
    v.push(FIN_BIT | OP_CLOSE);
    v.push(0u8);
    let payloads = decode_frames(&v).unwrap();
    assert_eq!(payloads.len(), 1);
    assert_eq!(payloads[0], vec![b'x'; 124]);
}

#[test]
fn frame_errors() {
    // A clear FIN bit is a fragmented message.
    let h = decode_header(OP_TEXT, 0);
    assert_eq!(check_header(&h), Err(FrameError::Fragmented));
    // A binary frame is an unsupported opcode.
    let h = decode_header(FIN_BIT | 0x2, 0);
    assert_eq!(check_header(&h), Err(FrameError::OpcodeUnsupported));
    // A buffer that ends inside a frame is truncated.
    assert_eq!(
        decode_frames(&[FIN_BIT | OP_TEXT]),
        Err(FrameError::Truncated)
    );
    assert_eq!(
        decode_frames(&[FIN_BIT | OP_TEXT, 4, b'a']),
        Err(FrameError::Truncated)
    );
    // The errors surface through the buffer decoder as well.
    assert_eq!(
        decode_frames(&[OP_TEXT, 0]),
        Err(FrameError::Fragmented)
    );
    assert_eq!(
        decode_frames(&[FIN_BIT | OP_TEXT, 125]),
        Err(FrameError::LengthUnsupported)
    );
}

#[test]
fn unmasked_frames_pass_through() {
    // A frame without the mask bit carries its payload verbatim.
    let mut v: Vec<u8> = vec![FIN_BIT | OP_TEXT, 5];
    v.extend(b"plain");
    v.push(FIN_BIT | OP_CLOSE);
    v.push(0u8);
    let payloads = decode_frames(&v).unwrap();
    assert_eq!(payloads.len(), 1);
    assert_eq!(String::from_utf8(payloads[0].clone()).unwrap(), "plain");
}

#[test]
fn close_stops_decoding() {
    // Frames after a close frame are not processed.
    let mut v: Vec<u8> = vec![FIN_BIT | OP_CLOSE, 0];
    v.extend(vec![FIN_BIT | OP_TEXT, 2, b'h', b'i']);
    let payloads = decode_frames(&v).unwrap();
    assert_eq!(payloads.len(), 0);
}

#[test]
fn request_line_tokens() {
    assert_eq!(
        wsbridge::http::request_line("GET / HTTP/1.0\r\n\r\n"),
        ("GET", "/")
    );
    assert_eq!(wsbridge::http::request_line(""), ("", ""));
    assert_eq!(wsbridge::http::request_line("GET"), ("GET", ""));
    assert_eq!(wsbridge::http::request_line("GET /"), ("GET", "/"));
}

#[test]
fn handshake_of_empty_key() {
    // A missing key header hashes the bare GUID: deterministic output.
    assert_eq!(wsbridge::handshake::ws_key(""), wsbridge::handshake::ws_key(""));
    assert_eq!(wsbridge::handshake::ws_key("").len(), 28);
}

#[test]
fn frame_step_dispatch() {
    assert_eq!(frame_step(FIN_BIT | OP_CLOSE, 0), Ok(FrameAction::SendClose));
    assert_eq!(
        frame_step(FIN_BIT | OP_TEXT, MASK_BIT | 5),
        Ok(FrameAction::ReadText { masked: true, len: 5 })
    );
    assert_eq!(frame_step(OP_TEXT, 0), Err(FrameError::Fragmented));
}
