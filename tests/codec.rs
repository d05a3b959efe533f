use bytes::BytesMut;
use cloudcam::codec::{decode, encode, encode_headers, get_content_length, Decoded, ParseError, RtspCodec};
use cloudcam::message::{Header, Request, Response};

fn complete(b: &[u8]) -> (Response, usize) {
    match decode(b) {
        Decoded::Complete(r, n) => (r, n),
        other => panic!("expected a whole response, got {:?}", other),
    }
}

#[test]
fn encode_options_request() {
    let bytes = encode(Request::options("rtsp://cam/stream", 1));
    assert_eq!(bytes, b"OPTIONS rtsp://cam/stream RTSP/1.0\r\nCSeq: 1\r\n\r\n".to_vec());
}

#[test]
fn encode_setup_request_keeps_header_order() {
    let bytes = encode(Request::setup("rtsp://cam/s", 3, "RTP/AVP;unicast;client_port=40010-40011"));
    assert_eq!(
        String::from_utf8(bytes).unwrap(),
        "SETUP rtsp://cam/s RTSP/1.0\r\nCSeq: 3\r\nTransport: RTP/AVP;unicast;client_port=40010-40011\r\n\r\n"
    );
}

#[test]
fn encode_appends_body_after_blank_line() {
    let mut req = Request::describe("rtsp://h/", 12);
    req.headers.push(Header::ContentLength { value: 3 });
    req.body = b"abc".to_vec();
    let bytes = encode(req);
    assert_eq!(
        String::from_utf8(bytes).unwrap(),
        "DESCRIBE rtsp://h/ RTSP/1.0\r\nCSeq: 12\r\nContentLength: 3\r\n\r\nabc"
    );
}

#[test]
fn encode_headers_renders_each_line() {
    let hs = vec![
        Header::Generic { name: "Session".to_string(), value: "abc".to_string() },
        Header::ContentLength { value: 0 },
    ];
    assert_eq!(encode_headers(hs), "Session: abc\r\nContentLength: 0\r\n");
}

#[test]
fn codec_encode_replaces_buffer() {
    let mut codec = RtspCodec;
    let mut buf = BytesMut::from(&b"stale"[..]);
    codec.encode(Request::teardown("rtsp://h/", 9, "s1"), &mut buf);
    assert_eq!(&buf[..], &b"TEARDOWN rtsp://h/ RTSP/1.0\r\nCSeq: 9\r\nSession: s1\r\n\r\n"[..]);
}

#[test]
fn decode_simple_response() {
    let b = b"RTSP/1.0 200 OK\r\nCSeq: 1\r\nPublic: OPTIONS, DESCRIBE\r\n\r\n";
    let (r, n) = complete(b);
    assert_eq!(n, b.len());
    assert_eq!(r.version, (1, 0));
    assert_eq!(r.status_code, 200);
    assert_eq!(r.status, "OK");
    assert_eq!(r.headers.len(), 2);
    match &r.headers[1] {
        Header::Generic { name, value } => {
            assert_eq!(name, "Public");
            assert_eq!(value, "OPTIONS, DESCRIBE");
        }
        other => panic!("unexpected header {:?}", other),
    }
    assert!(r.body.is_empty());
}

#[test]
fn decode_byte_by_byte_is_incomplete_until_the_last() {
    let b = b"RTSP/1.0 200 OK\r\nCSeq: 2\r\nContent-Length: 4\r\nX-Thing: y\r\n\r\nv=0\n";
    for k in 0..b.len() {
        match decode(&b[..k]) {
            Decoded::Incomplete => {}
            other => panic!("prefix of {} bytes gave {:?}", k, other),
        }
    }
    let (r, n) = complete(b);
    assert_eq!(n, b.len());
    assert_eq!(r.body, b"v=0\n".to_vec());
}

#[test]
fn content_length_is_enforced() {
    let head = b"RTSP/1.0 200 OK\r\nContent-Length: 5\r\n\r\n".to_vec();
    let mut partial = head.clone();
    partial.extend_from_slice(b"abc");
    assert!(matches!(decode(&partial), Decoded::Incomplete));

    let mut codec = RtspCodec;
    let mut buf = BytesMut::from(&head[..]);
    buf.extend_from_slice(b"abcdeRTSP/1.0");
    let r = codec.decode(&mut buf).unwrap().unwrap();
    assert_eq!(r.body, b"abcde".to_vec());
    assert_eq!(&buf[..], &b"RTSP/1.0"[..]);
}

#[test]
fn incomplete_leaves_buffer_alone() {
    let mut codec = RtspCodec;
    let mut buf = BytesMut::from(&b"RTSP/1.0 200 OK\r\nCSeq"[..]);
    assert!(codec.decode(&mut buf).unwrap().is_none());
    assert_eq!(&buf[..], &b"RTSP/1.0 200 OK\r\nCSeq"[..]);
}

#[test]
fn missing_content_length_means_empty_body() {
    let b = b"RTSP/1.0 200 OK\r\nCSeq: 1\r\n\r\nleftover";
    let (r, n) = complete(b);
    assert!(r.body.is_empty());
    assert_eq!(n, b.len() - "leftover".len());
}

#[test]
fn unknown_headers_are_kept() {
    let b = b"RTSP/1.0 404 Missing\r\nX-Custom-Thing: whatever value\r\n\r\n";
    let (r, _) = complete(b);
    assert_eq!(r.status_code, 404);
    match &r.headers[0] {
        Header::Generic { name, value } => {
            assert_eq!(name, "X-Custom-Thing");
            assert_eq!(value, "whatever value");
        }
        other => panic!("unexpected header {:?}", other),
    }
}

#[test]
fn content_length_header_is_recognised() {
    let b = b"RTSP/1.0 200 OK\r\nContent-Length: 2\r\n\r\nhi";
    let (r, _) = complete(b);
    assert!(matches!(r.headers[0], Header::ContentLength { value: 2 }));
}

#[test]
fn bad_status_line_is_malformed() {
    assert!(matches!(decode(b"HTTP/1.1 200 OK\r\n\r\n"), Decoded::Malformed(ParseError::StatusLine)));
    assert!(matches!(decode(b"RTSP/1.0 200 Not Found\r\n\r\n"), Decoded::Malformed(ParseError::StatusLine)));
    assert!(matches!(decode(b"RTSP/1.0 99999999999 OK\r\n\r\n"), Decoded::Malformed(ParseError::StatusLine)));
}

#[test]
fn bad_header_line_is_malformed() {
    assert!(matches!(decode(b"RTSP/1.0 200 OK\r\nNoColonHere\r\n\r\n"), Decoded::Malformed(ParseError::HeaderLine)));
    let mut codec = RtspCodec;
    let mut buf = BytesMut::from(&b"RTSP/1.0 200 OK\r\nName:\r\n\r\n"[..]);
    assert_eq!(codec.decode(&mut buf).unwrap_err(), ParseError::HeaderLine);
    assert_eq!(buf.len(), 26);
}

#[test]
fn non_utf8_header_is_malformed() {
    let b = b"RTSP/1.0 200 OK\r\nName: \xff\xfe\r\n\r\n";
    assert!(matches!(decode(b), Decoded::Malformed(ParseError::HeaderLine)));
}

#[test]
fn utf8_header_value_is_decoded() {
    let b = "RTSP/1.0 200 OK\r\nTitle: caméra\r\n\r\n".as_bytes();
    let (r, _) = complete(b);
    match &r.headers[0] {
        Header::Generic { value, .. } => assert_eq!(value, "caméra"),
        other => panic!("unexpected header {:?}", other),
    }
}

#[test]
fn response_round_trip() {
    let b = b"RTSP/1.0 200 OK\r\nCSeq: 4\r\nSession: abc;timeout=30\r\nContent-Length: 3\r\n\r\nxyzRTSP";
    let (r, n) = complete(b);
    assert_eq!(n, b.len() - 4);
    assert_eq!((r.version, r.status_code, r.status.as_str()), ((1, 0), 200, "OK"));
    assert_eq!(r.body, b"xyz".to_vec());
    assert_eq!(r.session(), "abc");
    assert_eq!(r.session_timeout(), 30);
}

#[test]
fn first_content_length_counts() {
    let hs = vec![
        Header::Generic { name: "CSeq".to_string(), value: "1".to_string() },
        Header::ContentLength { value: 7 },
        Header::ContentLength { value: 9 },
    ];
    assert_eq!(get_content_length(&hs), 7);
    assert_eq!(get_content_length(&Vec::new()), 0);
}
