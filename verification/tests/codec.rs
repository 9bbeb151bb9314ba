use rtsp_parser::codec::{parse_request, serialize_request, serialize_response, RtspError,
    RtspMethod, RtspRequest, RtspResponse};

fn get<'a>(hs: &'a [(Vec<u8>, Vec<u8>)], k: &[u8]) -> Option<&'a Vec<u8>> {
    hs.iter().rev().find(|p| p.0 == k).map(|p| &p.1)
}

#[test]
fn parse_setup_request() {
    let text = b"SETUP rtsp://host/live RTSP/1.0\r\nCSeq: 3\r\nTransport: RTP/AVP;unicast;client_port=6000-6001\r\n\r\n";
    let req = parse_request(text).unwrap();
    assert!(matches!(req.method, RtspMethod::Setup));
    assert_eq!(req.uri, b"rtsp://host/live".to_vec());
    assert_eq!(req.version, b"RTSP/1.0".to_vec());
    assert_eq!(req.cseq, 3);
    assert_eq!(
        get(&req.headers, b"Transport"),
        Some(&b"RTP/AVP;unicast;client_port=6000-6001".to_vec())
    );
    assert!(req.body.is_none());
}

#[test]
fn parse_missing_cseq_fails() {
    let text = b"PLAY rtsp://host/live RTSP/1.0\r\n\r\n";
    assert_eq!(parse_request(text), Err(RtspError::MissingOrInvalidCSeq));
}

#[test]
fn parse_invalid_cseq_fails() {
    let text = b"PLAY rtsp://host/live RTSP/1.0\r\nCSeq: abc\r\n\r\n";
    assert_eq!(parse_request(text), Err(RtspError::MissingOrInvalidCSeq));
    let text2 = b"PLAY rtsp://host/live RTSP/1.0\r\nCSeq: 99999999999\r\n\r\n";
    assert_eq!(parse_request(text2), Err(RtspError::MissingOrInvalidCSeq));
}

#[test]
fn parse_malformed_request_line() {
    let text = b"SETUP\r\nCSeq: 1\r\n\r\n";
    assert_eq!(parse_request(text), Err(RtspError::MalformedRequestLine));
    assert_eq!(parse_request(b""), Err(RtspError::MalformedRequestLine));
}

#[test]
fn parse_unknown_method_is_preserved() {
    let text = b"FETCH rtsp://host/live RTSP/1.0\r\nCSeq: 2\r\n\r\n";
    let req = parse_request(text).unwrap();
    match req.method {
        RtspMethod::Unknown(tok) => assert_eq!(tok, b"FETCH".to_vec()),
        _ => panic!("expected an unknown method"),
    }
}

#[test]
fn parse_duplicate_header_last_wins() {
    let text = b"PLAY rtsp://host/live RTSP/1.0\r\nCSeq: 1\r\nX: a\r\nX: b\r\n\r\n";
    let req = parse_request(text).unwrap();
    assert_eq!(get(&req.headers, b"X"), Some(&b"b".to_vec()));
}

#[test]
fn parse_body_and_trimming() {
    let text = b"ANNOUNCE rtsp://host/live RTSP/1.0\r\nCSeq: 9\r\n  Key  :  v alue \r\n\r\nline1\r\nline2";
    let req = parse_request(text).unwrap();
    assert_eq!(req.cseq, 9);
    assert_eq!(get(&req.headers, b"Key"), Some(&b"v alue".to_vec()));
    assert_eq!(req.body, Some(b"line1\r\nline2".to_vec()));
}

#[test]
fn serialize_response_is_byte_stable() {
    let resp = RtspResponse {
        status: 200,
        reason: b"OK".to_vec(),
        cseq: 3,
        headers: vec![(b"Session".to_vec(), b"47112344".to_vec())],
        body: None,
    };
    let expect = b"RTSP/1.0 200 OK\r\nCSeq: 3\r\nSession: 47112344\r\n\r\n".to_vec();
    assert_eq!(serialize_response(&resp), expect);
    assert_eq!(serialize_response(&resp), expect);
}

#[test]
fn serialize_error_response() {
    let resp = RtspResponse {
        status: 400,
        reason: b"Bad Request".to_vec(),
        cseq: 7,
        headers: Vec::new(),
        body: None,
    };
    assert_eq!(
        serialize_response(&resp),
        b"RTSP/1.0 400 Bad Request\r\nCSeq: 7\r\n\r\n".to_vec()
    );
}

#[test]
fn parse_via_from_str() {
    let req: RtspRequest = "OPTIONS rtsp://host/live RTSP/1.0\r\nCSeq: 1\r\n\r\n".parse().unwrap();
    assert!(matches!(req.method, RtspMethod::Options));
    assert_eq!(req.cseq, 1);
    let m: RtspMethod = "TEARDOWN".parse().unwrap();
    assert!(matches!(m, RtspMethod::Teardown));
}

#[test]
fn request_roundtrip() {
    let req = RtspRequest {
        method: RtspMethod::Describe,
        uri: b"rtsp://host/live".to_vec(),
        version: b"RTSP/1.0".to_vec(),
        cseq: 42,
        headers: vec![
            (b"CSeq".to_vec(), b"42".to_vec()),
            (b"Accept".to_vec(), b"application/sdp".to_vec()),
        ],
        body: None,
    };
    let wire = serialize_request(&req);
    let back = parse_request(wire.as_slice()).unwrap();
    assert_eq!(back, req);
}
