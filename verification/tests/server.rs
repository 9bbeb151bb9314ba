use rtsp_parser::codec::{parse_request, RtspError};
use rtsp_parser::engine::{extract_rtp_port, handle_request, run_method, stream_name,
    TransportAction, SESSION_ID};
use rtsp_parser::registry::{Registry, SessionRecord, SessionState};

fn get<'a>(hs: &'a [(Vec<u8>, Vec<u8>)], k: &[u8]) -> Option<&'a Vec<u8>> {
    hs.iter().rev().find(|p| p.0 == k).map(|p| &p.1)
}

fn setup_live(reg: &mut Registry) -> u16 {
    reg.add_stream(b"live");
    let req = parse_request(
        b"SETUP rtsp://host/live RTSP/1.0\r\nCSeq: 3\r\nTransport: RTP/AVP;unicast;client_port=6000-6001\r\n\r\n",
    )
    .unwrap();
    let (resp, action) = handle_request(&req, reg);
    assert_eq!(resp.status, 200);
    assert_eq!(resp.cseq, 3);
    assert_eq!(
        get(&resp.headers, b"Transport"),
        Some(&b"RTP/AVP;unicast;client_port=6000-6001".to_vec())
    );
    assert_eq!(get(&resp.headers, b"Session"), Some(&b"47112344".to_vec()));
    match action {
        TransportAction::Create(name, port) => {
            assert_eq!(name, b"live".to_vec());
            assert_eq!(port, 6000);
            port
        }
        _ => panic!("setup must ask for a pusher"),
    }
}

#[test]
fn setup_installs_session_bound_to_client_port() {
    let mut reg = Registry::new();
    setup_live(&mut reg);
    let rec = reg.get_session(b"live").unwrap();
    assert_eq!(rec.port, 6000);
    assert_eq!(rec.state, SessionState::Ready);
    assert_eq!(rec.id, SESSION_ID);
}

#[test]
fn play_after_setup_succeeds() {
    let mut reg = Registry::new();
    setup_live(&mut reg);
    let req = parse_request(b"PLAY rtsp://host/live RTSP/1.0\r\nCSeq: 4\r\n\r\n").unwrap();
    let (resp, action) = handle_request(&req, &mut reg);
    assert_eq!(resp.status, 200);
    assert_eq!(resp.cseq, 4);
    assert_eq!(get(&resp.headers, b"Session"), Some(&b"47112344".to_vec()));
    assert!(matches!(action, TransportAction::Keep));
    assert_eq!(reg.get_session(b"live").unwrap().state, SessionState::Playing);
    assert!(reg.push_accepts(b"live"));
}

#[test]
fn play_before_setup_is_rejected() {
    let mut reg = Registry::new();
    reg.add_stream(b"live");
    let req = parse_request(b"PLAY rtsp://host/live RTSP/1.0\r\nCSeq: 4\r\n\r\n").unwrap();
    assert_eq!(run_method(&req, &mut reg), Err(RtspError::NotSetUp));
    let (resp, _) = handle_request(&req, &mut reg);
    assert_eq!(resp.status, 400);
    assert_eq!(resp.cseq, 4);
}

#[test]
fn unregistered_stream_fails_regardless_of_method() {
    let mut reg = Registry::new();
    reg.add_stream(b"other");
    for text in [
        b"SETUP rtsp://host/live RTSP/1.0\r\nCSeq: 1\r\nTransport: RTP/AVP;client_port=6000\r\n\r\n"
            .to_vec(),
        b"OPTIONS rtsp://host/live RTSP/1.0\r\nCSeq: 2\r\n\r\n".to_vec(),
        b"DESCRIBE rtsp://host/live RTSP/1.0\r\nCSeq: 3\r\n\r\n".to_vec(),
        b"PLAY rtsp://host/live RTSP/1.0\r\nCSeq: 4\r\n\r\n".to_vec(),
    ] {
        let req = parse_request(&text).unwrap();
        assert_eq!(run_method(&req, &mut reg), Err(RtspError::UnknownStream));
        let (resp, _) = handle_request(&req, &mut reg);
        assert_eq!(resp.status, 400);
    }
}

#[test]
fn setup_without_transport_fails() {
    let mut reg = Registry::new();
    reg.add_stream(b"live");
    let req = parse_request(b"SETUP rtsp://host/live RTSP/1.0\r\nCSeq: 5\r\n\r\n").unwrap();
    assert_eq!(run_method(&req, &mut reg), Err(RtspError::MissingTransport));
    let (resp, _) = handle_request(&req, &mut reg);
    assert_eq!(resp.status, 400);
}

#[test]
fn setup_with_bad_port_fails() {
    let mut reg = Registry::new();
    reg.add_stream(b"live");
    let req = parse_request(
        b"SETUP rtsp://host/live RTSP/1.0\r\nCSeq: 6\r\nTransport: RTP/AVP;client_port=high\r\n\r\n",
    )
    .unwrap();
    assert_eq!(run_method(&req, &mut reg), Err(RtspError::InvalidTransportPort));
    let req2 = parse_request(
        b"SETUP rtsp://host/live RTSP/1.0\r\nCSeq: 7\r\nTransport: RTP/AVP;unicast\r\n\r\n",
    )
    .unwrap();
    assert_eq!(run_method(&req2, &mut reg), Err(RtspError::InvalidTransportPort));
}

#[test]
fn teardown_releases_session() {
    let mut reg = Registry::new();
    setup_live(&mut reg);
    let req = parse_request(b"TEARDOWN rtsp://host/live RTSP/1.0\r\nCSeq: 8\r\n\r\n").unwrap();
    let (resp, action) = handle_request(&req, &mut reg);
    assert_eq!(resp.status, 400);
    assert!(matches!(action, TransportAction::Remove(_)));
    assert!(reg.get_session(b"live").is_none());
}

#[test]
fn pause_returns_session_to_ready() {
    let mut reg = Registry::new();
    setup_live(&mut reg);
    let play = parse_request(b"PLAY rtsp://host/live RTSP/1.0\r\nCSeq: 9\r\n\r\n").unwrap();
    handle_request(&play, &mut reg);
    assert!(reg.push_accepts(b"live"));
    let pause = parse_request(b"PAUSE rtsp://host/live RTSP/1.0\r\nCSeq: 10\r\n\r\n").unwrap();
    handle_request(&pause, &mut reg);
    assert!(!reg.push_accepts(b"live"));
    assert_eq!(reg.get_session(b"live").unwrap().state, SessionState::Ready);
}

#[test]
fn describe_reports_exact_content_length() {
    let mut reg = Registry::new();
    reg.add_stream(b"live");
    let req = parse_request(b"DESCRIBE rtsp://host/live RTSP/1.0\r\nCSeq: 11\r\n\r\n").unwrap();
    let (resp, _) = handle_request(&req, &mut reg);
    assert_eq!(resp.status, 200);
    assert_eq!(get(&resp.headers, b"Content-Type"), Some(&b"application/sdp".to_vec()));
    let body = resp.body.unwrap();
    let len = String::from_utf8(get(&resp.headers, b"Content-Length").unwrap().clone()).unwrap();
    assert_eq!(len.parse::<usize>().unwrap(), body.len());
}

#[test]
fn set_session_replaces_exactly_one() {
    let mut reg = Registry::new();
    reg.add_stream(b"live");
    let first = SessionRecord { port: 5000, state: SessionState::Ready, id: 1 };
    let second = SessionRecord { port: 6000, state: SessionState::Playing, id: 2 };
    assert!(reg.set_session(b"live", first).is_ok());
    assert!(reg.set_session(b"live", second).is_ok());
    assert_eq!(reg.get_session(b"live"), Some(second));
    reg.remove_session(b"live");
    assert!(reg.get_session(b"live").is_none());
}

#[test]
fn set_session_on_unknown_stream_fails() {
    let mut reg = Registry::new();
    let rec = SessionRecord { port: 5000, state: SessionState::Ready, id: 1 };
    assert_eq!(reg.set_session(b"live", rec), Err(RtspError::UnknownStream));
}

#[test]
fn frame_not_accepted_without_playing_session() {
    let mut reg = Registry::new();
    reg.add_stream(b"live");
    assert!(!reg.push_accepts(b"live"));
    setup_live(&mut reg);
    assert!(!reg.push_accepts(b"live"));
}

#[test]
fn extract_rtp_port_reads_first_matching_parameter() {
    assert_eq!(extract_rtp_port(b"RTP/AVP;unicast;client_port=6000-6001"), Some(6000));
    assert_eq!(extract_rtp_port(b"RTP/AVP; client_port=7000 ;x=y"), Some(7000));
    assert_eq!(extract_rtp_port(b"RTP/AVP;unicast"), None);
    assert_eq!(extract_rtp_port(b"client_port=70000"), None);
    assert_eq!(extract_rtp_port(b"client_port="), None);
}

#[test]
fn stream_name_is_last_path_segment() {
    assert_eq!(stream_name(b"rtsp://host/live"), b"live".to_vec());
    assert_eq!(stream_name(b"rtsp://host/a/b"), b"b".to_vec());
    assert_eq!(stream_name(b"rtsp://host/"), Vec::<u8>::new());
    assert_eq!(stream_name(b"plain"), b"plain".to_vec());
}

#[test]
fn add_stream_is_idempotent_for_membership() {
    let mut reg = Registry::new();
    reg.add_stream(b"live");
    reg.add_stream(b"live");
    assert!(reg.exists_stream(b"live"));
    assert!(!reg.exists_stream(b"dead"));
}
