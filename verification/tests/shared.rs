use std::sync::Arc;

use rtsp_parser::codec::parse_request;
use rtsp_parser::engine::TransportAction;
use rtsp_parser::registry::{SessionRecord, SessionState, SharedRegistry};

#[test]
fn shared_registry_serves_a_session() {
    let reg = SharedRegistry::new();
    reg.add_stream(b"live");
    assert!(reg.exists_stream(b"live"));
    assert!(!reg.exists_stream(b"dead"));

    let setup = parse_request(
        b"SETUP rtsp://host/live RTSP/1.0\r\nCSeq: 3\r\nTransport: RTP/AVP;unicast;client_port=6000-6001\r\n\r\n",
    )
    .unwrap();
    let (resp, action) = reg.handle_request(&setup);
    assert_eq!(resp.status, 200);
    assert!(matches!(action, TransportAction::Create(_, 6000)));
    assert_eq!(reg.get_session(b"live").unwrap().port, 6000);

    let play = parse_request(b"PLAY rtsp://host/live RTSP/1.0\r\nCSeq: 4\r\n\r\n").unwrap();
    let (resp2, _) = reg.handle_request(&play);
    assert_eq!(resp2.status, 200);
    assert!(reg.push_accepts(b"live"));

    reg.remove_session(b"live");
    assert!(reg.get_session(b"live").is_none());
    assert!(!reg.push_accepts(b"live"));
}

#[test]
fn interleaved_set_session_leaves_exactly_one() {
    let reg = Arc::new(SharedRegistry::new());
    reg.add_stream(b"live");
    for i in 0..50u32 {
        for w in 0u32..8 {
            let rec = SessionRecord {
                port: (6000 + w) as u16,
                state: SessionState::Ready,
                id: w * 1000 + i,
            };
            assert!(reg.set_session(b"live", rec).is_ok());
            // Every observation between replacements sees one whole session.
            let seen = reg.get_session(b"live").unwrap();
            assert_eq!(seen, rec);
        }
    }
    let last = reg.get_session(b"live").unwrap();
    assert_eq!(last.port, 6007);
}
