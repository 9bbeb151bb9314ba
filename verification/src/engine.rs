//! Session engine: the per-stream protocol state machine. Given a parsed
//! request and the registry it decides the method-specific outcome, mutates
//! the registry (SETUP installs a session, PLAY starts it, PAUSE returns it
//! to ready, TEARDOWN releases it), and reports failures as protocol-level
//! status codes. A method that produces no headers and no body is treated
//! as a failure and answered with a generic 400, never an empty 200.
use vstd::prelude::*;
use vstd::string::StringSliceAdditionalSpecFns;
use crate::bytes::{
    SLASH, DASH, SEMI, dec_of, spec_find_byte, spec_trim, spec_parse_dec, has_prefix, find_byte,
    subvec, trim, starts_with, parse_u16, u64_to_dec, lemma_find_byte,
};
use crate::codec::{
    RtspError, RtspRequest, RtspResponse, RtspMethod, MethodModel, spec_lookup, get_header, hview,
};
use crate::registry::{Registry, SessionRecord, SessionState};

verus! {

/// Session identifier assigned to a negotiated transport session.
pub const SESSION_ID: u32 = 47112344;

/// Stream name of a request URI: the final path segment, the bytes after
/// the last `/` (the whole URI when it has no `/`, empty when it ends in
/// `/`). An empty name never matches a registered stream.
pub open spec fn stream_name_of(u: Seq<u8>) -> Seq<u8>
    decreases u.len(),
{
    if u.len() == 0 {
        Seq::<u8>::empty()
    } else if u[u.len() - 1] == SLASH {
        Seq::<u8>::empty()
    } else {
        stream_name_of(u.drop_last()) + seq![u.last()]
    }
}

proof fn lemma_stream_name(u: Seq<u8>, i: int)
    requires
        0 <= i <= u.len(),
        forall|j: int| i <= j < u.len() ==> u[j] != SLASH,
        i > 0 ==> u[i - 1] == SLASH,
    ensures
        stream_name_of(u) == u.skip(i),
    decreases u.len(),
{
    if u.len() == 0 {
        assert(stream_name_of(u) =~= u.skip(i));
    } else if u[u.len() - 1] == SLASH {
        assert(i == u.len());
        assert(stream_name_of(u) =~= u.skip(i));
    } else {
        assert(i < u.len());
        lemma_stream_name(u.drop_last(), i);
        assert(stream_name_of(u.drop_last()) + seq![u.last()] =~= u.skip(i));
    }
}

/// Extracts the stream name from a request URI.
pub fn stream_name(uri: &[u8]) -> (v: Vec<u8>)
    ensures
        v@ == stream_name_of(uri@),
{
    let n = uri.len();
    let mut i = n;
    while i > 0 && uri[i - 1] != SLASH
        invariant
            0 <= i <= n,
            n == uri@.len(),
            forall|j: int| i <= j < n ==> uri@[j] != SLASH,
        decreases i,
    {
        i = i - 1;
    }
    proof {
        lemma_stream_name(uri@, i as int);
    }
    let v = subvec(uri, i, n);
    proof {
        assert(v@ =~= uri@.skip(i as int));
    }
    v
}

pub open spec fn client_port_key() -> Seq<u8> {
    "client_port=".spec_bytes()
}

/// Port read from one `client_port=` parameter: the digits before the first
/// `-` of the value, as a `u16`.
pub open spec fn spec_port_of_part(part: Seq<u8>) -> Option<u16> {
    let rest = part.skip(client_port_key().len() as int);
    let d = spec_find_byte(rest, 0, DASH);
    match spec_parse_dec(rest.take(d)) {
        Some(v) => if v <= u16::MAX {
            Some(v as u16)
        } else {
            None
        },
        None => None,
    }
}

/// The client's receiving port in a transport header: parameters are split
/// on `;`; the first one whose trimmed form starts with `client_port=`
/// decides; unknown parameters are ignored.
pub open spec fn spec_client_port(t: Seq<u8>, pos: int) -> Option<u16>
    decreases t.len() - pos,
    via spec_client_port_dec
{
    if pos < 0 || pos > t.len() {
        None
    } else {
        let e = spec_find_byte(t, pos, SEMI);
        let part = spec_trim(t.subrange(pos, e));
        if has_prefix(part, client_port_key()) {
            spec_port_of_part(part)
        } else if e < t.len() {
            spec_client_port(t, e + 1)
        } else {
            None
        }
    }
}

#[via_fn]
proof fn spec_client_port_dec(t: Seq<u8>, pos: int) {
    if 0 <= pos <= t.len() {
        lemma_find_byte(t, pos, SEMI);
    }
}

/// Reads the client's RTP port from a transport header value.
pub fn extract_rtp_port(t: &[u8]) -> (r: Option<u16>)
    ensures
        r == spec_client_port(t@, 0),
{
    let n = t.len();
    let mut pos: usize = 0;
    loop
        invariant
            0 <= pos <= n,
            n == t@.len(),
            spec_client_port(t@, 0) == spec_client_port(t@, pos as int),
        decreases n - pos,
    {
        let e = find_byte(t, pos, SEMI);
        proof {
            lemma_find_byte(t@, pos as int, SEMI);
        }
        let raw = subvec(t, pos, e);
        proof {
            assert(raw@ =~= t@.subrange(pos as int, e as int));
        }
        let part = trim(raw.as_slice());
        let key = "client_port=".as_bytes();
        if starts_with(part.as_slice(), key) {
            let rest = subvec(part.as_slice(), key.len(), part.len());
            proof {
                assert(rest@ =~= part@.skip(client_port_key().len() as int));
            }
            let d = find_byte(rest.as_slice(), 0, DASH);
            proof {
                lemma_find_byte(rest@, 0, DASH);
            }
            let digits = subvec(rest.as_slice(), 0, d);
            proof {
                assert(digits@ =~= rest@.take(d as int));
            }
            return parse_u16(digits.as_slice());
        }
        if e < n {
            pos = e + 1;
        } else {
            return None;
        }
    }
}

/// Model of what app-level transport work a dispatch decided: create a
/// delivery pusher towards the client's port, tear one down, or neither.
pub enum ActionModel {
    Keep,
    Create(Seq<u8>, u16),
    Remove(Seq<u8>),
}

/// Transport work the caller must perform after a dispatch: the engine
/// decides, the surrounding server creates or drops the actual pusher.
#[derive(Clone, Debug, PartialEq, Eq)]
pub enum TransportAction {
    Keep,
    Create(Vec<u8>, u16),
    Remove(Vec<u8>),
}

impl View for TransportAction {
    type V = ActionModel;

    open spec fn view(&self) -> ActionModel {
        match self {
            TransportAction::Keep => ActionModel::Keep,
            TransportAction::Create(n, p) => ActionModel::Create(n@, *p),
            TransportAction::Remove(n) => ActionModel::Remove(n@),
        }
    }
}

/// Model of a method outcome.
pub struct OutcomeModel {
    pub headers: Seq<(Seq<u8>, Seq<u8>)>,
    pub body: Option<Seq<u8>>,
    pub action: ActionModel,
}

/// Outcome of a dispatched method: its response headers and body, and the
/// transport action the caller owes. No headers and no body means failure.
#[derive(Clone, Debug, PartialEq, Eq)]
pub struct MethodOutcome {
    pub headers: Vec<(Vec<u8>, Vec<u8>)>,
    pub body: Option<Vec<u8>>,
    pub action: TransportAction,
}

impl View for MethodOutcome {
    type V = OutcomeModel;

    open spec fn view(&self) -> OutcomeModel {
        OutcomeModel {
            headers: hview(self.headers@),
            body: match self.body {
                Some(b) => Some(b@),
                None => None,
            },
            action: self.action@,
        }
    }
}

pub open spec fn transport_key() -> Seq<u8> {
    "Transport".spec_bytes()
}

pub open spec fn session_key() -> Seq<u8> {
    "Session".spec_bytes()
}

pub open spec fn options_body() -> Seq<u8> {
    "Public: OPTIONS, DESCRIBE, SETUP, TEARDOWN, PLAY, PAUSE".spec_bytes()
}

/// Session-description document advertising one H.264 video stream.
pub open spec fn sdp_body() -> Seq<u8> {
    "v=0\r\no=- 0 0 IN IP4 127.0.0.1\r\ns=Example Stream\r\nt=0 0\r\nm=video 0 RTP/AVP 96\r\na=rtpmap:96 H264/90000".spec_bytes()
}

pub open spec fn describe_headers() -> Seq<(Seq<u8>, Seq<u8>)> {
    seq![
        ("Content-Type".spec_bytes(), "application/sdp".spec_bytes()),
        ("Content-Length".spec_bytes(), dec_of(sdp_body().len() as int)),
    ]
}

pub open spec fn setup_headers(t: Seq<u8>) -> Seq<(Seq<u8>, Seq<u8>)> {
    seq![(session_key(), dec_of(SESSION_ID as int)), (transport_key(), t)]
}

pub open spec fn play_headers(id: u32) -> Seq<(Seq<u8>, Seq<u8>)> {
    seq![(session_key(), dec_of(id as int))]
}

/// The session record installed by a successful SETUP.
pub open spec fn ready_record(p: u16) -> SessionRecord {
    SessionRecord { port: p, state: SessionState::Ready, id: SESSION_ID }
}

/// The typed error a dispatch reports, if any: unknown stream first,
/// regardless of method; then the method-specific failures.
pub open spec fn spec_run_err(req: crate::codec::ReqModel, reg: Registry) -> Option<RtspError> {
    let name = stream_name_of(req.uri);
    if !reg.has_stream(name) {
        Some(RtspError::UnknownStream)
    } else {
        match req.method {
            MethodModel::Setup => match spec_lookup(req.headers, transport_key()) {
                None => Some(RtspError::MissingTransport),
                Some(t) => match spec_client_port(t, 0) {
                    None => Some(RtspError::InvalidTransportPort),
                    Some(_) => None,
                },
            },
            MethodModel::Play => if reg.session(name) is Some {
                None
            } else {
                Some(RtspError::NotSetUp)
            },
            _ => None,
        }
    }
}

/// Dispatches one request against the registry: checks the stream, runs the
/// method, and reports its typed failure or its outcome. The registry is
/// changed exactly as the state machine says: SETUP installs a ready
/// session, PLAY sets it playing, PAUSE sets it back to ready, TEARDOWN
/// removes it; every other stream's session is untouched.
pub fn run_method(req: &RtspRequest, reg: &mut Registry) -> (r: Result<MethodOutcome, RtspError>)
    requires
        old(reg).wf(),
    ensures
        final(reg).wf(),
        final(reg).streams@ == old(reg).streams@,
        ({
            let name = stream_name_of(req@.uri);
            match r {
                Err(e) => {
                    &&& final(reg).sessions@ == old(reg).sessions@
                    &&& spec_run_err(req@, *old(reg)) == Some(e)
                },
                Ok(out) => {
                    &&& spec_run_err(req@, *old(reg)) is None
                    &&& old(reg).has_stream(name)
                    &&& (match req@.method {
                        MethodModel::Options => {
                            &&& out@.headers == Seq::<(Seq<u8>, Seq<u8>)>::empty()
                            &&& out@.body == Some(options_body())
                            &&& out@.action == ActionModel::Keep
                            &&& final(reg).sessions@ == old(reg).sessions@
                        },
                        MethodModel::Describe => {
                            &&& out@.headers == describe_headers()
                            &&& out@.body == Some(sdp_body())
                            &&& out@.action == ActionModel::Keep
                            &&& final(reg).sessions@ == old(reg).sessions@
                        },
                        MethodModel::Setup => {
                            &&& (spec_lookup(req@.headers, transport_key()) matches Some(t)
                                && (out@.headers == setup_headers(t)
                                && (spec_client_port(t, 0) matches Some(p)
                                && (out@.action == ActionModel::Create(name, p)
                                && final(reg).session(name) == Some(ready_record(p))))))
                            &&& out@.body is None
                            &&& forall|k: Seq<u8>|
                                k != name ==> final(reg).session(k) == old(reg).session(k)
                        },
                        MethodModel::Play => {
                            &&& (old(reg).session(name) matches Some(rec)
                                && (out@.headers == play_headers(rec.id)
                                && final(reg).session(name) == Some(
                                SessionRecord {
                                    port: rec.port,
                                    state: SessionState::Playing,
                                    id: rec.id,
                                },
                            )))
                            &&& out@.body is None
                            &&& out@.action == ActionModel::Keep
                            &&& forall|k: Seq<u8>|
                                k != name ==> final(reg).session(k) == old(reg).session(k)
                        },
                        MethodModel::Pause => {
                            &&& out@.headers == Seq::<(Seq<u8>, Seq<u8>)>::empty()
                            &&& out@.body is None
                            &&& out@.action == ActionModel::Keep
                            &&& (match old(reg).session(name) {
                                None => final(reg).sessions@ == old(reg).sessions@,
                                Some(rec) => final(reg).session(name) == Some(
                                    SessionRecord {
                                        port: rec.port,
                                        state: SessionState::Ready,
                                        id: rec.id,
                                    },
                                ) && forall|k: Seq<u8>|
                                    k != name ==> final(reg).session(k) == old(reg).session(k),
                            })
                        },
                        MethodModel::Teardown => {
                            &&& out@.headers == Seq::<(Seq<u8>, Seq<u8>)>::empty()
                            &&& out@.body is None
                            &&& out@.action == ActionModel::Remove(name)
                            &&& final(reg).session(name) is None
                            &&& forall|k: Seq<u8>|
                                k != name ==> final(reg).session(k) == old(reg).session(k)
                        },
                        _ => {
                            &&& out@.headers == Seq::<(Seq<u8>, Seq<u8>)>::empty()
                            &&& out@.body is None
                            &&& out@.action == ActionModel::Keep
                            &&& final(reg).sessions@ == old(reg).sessions@
                        },
                    })
                },
            }
        }),
{
    let name = stream_name(req.uri.as_slice());
    if !reg.exists_stream(name.as_slice()) {
        return Err(RtspError::UnknownStream);
    }
    match &req.method {
        RtspMethod::Options => {
            let out = MethodOutcome {
                headers: Vec::new(),
                body: Some("Public: OPTIONS, DESCRIBE, SETUP, TEARDOWN, PLAY, PAUSE".as_bytes_vec()),
                action: TransportAction::Keep,
            };
            proof {
                assert(out@.headers =~= Seq::<(Seq<u8>, Seq<u8>)>::empty());
            }
            Ok(out)
        },
        RtspMethod::Describe => {
            let sdp =
                "v=0\r\no=- 0 0 IN IP4 127.0.0.1\r\ns=Example Stream\r\nt=0 0\r\nm=video 0 RTP/AVP 96\r\na=rtpmap:96 H264/90000".as_bytes_vec();
            let mut headers: Vec<(Vec<u8>, Vec<u8>)> = Vec::new();
            headers.push(("Content-Type".as_bytes_vec(), "application/sdp".as_bytes_vec()));
            headers.push(("Content-Length".as_bytes_vec(), u64_to_dec(sdp.len() as u64)));
            let out = MethodOutcome {
                headers,
                body: Some(sdp),
                action: TransportAction::Keep,
            };
            proof {
                assert(out@.headers =~= describe_headers());
            }
            Ok(out)
        },
        RtspMethod::Setup => {
            let t = match get_header(&req.headers, "Transport".as_bytes()) {
                None => {
                    return Err(RtspError::MissingTransport);
                },
                Some(t) => t,
            };
            let port = match extract_rtp_port(t.as_slice()) {
                None => {
                    return Err(RtspError::InvalidTransportPort);
                },
                Some(p) => p,
            };
            let rec = SessionRecord { port, state: SessionState::Ready, id: SESSION_ID };
            let set = reg.set_session(name.as_slice(), rec);
            proof {
                assert(set is Ok);
            }
            let mut headers: Vec<(Vec<u8>, Vec<u8>)> = Vec::new();
            headers.push(("Session".as_bytes_vec(), u64_to_dec(SESSION_ID as u64)));
            let echoed = subvec(t.as_slice(), 0, t.len());
            proof {
                assert(echoed@ =~= t@);
            }
            headers.push(("Transport".as_bytes_vec(), echoed));
            let out = MethodOutcome {
                headers,
                body: None,
                action: TransportAction::Create(name, port),
            };
            proof {
                assert(out@.headers =~= setup_headers(t@));
            }
            Ok(out)
        },
        RtspMethod::Play => {
            let rec = match reg.get_session(name.as_slice()) {
                None => {
                    return Err(RtspError::NotSetUp);
                },
                Some(rec) => rec,
            };
            let started = SessionRecord { port: rec.port, state: SessionState::Playing, id: rec.id };
            let set = reg.set_session(name.as_slice(), started);
            proof {
                assert(set is Ok);
            }
            let mut headers: Vec<(Vec<u8>, Vec<u8>)> = Vec::new();
            headers.push(("Session".as_bytes_vec(), u64_to_dec(rec.id as u64)));
            let out = MethodOutcome { headers, body: None, action: TransportAction::Keep };
            proof {
                assert(out@.headers =~= play_headers(rec.id));
            }
            Ok(out)
        },
        RtspMethod::Pause => {
            match reg.get_session(name.as_slice()) {
                None => {},
                Some(rec) => {
                    let paused = SessionRecord {
                        port: rec.port,
                        state: SessionState::Ready,
                        id: rec.id,
                    };
                    let set = reg.set_session(name.as_slice(), paused);
                    proof {
                        assert(set is Ok);
                    }
                },
            }
            let out = MethodOutcome {
                headers: Vec::new(),
                body: None,
                action: TransportAction::Keep,
            };
            proof {
                assert(out@.headers =~= Seq::<(Seq<u8>, Seq<u8>)>::empty());
            }
            Ok(out)
        },
        RtspMethod::Teardown => {
            reg.remove_session(name.as_slice());
            let out = MethodOutcome {
                headers: Vec::new(),
                body: None,
                action: TransportAction::Remove(name),
            };
            proof {
                assert(out@.headers =~= Seq::<(Seq<u8>, Seq<u8>)>::empty());
            }
            Ok(out)
        },
        _ => {
            let out = MethodOutcome {
                headers: Vec::new(),
                body: None,
                action: TransportAction::Keep,
            };
            proof {
                assert(out@.headers =~= Seq::<(Seq<u8>, Seq<u8>)>::empty());
            }
            Ok(out)
        },
    }
}

/// A well-formed generic failure response: 400 Bad Request carrying the
/// originating CSeq, no headers, no body.
pub fn bad_request(cseq: u32) -> (r: RtspResponse)
    ensures
        r.status == 400,
        r@.reason == "Bad Request".spec_bytes(),
        r.cseq == cseq,
        r@.headers == Seq::<(Seq<u8>, Seq<u8>)>::empty(),
        r@.body is None,
{
    let r = RtspResponse {
        status: 400,
        reason: "Bad Request".as_bytes_vec(),
        cseq,
        headers: Vec::new(),
        body: None,
    };
    proof {
        assert(r@.headers =~= Seq::<(Seq<u8>, Seq<u8>)>::empty());
    }
    r
}

/// Handles one parsed request: runs the method and turns its outcome into
/// a response. Every response echoes the request's CSeq. A typed failure,
/// or a method that produced neither headers nor body, yields 400 Bad
/// Request; anything else yields 200 OK with the outcome's headers and
/// body. The returned action is the transport work the caller owes.
pub fn handle_request(req: &RtspRequest, reg: &mut Registry) -> (r: (RtspResponse, TransportAction))
    requires
        old(reg).wf(),
    ensures
        final(reg).wf(),
        final(reg).streams@ == old(reg).streams@,
        r.0.cseq == req.cseq,
        r.0.status == 200 || r.0.status == 400,
        ({
            let name = stream_name_of(req@.uri);
            &&& (spec_run_err(req@, *old(reg)) is Some ==> r.0.status == 400
                && final(reg).sessions@ == old(reg).sessions@ && (r.1@ == ActionModel::Keep))
            &&& (!old(reg).has_stream(name) ==> r.0.status == 400)
            &&& (r.0.status == 400 ==> r.0@.reason == "Bad Request".spec_bytes() && r.0@.headers
                == Seq::<(Seq<u8>, Seq<u8>)>::empty() && r.0@.body is None)
            &&& (r.0.status == 200 ==> r.0@.reason == "OK".spec_bytes())
            &&& (spec_run_err(req@, *old(reg)) is None && old(reg).has_stream(name) ==> (
            match req@.method {
                MethodModel::Options => {
                    &&& r.0.status == 200
                    &&& r.0@.headers == Seq::<(Seq<u8>, Seq<u8>)>::empty()
                    &&& r.0@.body == Some(options_body())
                    &&& final(reg).sessions@ == old(reg).sessions@
                },
                MethodModel::Describe => {
                    &&& r.0.status == 200
                    &&& r.0@.headers == describe_headers()
                    &&& r.0@.body == Some(sdp_body())
                    &&& final(reg).sessions@ == old(reg).sessions@
                },
                MethodModel::Setup => {
                    &&& r.0.status == 200
                    &&& (spec_lookup(req@.headers, transport_key()) matches Some(t)
                        && (r.0@.headers == setup_headers(t)
                        && (spec_client_port(t, 0) matches Some(p)
                        && ((r.1@ == ActionModel::Create(name, p))
                        && final(reg).session(name) == Some(ready_record(p))))))
                    &&& r.0@.body is None
                    &&& forall|k: Seq<u8>|
                        k != name ==> final(reg).session(k) == old(reg).session(k)
                },
                MethodModel::Play => {
                    &&& r.0.status == 200
                    &&& (old(reg).session(name) matches Some(rec)
                        && (r.0@.headers == play_headers(rec.id)
                        && final(reg).session(name) == Some(
                        SessionRecord {
                            port: rec.port,
                            state: SessionState::Playing,
                            id: rec.id,
                        },
                    )))
                    &&& r.0@.body is None
                    &&& r.1@ == ActionModel::Keep
                    &&& forall|k: Seq<u8>|
                        k != name ==> final(reg).session(k) == old(reg).session(k)
                },
                MethodModel::Pause => {
                    &&& r.0.status == 400
                    &&& r.1@ == ActionModel::Keep
                    &&& (match old(reg).session(name) {
                        None => final(reg).sessions@ == old(reg).sessions@,
                        Some(rec) => final(reg).session(name) == Some(
                            SessionRecord {
                                port: rec.port,
                                state: SessionState::Ready,
                                id: rec.id,
                            },
                        ) && forall|k: Seq<u8>|
                            k != name ==> final(reg).session(k) == old(reg).session(k),
                    })
                },
                MethodModel::Teardown => {
                    &&& r.0.status == 400
                    &&& r.1@ == ActionModel::Remove(name)
                    &&& final(reg).session(name) is None
                    &&& forall|k: Seq<u8>|
                        k != name ==> final(reg).session(k) == old(reg).session(k)
                },
                _ => {
                    &&& r.0.status == 400
                    &&& r.1@ == ActionModel::Keep
                    &&& final(reg).sessions@ == old(reg).sessions@
                },
            }))
        }),
{
    match run_method(req, reg) {
        Err(_) => (bad_request(req.cseq), TransportAction::Keep),
        Ok(out) => {
            proof {
                assert(out@.headers.len() == out.headers@.len());
            }
            if out.headers.len() == 0 && out.body.is_none() {
                (bad_request(req.cseq), out.action)
            } else {
                let resp = RtspResponse {
                    status: 200,
                    reason: "OK".as_bytes_vec(),
                    cseq: req.cseq,
                    headers: out.headers,
                    body: out.body,
                };
                (resp, out.action)
            }
        },
    }
}

} // verus!
