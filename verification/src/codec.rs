//! Message codec: parses a raw RTSP request text into a structured request
//! and serializes structured requests and responses back to wire text.
//! Pure byte-level logic; the wire text is modelled as a `Seq<u8>`.
use vstd::prelude::*;
use vstd::string::StringSliceAdditionalSpecFns;
use crate::bytes::{
    CR, LF, SP, COLON, is_ws_byte, spec_find_crlf, spec_find_byte, spec_find_ws,
    spec_trim, spec_parse_dec, dec_of, find_crlf, find_byte, find_ws, trim, subvec, bytes_eq,
    parse_u32, u32_to_dec, lemma_find_ws,
};

verus! {

/// Protocol-level error taxonomy: parse-time and dispatch-time failures.
#[derive(Clone, Copy, Debug, PartialEq, Eq, Structural)]
pub enum RtspError {
    MalformedRequestLine,
    MissingOrInvalidCSeq,
    UnknownStream,
    MissingTransport,
    InvalidTransportPort,
    NotSetUp,
}

/// Mathematical model of a request method.
pub enum MethodModel {
    Options,
    Describe,
    Setup,
    Play,
    Pause,
    Teardown,
    Announce,
    Record,
    Redirect,
    Unknown(Seq<u8>),
}

/// Request method; unrecognized tokens are preserved, not rejected.
#[derive(Clone, Debug, PartialEq, Eq)]
pub enum RtspMethod {
    Options,
    Describe,
    Setup,
    Play,
    Pause,
    Teardown,
    Announce,
    Record,
    Redirect,
    Unknown(Vec<u8>),
}

impl View for RtspMethod {
    type V = MethodModel;

    open spec fn view(&self) -> MethodModel {
        match self {
            RtspMethod::Options => MethodModel::Options,
            RtspMethod::Describe => MethodModel::Describe,
            RtspMethod::Setup => MethodModel::Setup,
            RtspMethod::Play => MethodModel::Play,
            RtspMethod::Pause => MethodModel::Pause,
            RtspMethod::Teardown => MethodModel::Teardown,
            RtspMethod::Announce => MethodModel::Announce,
            RtspMethod::Record => MethodModel::Record,
            RtspMethod::Redirect => MethodModel::Redirect,
            RtspMethod::Unknown(s) => MethodModel::Unknown(s@),
        }
    }
}

/// View of a header list: each name/value pair as byte sequences, in order.
pub open spec fn hview(hs: Seq<(Vec<u8>, Vec<u8>)>) -> Seq<(Seq<u8>, Seq<u8>)> {
    hs.map_values(|p: (Vec<u8>, Vec<u8>)| (p.0@, p.1@))
}

/// Mathematical model of a parsed request.
#[verifier::ext_equal]
pub struct ReqModel {
    pub method: MethodModel,
    pub uri: Seq<u8>,
    pub version: Seq<u8>,
    pub cseq: u32,
    pub headers: Seq<(Seq<u8>, Seq<u8>)>,
    pub body: Option<Seq<u8>>,
}

/// A parsed request: method, URI, protocol version, mandatory CSeq, header
/// mapping (case-sensitive names, last write wins), optional body.
#[derive(Clone, Debug, PartialEq, Eq)]
pub struct RtspRequest {
    pub method: RtspMethod,
    pub uri: Vec<u8>,
    pub version: Vec<u8>,
    pub cseq: u32,
    pub headers: Vec<(Vec<u8>, Vec<u8>)>,
    pub body: Option<Vec<u8>>,
}

impl View for RtspRequest {
    type V = ReqModel;

    open spec fn view(&self) -> ReqModel {
        ReqModel {
            method: self.method@,
            uri: self.uri@,
            version: self.version@,
            cseq: self.cseq,
            headers: hview(self.headers@),
            body: match self.body {
                Some(b) => Some(b@),
                None => None,
            },
        }
    }
}

/// Mathematical model of a response.
#[verifier::ext_equal]
pub struct RespModel {
    pub status: u16,
    pub reason: Seq<u8>,
    pub cseq: u32,
    pub headers: Seq<(Seq<u8>, Seq<u8>)>,
    pub body: Option<Seq<u8>>,
}

/// A response: status line, echoed CSeq, ordered headers, optional body.
#[derive(Clone, Debug, PartialEq, Eq)]
pub struct RtspResponse {
    pub status: u16,
    pub reason: Vec<u8>,
    pub cseq: u32,
    pub headers: Vec<(Vec<u8>, Vec<u8>)>,
    pub body: Option<Vec<u8>>,
}

impl View for RtspResponse {
    type V = RespModel;

    open spec fn view(&self) -> RespModel {
        RespModel {
            status: self.status,
            reason: self.reason@,
            cseq: self.cseq,
            headers: hview(self.headers@),
            body: match self.body {
                Some(b) => Some(b@),
                None => None,
            },
        }
    }
}

pub open spec fn crlf() -> Seq<u8> {
    seq![CR, LF]
}

pub open spec fn tok_options() -> Seq<u8> {
    "OPTIONS".spec_bytes()
}

pub open spec fn tok_describe() -> Seq<u8> {
    "DESCRIBE".spec_bytes()
}

pub open spec fn tok_setup() -> Seq<u8> {
    "SETUP".spec_bytes()
}

pub open spec fn tok_play() -> Seq<u8> {
    "PLAY".spec_bytes()
}

pub open spec fn tok_pause() -> Seq<u8> {
    "PAUSE".spec_bytes()
}

pub open spec fn tok_teardown() -> Seq<u8> {
    "TEARDOWN".spec_bytes()
}

pub open spec fn tok_announce() -> Seq<u8> {
    "ANNOUNCE".spec_bytes()
}

pub open spec fn tok_record() -> Seq<u8> {
    "RECORD".spec_bytes()
}

pub open spec fn tok_redirect() -> Seq<u8> {
    "REDIRECT".spec_bytes()
}

pub open spec fn cseq_key() -> Seq<u8> {
    "CSeq".spec_bytes()
}

/// Method of a request-line token: exact, case-sensitive match, with a
/// fallback that preserves the raw token.
pub open spec fn spec_method_of(t: Seq<u8>) -> MethodModel {
    if t == tok_options() {
        MethodModel::Options
    } else if t == tok_describe() {
        MethodModel::Describe
    } else if t == tok_setup() {
        MethodModel::Setup
    } else if t == tok_play() {
        MethodModel::Play
    } else if t == tok_pause() {
        MethodModel::Pause
    } else if t == tok_teardown() {
        MethodModel::Teardown
    } else if t == tok_announce() {
        MethodModel::Announce
    } else if t == tok_record() {
        MethodModel::Record
    } else if t == tok_redirect() {
        MethodModel::Redirect
    } else {
        MethodModel::Unknown(t)
    }
}

/// Wire token of a method.
pub open spec fn spec_token_of(m: MethodModel) -> Seq<u8> {
    match m {
        MethodModel::Options => tok_options(),
        MethodModel::Describe => tok_describe(),
        MethodModel::Setup => tok_setup(),
        MethodModel::Play => tok_play(),
        MethodModel::Pause => tok_pause(),
        MethodModel::Teardown => tok_teardown(),
        MethodModel::Announce => tok_announce(),
        MethodModel::Record => tok_record(),
        MethodModel::Redirect => tok_redirect(),
        MethodModel::Unknown(s) => s,
    }
}

pub fn parse_method(t: &[u8]) -> (m: RtspMethod)
    ensures
        m@ == spec_method_of(t@),
{
    if bytes_eq(t, "OPTIONS".as_bytes()) {
        RtspMethod::Options
    } else if bytes_eq(t, "DESCRIBE".as_bytes()) {
        RtspMethod::Describe
    } else if bytes_eq(t, "SETUP".as_bytes()) {
        RtspMethod::Setup
    } else if bytes_eq(t, "PLAY".as_bytes()) {
        RtspMethod::Play
    } else if bytes_eq(t, "PAUSE".as_bytes()) {
        RtspMethod::Pause
    } else if bytes_eq(t, "TEARDOWN".as_bytes()) {
        RtspMethod::Teardown
    } else if bytes_eq(t, "ANNOUNCE".as_bytes()) {
        RtspMethod::Announce
    } else if bytes_eq(t, "RECORD".as_bytes()) {
        RtspMethod::Record
    } else if bytes_eq(t, "REDIRECT".as_bytes()) {
        RtspMethod::Redirect
    } else {
        let c = subvec(t, 0, t.len());
        proof {
            assert(c@ =~= t@);
        }
        RtspMethod::Unknown(c)
    }
}

pub fn serialize_method(m: &RtspMethod) -> (v: Vec<u8>)
    ensures
        v@ == spec_token_of(m@),
{
    match m {
        RtspMethod::Options => "OPTIONS".as_bytes_vec(),
        RtspMethod::Describe => "DESCRIBE".as_bytes_vec(),
        RtspMethod::Setup => "SETUP".as_bytes_vec(),
        RtspMethod::Play => "PLAY".as_bytes_vec(),
        RtspMethod::Pause => "PAUSE".as_bytes_vec(),
        RtspMethod::Teardown => "TEARDOWN".as_bytes_vec(),
        RtspMethod::Announce => "ANNOUNCE".as_bytes_vec(),
        RtspMethod::Record => "RECORD".as_bytes_vec(),
        RtspMethod::Redirect => "REDIRECT".as_bytes_vec(),
        RtspMethod::Unknown(s) => {
            let c = subvec(s.as_slice(), 0, s.len());
            proof {
                assert(c@ =~= s@);
            }
            c
        },
    }
}

impl core::str::FromStr for RtspMethod {
    type Err = ();

    fn from_str(s: &str) -> Result<RtspMethod, ()> {
        Ok(parse_method(s.as_bytes()))
    }
}

/// Value of the last header whose name is `k`, if any: later duplicates
/// overwrite earlier ones.
pub open spec fn spec_lookup(hs: Seq<(Seq<u8>, Seq<u8>)>, k: Seq<u8>) -> Option<Seq<u8>>
    decreases hs.len(),
{
    if hs.len() == 0 {
        None
    } else if hs.last().0 == k {
        Some(hs.last().1)
    } else {
        spec_lookup(hs.drop_last(), k)
    }
}

pub fn get_header(hs: &Vec<(Vec<u8>, Vec<u8>)>, k: &[u8]) -> (r: Option<Vec<u8>>)
    ensures
        (match r {
            Some(v) => spec_lookup(hview(hs@), k@) == Some(v@),
            None => spec_lookup(hview(hs@), k@) is None,
        }),
{
    let mut i = hs.len();
    proof {
        assert(hview(hs@).take(hs@.len() as int) =~= hview(hs@));
    }
    loop
        invariant
            0 <= i <= hs@.len(),
            spec_lookup(hview(hs@), k@) == spec_lookup(hview(hs@).take(i as int), k@),
        ensures
            spec_lookup(hview(hs@), k@) is None,
        decreases i,
    {
        if i == 0 {
            break;
        }
        if bytes_eq(hs[i - 1].0.as_slice(), k) {
            let v = subvec(hs[i - 1].1.as_slice(), 0, hs[i - 1].1.len());
            proof {
                assert(hview(hs@).take(i as int).last() == (hs@[i - 1].0@, hs@[i - 1].1@));
                assert(v@ =~= hs@[i - 1].1@);
            }
            return Some(v);
        }
        proof {
            assert(hview(hs@).take(i as int).drop_last() =~= hview(hs@).take(i - 1));
        }
        i = i - 1;
    }
    None
}

/// Serialized form of a header list: one `name: value` line per pair.
pub open spec fn spec_ser_headers(hs: Seq<(Seq<u8>, Seq<u8>)>) -> Seq<u8>
    decreases hs.len(),
{
    if hs.len() == 0 {
        Seq::<u8>::empty()
    } else {
        hs[0].0 + seq![COLON, SP] + hs[0].1 + crlf() + spec_ser_headers(hs.skip(1))
    }
}

/// Serialized form of a request: request line, headers, blank line, body.
pub open spec fn spec_ser_request(r: ReqModel) -> Seq<u8> {
    spec_token_of(r.method) + seq![SP] + r.uri + seq![SP] + r.version + crlf()
        + spec_ser_headers(r.headers) + crlf() + (match r.body {
        Some(b) => b,
        None => Seq::<u8>::empty(),
    })
}

/// Serialized form of a response: status line, CSeq echoed from the request,
/// remaining headers, blank line, body.
pub open spec fn spec_ser_response(r: RespModel) -> Seq<u8> {
    "RTSP/1.0".spec_bytes() + seq![SP] + dec_of(r.status as int) + seq![SP] + r.reason + crlf()
        + cseq_key() + seq![COLON, SP] + dec_of(r.cseq as int) + crlf()
        + spec_ser_headers(r.headers) + crlf() + (match r.body {
        Some(b) => b,
        None => Seq::<u8>::empty(),
    })
}

fn append_bytes(out: &mut Vec<u8>, s: &[u8])
    ensures
        final(out)@ == old(out)@ + s@,
{
    let n = s.len();
    let mut i: usize = 0;
    while i < n
        invariant
            0 <= i <= n,
            n == s@.len(),
            out@ == old(out)@ + s@.take(i as int),
        decreases n - i,
    {
        out.push(s[i]);
        i = i + 1;
        assert(out@ =~= old(out)@ + s@.take(i as int));
    }
    assert(out@ =~= old(out)@ + s@);
}

/// Appends one `name: value` header line.
fn append_header_line(out: &mut Vec<u8>, k: &[u8], v: &[u8])
    ensures
        final(out)@ == old(out)@ + k@ + seq![COLON, SP] + v@ + crlf(),
{
    append_bytes(out, k);
    out.push(COLON);
    out.push(SP);
    append_bytes(out, v);
    out.push(CR);
    out.push(LF);
    assert(out@ =~= old(out)@ + k@ + seq![COLON, SP] + v@ + crlf());
}

fn append_headers(out: &mut Vec<u8>, hs: &Vec<(Vec<u8>, Vec<u8>)>)
    ensures
        final(out)@ == old(out)@ + spec_ser_headers(hview(hs@)),
{
    let n = hs.len();
    let mut i: usize = 0;
    proof {
        assert(hview(hs@).skip(0) =~= hview(hs@));
    }
    while i < n
        invariant
            0 <= i <= n,
            n == hs@.len(),
            out@ + spec_ser_headers(hview(hs@).skip(i as int)) == old(out)@ + spec_ser_headers(
                hview(hs@),
            ),
        decreases n - i,
    {
        let ghost pre = out@;
        append_header_line(out, hs[i].0.as_slice(), hs[i].1.as_slice());
        proof {
            let hv = hview(hs@);
            assert(hv.skip(i as int)[0] == (hs@[i as int].0@, hs@[i as int].1@));
            assert(hv.skip(i as int).skip(1) =~= hv.skip(i + 1));
            assert(spec_ser_headers(hv.skip(i as int)) == hv.skip(i as int)[0].0 + seq![COLON, SP]
                + hv.skip(i as int)[0].1 + crlf() + spec_ser_headers(hv.skip(i + 1)));
            assert(out@ + spec_ser_headers(hv.skip(i + 1)) =~= pre + spec_ser_headers(
                hv.skip(i as int),
            ));
        }
        i = i + 1;
    }
    proof {
        assert(hview(hs@).skip(n as int) =~= Seq::<(Seq<u8>, Seq<u8>)>::empty());
        assert(out@ =~= out@ + spec_ser_headers(hview(hs@).skip(n as int)));
    }
}

/// Serializes a request to wire text. Byte-stable: the output is a function
/// of the request value alone.
pub fn serialize_request(r: &RtspRequest) -> (out: Vec<u8>)
    ensures
        out@ == spec_ser_request(r@),
{
    let mut out: Vec<u8> = Vec::new();
    let tok = serialize_method(&r.method);
    append_bytes(&mut out, tok.as_slice());
    out.push(SP);
    append_bytes(&mut out, r.uri.as_slice());
    out.push(SP);
    append_bytes(&mut out, r.version.as_slice());
    out.push(CR);
    out.push(LF);
    assert(out@ =~= spec_token_of(r.method@) + seq![SP] + r.uri@ + seq![SP] + r.version@ + crlf());
    append_headers(&mut out, &r.headers);
    out.push(CR);
    out.push(LF);
    match &r.body {
        Some(b) => append_bytes(&mut out, b.as_slice()),
        None => {},
    }
    assert(out@ =~= spec_ser_request(r@));
    out
}

/// Serializes a response to wire text: status line, `CSeq`, headers, blank
/// line, body. Byte-stable for identical input.
pub fn serialize_response(r: &RtspResponse) -> (out: Vec<u8>)
    ensures
        out@ == spec_ser_response(r@),
{
    let mut out: Vec<u8> = Vec::new();
    append_bytes(&mut out, "RTSP/1.0".as_bytes());
    out.push(SP);
    let st = u32_to_dec(r.status as u32);
    append_bytes(&mut out, st.as_slice());
    out.push(SP);
    append_bytes(&mut out, r.reason.as_slice());
    out.push(CR);
    out.push(LF);
    append_bytes(&mut out, "CSeq".as_bytes());
    out.push(COLON);
    out.push(SP);
    let cs = u32_to_dec(r.cseq);
    append_bytes(&mut out, cs.as_slice());
    out.push(CR);
    out.push(LF);
    assert(out@ =~= "RTSP/1.0".spec_bytes() + seq![SP] + dec_of(r.status as int) + seq![SP]
        + r.reason@ + crlf() + cseq_key() + seq![COLON, SP] + dec_of(r.cseq as int) + crlf());
    append_headers(&mut out, &r.headers);
    out.push(CR);
    out.push(LF);
    match &r.body {
        Some(b) => append_bytes(&mut out, b.as_slice()),
        None => {},
    }
    assert(out@ =~= spec_ser_response(r@));
    out
}

/// Header section of `s` from position `pos`: the parsed name/value pairs
/// and the position where the body starts. Lines run to the next CRLF (or
/// the end of text); a line without a colon is skipped; the first empty
/// line ends the section.
pub open spec fn spec_headers_from(s: Seq<u8>, pos: int) -> (Seq<(Seq<u8>, Seq<u8>)>, int)
    decreases s.len() - pos,
    via spec_headers_from_dec
{
    if pos < 0 || pos >= s.len() {
        (Seq::<(Seq<u8>, Seq<u8>)>::empty(), s.len() as int)
    } else {
        let e = spec_find_crlf(s, pos);
        if e == pos {
            (Seq::<(Seq<u8>, Seq<u8>)>::empty(), pos + 2)
        } else {
            let line = s.subrange(pos, e);
            let nxt = if e < s.len() {
                e + 2
            } else {
                s.len() as int
            };
            let rest = spec_headers_from(s, nxt);
            let c = spec_find_byte(line, 0, COLON);
            if c == line.len() {
                rest
            } else {
                (
                    seq![(spec_trim(line.take(c)), spec_trim(line.skip(c + 1)))] + rest.0,
                    rest.1,
                )
            }
        }
    }
}

#[via_fn]
proof fn spec_headers_from_dec(s: Seq<u8>, pos: int) {
    if 0 <= pos < s.len() {
        crate::bytes::lemma_find_crlf(s, pos);
    }
}

/// Whitespace-separated tokens of `l` starting at `i`.
pub open spec fn spec_tokens_from(l: Seq<u8>, i: int) -> Seq<Seq<u8>>
    decreases l.len() - i,
    via spec_tokens_from_dec
{
    if i < 0 || i >= l.len() {
        Seq::<Seq<u8>>::empty()
    } else if is_ws_byte(l[i]) {
        spec_tokens_from(l, i + 1)
    } else {
        let e = spec_find_ws(l, i);
        let e2 = if e <= i {
            i + 1
        } else {
            e
        };
        seq![l.subrange(i, e2)] + spec_tokens_from(l, e2)
    }
}

#[via_fn]
proof fn spec_tokens_from_dec(l: Seq<u8>, i: int) {
    if 0 <= i < l.len() {
        lemma_find_ws(l, i);
    }
}

/// The parse function, specified: request line split on whitespace into at
/// least three tokens, headers until the first empty line, mandatory `CSeq`
/// read as a `u32`, remaining bytes as the body (absent when empty).
pub open spec fn spec_parse(s: Seq<u8>) -> Result<ReqModel, RtspError> {
    let e0 = spec_find_crlf(s, 0);
    let line0 = s.take(e0);
    let toks = spec_tokens_from(line0, 0);
    if toks.len() < 3 {
        Err(RtspError::MalformedRequestLine)
    } else {
        let hstart = if e0 < s.len() {
            e0 + 2
        } else {
            s.len() as int
        };
        let hb = spec_headers_from(s, hstart);
        match spec_lookup(hb.0, cseq_key()) {
            None => Err(RtspError::MissingOrInvalidCSeq),
            Some(v) => match spec_parse_dec(v) {
                Some(n) => if n <= u32::MAX {
                    Ok(
                        ReqModel {
                            method: spec_method_of(toks[0]),
                            uri: toks[1],
                            version: toks[2],
                            cseq: n as u32,
                            headers: hb.0,
                            body: if hb.1 < s.len() {
                                Some(s.skip(hb.1))
                            } else {
                                None
                            },
                        },
                    )
                } else {
                    Err(RtspError::MissingOrInvalidCSeq)
                },
                None => Err(RtspError::MissingOrInvalidCSeq),
            },
        }
    }
}

/// Start and end of the next whitespace-separated token at or after `i`,
/// or nothing when only whitespace remains.
fn next_token(l: &[u8], i: usize) -> (r: Option<(usize, usize)>)
    requires
        i <= l@.len(),
    ensures
        (match r {
            None => spec_tokens_from(l@, i as int) == Seq::<Seq<u8>>::empty(),
            Some((a, b)) => {
                &&& i <= a < b <= l@.len()
                &&& spec_tokens_from(l@, i as int) == seq![l@.subrange(a as int, b as int)]
                    + spec_tokens_from(l@, b as int)
            },
        }),
{
    let n = l.len();
    let mut j = i;
    while j < n && (l[j] == SP || l[j] == crate::bytes::HTAB)
        invariant
            i <= j <= n,
            n == l@.len(),
            spec_tokens_from(l@, i as int) == spec_tokens_from(l@, j as int),
        decreases n - j,
    {
        j = j + 1;
    }
    if j >= n {
        return None;
    }
    let e = find_ws(l, j);
    proof {
        lemma_find_ws(l@, j as int);
    }
    Some((j, e))
}

/// Parses wire text into a structured request. Fails with
/// `MalformedRequestLine` when the request line has fewer than three
/// tokens, and with `MissingOrInvalidCSeq` when the `CSeq` header is
/// absent or not an unsigned 32-bit decimal.
pub fn parse_request(input: &[u8]) -> (r: Result<RtspRequest, RtspError>)
    ensures
        (match r {
            Ok(req) => spec_parse(input@) == Ok::<ReqModel, RtspError>(req@),
            Err(e) => spec_parse(input@) == Err::<ReqModel, RtspError>(e),
        }),
{
    let n = input.len();
    let e0 = find_crlf(input, 0);
    proof {
        crate::bytes::lemma_find_crlf(input@, 0);
    }
    let line0 = subvec(input, 0, e0);
    proof {
        assert(line0@ =~= input@.take(e0 as int));
    }
    let t0 = next_token(line0.as_slice(), 0);
    let (a0, b0) = match t0 {
        None => {
            return Err(RtspError::MalformedRequestLine);
        },
        Some(p) => p,
    };
    let t1 = next_token(line0.as_slice(), b0);
    let (a1, b1) = match t1 {
        None => {
            return Err(RtspError::MalformedRequestLine);
        },
        Some(p) => p,
    };
    let t2 = next_token(line0.as_slice(), b1);
    let (a2, b2) = match t2 {
        None => {
            return Err(RtspError::MalformedRequestLine);
        },
        Some(p) => p,
    };
    proof {
        let toks = spec_tokens_from(line0@, 0);
        assert(toks[0] == line0@.subrange(a0 as int, b0 as int));
        assert(toks[1] == line0@.subrange(a1 as int, b1 as int));
        assert(toks[2] == line0@.subrange(a2 as int, b2 as int));
        assert(toks.len() >= 3);
    }
    let method_tok = subvec(line0.as_slice(), a0, b0);
    let uri = subvec(line0.as_slice(), a1, b1);
    let version = subvec(line0.as_slice(), a2, b2);
    let method = parse_method(method_tok.as_slice());

    let hstart: usize = if e0 < n {
        e0 + 2
    } else {
        n
    };
    let mut hs: Vec<(Vec<u8>, Vec<u8>)> = Vec::new();
    let mut pos = hstart;
    let mut body_start: usize = n;
    loop
        invariant_except_break
            hstart <= pos <= n,
            n == input@.len(),
            body_start == n,
            spec_headers_from(input@, hstart as int).0 == hview(hs@) + spec_headers_from(
                input@,
                pos as int,
            ).0,
            spec_headers_from(input@, hstart as int).1 == spec_headers_from(input@, pos as int).1,
        ensures
            hview(hs@) == spec_headers_from(input@, hstart as int).0,
            body_start == spec_headers_from(input@, hstart as int).1,
            body_start <= n,
        decreases n - pos,
    {
        if pos >= n {
            proof {
                assert(hview(hs@) =~= hview(hs@) + spec_headers_from(input@, pos as int).0);
            }
            break;
        }
        let e = find_crlf(input, pos);
        proof {
            crate::bytes::lemma_find_crlf(input@, pos as int);
        }
        if e == pos {
            body_start = pos + 2;
            proof {
                assert(hview(hs@) =~= hview(hs@) + spec_headers_from(input@, pos as int).0);
            }
            break;
        }
        let line = subvec(input, pos, e);
        proof {
            assert(line@ =~= input@.subrange(pos as int, e as int));
        }
        let c = find_byte(line.as_slice(), 0, COLON);
        proof {
            crate::bytes::lemma_find_byte(line@, 0, COLON);
        }
        if c < line.len() {
            let key_raw = subvec(line.as_slice(), 0, c);
            let val_raw = subvec(line.as_slice(), c + 1, line.len());
            let key = trim(key_raw.as_slice());
            let val = trim(val_raw.as_slice());
            proof {
                assert(key_raw@ =~= line@.take(c as int));
                assert(val_raw@ =~= line@.skip(c + 1));
            }
            hs.push((key, val));
            proof {
                assert(hview(hs@) =~= hview(hs@.drop_last()) + seq![
                    (spec_trim(line@.take(c as int)), spec_trim(line@.skip(c + 1))),
                ]);
            }
        }
        pos = if e < n {
            e + 2
        } else {
            n
        };
    }

    let cseq_vec = get_header(&hs, "CSeq".as_bytes());
    let cseq: u32 = match cseq_vec {
        None => {
            return Err(RtspError::MissingOrInvalidCSeq);
        },
        Some(v) => match parse_u32(v.as_slice()) {
            None => {
                return Err(RtspError::MissingOrInvalidCSeq);
            },
            Some(c) => c,
        },
    };

    let body: Option<Vec<u8>> = if body_start < n {
        let b = subvec(input, body_start, n);
        proof {
            assert(b@ =~= input@.skip(body_start as int));
        }
        Some(b)
    } else {
        None
    };
    let req = RtspRequest { method, uri, version, cseq, headers: hs, body };
    proof {
        let m = spec_parse(input@)->Ok_0;
        assert(req@ =~= m);
    }
    Ok(req)
}

impl core::str::FromStr for RtspRequest {
    type Err = RtspError;

    fn from_str(s: &str) -> Result<RtspRequest, RtspError> {
        parse_request(s.as_bytes())
    }
}

} // verus!
