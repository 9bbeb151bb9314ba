//! Laws of the message codec: a serialized request parses back to the same
//! method, URI, version, CSeq and headers, and a request without a usable
//! `CSeq` is always rejected.
use vstd::prelude::*;
use vstd::string::StringSliceAdditionalSpecFns;
use crate::bytes::{
    CR, LF, SP, COLON, is_ws_byte, crlf_at, spec_find_crlf, spec_trim, is_trimmed,
    dec_of, lemma_find_crlf_unique, lemma_find_byte_unique, lemma_find_ws_unique,
    lemma_find_ws_none, lemma_trim_of_trimmed, lemma_dec_roundtrip,
    ws_run_end, ws_back_start,
};
use crate::codec::{
    RtspError, MethodModel, ReqModel, spec_parse, spec_ser_request, spec_ser_headers,
    spec_headers_from, spec_tokens_from, spec_lookup, spec_method_of, spec_token_of, cseq_key,
    crlf, tok_options, tok_describe, tok_setup, tok_play, tok_pause, tok_teardown, tok_announce,
    tok_record, tok_redirect,
};

verus! {

/// Every byte of `s` from `i` on is free of CR and LF, of whitespace when
/// `ban_ws`, and of `:` when `ban_colon`.
pub open spec fn clean_from(s: Seq<u8>, i: int, ban_ws: bool, ban_colon: bool) -> bool
    decreases s.len() - i,
{
    if i < 0 || i >= s.len() {
        true
    } else {
        &&& s[i] != CR
        &&& s[i] != LF
        &&& (ban_ws ==> !is_ws_byte(s[i]))
        &&& (ban_colon ==> s[i] != COLON)
        &&& clean_from(s, i + 1, ban_ws, ban_colon)
    }
}

proof fn lemma_clean_pointwise(s: Seq<u8>, i: int, ban_ws: bool, ban_colon: bool)
    requires
        0 <= i,
        clean_from(s, i, ban_ws, ban_colon),
    ensures
        forall|j: int|
            i <= j < s.len() ==> (s[j] != CR && s[j] != LF && (ban_ws ==> !is_ws_byte(s[j])) && (
            ban_colon ==> s[j] != COLON)),
    decreases s.len() - i,
{
    if i < s.len() {
        lemma_clean_pointwise(s, i + 1, ban_ws, ban_colon);
    }
}

/// A request-line token that survives the wire: nonempty, no line breaks,
/// no whitespace.
pub open spec fn token_valid(t: Seq<u8>) -> bool {
    t.len() > 0 && clean_from(t, 0, true, false)
}

/// A header name that survives the wire: no line breaks, no colon, and
/// already trimmed.
pub open spec fn key_valid(k: Seq<u8>) -> bool {
    clean_from(k, 0, false, true) && is_trimmed(k)
}

/// A header value that survives the wire: no line breaks, already trimmed.
pub open spec fn value_valid(v: Seq<u8>) -> bool {
    clean_from(v, 0, false, false) && is_trimmed(v)
}

pub open spec fn headers_valid(hs: Seq<(Seq<u8>, Seq<u8>)>) -> bool {
    forall|i: int| 0 <= i < hs.len() ==> key_valid(#[trigger] hs[i].0) && value_valid(hs[i].1)
}

/// An `Unknown` method must carry a clean token that is not one of the
/// recognised ones; the recognised methods carry their own fixed tokens.
pub open spec fn method_valid(m: MethodModel) -> bool {
    match m {
        MethodModel::Unknown(t) => {
            &&& token_valid(t)
            &&& t != tok_options()
            &&& t != tok_describe()
            &&& t != tok_setup()
            &&& t != tok_play()
            &&& t != tok_pause()
            &&& t != tok_teardown()
            &&& t != tok_announce()
            &&& t != tok_record()
            &&& t != tok_redirect()
        },
        _ => true,
    }
}

/// A request that can be put on the wire and read back: clean tokens and
/// headers, and a `CSeq` header that carries exactly its sequence number.
pub open spec fn req_valid(x: ReqModel) -> bool {
    &&& method_valid(x.method)
    &&& token_valid(x.uri)
    &&& token_valid(x.version)
    &&& headers_valid(x.headers)
    &&& spec_lookup(x.headers, cseq_key()) == Some(dec_of(x.cseq as int))
}

proof fn lemma_crlf_bytes()
    ensures
        crlf().len() == 2,
        crlf()[0] == CR,
        crlf()[1] == LF,
{
}

proof fn lemma_method_literals_ascii()
    ensures
        vstd::string::is_ascii("OPTIONS"),
        vstd::string::is_ascii("DESCRIBE"),
        vstd::string::is_ascii("SETUP"),
        vstd::string::is_ascii("PLAY"),
        vstd::string::is_ascii("PAUSE"),
        vstd::string::is_ascii("TEARDOWN"),
        vstd::string::is_ascii("ANNOUNCE"),
        vstd::string::is_ascii("RECORD"),
        vstd::string::is_ascii("REDIRECT"),
{
    reveal_strlit("OPTIONS");
    reveal_strlit("DESCRIBE");
    reveal_strlit("SETUP");
    reveal_strlit("PLAY");
    reveal_strlit("PAUSE");
    reveal_strlit("TEARDOWN");
    reveal_strlit("ANNOUNCE");
    reveal_strlit("RECORD");
    reveal_strlit("REDIRECT");
}

/// The nine recognised method tokens are clean request-line tokens.
proof fn lemma_known_token_valid(m: MethodModel)
    requires
        !(m is Unknown),
    ensures
        token_valid(spec_token_of(m)),
{
    lemma_method_literals_ascii();
    reveal_strlit("OPTIONS");
    reveal_strlit("DESCRIBE");
    reveal_strlit("SETUP");
    reveal_strlit("PLAY");
    reveal_strlit("PAUSE");
    reveal_strlit("TEARDOWN");
    reveal_strlit("ANNOUNCE");
    reveal_strlit("RECORD");
    reveal_strlit("REDIRECT");
    broadcast use vstd::string::is_ascii_spec_bytes;

    reveal_with_fuel(clean_from, 10);
    assert(token_valid(tok_options()));
    assert(token_valid(tok_describe()));
    assert(token_valid(tok_setup()));
    assert(token_valid(tok_play()));
    assert(token_valid(tok_pause()));
    assert(token_valid(tok_teardown()));
    assert(token_valid(tok_announce()));
    assert(token_valid(tok_record()));
    assert(token_valid(tok_redirect()));
}

/// Reading a serialized method token back gives the method: the recognised
/// tokens are pairwise distinct, and a valid unknown token matches none of
/// them.
proof fn lemma_method_roundtrip(m: MethodModel)
    requires
        method_valid(m),
    ensures
        spec_method_of(spec_token_of(m)) == m,
{
    lemma_method_literals_ascii();
    reveal_strlit("OPTIONS");
    reveal_strlit("DESCRIBE");
    reveal_strlit("SETUP");
    reveal_strlit("PLAY");
    reveal_strlit("PAUSE");
    reveal_strlit("TEARDOWN");
    reveal_strlit("ANNOUNCE");
    reveal_strlit("RECORD");
    reveal_strlit("REDIRECT");
    broadcast use vstd::string::is_ascii_spec_bytes;

    assert(tok_options().len() == 7 && tok_options()[0] == 79);
    assert(tok_describe().len() == 8 && tok_describe()[0] == 68);
    assert(tok_setup().len() == 5 && tok_setup()[0] == 83);
    assert(tok_play().len() == 4 && tok_play()[0] == 80);
    assert(tok_pause().len() == 5 && tok_pause()[0] == 80);
    assert(tok_teardown().len() == 8 && tok_teardown()[0] == 84);
    assert(tok_announce().len() == 8 && tok_announce()[0] == 65);
    assert(tok_record().len() == 6 && tok_record()[0] == 82);
    assert(tok_redirect().len() == 8 && tok_redirect()[0] == 82);
    assert(tok_redirect()[1] == 69 && tok_record()[1] == 69 && tok_redirect()[2] == 68
        && tok_record()[2] == 67);
}

/// The first CRLF of a text that starts with a CR-free line is the line's
/// terminator.
proof fn lemma_first_crlf_of_line(s: Seq<u8>, pos: int, a: Seq<u8>)
    requires
        0 <= pos,
        pos + a.len() + 2 <= s.len(),
        forall|j: int| 0 <= j < a.len() ==> s[pos + j] == a[j],
        forall|j: int| 0 <= j < a.len() ==> a[j] != CR,
        s[pos + a.len()] == CR,
        s[pos + a.len() + 1] == LF,
    ensures
        spec_find_crlf(s, pos) == pos + a.len(),
{
    assert(crlf_at(s, pos + a.len()));
    assert forall|j: int| pos <= j < pos + a.len() implies !crlf_at(s, j) by {
        assert(s[j] == a[j - pos]);
    }
    lemma_find_crlf_unique(s, pos, pos + a.len());
}

/// Tokenizing `a SP b SP c` gives exactly the three tokens back.
proof fn lemma_line_tokens(a: Seq<u8>, b: Seq<u8>, c: Seq<u8>)
    requires
        token_valid(a),
        token_valid(b),
        token_valid(c),
    ensures
        spec_tokens_from(a + seq![SP] + b + seq![SP] + c, 0) == seq![a, b, c],
{
    let l = a + seq![SP] + b + seq![SP] + c;
    let la = a.len() as int;
    let lb = b.len() as int;
    let p1 = la + 1;
    let p2 = la + 1 + lb;
    let p3 = la + 2 + lb;
    lemma_clean_pointwise(a, 0, true, false);
    lemma_clean_pointwise(b, 0, true, false);
    lemma_clean_pointwise(c, 0, true, false);
    assert(forall|j: int| 0 <= j < la ==> l[j] == a[j]);
    assert(l[la] == SP);
    assert(forall|j: int| 0 <= j < lb ==> l[p1 + j] == b[j]);
    assert(l[p2] == SP);
    assert(forall|j: int| 0 <= j < c.len() ==> l[p3 + j] == c[j]);
    lemma_find_ws_unique(l, 0, la);
    assert(spec_tokens_from(l, 0) == seq![l.subrange(0, la)] + spec_tokens_from(l, la));
    assert(l.subrange(0, la) =~= a);
    assert(spec_tokens_from(l, la) == spec_tokens_from(l, p1));
    lemma_find_ws_unique(l, p1, p2);
    assert(spec_tokens_from(l, p1) == seq![l.subrange(p1, p2)] + spec_tokens_from(l, p2));
    assert(l.subrange(p1, p2) =~= b);
    assert(spec_tokens_from(l, p2) == spec_tokens_from(l, p3));
    lemma_find_ws_none(l, p3);
    assert(spec_tokens_from(l, p3) == seq![l.subrange(p3, l.len() as int)] + spec_tokens_from(
        l,
        l.len() as int,
    ));
    assert(l.subrange(p3, l.len() as int) =~= c);
    assert(spec_tokens_from(l, l.len() as int) == Seq::<Seq<u8>>::empty());
    assert(seq![a] + (seq![b] + (seq![c] + Seq::<Seq<u8>>::empty())) =~= seq![a, b, c]);
}

/// Trimming a value serialized after the separating space gives the value.
proof fn lemma_trim_sp(v: Seq<u8>)
    requires
        is_trimmed(v),
    ensures
        spec_trim(seq![SP] + v) == v,
{
    let w = seq![SP] + v;
    assert(is_ws_byte(w[0]));
    if v.len() == 0 {
        assert(ws_run_end(w, 0) == ws_run_end(w, 1));
        assert(ws_back_start(w, 1) == ws_back_start(w, 0));
        assert(spec_trim(w) =~= v);
    } else {
        assert(w[1] == v[0]);
        assert(ws_run_end(w, 0) == ws_run_end(w, 1));
        assert(ws_run_end(w, 1) == 1);
        assert(w[w.len() - 1] == v[v.len() - 1]);
        assert(ws_back_start(w, w.len() as int) == w.len());
        assert(spec_trim(w) =~= v);
    }
}

/// Reading the header section of a serialized header list gives the list
/// back, and the body starts right after the blank line.
proof fn lemma_headers_roundtrip(s: Seq<u8>, pos: int, hs: Seq<(Seq<u8>, Seq<u8>)>, body: Seq<u8>)
    requires
        0 <= pos <= s.len(),
        s.skip(pos) == spec_ser_headers(hs) + crlf() + body,
        headers_valid(hs),
    ensures
        spec_headers_from(s, pos).0 == hs,
        spec_headers_from(s, pos).1 == pos + spec_ser_headers(hs).len() + 2,
    decreases hs.len(),
{
    let tail = s.skip(pos);
    lemma_crlf_bytes();
    assert(forall|q: int| 0 <= q < tail.len() ==> s[pos + q] == tail[q]);
    if hs.len() == 0 {
        assert(spec_ser_headers(hs).len() == 0);
        assert(tail[0] == CR && tail[1] == LF);
        assert(crlf_at(s, pos));
        lemma_find_crlf_unique(s, pos, pos);
        assert(spec_headers_from(s, pos).0 =~= hs);
    } else {
        let k = hs[0].0;
        let v = hs[0].1;
        let hline = k + seq![COLON, SP] + v;
        let ll = hline.len() as int;
        assert(key_valid(k) && value_valid(v));
        lemma_clean_pointwise(k, 0, false, true);
        lemma_clean_pointwise(v, 0, false, false);
        assert(spec_ser_headers(hs) =~= hline + crlf() + spec_ser_headers(hs.skip(1)));
        assert(forall|j: int| 0 <= j < ll ==> tail[j] == hline[j]);
        assert forall|j: int| pos <= j < pos + ll implies s[j] != CR by {
            let q = j - pos;
            assert(s[j] == hline[q]);
            if q < k.len() {
                assert(hline[q] == k[q]);
            } else if q >= k.len() + 2 {
                assert(hline[q] == v[q - k.len() - 2]);
            }
        }
        assert(spec_ser_headers(hs).len() == ll + 2 + spec_ser_headers(hs.skip(1)).len());
        assert(spec_ser_headers(hs)[ll] == crlf()[0]);
        assert(spec_ser_headers(hs)[ll + 1] == crlf()[1]);
        assert(s[pos + ll] == tail[ll] && s[pos + ll + 1] == tail[ll + 1]);
        assert(s[pos + ll] == CR && s[pos + ll + 1] == LF);
        assert(tail.len() == spec_ser_headers(hs).len() + 2 + body.len());
        assert(pos + ll + 2 <= s.len());
        assert(crlf_at(s, pos + ll));
        assert forall|j: int| pos <= j < pos + ll implies !crlf_at(s, j) by {
            assert(s[j] != CR);
        }
        lemma_find_crlf_unique(s, pos, pos + ll);
        let line = s.subrange(pos, pos + ll);
        assert(line =~= hline);
        assert(line[k.len() as int] == COLON);
        assert forall|j: int| 0 <= j < k.len() implies line[j] != COLON by {
            assert(line[j] == k[j]);
        }
        lemma_find_byte_unique(line, 0, COLON, k.len() as int);
        assert(line.take(k.len() as int) =~= k);
        assert(line.skip(k.len() as int + 1) =~= seq![SP] + v);
        lemma_trim_of_trimmed(k);
        lemma_trim_sp(v);
        let nxt = pos + ll + 2;
        assert(tail =~= (hline + crlf()) + (spec_ser_headers(hs.skip(1)) + crlf() + body));
        assert(tail.skip(ll + 2) =~= spec_ser_headers(hs.skip(1)) + crlf() + body);
        assert(s.skip(nxt) =~= tail.skip(ll + 2));
        assert(s.skip(nxt) =~= spec_ser_headers(hs.skip(1)) + crlf() + body);
        assert(headers_valid(hs.skip(1))) by {
            assert(forall|i: int|
                0 <= i < hs.skip(1).len() ==> #[trigger] hs.skip(1)[i] == hs[i + 1]);
        }
        lemma_headers_roundtrip(s, nxt, hs.skip(1), body);
        assert(spec_headers_from(s, pos).0 =~= seq![(k, v)] + spec_headers_from(s, nxt).0);
        assert(seq![(k, v)] + hs.skip(1) =~= hs);
    }
}

/// For every valid request, parsing its serialized text gives back the
/// method, URI, version, CSeq, and the headers (as the same sequence of
/// pairs, hence also as an equal mapping).
pub proof fn lemma_parse_serialize_roundtrip(x: ReqModel)
    requires
        req_valid(x),
    ensures
        spec_parse(spec_ser_request(x)) is Ok,
        spec_parse(spec_ser_request(x))->Ok_0.method == x.method,
        spec_parse(spec_ser_request(x))->Ok_0.uri == x.uri,
        spec_parse(spec_ser_request(x))->Ok_0.version == x.version,
        spec_parse(spec_ser_request(x))->Ok_0.cseq == x.cseq,
        spec_parse(spec_ser_request(x))->Ok_0.headers == x.headers,
{
    let tok = spec_token_of(x.method);
    if !(x.method is Unknown) {
        lemma_known_token_valid(x.method);
    }
    assert(token_valid(tok));
    let a = tok + seq![SP] + x.uri + seq![SP] + x.version;
    let hsection = spec_ser_headers(x.headers);
    let bodyseq = (match x.body {
        Some(b) => b,
        None => Seq::<u8>::empty(),
    });
    let s = spec_ser_request(x);
    assert(s =~= a + crlf() + (hsection + crlf() + bodyseq));
    let la = a.len() as int;
    lemma_clean_pointwise(tok, 0, true, false);
    lemma_clean_pointwise(x.uri, 0, true, false);
    lemma_clean_pointwise(x.version, 0, true, false);
    assert forall|j: int| 0 <= j < la implies a[j] != CR by {
        if j < tok.len() {
            assert(a[j] == tok[j]);
        } else if j == tok.len() {
            assert(a[j] == SP);
        } else if j < tok.len() + 1 + x.uri.len() {
            assert(a[j] == x.uri[j - tok.len() - 1]);
        } else if j == tok.len() + 1 + x.uri.len() {
            assert(a[j] == SP);
        } else {
            assert(a[j] == x.version[j - tok.len() - 2 - x.uri.len()]);
        }
    }
    assert(forall|j: int| 0 <= j < la ==> s[j] == a[j]);
    assert(s[la] == CR && s[la + 1] == LF);
    lemma_first_crlf_of_line(s, 0, a);
    assert(spec_find_crlf(s, 0) == la);
    assert(s.take(la) =~= a);
    lemma_line_tokens(tok, x.uri, x.version);
    lemma_method_roundtrip(x.method);
    let hstart = la + 2;
    assert(s.skip(hstart) =~= hsection + crlf() + bodyseq);
    lemma_headers_roundtrip(s, hstart, x.headers, bodyseq);
    lemma_dec_roundtrip(x.cseq as int);
}

/// A request whose header section carries no usable `CSeq` is rejected with
/// `MissingOrInvalidCSeq`, whatever else it holds, as long as its request
/// line is well formed.
pub proof fn lemma_missing_cseq_rejected(s: Seq<u8>)
    requires
        spec_tokens_from(s.take(spec_find_crlf(s, 0)), 0).len() >= 3,
        ({
            let e0 = spec_find_crlf(s, 0);
            let hstart = if e0 < s.len() {
                e0 + 2
            } else {
                s.len() as int
            };
            spec_lookup(spec_headers_from(s, hstart).0, cseq_key()) is None
        }),
    ensures
        spec_parse(s) == Err::<ReqModel, RtspError>(RtspError::MissingOrInvalidCSeq),
{
}

} // verus!
