//! The request decoder: reads the head (request line and header
//! fields) up to the blank line, validates it, and selects the body
//! framing (fixed length or chunked).

use vstd::prelude::*;
use vstd::slice::{slice_subrange, slice_to_vec};

use crate::ascii::{
    all_digits, all_tchars, dec_value, lower, lower_vec, bytes_eq, parse_dec, SP,
};
use crate::body::Body;
use crate::chunked::{decode_chunked, spec_decode_chunked, ChunkedOutcome, SpecChunked};
use crate::headers::{spec_get, Headers};
use crate::names::{
    chunked_bytes, content_length_bytes, host_bytes, http10_bytes, http11_bytes, identity_bytes,
    spec_chunked, spec_content_length, spec_continue_expect, spec_expect, spec_host, spec_http10,
    spec_http11, spec_identity, spec_transfer_encoding, transfer_encoding_bytes,
};
use crate::parse::{
    find_byte, find_crlf, find_crlfcrlf, is_token, lemma_find_byte_props, lemma_find_crlf_props,
    lemma_find_crlfcrlf_props, parse_header_line, spec_find_byte, spec_find_crlf,
    spec_find_crlfcrlf, spec_header_line,
};
use crate::request::{spec_target_parts, Request, Uri, Version};

verus! {

/// A failure while decoding a request. `ConnectionLost` and
/// `HttpUnsupportedTransferEncoding` close the connection; every other
/// kind turns into a response and the connection goes on.
#[derive(Debug)]
pub enum DecodeFail {
    /// The underlying stream failed.
    ConnectionLost(String),
    /// The head does not follow the message grammar.
    HttpMalformedHead,
    /// A transfer coding other than `chunked` or `identity` was asked
    /// for. Closes the connection.
    HttpUnsupportedTransferEncoding,
    /// No `Host` header field.
    HttpNoHost,
    /// A `Content-Length` value that is not a plain number.
    HttpInvalidContentLength,
    /// The request target is not a supported form.
    HttpRequestBuild,
    /// The peer speaks HTTP/1.0.
    Http10NotSupported,
}

/// A `Content-Length` value the decoder accepts: a number that fits.
pub open spec fn valid_content_length(v: Seq<u8>) -> bool {
    v.len() > 0 && all_digits(v) && dec_value(v) <= usize::MAX
}

/// A `Transfer-Encoding` value the decoder accepts.
pub open spec fn valid_transfer_encoding(v: Seq<u8>) -> bool {
    lower(v) == spec_chunked() || lower(v) == spec_identity()
}

/// The validated head of a request.
pub struct SpecHead {
    /// The method token.
    pub method: Seq<u8>,
    /// The literal request target.
    pub target: Seq<u8>,
    /// The header fields, in order, names lowercased.
    pub headers: Seq<(Seq<u8>, Seq<u8>)>,
    /// The resolved body length: the last `Content-Length`, or zero.
    pub content_length: int,
    /// Whether the last `Transfer-Encoding` says `chunked`.
    pub chunked: bool,
}

/// What decoding a connection prefix yields in the abstract.
pub enum SpecDecode {
    /// No complete head: the connection is done.
    Eof,
    /// A validation failure, and the bytes consumed up to it.
    Fail(DecodeFail, int),
    /// A request: its head, body payload, trailers (for chunked
    /// bodies), whether the body broke off, and the bytes consumed.
    Req(SpecHead, Seq<u8>, Option<Seq<(Seq<u8>, Seq<u8>)>>, bool, int),
}

/// Reading of the request line: method token, target, and a version
/// that must be HTTP/1.1 (HTTP/1.0 is refused in its own way).
pub open spec fn spec_request_line(line: Seq<u8>) -> Result<(Seq<u8>, Seq<u8>), DecodeFail> {
    match spec_find_byte(line, SP) {
        None => Err(DecodeFail::HttpMalformedHead),
        Some(s1) => {
            let method = line.take(s1);
            let rest = line.skip(s1 + 1);
            if !(method.len() > 0 && all_tchars(method)) {
                Err(DecodeFail::HttpMalformedHead)
            } else {
                match spec_find_byte(rest, SP) {
                    None => Err(DecodeFail::HttpMalformedHead),
                    Some(s2) => {
                        let target = rest.take(s2);
                        let version = rest.skip(s2 + 1);
                        if target.len() == 0 {
                            Err(DecodeFail::HttpMalformedHead)
                        } else if version == spec_http11() {
                            Ok((method, target))
                        } else if version == spec_http10() {
                            Err(DecodeFail::Http10NotSupported)
                        } else {
                            Err(DecodeFail::HttpMalformedHead)
                        }
                    },
                }
            }
        },
    }
}

/// Reading of the header section: `name: value` lines up to the blank
/// line that ends the head.
pub open spec fn spec_parse_headers(s: Seq<u8>) -> Option<Seq<(Seq<u8>, Seq<u8>)>>
    decreases s.len(),
{
    match spec_find_crlf(s) {
        None => None,
        Some(le) => if !(0 <= le && le + 2 <= s.len()) {
            None
        } else if le == 0 {
            if s.len() == 2 {
                Some(Seq::empty())
            } else {
                None
            }
        } else {
            match spec_header_line(s.take(le)) {
                None => None,
                Some(entry) => match spec_parse_headers(s.skip(le + 2)) {
                    None => None,
                    Some(t) => Some(seq![entry] + t),
                },
            }
        },
    }
}

/// The first header field the validation refuses, walking in order: a
/// bad `Content-Length`, or an unsupported `Transfer-Encoding`.
pub open spec fn spec_first_bad(entries: Seq<(Seq<u8>, Seq<u8>)>) -> Option<DecodeFail>
    decreases entries.len(),
{
    if entries.len() == 0 {
        None
    } else {
        let e = entries[0];
        if e.0 == spec_content_length() && !valid_content_length(e.1) {
            Some(DecodeFail::HttpInvalidContentLength)
        } else if e.0 == spec_transfer_encoding() && !valid_transfer_encoding(e.1) {
            Some(DecodeFail::HttpUnsupportedTransferEncoding)
        } else {
            spec_first_bad(entries.drop_first())
        }
    }
}

/// The resolved body length: the last `Content-Length` value wins;
/// absent one, zero.
pub open spec fn spec_content_length_of(entries: Seq<(Seq<u8>, Seq<u8>)>) -> int
    decreases entries.len(),
{
    if entries.len() == 0 {
        0
    } else if entries.last().0 == spec_content_length() {
        dec_value(entries.last().1) as int
    } else {
        spec_content_length_of(entries.drop_last())
    }
}

/// A resolved body length is never negative.
pub proof fn lemma_content_length_nonneg(entries: Seq<(Seq<u8>, Seq<u8>)>)
    ensures
        spec_content_length_of(entries) >= 0,
    decreases entries.len(),
{
    if entries.len() > 0 && !(entries.last().0 == spec_content_length()) {
        lemma_content_length_nonneg(entries.drop_last());
    }
}

/// Whether the last `Transfer-Encoding` field says `chunked`.
pub open spec fn spec_is_chunked(entries: Seq<(Seq<u8>, Seq<u8>)>) -> bool
    decreases entries.len(),
{
    if entries.len() == 0 {
        false
    } else if entries.last().0 == spec_transfer_encoding() {
        lower(entries.last().1) == spec_chunked()
    } else {
        spec_is_chunked(entries.drop_last())
    }
}

/// Whether the head asks for a 100 Continue interim response.
pub open spec fn spec_expect_continue(entries: Seq<(Seq<u8>, Seq<u8>)>) -> bool {
    spec_get(entries, spec_expect()) == Some(spec_continue_expect())
}

/// Reading and validation of a complete head (ending in CRLFCRLF).
pub open spec fn spec_parse_head(h: Seq<u8>) -> Result<SpecHead, DecodeFail> {
    match spec_find_crlf(h) {
        None => Err(DecodeFail::HttpMalformedHead),
        Some(le1) => if !(0 <= le1 && le1 + 2 <= h.len()) {
            Err(DecodeFail::HttpMalformedHead)
        } else {
            match spec_request_line(h.take(le1)) {
                Err(k) => Err(k),
                Ok((method, target)) => match spec_parse_headers(h.skip(le1 + 2)) {
                    None => Err(DecodeFail::HttpMalformedHead),
                    Some(entries) => match spec_first_bad(entries) {
                        Some(k) => Err(k),
                        None => if spec_get(entries, spec_content_length()) is Some
                            && spec_is_chunked(entries) {
                            // Both framings at once is the known ambiguity of
                            // the protocol; the safe reading is to refuse it.
                            Err(DecodeFail::HttpInvalidContentLength)
                        } else if spec_get(entries, spec_host()) is None {
                            Err(DecodeFail::HttpNoHost)
                        } else if spec_target_parts(target) is None {
                            Err(DecodeFail::HttpRequestBuild)
                        } else {
                            Ok(
                                SpecHead {
                                    method,
                                    target,
                                    headers: entries,
                                    content_length: spec_content_length_of(entries),
                                    chunked: spec_is_chunked(entries),
                                },
                            )
                        },
                    },
                },
            }
        },
    }
}

/// Decoding of a connection prefix: find the head, validate it, then
/// take the body as the framing directs. A fixed-length body takes what
/// is there up to the advertised length; a chunked body that cannot be
/// completed is marked broken and the rest of the input is given up.
pub open spec fn spec_decode(input: Seq<u8>) -> SpecDecode {
    match spec_find_crlfcrlf(input) {
        None => SpecDecode::Eof,
        Some(he) => if !(0 <= he && he + 4 <= input.len()) {
            SpecDecode::Eof
        } else {
            let head = input.take(he + 4);
            match spec_parse_head(head) {
                Err(k) => SpecDecode::Fail(k, he + 4),
                Ok(sh) => if sh.chunked {
                    match spec_decode_chunked(input.skip(he + 4)) {
                        SpecChunked::Done { payload, trailers, consumed } => SpecDecode::Req(
                            sh,
                            payload,
                            Some(trailers),
                            false,
                            he + 4 + consumed,
                        ),
                        SpecChunked::More => SpecDecode::Req(
                            sh,
                            Seq::empty(),
                            None,
                            true,
                            input.len() as int,
                        ),
                        SpecChunked::Bad => SpecDecode::Req(
                            sh,
                            Seq::empty(),
                            None,
                            true,
                            input.len() as int,
                        ),
                    }
                } else {
                    let avail = input.len() - (he + 4);
                    let tk = if sh.content_length <= avail {
                        sh.content_length
                    } else {
                        avail
                    };
                    SpecDecode::Req(
                        sh,
                        input.subrange(he + 4, he + 4 + tk),
                        None,
                        false,
                        he + 4 + tk,
                    )
                },
            }
        },
    }
}

/// The validated pieces of a head as the decoder hands them on.
pub(crate) struct HeadParts {
    pub(crate) method: Vec<u8>,
    pub(crate) uri: Uri,
    pub(crate) headers: Headers,
    pub(crate) content_length: usize,
    pub(crate) chunked: bool,
}

/// The abstract option that lifts accumulated entries over the rest of
/// the header section.
pub open spec fn lift_headers(
    acc: Seq<(Seq<u8>, Seq<u8>)>,
    r: Option<Seq<(Seq<u8>, Seq<u8>)>>,
) -> Option<Seq<(Seq<u8>, Seq<u8>)>> {
    match r {
        Some(t) => Some(acc + t),
        None => None,
    }
}

/// Read the request line: method token, target, version.
fn parse_request_line(line: &[u8]) -> (r: Result<(Vec<u8>, Vec<u8>), DecodeFail>)
    ensures
        match r {
            Ok(p) => spec_request_line(line@) == Result::<(Seq<u8>, Seq<u8>), DecodeFail>::Ok(
                (p.0@, p.1@),
            ) && p.0@.len() > 0 && all_tchars(p.0@),
            Err(k) => spec_request_line(line@) == Result::<(Seq<u8>, Seq<u8>), DecodeFail>::Err(k),
        },
{
    let s1 = match find_byte(line, SP) {
        None => {
            return Err(DecodeFail::HttpMalformedHead);
        },
        Some(x) => x,
    };
    proof {
        lemma_find_byte_props(line@, SP);
    }
    let method_slice = slice_subrange(line, 0, s1);
    proof {
        assert(method_slice@ =~= line@.take(s1 as int));
    }
    if !is_token(method_slice) {
        return Err(DecodeFail::HttpMalformedHead);
    }
    let method = slice_to_vec(method_slice);
    let nl = line.len();
    assert(s1 < nl);
    let rest = slice_subrange(line, s1 + 1, nl);
    proof {
        assert(rest@ =~= line@.skip(s1 + 1));
    }
    let s2 = match find_byte(rest, SP) {
        None => {
            return Err(DecodeFail::HttpMalformedHead);
        },
        Some(x) => x,
    };
    proof {
        lemma_find_byte_props(rest@, SP);
    }
    let target_slice = slice_subrange(rest, 0, s2);
    proof {
        assert(target_slice@ =~= rest@.take(s2 as int));
    }
    if target_slice.len() == 0 {
        return Err(DecodeFail::HttpMalformedHead);
    }
    let version = slice_subrange(rest, s2 + 1, rest.len());
    proof {
        assert(version@ =~= rest@.skip(s2 + 1));
    }
    let h11 = http11_bytes();
    if bytes_eq(version, h11.as_slice()) {
        let target = slice_to_vec(target_slice);
        Ok((method, target))
    } else {
        let h10 = http10_bytes();
        if bytes_eq(version, h10.as_slice()) {
            Err(DecodeFail::Http10NotSupported)
        } else {
            Err(DecodeFail::HttpMalformedHead)
        }
    }
}

/// Read the header section: lines up to the blank line that must end
/// the section.
pub(crate) fn parse_header_section(s: &[u8]) -> (r: Option<Headers>)
    ensures
        match r {
            Some(hs) => spec_parse_headers(s@) == Some(hs@) && hs.wf(),
            None => spec_parse_headers(s@) is None,
        },
{
    let n = s.len();
    let mut headers = Headers::new();
    let mut pos: usize = 0;
    proof {
        assert(s@.skip(0) =~= s@);
        assert(lift_headers(headers@, spec_parse_headers(s@)) == spec_parse_headers(s@));
    }
    loop
        invariant
            0 <= pos <= n,
            n == s@.len(),
            headers.wf(),
            spec_parse_headers(s@) == lift_headers(
                headers@,
                spec_parse_headers(s@.skip(pos as int)),
            ),
        ensures
            headers.wf(),
            spec_parse_headers(s@) == Some(headers@),
        decreases n - pos,
    {
        let rem = slice_subrange(s, pos, n);
        proof {
            assert(rem@ =~= s@.skip(pos as int));
        }
        let le = match find_crlf(rem) {
            None => {
                return None;
            },
            Some(x) => x,
        };
        proof {
            lemma_find_crlf_props(rem@);
        }
        if le == 0 {
            if rem.len() == 2 {
                proof {
                    assert(spec_parse_headers(rem@) == Some(Seq::<(Seq<u8>, Seq<u8>)>::empty()));
                    assert(headers@ + Seq::<(Seq<u8>, Seq<u8>)>::empty() =~= headers@);
                }
                break ;
            } else {
                return None;
            }
        }
        let hline = slice_subrange(rem, 0, le);
        proof {
            assert(hline@ =~= rem@.take(le as int));
        }
        let (name, value) = match parse_header_line(hline) {
            None => {
                return None;
            },
            Some(p) => p,
        };
        proof {
            match spec_find_byte(hline@, crate::ascii::COLON) {
                Some(ci) => {
                    crate::headers::lemma_lower_tchars(hline@.take(ci));
                },
                None => {
                    assert(false);
                },
            }
            assert(lower(name@) == name@);
        }
        let ghost entry = (name@, value@);
        let ghost old_acc = headers@;
        headers.append(name.as_slice(), value);
        pos = pos + le + 2;
        proof {
            assert(rem@.skip(le + 2) =~= s@.skip(pos as int));
            assert(spec_parse_headers(rem@) == (match spec_parse_headers(s@.skip(pos as int)) {
                None => None::<Seq<(Seq<u8>, Seq<u8>)>>,
                Some(t) => Some(seq![entry] + t),
            }));
            match spec_parse_headers(s@.skip(pos as int)) {
                None => {},
                Some(t) => {
                    assert(old_acc + (seq![entry] + t) =~= (old_acc.push(entry)) + t);
                },
            }
        }
    }
    Some(headers)
}

/// Walk the validated fields: the last `Content-Length` and
/// `Transfer-Encoding` win; the first bad one stops the decode.
fn scan_fields(headers: &Headers) -> (r: Result<(usize, bool), DecodeFail>)
    ensures
        match r {
            Ok(p) => spec_first_bad(headers@) is None && p.0 as int == spec_content_length_of(
                headers@,
            ) && p.1 == spec_is_chunked(headers@),
            Err(k) => spec_first_bad(headers@) == Some(k),
        },
{
    let cl_name = content_length_bytes();
    let te_name = transfer_encoding_bytes();
    let chunked_tok = chunked_bytes();
    let identity_tok = identity_bytes();
    let m = headers.len();
    let mut i: usize = 0;
    let mut cl: usize = 0;
    let mut chunked = false;
    proof {
        assert(headers@.skip(0) =~= headers@);
        assert(headers@.take(0int) =~= Seq::<(Seq<u8>, Seq<u8>)>::empty());
    }
    while i < m
        invariant
            0 <= i <= m,
            m == headers@.len(),
            cl_name@ == spec_content_length(),
            te_name@ == spec_transfer_encoding(),
            chunked_tok@ == spec_chunked(),
            identity_tok@ == spec_identity(),
            spec_first_bad(headers@) == spec_first_bad(headers@.skip(i as int)),
            cl as int == spec_content_length_of(headers@.take(i as int)),
            chunked == spec_is_chunked(headers@.take(i as int)),
        decreases m - i,
    {
        proof {
            assert(headers@.skip(i as int)[0] == headers@[i as int]);
            assert(headers@.skip(i as int).drop_first() =~= headers@.skip(i + 1));
            assert(headers@.take(i + 1).drop_last() =~= headers@.take(i as int));
            assert(headers@.take(i + 1).last() == headers@[i as int]);
        }
        let name = headers.name_at(i);
        if bytes_eq(name.as_slice(), cl_name.as_slice()) {
            let value = headers.value_at(i);
            match parse_dec(value.as_slice()) {
                None => {
                    return Err(DecodeFail::HttpInvalidContentLength);
                },
                Some(v) => {
                    cl = v;
                },
            }
        } else if bytes_eq(name.as_slice(), te_name.as_slice()) {
            let value = headers.value_at(i);
            let lv = lower_vec(value.as_slice());
            if bytes_eq(lv.as_slice(), chunked_tok.as_slice()) {
                chunked = true;
            } else if bytes_eq(lv.as_slice(), identity_tok.as_slice()) {
                chunked = false;
            } else {
                return Err(DecodeFail::HttpUnsupportedTransferEncoding);
            }
        }
        i = i + 1;
    }
    proof {
        assert(headers@.take(m as int) =~= headers@);
        assert(headers@.skip(m as int) =~= Seq::<(Seq<u8>, Seq<u8>)>::empty());
    }
    Ok((cl, chunked))
}

/// Read and validate a complete head.
pub(crate) fn parse_head(h: &[u8]) -> (r: Result<HeadParts, DecodeFail>)
    ensures
        match r {
            Err(k) => spec_parse_head(h@) == Result::<SpecHead, DecodeFail>::Err(k),
            Ok(p) => spec_parse_head(h@) matches Ok(sh) && (p.method@ == sh.method
                && p.uri.spec_raw() == sh.target && p.uri.wf() && p.headers@ == sh.headers
                && p.headers.wf() && p.content_length as int == sh.content_length && p.chunked
                == sh.chunked && p.method@.len() > 0 && all_tchars(p.method@)),
        },
{
    let n = h.len();
    let le1 = match find_crlf(h) {
        None => {
            return Err(DecodeFail::HttpMalformedHead);
        },
        Some(x) => x,
    };
    proof {
        lemma_find_crlf_props(h@);
    }
    let line = slice_subrange(h, 0, le1);
    proof {
        assert(line@ =~= h@.take(le1 as int));
    }
    let (method, target) = match parse_request_line(line) {
        Err(k) => {
            return Err(k);
        },
        Ok(p) => p,
    };
    let section = slice_subrange(h, le1 + 2, n);
    proof {
        assert(section@ =~= h@.skip(le1 + 2));
    }
    let headers = match parse_header_section(section) {
        None => {
            return Err(DecodeFail::HttpMalformedHead);
        },
        Some(hs) => hs,
    };
    let (cl, chunked) = match scan_fields(&headers) {
        Err(k) => {
            return Err(k);
        },
        Ok(p) => p,
    };
    let cl_name2 = content_length_bytes();
    proof {
        lemma_lower_fixpoint(spec_content_length());
    }
    if chunked && headers.contains(cl_name2.as_slice()) {
        return Err(DecodeFail::HttpInvalidContentLength);
    }
    let host_name = host_bytes();
    proof {
        lemma_lower_fixpoint(spec_host());
    }
    if !headers.contains(host_name.as_slice()) {
        return Err(DecodeFail::HttpNoHost);
    }
    let uri = match Uri::from_target(target) {
        None => {
            return Err(DecodeFail::HttpRequestBuild);
        },
        Some(u) => u,
    };
    Ok(HeadParts { method, uri, headers, content_length: cl, chunked })
}

/// A sequence of lowercase bytes is its own lowercase.
pub proof fn lemma_lower_fixpoint(s: Seq<u8>)
    requires
        forall|i: int| 0 <= i < s.len() ==> !(65 <= #[trigger] s[i] <= 90),
    ensures
        lower(s) == s,
{
    assert forall|i: int| 0 <= i < s.len() implies lower(s)[i] == s[i] by {
        assert(lower(s)[i] == crate::ascii::lower_byte(s[i]));
    }
    assert(lower(s) =~= s);
}

/// Whether the buffered prefix of a connection already holds everything
/// the decoder needs for its next outcome: a complete head and, for a
/// request with a body, the whole body its framing announces. A host's
/// loop can read until this holds, answer the exchange, and only then
/// read on — so the response to one request is written before any byte
/// of the next is taken.
pub open spec fn spec_decode_ready(input: Seq<u8>) -> bool {
    match spec_find_crlfcrlf(input) {
        None => false,
        Some(he) => if !(0 <= he && he + 4 <= input.len()) {
            false
        } else {
            match spec_parse_head(input.take(he + 4)) {
                Err(_) => true,
                Ok(sh) => if sh.chunked {
                    !(spec_decode_chunked(input.skip(he + 4)) is More)
                } else {
                    input.len() >= he + 4 + sh.content_length
                },
            }
        },
    }
}

/// Whether `input` already holds the decoder's next whole outcome.
pub fn decode_ready(input: &[u8]) -> (r: bool)
    ensures
        r == spec_decode_ready(input@),
{
    let n = input.len();
    let he = match find_crlfcrlf(input) {
        None => {
            return false;
        },
        Some(x) => x,
    };
    proof {
        lemma_find_crlfcrlf_props(input@);
    }
    let head = slice_subrange(input, 0, he + 4);
    proof {
        assert(head@ =~= input@.take(he + 4));
    }
    match parse_head(head) {
        Err(_) => true,
        Ok(parts) => {
            if parts.chunked {
                let rest = slice_subrange(input, he + 4, n);
                proof {
                    assert(rest@ =~= input@.skip(he + 4));
                }
                match decode_chunked(rest) {
                    ChunkedOutcome::Incomplete => false,
                    ChunkedOutcome::Complete(_, _, _) => true,
                    ChunkedOutcome::Malformed => true,
                }
            } else {
                n - (he + 4) >= parts.content_length
            }
        },
    }
}

/// Outcome of decoding a connection prefix.
pub enum DecodeOutcome {
    /// No request: the peer is done.
    Eof,
    /// A failure, with the bytes consumed up to it.
    Fail(DecodeFail, usize),
    /// A request, with the bytes it occupied.
    Request(Request, usize),
}

/// Decode one request at the head of `input`.
pub fn decode(input: &[u8]) -> (r: DecodeOutcome)
    ensures
        match r {
            DecodeOutcome::Eof => spec_decode(input@) is Eof,
            DecodeOutcome::Fail(k, c) => spec_decode(input@) == SpecDecode::Fail(k, c as int),
            DecodeOutcome::Request(req, c) => spec_decode(input@) matches SpecDecode::Req(
                sh,
                body,
                tr,
                failed,
                sc,
            ) && (req.spec_method() == sh.method && req.spec_uri().spec_raw() == sh.target
                && req.spec_version() == Version::Http11 && req.spec_headers() == sh.headers && (
            !failed ==> req.spec_body().spec_content() == body) && req.spec_body().spec_failed()
                == failed && (!failed ==> req.spec_body().spec_length() == (if sh.chunked {
                Option::<usize>::None
            } else {
                Some(sh.content_length as usize)
            })) && (req.spec_body().spec_trailers() == tr) && c as int == sc && req.wf()),
        },
{
    let n = input.len();
    let he = match find_crlfcrlf(input) {
        None => {
            return DecodeOutcome::Eof;
        },
        Some(x) => x,
    };
    proof {
        lemma_find_crlfcrlf_props(input@);
    }
    let head = slice_subrange(input, 0, he + 4);
    proof {
        assert(head@ =~= input@.take(he + 4));
    }
    let parts = match parse_head(head) {
        Err(k) => {
            return DecodeOutcome::Fail(k, he + 4);
        },
        Ok(p) => p,
    };
    if parts.chunked {
        let rest = slice_subrange(input, he + 4, n);
        proof {
            assert(rest@ =~= input@.skip(he + 4));
        }
        match decode_chunked(rest) {
            ChunkedOutcome::Complete(payload, trailers, c) => {
                let body = Body::with_trailers(payload, trailers);
                let req = Request::new(
                    parts.method,
                    parts.uri,
                    Version::Http11,
                    parts.headers,
                    body,
                );
                DecodeOutcome::Request(req, he + 4 + c)
            },
            ChunkedOutcome::Incomplete => {
                let body = Body::broken();
                let req = Request::new(
                    parts.method,
                    parts.uri,
                    Version::Http11,
                    parts.headers,
                    body,
                );
                DecodeOutcome::Request(req, n)
            },
            ChunkedOutcome::Malformed => {
                let body = Body::broken();
                let req = Request::new(
                    parts.method,
                    parts.uri,
                    Version::Http11,
                    parts.headers,
                    body,
                );
                DecodeOutcome::Request(req, n)
            },
        }
    } else {
        let avail = n - (he + 4);
        let tk = if parts.content_length <= avail {
            parts.content_length
        } else {
            avail
        };
        let data = slice_to_vec(slice_subrange(input, he + 4, he + 4 + tk));
        proof {
            assert(data@ =~= input@.subrange(he + 4, he + 4 + tk));
        }
        let body = Body::from_parts(data, Some(parts.content_length));
        let req = Request::new(parts.method, parts.uri, Version::Http11, parts.headers, body);
        DecodeOutcome::Request(req, he + 4 + tk)
    }
}

} // verus!
