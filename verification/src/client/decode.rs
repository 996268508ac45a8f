//! The client response decoder: status line, headers, body framed by
//! `Content-Length` or the chunked coding.

use vstd::prelude::*;
use vstd::slice::{slice_subrange, slice_to_vec};

use crate::ascii::{bytes_eq, dec_value, parse_dec, SP};
use crate::body::Body;
use crate::chunked::{decode_chunked, spec_decode_chunked, ChunkedOutcome, SpecChunked};
use crate::headers::{spec_get, Headers};
use crate::names::{
    chunked_bytes, content_length_bytes, http11_bytes, spec_chunked, spec_content_length,
    spec_http11, spec_transfer_encoding, transfer_encoding_bytes,
};
use crate::parse::{
    find_byte, find_crlf, find_crlfcrlf, lemma_find_byte_props, lemma_find_crlf_props,
    lemma_find_crlfcrlf_props, spec_find_byte, spec_find_crlf, spec_find_crlfcrlf,
};
use crate::response::Response;
use crate::server::decode::{spec_parse_headers, valid_content_length};
use crate::client::error::{decode as decode_error, ClientError};

verus! {

/// A response head larger than this is refused, a guard against
/// unbounded header accumulation.
pub const MAX_HEAD_LENGTH: usize = 8192;

/// Reading of a response status line: the version must be HTTP/1.1 and
/// the code a number from 100 to 999.
pub open spec fn spec_status_line_parse(line: Seq<u8>) -> Option<u16> {
    match spec_find_byte(line, SP) {
        None => None,
        Some(s1) => {
            let version = line.take(s1);
            let rest = line.skip(s1 + 1);
            let code_field = match spec_find_byte(rest, SP) {
                Some(s2) => rest.take(s2),
                None => rest,
            };
            if version == spec_http11() && code_field.len() > 0 && crate::ascii::all_digits(
                code_field,
            ) && 100 <= dec_value(code_field) <= 999 {
                Some(dec_value(code_field) as u16)
            } else {
                None
            }
        },
    }
}

/// What decoding a response prefix yields in the abstract.
pub enum SpecRespDecode {
    /// A response: status, headers, body payload, whether the length
    /// was advertised, and the bytes consumed.
    Done { status: u16, headers: Seq<(Seq<u8>, Seq<u8>)>, body: Seq<u8>, consumed: int },
    /// The prefix ends before the response does.
    More,
    /// The bytes do not follow the response grammar.
    Bad,
}

/// Decoding of a response prefix: status line and headers up to the
/// blank line, then a body framed by `Content-Length` (absent one, an
/// empty body), or by the chunked coding when the first
/// `Transfer-Encoding` says exactly `chunked`. Carrying both framing
/// headers at once is refused.
pub open spec fn spec_decode_response(input: Seq<u8>) -> SpecRespDecode {
    match spec_find_crlfcrlf(input) {
        None => if input.len() >= MAX_HEAD_LENGTH {
            SpecRespDecode::Bad
        } else {
            SpecRespDecode::More
        },
        Some(he) => if he + 4 > MAX_HEAD_LENGTH {
            SpecRespDecode::Bad
        } else if !(0 <= he && he + 4 <= input.len()) {
            SpecRespDecode::More
        } else {
            let head = input.take(he + 4);
            match spec_find_crlf(head) {
                None => SpecRespDecode::Bad,
                Some(le1) => if !(0 <= le1 && le1 + 2 <= head.len()) {
                    SpecRespDecode::Bad
                } else {
                    match spec_status_line_parse(head.take(le1)) {
                        None => SpecRespDecode::Bad,
                        Some(status) => match spec_parse_headers(head.skip(le1 + 2)) {
                            None => SpecRespDecode::Bad,
                            Some(entries) => {
                                let cl = spec_get(entries, spec_content_length());
                                let te = spec_get(entries, spec_transfer_encoding());
                                if cl is Some && te is Some {
                                    SpecRespDecode::Bad
                                } else if te == Some(spec_chunked()) {
                                    match spec_decode_chunked(input.skip(he + 4)) {
                                        SpecChunked::Done {
                                            payload,
                                            trailers,
                                            consumed,
                                        } => SpecRespDecode::Done {
                                            status,
                                            headers: entries,
                                            body: payload,
                                            consumed: he + 4 + consumed,
                                        },
                                        SpecChunked::More => SpecRespDecode::More,
                                        SpecChunked::Bad => SpecRespDecode::Bad,
                                    }
                                } else {
                                    match cl {
                                        Some(v) => if valid_content_length(v) {
                                            let n = dec_value(v) as int;
                                            let avail = input.len() - (he + 4);
                                            let tk = if n <= avail {
                                                n
                                            } else {
                                                avail
                                            };
                                            SpecRespDecode::Done {
                                                status,
                                                headers: entries,
                                                body: input.subrange(he + 4, he + 4 + tk),
                                                consumed: he + 4 + tk,
                                            }
                                        } else {
                                            SpecRespDecode::Bad
                                        },
                                        None => SpecRespDecode::Done {
                                            status,
                                            headers: entries,
                                            body: Seq::empty(),
                                            consumed: he + 4,
                                        },
                                    }
                                }
                            },
                        },
                    }
                },
            }
        },
    }
}

/// Decode one response at the head of `input`. `Ok` carries the
/// response and the bytes it occupied; an incomplete prefix, a head
/// over the size guard, and a grammar fault are all errors here, as
/// the client reads one response per exchange.
pub fn decode(input: &[u8]) -> (r: Result<(Response, usize), ClientError>)
    ensures
        r matches Ok(p) ==> spec_decode_response(input@) matches SpecRespDecode::Done {
            status,
            headers,
            body,
            consumed,
        } && p.0.spec_status() == status && p.0.spec_headers() == headers
            && p.0.spec_body().spec_content() == body && p.1 as int == consumed,
        r is Err ==> !(spec_decode_response(input@) is Done),
{
    let n = input.len();
    let he = match find_crlfcrlf(input) {
        None => {
            if n >= MAX_HEAD_LENGTH {
                return Err(decode_error("response head is too large".to_owned()));
            }
            return Err(decode_error("response head is incomplete".to_owned()));
        },
        Some(x) => x,
    };
    proof {
        lemma_find_crlfcrlf_props(input@);
    }
    if he + 4 > MAX_HEAD_LENGTH {
        return Err(decode_error("response head is too large".to_owned()));
    }
    let head = slice_subrange(input, 0, he + 4);
    proof {
        assert(head@ =~= input@.take(he + 4));
    }
    let le1 = match find_crlf(head) {
        None => {
            return Err(decode_error("malformed response head".to_owned()));
        },
        Some(x) => x,
    };
    proof {
        lemma_find_crlf_props(head@);
    }
    let line = slice_subrange(head, 0, le1);
    proof {
        assert(line@ =~= head@.take(le1 as int));
    }
    let status = match parse_status_line(line) {
        None => {
            return Err(decode_error("malformed status line".to_owned()));
        },
        Some(s) => s,
    };
    let section = slice_subrange(head, le1 + 2, head.len());
    proof {
        assert(section@ =~= head@.skip(le1 + 2));
    }
    let headers = match crate::server::decode::parse_header_section(section) {
        None => {
            return Err(decode_error("malformed response headers".to_owned()));
        },
        Some(hs) => hs,
    };
    let cl_name = content_length_bytes();
    let te_name = transfer_encoding_bytes();
    proof {
        crate::server::decode::lemma_lower_fixpoint(spec_content_length());
        crate::server::decode::lemma_lower_fixpoint(spec_transfer_encoding());
    }
    let has_cl = headers.contains(cl_name.as_slice());
    let te_chunked = match headers.get(te_name.as_slice()) {
        Some(v) => {
            if has_cl {
                return Err(decode_error("both framing headers present".to_owned()));
            }
            let tok = chunked_bytes();
            bytes_eq(v.as_slice(), tok.as_slice())
        },
        None => false,
    };
    if te_chunked {
        let rest = slice_subrange(input, he + 4, n);
        proof {
            assert(rest@ =~= input@.skip(he + 4));
        }
        match decode_chunked(rest) {
            ChunkedOutcome::Complete(payload, trailers, c) => {
                proof {
                    crate::chunked::lemma_chunked_consumed(rest@);
                }
                let body = Body::with_trailers(payload, trailers);
                let mut resp = Response::new(body);
                resp.set_status(status);
                set_response_headers(&mut resp, headers);
                Ok((resp, he + 4 + c))
            },
            ChunkedOutcome::Incomplete => Err(decode_error("chunked body incomplete".to_owned())),
            ChunkedOutcome::Malformed => Err(decode_error("chunked body malformed".to_owned())),
        }
    } else {
        match headers.get(cl_name.as_slice()) {
            Some(v) => {
                let cl = match parse_dec(v.as_slice()) {
                    None => {
                        return Err(decode_error("invalid content length".to_owned()));
                    },
                    Some(x) => x,
                };
                let avail = n - (he + 4);
                let tk = if cl <= avail {
                    cl
                } else {
                    avail
                };
                let data = slice_to_vec(slice_subrange(input, he + 4, he + 4 + tk));
                proof {
                    assert(data@ =~= input@.subrange(he + 4, he + 4 + tk));
                }
                let body = Body::from_parts(data, Some(cl));
                let mut resp = Response::new(body);
                resp.set_status(status);
                set_response_headers(&mut resp, headers);
                Ok((resp, he + 4 + tk))
            },
            None => {
                let mut resp = Response::new(Body::empty());
                resp.set_status(status);
                set_response_headers(&mut resp, headers);
                Ok((resp, he + 4))
            },
        }
    }
}

/// Read the status line.
fn parse_status_line(line: &[u8]) -> (r: Option<u16>)
    ensures
        r == spec_status_line_parse(line@),
{
    let s1 = match find_byte(line, SP) {
        None => {
            return None;
        },
        Some(x) => x,
    };
    proof {
        lemma_find_byte_props(line@, SP);
    }
    let version = slice_subrange(line, 0, s1);
    proof {
        assert(version@ =~= line@.take(s1 as int));
    }
    let h11 = http11_bytes();
    if !bytes_eq(version, h11.as_slice()) {
        return None;
    }
    let rest = slice_subrange(line, s1 + 1, line.len());
    proof {
        assert(rest@ =~= line@.skip(s1 + 1));
    }
    let code_field = match find_byte(rest, SP) {
        Some(s2) => {
            proof {
                lemma_find_byte_props(rest@, SP);
            }
            slice_subrange(rest, 0, s2)
        },
        None => rest,
    };
    proof {
        lemma_find_byte_props(rest@, SP);
        match spec_find_byte(rest@, SP) {
            Some(s2) => {
                assert(code_field@ =~= rest@.take(s2));
            },
            None => {},
        }
    }
    match parse_dec(code_field) {
        Some(v) => {
            if 100 <= v && v <= 999 {
                Some(v as u16)
            } else {
                None
            }
        },
        None => None,
    }
}

/// Install decoded header entries on a response.
fn set_response_headers(resp: &mut Response, headers: Headers)
    requires
        old(resp).wf(),
        headers.wf(),
    ensures
        final(resp).spec_headers() == headers@,
        final(resp).spec_status() == old(resp).spec_status(),
        final(resp).spec_body() == old(resp).spec_body(),
        final(resp).wf(),
{
    resp.replace_headers(headers);
}

} // verus!
