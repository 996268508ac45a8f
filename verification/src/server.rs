//! The server: request decoding, response encoding, the endpoint error
//! type, and the per-connection request/response loop.

pub mod decode;
pub mod encode;
pub mod error;
pub mod glitch;
pub mod identity;
pub mod response_writer;

use vstd::prelude::*;
use vstd::slice::slice_subrange;

use crate::ascii::{bytes_eq, push_bytes};
use crate::chunked::lemma_chunked_consumed;
use crate::date::YEAR_9999_SECONDS;
use crate::names::{continue_expect_bytes, continue_response_bytes, expect_bytes, spec_expect};
use crate::parse::lemma_find_crlfcrlf_props;
use crate::request::Request;
use crate::server::decode::{
    decode, spec_decode, spec_expect_continue, DecodeFail, DecodeOutcome, SpecDecode,
};
use crate::server::error::ServerError;
use crate::server::glitch::Glitch;
use crate::server::response_writer::{InnerResponse, ResponseWriter, ResponseWritten};

verus! {

/// Options for a connection.
pub struct ServerOpts {
    /// Idle timeout in milliseconds, applied by the host's loop between
    /// requests; `None` disables it.
    pub timeout: Option<u64>,
    /// Whether a glitch's trace is shown in the response body.
    pub verbose_glitch: bool,
}

impl Default for ServerOpts {
    /// Sixty seconds of idle timeout, quiet glitches.
    fn default() -> (r: ServerOpts)
        ensures
            r.timeout == Some(60000u64),
            r.verbose_glitch == false,
    {
        ServerOpts { timeout: Some(60000), verbose_glitch: false }
    }
}

/// Whether a decode failure closes the connection: an unsupported
/// transfer coding, or the connection itself going away.
pub open spec fn spec_fatal(k: DecodeFail) -> bool {
    k is HttpUnsupportedTransferEncoding || k is ConnectionLost
}

/// Whether a connection's byte stream ends cleanly: every request in it
/// decodes to something answerable, until the input runs out.
pub open spec fn spec_serve_verdict(input: Seq<u8>) -> bool
    decreases input.len(),
{
    match spec_decode(input) {
        SpecDecode::Eof => true,
        SpecDecode::Fail(k, c) => if spec_fatal(k) {
            false
        } else if 4 <= c <= input.len() {
            spec_serve_verdict(input.skip(c))
        } else {
            true
        },
        SpecDecode::Req(_, _, _, _, c) => if 4 <= c <= input.len() {
            spec_serve_verdict(input.skip(c))
        } else {
            true
        },
    }
}

/// What the decoder consumes is at least a head and at most the input.
pub proof fn lemma_decode_consumed(input: Seq<u8>)
    ensures
        spec_decode(input) matches SpecDecode::Fail(k, c) ==> 4 <= c <= input.len(),
        spec_decode(input) matches SpecDecode::Req(sh, b, t, f, c) ==> 4 <= c <= input.len(),
{
    lemma_find_crlfcrlf_props(input);
    match crate::parse::spec_find_crlfcrlf(input) {
        None => {},
        Some(he) => {
            lemma_chunked_consumed(input.skip(he + 4));
            match crate::server::decode::spec_parse_head(input.take(he + 4)) {
                Ok(sh) => {
                    crate::server::decode::lemma_content_length_nonneg(sh.headers);
                },
                Err(_) => {},
            }
        },
    }
}

/// Map a decode failure to the response it deserves: none for a lost
/// connection, `501` for an unsupported transfer coding, `505` for
/// HTTP/1.0, `400` for everything else.
pub fn fail_to_response(fail: &DecodeFail) -> (r: Option<InnerResponse>)
    ensures
        match fail {
            DecodeFail::ConnectionLost(_) => r is None,
            DecodeFail::HttpUnsupportedTransferEncoding => r matches Some(ir) && ir.spec_status()
                == 501,
            DecodeFail::Http10NotSupported => r matches Some(ir) && ir.spec_status() == 505,
            _ => r matches Some(ir) && ir.spec_status() == 400,
        },
        r matches Some(ir) ==> ir.spec_headers() == Seq::<(Seq<u8>, Seq<u8>)>::empty()
            && ir.spec_body().spec_content() == Seq::<u8>::empty()
            && ir.spec_body().spec_length() == Some(0usize),
{
    match fail {
        DecodeFail::ConnectionLost(_) => None,
        DecodeFail::HttpUnsupportedTransferEncoding => Some(InnerResponse::not_implemented()),
        DecodeFail::Http10NotSupported => Some(InnerResponse::version_not_supported()),
        _ => Some(InnerResponse::bad_request()),
    }
}

/// Map a decode failure to the error that reaches the caller, if it is
/// fatal for the connection: an unsupported transfer coding closes the
/// connection, and a lost connection is surfaced as itself.
pub fn fail_to_crate_err(fail: DecodeFail) -> (r: Option<ServerError>)
    ensures
        r is Some <==> spec_fatal(fail),
        fail is HttpUnsupportedTransferEncoding ==> (r matches Some(e)
            && e is ConnectionClosedUnsupportedTransferEncoding),
        fail matches DecodeFail::ConnectionLost(m) ==> r == Some(ServerError::ConnectionLost(m)),
{
    match fail {
        DecodeFail::HttpUnsupportedTransferEncoding => Some(
            ServerError::ConnectionClosedUnsupportedTransferEncoding,
        ),
        DecodeFail::ConnectionLost(m) => Some(ServerError::ConnectionLost(m)),
        _ => None,
    }
}

/// Whether the request asks for a `100 Continue` interim response.
pub fn needs_continue(req: &Request) -> (r: bool)
    ensures
        r == spec_expect_continue(req.spec_headers()),
{
    let name = expect_bytes();
    proof {
        crate::server::decode::lemma_lower_fixpoint(spec_expect());
    }
    match req.header(name.as_slice()) {
        Some(v) => {
            let tok = continue_expect_bytes();
            bytes_eq(v.as_slice(), tok.as_slice())
        },
        None => false,
    }
}

/// One exchange of a connection, in the abstract: a request served, or
/// a failure answered.
pub enum SpecExchange {
    /// A decoded request, handed to the endpoint: its head, its body
    /// payload, its trailers, and whether the body broke off.
    Served(
        crate::server::decode::SpecHead,
        Seq<u8>,
        Option<Seq<(Seq<u8>, Seq<u8>)>>,
        bool,
    ),
    /// A decode failure, answered by the server itself.
    Failed(DecodeFail),
}

/// The exchanges a connection's bytes carry, in order, ending at the
/// end of the input or at a fatal failure.
pub open spec fn spec_exchanges(input: Seq<u8>) -> Seq<SpecExchange>
    decreases input.len(),
{
    match spec_decode(input) {
        SpecDecode::Eof => Seq::empty(),
        SpecDecode::Fail(k, c) => if spec_fatal(k) {
            seq![SpecExchange::Failed(k)]
        } else if 4 <= c <= input.len() {
            seq![SpecExchange::Failed(k)] + spec_exchanges(input.skip(c))
        } else {
            seq![SpecExchange::Failed(k)]
        },
        SpecDecode::Req(sh, b, tr, f, c) => if 4 <= c <= input.len() {
            seq![SpecExchange::Served(sh, b, tr, f)] + spec_exchanges(input.skip(c))
        } else {
            seq![SpecExchange::Served(sh, b, tr, f)]
        },
    }
}

/// The status a decode failure is answered with.
pub open spec fn spec_fail_status(k: DecodeFail) -> u16 {
    match k {
        DecodeFail::HttpUnsupportedTransferEncoding => 501,
        DecodeFail::Http10NotSupported => 505,
        _ => 400,
    }
}

/// What the driver writes for one exchange. A failure is answered with
/// the bare response of its status (nothing for a lost connection). A
/// served request is answered with `100 Continue` first when it expects
/// it, then with what the endpoint's own contract allows for a fresh
/// writer bound to the send instant: the bytes of the response it sent,
/// or of its glitch materialized.
#[verifier::opaque]
pub open spec fn spec_exchange_output<
    F: Fn(Request, ResponseWriter) -> Result<ResponseWritten, Glitch>,
>(endpoint: F, ex: SpecExchange, seg: Seq<u8>, now: u64, verbose: bool) -> bool {
    match ex {
        SpecExchange::Failed(k) => match k {
            DecodeFail::ConnectionLost(_) => seg == Seq::<u8>::empty(),
            _ => seg == crate::server::encode::spec_encode_response(
                spec_fail_status(k),
                Seq::empty(),
                Seq::empty(),
                Some(0int),
                now,
            ),
        },
        SpecExchange::Served(sh, body, trailers, broken) => exists|
            req: Request,
            wtr: ResponseWriter,
            ret: Result<ResponseWritten, Glitch>,
        |
            {
                &&& req.spec_method() == sh.method
                &&& req.spec_uri().spec_raw() == sh.target
                &&& req.spec_version() == crate::request::Version::Http11
                &&& req.spec_headers() == sh.headers
                &&& req.spec_body().spec_failed() == broken
                &&& (!broken ==> req.spec_body().spec_content() == body)
                &&& (!broken ==> req.spec_body().spec_length() == (if sh.chunked {
                    Option::<usize>::None
                } else {
                    Some(sh.content_length as usize)
                }))
                &&& req.spec_body().spec_trailers() == trailers
                &&& wtr.spec_now() == now
                &&& wtr.spec_response().spec_status() == 200
                &&& wtr.spec_response().spec_headers() == Seq::<(Seq<u8>, Seq<u8>)>::empty()
                &&& wtr.spec_response().spec_body().spec_content() == Seq::<u8>::empty()
                &&& wtr.spec_response().spec_body().spec_length() == Some(0usize)
                &&& #[trigger] call_ensures(endpoint, (req, wtr), ret)
                &&& seg == (if spec_expect_continue(sh.headers) {
                    crate::names::spec_continue_response()
                } else {
                    Seq::<u8>::empty()
                }) + (match ret {
                    Ok(w) => w.spec_data(),
                    Err(g) => crate::server::glitch::spec_glitch_response_bytes(g, verbose, now),
                })
            },
    }
}

/// Output segments, concatenated in order.
pub open spec fn concat_segs(segs: Seq<Seq<u8>>) -> Seq<u8>
    decreases segs.len(),
{
    if segs.len() == 0 {
        Seq::empty()
    } else {
        concat_segs(segs.drop_last()) + segs.last()
    }
}

proof fn lemma_concat_segs_snoc(segs: Seq<Seq<u8>>, seg: Seq<u8>)
    ensures
        concat_segs(segs.push(seg)) == concat_segs(segs) + seg,
{
    assert(segs.push(seg).drop_last() =~= segs);
    assert(segs.push(seg).last() == seg);
}

/// The whole transcript law: the output is one segment per exchange, in
/// order, each what `spec_exchange_output` allows.
#[verifier::opaque]
pub open spec fn spec_transcript<
    F: Fn(Request, ResponseWriter) -> Result<ResponseWritten, Glitch>,
>(endpoint: F, input: Seq<u8>, output: Seq<u8>, segs: Seq<Seq<u8>>, now: u64, verbose: bool) -> bool {
    &&& output == concat_segs(segs)
    &&& segs.len() == spec_exchanges(input).len()
    &&& forall|i: int|
        0 <= i < segs.len() ==> spec_exchange_output(
            endpoint,
            spec_exchanges(input)[i],
            #[trigger] segs[i],
            now,
            verbose,
        )
}


/// Serve one decoded request: write `100 Continue` when it expects it,
/// run the endpoint on a fresh writer, write its response (or its
/// glitch materialized), and account for the bytes as one segment.
fn serve_request<F: Fn(Request, ResponseWriter) -> Result<ResponseWritten, Glitch>>(
    out: &mut Vec<u8>,
    req: Request,
    sh: Ghost<crate::server::decode::SpecHead>,
    body: Ghost<Seq<u8>>,
    trailers: Ghost<Option<Seq<(Seq<u8>, Seq<u8>)>>>,
    broken: Ghost<bool>,
    verbose: bool,
    now_secs: u64,
    endpoint: &F,
) -> (seg: Ghost<Seq<u8>>)
    requires
        now_secs < YEAR_9999_SECONDS,
        forall|q: Request, w: ResponseWriter|
            (q.wf() && w.wf() && w.spec_now() == now_secs) ==> #[trigger] endpoint.requires(
                (q, w),
            ),
        req.wf(),
        req.spec_method() == sh@.method,
        req.spec_uri().spec_raw() == sh@.target,
        req.spec_version() == crate::request::Version::Http11,
        req.spec_headers() == sh@.headers,
        req.spec_body().spec_failed() == broken@,
        !broken@ ==> req.spec_body().spec_content() == body@,
        !broken@ ==> req.spec_body().spec_length() == (if sh@.chunked {
            Option::<usize>::None
        } else {
            Some(sh@.content_length as usize)
        }),
        req.spec_body().spec_trailers() == trailers@,
    ensures
        final(out)@ == old(out)@ + seg@,
        spec_exchange_output(
            *endpoint,
            SpecExchange::Served(sh@, body@, trailers@, broken@),
            seg@,
            now_secs,
            verbose,
        ),
        spec_expect_continue(sh@.headers) ==> seg@.len() >= 25 && seg@.take(25)
            == crate::names::spec_continue_response(),
{
    let ghost mut seg: Seq<u8> = Seq::empty();
    let ghost start_out = out@;
    if needs_continue(&req) {
        let cont = continue_response_bytes();
        push_bytes(out, cont.as_slice());
        proof {
            seg = crate::names::spec_continue_response();
        }
    }
    let wtr = ResponseWriter::new(now_secs);
    let ghost greq = req;
    let ghost gwtr = wtr;
    let res = (endpoint)(req, wtr);
    let ghost gres = res;
    let ghost mut reply: Seq<u8> = Seq::empty();
    match res {
        Ok(written) => {
            proof {
                reply = written.spec_data();
            }
            push_bytes(out, written.data().as_slice());
        },
        Err(glitch) => {
            let ghost gg = glitch;
            let ir = glitch.into_inner_response(verbose);
            let written = match ir.send(now_secs) {
                Ok(w) => w,
                Err(_) => {
                    // a glitch body advertises exactly its own length
                    proof {
                        assert(false);
                    }
                    vstd::pervasive::unreached()
                },
            };
            proof {
                reply = written.spec_data();
                assert(reply == crate::server::glitch::spec_glitch_response_bytes(
                    gg,
                    verbose,
                    now_secs,
                ));
            }
            push_bytes(out, written.data().as_slice());
        },
    }
    proof {
        seg = seg + reply;
        assert(out@ =~= start_out + seg);
        assert(call_ensures(*endpoint, (greq, gwtr), gres));
        reveal(spec_exchange_output);
        assert(spec_exchange_output(
            *endpoint,
            SpecExchange::Served(sh@, body@, trailers@, broken@),
            seg,
            now_secs,
            verbose,
        ));
        if spec_expect_continue(sh@.headers) {
            assert(seg.take(25) =~= crate::names::spec_continue_response());
        }
    }
    Ghost(seg)
}

/// Run one connection with the default options.
///
/// The input is everything the peer sent on the connection; the result
/// is everything the server writes back, with `Ok` exactly when the
/// stream ended cleanly.
pub fn accept<F: Fn(Request, ResponseWriter) -> Result<ResponseWritten, Glitch>>(
    input: &[u8],
    now_secs: u64,
    endpoint: F,
) -> (r: (Vec<u8>, Result<(), ServerError>, Ghost<Seq<Seq<u8>>>))
    requires
        now_secs < YEAR_9999_SECONDS,
        forall|req: Request, wtr: ResponseWriter|
            (req.wf() && wtr.wf() && wtr.spec_now() == now_secs) ==> #[trigger] endpoint.requires(
                (req, wtr),
            ),
    ensures
        r.1 is Ok <==> spec_serve_verdict(input@),
        r.1 matches Err(e) ==> (e is ConnectionClosedUnsupportedTransferEncoding
            || e is ConnectionLost),
        spec_decode(input@) is Eof ==> r.0@ == Seq::<u8>::empty(),
        (spec_decode(input@) matches SpecDecode::Fail(k, c)
            && k is HttpUnsupportedTransferEncoding) ==> r.0@
            == crate::server::encode::spec_encode_response(
            501,
            Seq::empty(),
            Seq::empty(),
            Some(0int),
            now_secs,
        ),
        (spec_decode(input@) matches SpecDecode::Req(sh, b, t, f, c) && spec_expect_continue(
            sh.headers,
        )) ==> r.0@.len() >= 25 && r.0@.take(25) == crate::names::spec_continue_response(),
        r.1 is Ok ==> spec_transcript(endpoint, input@, r.0@, r.2@, now_secs, false),
{
    let opts = ServerOpts::default();
    accept_with_opts(input, &opts, now_secs, endpoint)
}

/// Run one connection: decode each request in turn, answer decode
/// failures from the failure map, write `100 Continue` when a request
/// expects it, hand the request to the endpoint, and materialize a
/// glitch into a response when the endpoint fails.
#[verifier::rlimit(100)]
pub fn accept_with_opts<F: Fn(Request, ResponseWriter) -> Result<ResponseWritten, Glitch>>(
    input: &[u8],
    opts: &ServerOpts,
    now_secs: u64,
    endpoint: F,
) -> (r: (Vec<u8>, Result<(), ServerError>, Ghost<Seq<Seq<u8>>>))
    requires
        now_secs < YEAR_9999_SECONDS,
        forall|req: Request, wtr: ResponseWriter|
            (req.wf() && wtr.wf() && wtr.spec_now() == now_secs) ==> #[trigger] endpoint.requires(
                (req, wtr),
            ),
    ensures
        r.1 is Ok <==> spec_serve_verdict(input@),
        r.1 matches Err(e) ==> (e is ConnectionClosedUnsupportedTransferEncoding
            || e is ConnectionLost),
        spec_decode(input@) is Eof ==> r.0@ == Seq::<u8>::empty(),
        (spec_decode(input@) matches SpecDecode::Fail(k, c)
            && k is HttpUnsupportedTransferEncoding) ==> r.0@
            == crate::server::encode::spec_encode_response(
            501,
            Seq::empty(),
            Seq::empty(),
            Some(0int),
            now_secs,
        ),
        (spec_decode(input@) matches SpecDecode::Req(sh, b, t, f, c) && spec_expect_continue(
            sh.headers,
        )) ==> r.0@.len() >= 25 && r.0@.take(25) == crate::names::spec_continue_response(),
        r.1 is Ok ==> spec_transcript(endpoint, input@, r.0@, r.2@, now_secs, opts.verbose_glitch),
{
    let n = input.len();
    let mut out: Vec<u8> = Vec::new();
    let mut pos: usize = 0;
    let ghost mut segs: Seq<Seq<u8>> = Seq::empty();
    let ghost mut done: Seq<SpecExchange> = Seq::empty();
    proof {
        assert(input@.skip(0) =~= input@);
        assert(done + spec_exchanges(input@) =~= spec_exchanges(input@));
    }
    loop
        invariant
            0 <= pos <= n,
            n == input@.len(),
            now_secs < YEAR_9999_SECONDS,
            forall|req: Request, wtr: ResponseWriter|
            (req.wf() && wtr.wf() && wtr.spec_now() == now_secs) ==> #[trigger] endpoint.requires(
                (req, wtr),
            ),
            spec_serve_verdict(input@) == spec_serve_verdict(input@.skip(pos as int)),
            pos == 0 ==> out@ == Seq::<u8>::empty(),
            (spec_decode(input@) matches SpecDecode::Fail(k, c) && spec_fatal(k)) ==> pos == 0,
            spec_decode(input@) is Eof ==> pos == 0,
            (spec_decode(input@) matches SpecDecode::Req(sh, b, t, f, c) && spec_expect_continue(
                sh.headers,
            ) && pos > 0) ==> out@.len() >= 25 && out@.take(25)
                == crate::names::spec_continue_response(),
            out@ == concat_segs(segs),
            segs.len() == done.len(),
            spec_exchanges(input@) == done + spec_exchanges(input@.skip(pos as int)),
            forall|i: int|
                0 <= i < segs.len() ==> spec_exchange_output(
                    endpoint,
                    done[i],
                    #[trigger] segs[i],
                    now_secs,
                    opts.verbose_glitch,
                ),
        decreases n - pos,
    {
        let rem = slice_subrange(input, pos, n);
        proof {
            assert(rem@ =~= input@.skip(pos as int));
            if pos == 0 {
                assert(rem@ =~= input@);
            }
            lemma_decode_consumed(rem@);
        }
        match decode(rem) {
            DecodeOutcome::Eof => {
                proof {
                    assert(spec_exchanges(rem@) =~= Seq::<SpecExchange>::empty());
                    assert(done + Seq::<SpecExchange>::empty() =~= done);
                    assert forall|i: int| 0 <= i < segs.len() implies spec_exchange_output(
                        endpoint,
                        spec_exchanges(input@)[i],
                        #[trigger] segs[i],
                        now_secs,
                        opts.verbose_glitch,
                    ) by {
                        assert(spec_exchanges(input@)[i] == done[i]);
                    }
                    reveal(spec_transcript);
                    assert(spec_transcript(
                        endpoint,
                        input@,
                        out@,
                        segs,
                        now_secs,
                        opts.verbose_glitch,
                    ));
                }
                return (out, Ok(()), Ghost(segs));
            },
            DecodeOutcome::Fail(k, c) => {
                let ghost gk = k;
                let ghost mut seg: Seq<u8> = Seq::empty();
                match fail_to_response(&k) {
                    Some(ir) => {
                        let written = match ir.send(now_secs) {
                            Ok(w) => w,
                            Err(_) => {
                                // a failure response has an empty body of
                                // advertised length zero
                                proof {
                                    assert(false);
                                }
                                vstd::pervasive::unreached()
                            },
                        };
                        proof {
                            seg = written.spec_data();
                        }
                        let ghost prev_out = out@;
                        push_bytes(&mut out, written.data().as_slice());
                        proof {
                            if prev_out.len() >= 25 {
                                assert(out@.take(25) =~= prev_out.take(25));
                            }
                        }
                    },
                    None => {},
                }
                match fail_to_crate_err(k) {
                    Some(e) => {
                        return (out, Err(e), Ghost(segs));
                    },
                    None => {},
                }
                proof {
                    assert(rem@.skip(c as int) =~= input@.skip(pos + c));
                    reveal(spec_exchange_output);
                    assert(spec_exchange_output(
                        endpoint,
                        SpecExchange::Failed(gk),
                        seg,
                        now_secs,
                        opts.verbose_glitch,
                    ));
                    lemma_concat_segs_snoc(segs, seg);
                    let ghost rest = spec_exchanges(input@.skip(pos + c));
                    assert(spec_exchanges(rem@) =~= seq![SpecExchange::Failed(gk)] + rest);
                    assert(done + (seq![SpecExchange::Failed(gk)] + rest) =~= (done.push(
                        SpecExchange::Failed(gk),
                    )) + rest);
                    done = done.push(SpecExchange::Failed(gk));
                    segs = segs.push(seg);
                }
                pos = pos + c;
            },
            DecodeOutcome::Request(req, c) => {
                let ghost gsh = spec_decode(rem@)->Req_0;
                let ghost gbody = spec_decode(rem@)->Req_1;
                let ghost gtrailers = spec_decode(rem@)->Req_2;
                let ghost gbroken = spec_decode(rem@)->Req_3;
                let ghost prev_out = out@;
                let Ghost(seg) = serve_request(
                    &mut out,
                    req,
                    Ghost(gsh),
                    Ghost(gbody),
                    Ghost(gtrailers),
                    Ghost(gbroken),
                    opts.verbose_glitch,
                    now_secs,
                    &endpoint,
                );
                proof {
                    if prev_out.len() >= 25 {
                        assert(out@.take(25) =~= prev_out.take(25));
                    }
                    if prev_out.len() == 0 && spec_expect_continue(gsh.headers) {
                        assert(out@.take(25) =~= seg.take(25));
                    }
                    assert(rem@.skip(c as int) =~= input@.skip(pos + c));
                    lemma_concat_segs_snoc(segs, seg);
                    let ghost rest = spec_exchanges(input@.skip(pos + c));
                    assert(spec_exchanges(rem@) =~= seq![
                        SpecExchange::Served(gsh, gbody, gtrailers, gbroken),
                    ] + rest);
                    assert(done + (seq![SpecExchange::Served(gsh, gbody, gtrailers, gbroken)]
                        + rest) =~= (done.push(
                        SpecExchange::Served(gsh, gbody, gtrailers, gbroken),
                    )) + rest);
                    done = done.push(SpecExchange::Served(gsh, gbody, gtrailers, gbroken));
                    segs = segs.push(seg);
                }
                pos = pos + c;
            },
        }
    }
}

} // verus!
