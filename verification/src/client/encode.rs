//! The client request encoder: request line, a `host` derived from the
//! target when the request carries none, `content-length`, the request
//! headers, and the body.

use vstd::prelude::*;

use crate::ascii::{push_bytes, push_dec, bytes_eq, CR, LF, SP};
use crate::headers::spec_get;
use crate::names::{
    connect_method_bytes, content_length_bytes, http11_bytes, keep_alive_bytes,
    proxy_connection_bytes, spec_connect_method, spec_content_length, spec_host, spec_http11,
    spec_keep_alive, spec_proxy_connection,
};
use crate::request::{Request, QUESTION};
use crate::server::encode::{spec_field_line, spec_field_lines};
use crate::client::error::{encode, ClientError};

verus! {

/// The request target on the wire: for CONNECT, the authority alone;
/// otherwise the path with its optional query.
pub open spec fn spec_request_target(
    method: Seq<u8>,
    path: Seq<u8>,
    query: Option<Seq<u8>>,
    authority: Option<Seq<u8>>,
) -> Seq<u8> {
    if method == spec_connect_method() {
        match authority {
            Some(a) => a,
            None => Seq::empty(),
        }
    } else {
        path + (match query {
            Some(q) => seq![QUESTION] + q,
            None => Seq::empty(),
        })
    }
}

/// The whole serialized request: the request line; a `host` field
/// derived from the target's authority when the request carries none;
/// `proxy-connection: keep-alive` for CONNECT; a `content-length` field
/// for the body; the request's headers in order; a blank line; and the
/// body bytes.
pub open spec fn spec_encode_request(
    method: Seq<u8>,
    path: Seq<u8>,
    query: Option<Seq<u8>>,
    authority: Option<Seq<u8>>,
    headers: Seq<(Seq<u8>, Seq<u8>)>,
    content_length: int,
    content: Seq<u8>,
) -> Seq<u8> {
    method + seq![SP] + spec_request_target(method, path, query, authority) + seq![SP]
        + spec_http11() + seq![CR, LF] + (if spec_get(headers, spec_host()) is None {
        match authority {
            Some(a) => spec_field_line((spec_host(), a)),
            None => Seq::empty(),
        }
    } else {
        Seq::empty()
    }) + (if method == spec_connect_method() {
        spec_field_line((spec_proxy_connection(), spec_keep_alive()))
    } else {
        Seq::empty()
    }) + spec_field_line(
        (spec_content_length(), crate::ascii::dec_numeral(content_length as nat)),
    ) + spec_field_lines(headers) + seq![CR, LF] + content
}

/// A serialized request, ready to hand to the transport.
pub struct Encoder {
    pub(crate) data: Vec<u8>,
}

impl Encoder {
    /// The serialized bytes.
    pub closed spec fn spec_data(&self) -> Seq<u8> {
        self.data@
    }

    /// Serialize a request. Succeeds exactly when the body's length is
    /// known (an unknown length would need the chunked coding, which
    /// the client does not speak) and a host is available: a `Host`
    /// header, or the target's authority to derive one from — which
    /// CONNECT always needs, since its target is the authority itself.
    #[verifier::rlimit(100)]
    pub fn encode(req: Request) -> (r: Result<Encoder, ClientError>)
        ensures
            r is Ok <==> req.spec_body().spec_length() is Some && (spec_get(
                req.spec_headers(),
                spec_host(),
            ) is Some || req.spec_uri().spec_authority() is Some) && (req.spec_method()
                == spec_connect_method() ==> req.spec_uri().spec_authority() is Some),
            r matches Ok(e) ==> e.spec_data() == spec_encode_request(
                req.spec_method(),
                req.spec_uri().spec_path(),
                req.spec_uri().spec_query(),
                req.spec_uri().spec_authority(),
                req.spec_headers(),
                req.spec_body().spec_length()->0 as int,
                req.spec_body().spec_content(),
            ),
    {
        let host_name = crate::names::host_bytes();
        proof {
            crate::server::decode::lemma_lower_fixpoint(spec_host());
        }
        let has_host = req.header(host_name.as_slice()).is_some();
        let has_authority = req.uri().authority().is_some();
        if !has_host && !has_authority {
            return Err(encode("missing hostname".to_owned()));
        }
        let connect = connect_method_bytes();
        let is_connect = bytes_eq(req.method().as_slice(), connect.as_slice());
        if is_connect && !has_authority {
            return Err(encode("missing hostname".to_owned()));
        }
        let cl: usize = match req.body_length() {
            Some(n) => n,
            None => {
                return Err(encode("cannot send a body of unknown length".to_owned()));
            },
        };
        let mut out: Vec<u8> = Vec::new();
        push_bytes(&mut out, req.method().as_slice());
        out.push(SP);
        if is_connect {
            match req.uri().authority() {
                Some(a) => {
                    push_bytes(&mut out, a.as_slice());
                },
                None => {},
            }
        } else {
            push_bytes(&mut out, req.uri().path().as_slice());
            match req.uri().query() {
                Some(q) => {
                    out.push(QUESTION);
                    push_bytes(&mut out, q.as_slice());
                },
                None => {},
            }
        }
        out.push(SP);
        let h11 = http11_bytes();
        push_bytes(&mut out, h11.as_slice());
        out.push(CR);
        out.push(LF);
        proof {
            assert(out@ =~= req.spec_method() + seq![SP] + spec_request_target(
                req.spec_method(),
                req.spec_uri().spec_path(),
                req.spec_uri().spec_query(),
                req.spec_uri().spec_authority(),
            ) + seq![SP] + spec_http11() + seq![CR, LF]);
        }
        if !has_host {
            match req.uri().authority() {
                Some(a) => {
                    push_bytes(&mut out, host_name.as_slice());
                    out.push(crate::ascii::COLON);
                    out.push(SP);
                    push_bytes(&mut out, a.as_slice());
                    out.push(CR);
                    out.push(LF);
                },
                None => {},
            }
        }
        if is_connect {
            let pc = proxy_connection_bytes();
            push_bytes(&mut out, pc.as_slice());
            out.push(crate::ascii::COLON);
            out.push(SP);
            let ka = keep_alive_bytes();
            push_bytes(&mut out, ka.as_slice());
            out.push(CR);
            out.push(LF);
        }
        let cl_name = content_length_bytes();
        push_bytes(&mut out, cl_name.as_slice());
        out.push(crate::ascii::COLON);
        out.push(SP);
        push_dec(&mut out, cl as u64);
        out.push(CR);
        out.push(LF);
        let ghost prefix = req.spec_method() + seq![SP] + spec_request_target(
            req.spec_method(),
            req.spec_uri().spec_path(),
            req.spec_uri().spec_query(),
            req.spec_uri().spec_authority(),
        ) + seq![SP] + spec_http11() + seq![CR, LF] + (if spec_get(
            req.spec_headers(),
            spec_host(),
        ) is None {
            match req.spec_uri().spec_authority() {
                Some(a) => spec_field_line((spec_host(), a)),
                None => Seq::<u8>::empty(),
            }
        } else {
            Seq::<u8>::empty()
        }) + (if req.spec_method() == spec_connect_method() {
            spec_field_line((spec_proxy_connection(), spec_keep_alive()))
        } else {
            Seq::<u8>::empty()
        }) + spec_field_line(
            (spec_content_length(), crate::ascii::dec_numeral(cl as nat)),
        );
        proof {
            assert(out@ =~= prefix);
        }
        let m = req.headers().len();
        let mut i: usize = 0;
        proof {
            assert(req.spec_headers().take(0int) =~= Seq::<(Seq<u8>, Seq<u8>)>::empty());
        }
        while i < m
            invariant
                0 <= i <= m,
                m == req.spec_headers().len(),
                out@ == prefix + spec_field_lines(req.spec_headers().take(i as int)),
            decreases m - i,
        {
            proof {
                assert(req.spec_headers().take(i + 1).drop_last() =~= req.spec_headers().take(
                    i as int,
                ));
                assert(req.spec_headers().take(i + 1).last() == req.spec_headers()[i as int]);
            }
            let name = req.headers().name_at(i);
            push_bytes(&mut out, name.as_slice());
            out.push(crate::ascii::COLON);
            out.push(SP);
            let value = req.headers().value_at(i);
            push_bytes(&mut out, value.as_slice());
            out.push(CR);
            out.push(LF);
            proof {
                assert(out@ =~= prefix + spec_field_lines(req.spec_headers().take(i + 1)));
            }
            i = i + 1;
        }
        out.push(CR);
        out.push(LF);
        let body = req.into_body();
        push_bytes(&mut out, body.content().as_slice());
        proof {
            assert(req.spec_headers().take(m as int) =~= req.spec_headers());
            assert(out@ =~= spec_encode_request(
                req.spec_method(),
                req.spec_uri().spec_path(),
                req.spec_uri().spec_query(),
                req.spec_uri().spec_authority(),
                req.spec_headers(),
                cl as int,
                req.spec_body().spec_content(),
            ));
        }
        Ok(Encoder { data: out })
    }

    /// Hand the bytes out.
    pub fn into_bytes(self) -> (r: Vec<u8>)
        ensures
            r@ == self.spec_data(),
    {
        self.data
    }
}

} // verus!
