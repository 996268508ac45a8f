//! The endpoint failure value. A `Glitch` never travels past the
//! driver: it always becomes a response.

use vstd::prelude::*;
use vstd::utf8::encode_utf8;

use crate::body::Body;
use crate::headers::Headers;
use crate::names::{content_type_bytes, spec_content_type, spec_text_plain, text_plain_bytes};
use crate::request::Version;
use crate::server::response_writer::InnerResponse;

verus! {

/// Convenience alias for what an endpoint returns.
pub type EndpointResult<T> = Result<T, Glitch>;

/// Marker trait that closes the extension surface of `Glitch` over
/// `Result` and `Option`.
pub trait Sealed {

}

impl<T, E> Sealed for Result<T, E> {

}

impl<T> Sealed for Option<T> {

}

/// An endpoint failure: optional status, headers and version
/// overrides, a short message, and an optional longer trace.
#[derive(Debug)]
pub struct Glitch {
    pub(crate) status: Option<u16>,
    pub(crate) headers: Option<Headers>,
    pub(crate) version: Option<Version>,
    pub(crate) message: Option<String>,
    pub(crate) trace: Option<String>,
}

/// The status a glitch materializes: the override when it is a valid
/// code, else `500`.
pub open spec fn spec_glitch_status(st: Option<u16>) -> u16 {
    match st {
        Some(s) => if 100 <= s <= 999 {
            s
        } else {
            500u16
        },
        None => 500u16,
    }
}

/// The bytes a glitch puts on the wire when it materializes at the
/// given moment: its status (or `500`), its header overrides with
/// `Content-Type: text/plain` added for a non-empty body text, and the
/// text as a fixed-length body.
pub open spec fn spec_glitch_response_bytes(g: Glitch, verbose: bool, now: u64) -> Seq<u8> {
    let text = spec_glitch_text(g.spec_message(), g.spec_trace(), verbose);
    let content = encode_utf8(text);
    let base = match g.spec_headers() {
        Some(h) => h,
        None => Seq::<(Seq<u8>, Seq<u8>)>::empty(),
    };
    let entries = if text.len() > 0 {
        base.push((spec_content_type(), spec_text_plain()))
    } else {
        base
    };
    crate::server::encode::spec_encode_response(
        spec_glitch_status(g.spec_status()),
        entries,
        content,
        Some(content.len() as int),
        now,
    )
}

/// The body text a glitch materializes: the message; in verbose mode
/// the trace is appended (or stands alone when there is no message).
pub open spec fn spec_glitch_text(
    message: Option<Seq<char>>,
    trace: Option<Seq<char>>,
    verbose: bool,
) -> Seq<char> {
    let m = match message {
        Some(s) => s,
        None => Seq::empty(),
    };
    if verbose {
        match trace {
            Some(t) => if m.len() > 0 {
                m + seq!['\n'] + t
            } else {
                t
            },
            None => m,
        }
    } else {
        m
    }
}

impl Default for Glitch {
    /// Same as `Glitch::new`: nothing set, a bare `500` when it
    /// materializes.
    fn default() -> (r: Glitch)
        ensures
            r.spec_status() is None,
            r.spec_headers() is None,
            r.spec_message() is None,
            r.spec_trace() is None,
    {
        Glitch::new()
    }
}

impl Glitch {
    pub closed spec fn spec_status(&self) -> Option<u16> {
        self.status
    }

    pub closed spec fn spec_headers(&self) -> Option<Seq<(Seq<u8>, Seq<u8>)>> {
        match self.headers {
            Some(h) => Some(h@),
            None => None,
        }
    }

    pub closed spec fn spec_message(&self) -> Option<Seq<char>> {
        match self.message {
            Some(m) => Some(m@),
            None => None,
        }
    }

    pub closed spec fn spec_trace(&self) -> Option<Seq<char>> {
        match self.trace {
            Some(t) => Some(t@),
            None => None,
        }
    }

    pub open spec fn wf(&self) -> bool {
        &&& match self.spec_status() {
            Some(s) => 100 <= s <= 999,
            None => true,
        }
        &&& match self.spec_headers() {
            Some(h) => forall|i: int|
                0 <= i < h.len() ==> crate::headers::wf_entry(#[trigger] h[i]),
            None => true,
        }
    }

    /// A glitch with nothing set: it materializes as a bare `500`.
    pub fn new() -> (r: Glitch)
        ensures
            r.spec_status() is None,
            r.spec_headers() is None,
            r.spec_message() is None,
            r.spec_trace() is None,
            r.wf(),
    {
        Glitch { status: None, headers: None, version: None, message: None, trace: None }
    }

    /// A `400 Bad Request` with an empty body.
    pub fn bad_request() -> (r: Glitch)
        ensures
            r.spec_status() == Some(400u16),
            r.spec_headers() is None,
            r.spec_message() is None,
            r.spec_trace() is None,
            r.wf(),
    {
        Glitch { status: Some(400), headers: None, version: None, message: None, trace: None }
    }

    /// A `500 Internal Server Error` with an empty body.
    pub fn internal_server_error() -> (r: Glitch)
        ensures
            r.spec_status() is None,
            r.spec_headers() is None,
            r.spec_message() is None,
            r.spec_trace() is None,
            r.wf(),
    {
        Glitch { status: None, headers: None, version: None, message: None, trace: None }
    }

    /// Set the status of the materialized response.
    pub fn status(&mut self, status: u16)
        requires
            100 <= status <= 999,
            old(self).wf(),
        ensures
            final(self).spec_status() == Some(status),
            final(self).spec_headers() == old(self).spec_headers(),
            final(self).spec_message() == old(self).spec_message(),
            final(self).spec_trace() == old(self).spec_trace(),
            final(self).wf(),
    {
        self.status = Some(status);
    }

    /// Set the short message carried in the body.
    pub fn message(&mut self, message: &str)
        requires
            old(self).wf(),
        ensures
            final(self).spec_message() == Some(message@),
            final(self).spec_status() == old(self).spec_status(),
            final(self).spec_headers() == old(self).spec_headers(),
            final(self).spec_trace() == old(self).spec_trace(),
            final(self).wf(),
    {
        self.message = Some(message.to_owned());
    }

    /// Set the longer trace, shown only in verbose mode.
    pub fn trace(&mut self, trace: &str)
        requires
            old(self).wf(),
        ensures
            final(self).spec_trace() == Some(trace@),
            final(self).spec_status() == old(self).spec_status(),
            final(self).spec_headers() == old(self).spec_headers(),
            final(self).spec_message() == old(self).spec_message(),
            final(self).wf(),
    {
        self.trace = Some(trace.to_owned());
    }

    /// Materialize the response: the status override or `500`, the
    /// header overrides, the body text (with `Content-Type: text/plain`
    /// when it is not empty).
    pub fn into_inner_response(self, verbose: bool) -> (r: InnerResponse)
        ensures
            r.spec_status() == spec_glitch_status(self.spec_status()),
            r.spec_body().spec_content() == encode_utf8(
                spec_glitch_text(self.spec_message(), self.spec_trace(), verbose),
            ),
            r.spec_body().spec_length() == Some(
                encode_utf8(
                    spec_glitch_text(self.spec_message(), self.spec_trace(), verbose),
                ).len() as usize,
            ),
            r.spec_headers() == {
                let base = match self.spec_headers() {
                    Some(h) => h,
                    None => Seq::<(Seq<u8>, Seq<u8>)>::empty(),
                };
                if spec_glitch_text(self.spec_message(), self.spec_trace(), verbose).len() > 0 {
                    base.push((spec_content_type(), spec_text_plain()))
                } else {
                    base
                }
            },
            encode_utf8(spec_glitch_text(self.spec_message(), self.spec_trace(), verbose)).len()
                <= usize::MAX,
    {
        let status: u16 = match self.status {
            Some(s) => if 100 <= s && s <= 999 {
                s
            } else {
                500
            },
            None => 500,
        };
        let mut headers: Headers = match self.headers {
            Some(h) => h,
            None => Headers::new(),
        };
        let mut text: String = match self.message {
            Some(m) => m,
            None => String::new(),
        };
        if verbose {
            match self.trace {
                Some(tr) => {
                    if text.as_str().is_empty() {
                        text = tr;
                    } else {
                        proof {
                            reveal_strlit("\n");
                            assert("\n"@ =~= seq!['\n']);
                        }
                        let with_nl = text.concat("\n");
                        text = with_nl.concat(tr.as_str());
                    }
                },
                None => {},
            }
        }
        let nonempty = !text.as_str().is_empty();
        let body_bytes = crate::ascii::str_bytes(text.as_str());
        let blen = body_bytes.len();
        proof {
            assert(body_bytes@.len() == blen as int);
        }
        if nonempty {
            let name = content_type_bytes();
            let value = text_plain_bytes();
            proof {
                crate::server::decode::lemma_lower_fixpoint(spec_content_type());
            }
            headers.append(name.as_slice(), value);
        }
        let body = Body::from_bytes(body_bytes);
        InnerResponse::from_parts(status, headers, Version::Http11, body)
    }
}

} // verus!
