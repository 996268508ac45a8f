//! The response writer handed to an endpoint: it holds the response
//! under construction and, once `send` is called, yields the serialized
//! bytes inside a non-forgeable `ResponseWritten` token.

use vstd::prelude::*;

use crate::ascii::{all_field_bytes, all_tchars, lower};
use crate::body::Body;
use crate::date::YEAR_9999_SECONDS;
use crate::headers::{remove_name, spec_get, Headers};
use crate::names::{content_type_bytes, spec_content_type, spec_text_plain, text_plain_bytes};
use crate::request::Version;
use crate::response::Response;
use crate::server::encode::{spec_encode_response, spec_short_write, EncodeFail, Encoder};
use crate::server::glitch::Glitch;

verus! {

/// A response the server itself sends: decode failures and glitches
/// funnel through here.
pub struct InnerResponse {
    pub(crate) status: u16,
    pub(crate) headers: Headers,
    pub(crate) version: Version,
    pub(crate) body: Body,
}

impl InnerResponse {
    pub closed spec fn spec_status(&self) -> u16 {
        self.status
    }

    pub closed spec fn spec_headers(&self) -> Seq<(Seq<u8>, Seq<u8>)> {
        self.headers@
    }

    pub closed spec fn spec_body(&self) -> Body {
        self.body
    }

    pub open spec fn wf(&self) -> bool {
        &&& 100 <= self.spec_status() <= 999
        &&& forall|i: int|
            0 <= i < self.spec_headers().len() ==> crate::headers::wf_entry(
                #[trigger] self.spec_headers()[i],
            )
        &&& self.spec_body().wf()
    }

    /// Assemble from parts.
    pub fn from_parts(status: u16, headers: Headers, version: Version, body: Body) -> (r:
        InnerResponse)
        ensures
            r.spec_status() == status,
            r.spec_headers() == headers@,
            r.spec_body() == body,
    {
        InnerResponse { status, headers, version, body }
    }

    /// The response for a request the decoder refused: `400`.
    pub fn bad_request() -> (r: InnerResponse)
        ensures
            r.spec_status() == 400,
            r.spec_headers() == Seq::<(Seq<u8>, Seq<u8>)>::empty(),
            r.spec_body().spec_content() == Seq::<u8>::empty(),
            r.spec_body().spec_length() == Some(0usize),
            r.wf(),
    {
        let r = InnerResponse {
            status: 400,
            headers: Headers::new(),
            version: Version::Http11,
            body: Body::empty(),
        };
        proof {
            assert(r.spec_headers() =~= Seq::<(Seq<u8>, Seq<u8>)>::empty());
        }
        r
    }

    /// The response for an HTTP/1.0 request: `505`.
    pub fn version_not_supported() -> (r: InnerResponse)
        ensures
            r.spec_status() == 505,
            r.spec_headers() == Seq::<(Seq<u8>, Seq<u8>)>::empty(),
            r.spec_body().spec_content() == Seq::<u8>::empty(),
            r.spec_body().spec_length() == Some(0usize),
            r.wf(),
    {
        let r = InnerResponse {
            status: 505,
            headers: Headers::new(),
            version: Version::Http11,
            body: Body::empty(),
        };
        proof {
            assert(r.spec_headers() =~= Seq::<(Seq<u8>, Seq<u8>)>::empty());
        }
        r
    }

    /// The response for an unsupported transfer coding: `501`.
    pub fn not_implemented() -> (r: InnerResponse)
        ensures
            r.spec_status() == 501,
            r.spec_headers() == Seq::<(Seq<u8>, Seq<u8>)>::empty(),
            r.spec_body().spec_content() == Seq::<u8>::empty(),
            r.spec_body().spec_length() == Some(0usize),
            r.wf(),
    {
        let r = InnerResponse {
            status: 501,
            headers: Headers::new(),
            version: Version::Http11,
            body: Body::empty(),
        };
        proof {
            assert(r.spec_headers() =~= Seq::<(Seq<u8>, Seq<u8>)>::empty());
        }
        r
    }

    pub fn status(&self) -> (r: u16)
        ensures
            r == self.spec_status(),
    {
        self.status
    }

    /// The advertised body length.
    pub fn body_length(&self) -> (r: Option<usize>)
        ensures
            r == self.spec_body().spec_length(),
    {
        self.body.length()
    }

    /// The body content.
    pub fn body_content(&self) -> (r: &Vec<u8>)
        ensures
            r@ == self.spec_body().spec_content(),
    {
        self.body.content()
    }

    /// Whether a header of this name is present.
    pub fn has_header(&self, name: &[u8]) -> (r: bool)
        ensures
            r == (spec_get(self.spec_headers(), lower(name@)) is Some),
    {
        self.headers.contains(name)
    }

    pub fn headers_len(&self) -> (r: usize)
        ensures
            r == self.spec_headers().len(),
    {
        self.headers.len()
    }

    pub fn header_name_at(&self, i: usize) -> (r: &Vec<u8>)
        requires
            i < self.spec_headers().len(),
        ensures
            r@ == self.spec_headers()[i as int].0,
    {
        self.headers.name_at(i)
    }

    pub fn header_value_at(&self, i: usize) -> (r: &Vec<u8>)
        requires
            i < self.spec_headers().len(),
        ensures
            r@ == self.spec_headers()[i as int].1,
    {
        self.headers.value_at(i)
    }

    /// Serialize this response as of the given moment. Refuses a body
    /// that advertises more bytes than it holds (a short write).
    #[verifier::rlimit(100)]
    pub fn send(self, now_secs: u64) -> (r: Result<ResponseWritten, EncodeFail>)
        requires
            now_secs < YEAR_9999_SECONDS,
            self.spec_status() <= 999,
        ensures
            r is Ok <==> !spec_short_write(
                self.spec_body().spec_content(),
                match self.spec_body().spec_length() {
                    Some(n) => Some(n as int),
                    None => None,
                },
            ),
            r matches Ok(w) ==> w.spec_data() == spec_encode_response(
                self.spec_status(),
                self.spec_headers(),
                self.spec_body().spec_content(),
                match self.spec_body().spec_length() {
                    Some(n) => Some(n as int),
                    None => None,
                },
                now_secs,
            ) && w.spec_bytes_written() == w.spec_data().len(),
    {
        let encoder = Encoder::encode(self, now_secs);
        match encoder.into_bytes() {
            Ok(data) => {
                let n = data.len() as u64;
                Ok(ResponseWritten { bytes_written: n, data })
            },
            Err(e) => Err(e),
        }
    }
}

/// Proof that a response was sent on this exchange: only
/// `ResponseWriter::send` (or the server itself) mints one. It carries
/// the serialized bytes to the connection driver.
pub struct ResponseWritten {
    pub(crate) bytes_written: u64,
    pub(crate) data: Vec<u8>,
}

impl ResponseWritten {
    /// The serialized response.
    pub closed spec fn spec_data(&self) -> Seq<u8> {
        self.data@
    }

    pub closed spec fn spec_bytes_written(&self) -> u64 {
        self.bytes_written
    }

    /// The serialized response bytes.
    pub fn data(&self) -> (r: &Vec<u8>)
        ensures
            r@ == self.spec_data(),
    {
        &self.data
    }

    /// How many bytes the response occupied on the wire.
    pub fn bytes_written(&self) -> (r: u64)
        ensures
            r == self.spec_bytes_written(),
    {
        self.bytes_written
    }
}

/// The handle an endpoint uses to build and send its response. A fresh
/// one holds a `200 OK` with empty headers and an empty body.
pub struct ResponseWriter {
    pub(crate) response: Response,
    pub(crate) now_secs: u64,
}

impl ResponseWriter {
    pub closed spec fn spec_response(&self) -> Response {
        self.response
    }

    pub closed spec fn spec_now(&self) -> u64 {
        self.now_secs
    }

    pub open spec fn wf(&self) -> bool {
        self.spec_now() < YEAR_9999_SECONDS && self.spec_response().wf()
    }

    /// A fresh writer around a `200 OK` response, bound to a moment in
    /// time for `Date` synthesis.
    pub fn new(now_secs: u64) -> (r: ResponseWriter)
        requires
            now_secs < YEAR_9999_SECONDS,
        ensures
            r.spec_response().spec_status() == 200,
            r.spec_response().spec_headers() == Seq::<(Seq<u8>, Seq<u8>)>::empty(),
            r.spec_response().spec_body().spec_content() == Seq::<u8>::empty(),
            r.spec_response().spec_body().spec_length() == Some(0usize),
            r.spec_now() == now_secs,
            r.wf(),
    {
        ResponseWriter { response: Response::new(Body::empty()), now_secs }
    }

    /// Set the status code.
    pub fn set_status(&mut self, status: u16)
        requires
            100 <= status <= 999,
            old(self).wf(),
        ensures
            final(self).spec_response().spec_status() == status,
            final(self).spec_response().spec_headers() == old(self).spec_response().spec_headers(),
            final(self).spec_response().spec_body() == old(self).spec_response().spec_body(),
            final(self).spec_now() == old(self).spec_now(),
            final(self).wf(),
    {
        self.response.set_status(status);
    }

    /// Set the status from a bare number. The caller must pass a valid
    /// code; an invalid one is refused by contract rather than at run
    /// time.
    pub fn set_code(&mut self, code: u16)
        requires
            100 <= code <= 999,
            old(self).wf(),
        ensures
            final(self).spec_response().spec_status() == code,
            final(self).spec_response().spec_headers() == old(self).spec_response().spec_headers(),
            final(self).spec_response().spec_body() == old(self).spec_response().spec_body(),
            final(self).spec_now() == old(self).spec_now(),
            final(self).wf(),
    {
        self.response.set_status(code);
    }

    /// Replace the body. Does not touch the headers.
    pub fn set_body(&mut self, body: Body)
        requires
            old(self).wf(),
            body.wf(),
        ensures
            final(self).spec_response().spec_body() == body,
            final(self).spec_response().spec_status() == old(self).spec_response().spec_status(),
            final(self).spec_response().spec_headers() == old(self).spec_response().spec_headers(),
            final(self).spec_now() == old(self).spec_now(),
            final(self).wf(),
    {
        self.response.set_body(body);
    }

    /// Set a text body and `Content-Type: text/plain`.
    pub fn set_text(&mut self, text: String)
        requires
            old(self).wf(),
        ensures
            final(self).spec_response().spec_body().spec_content() == vstd::utf8::encode_utf8(
                text@,
            ),
            final(self).spec_response().spec_body().spec_length() == Some(
                vstd::utf8::encode_utf8(text@).len() as usize,
            ),
            final(self).spec_response().spec_headers() == remove_name(
                old(self).spec_response().spec_headers(),
                spec_content_type(),
            ).push((spec_content_type(), spec_text_plain())),
            final(self).spec_response().spec_status() == old(self).spec_response().spec_status(),
            final(self).spec_now() == old(self).spec_now(),
            final(self).wf(),
    {
        self.response.set_body(Body::from_text(text));
        let name = content_type_bytes();
        let value = text_plain_bytes();
        proof {
            crate::server::decode::lemma_lower_fixpoint(spec_content_type());
        }
        self.response.insert_header(name.as_slice(), value);
    }

    /// Add a header, keeping others of the same name.
    pub fn append_header(&mut self, name: &[u8], value: Vec<u8>)
        requires
            old(self).wf(),
            name@.len() > 0,
            all_tchars(name@),
            all_field_bytes(value@),
        ensures
            final(self).spec_response().spec_headers() == old(
                self,
            ).spec_response().spec_headers().push((lower(name@), value@)),
            final(self).spec_response().spec_status() == old(self).spec_response().spec_status(),
            final(self).spec_response().spec_body() == old(self).spec_response().spec_body(),
            final(self).spec_now() == old(self).spec_now(),
            final(self).wf(),
    {
        self.response.append_header(name, value);
    }

    /// Set a header, replacing any of the same name.
    pub fn insert_header(&mut self, name: &[u8], value: Vec<u8>)
        requires
            old(self).wf(),
            name@.len() > 0,
            all_tchars(name@),
            all_field_bytes(value@),
        ensures
            final(self).spec_response().spec_headers() == remove_name(
                old(self).spec_response().spec_headers(),
                lower(name@),
            ).push((lower(name@), value@)),
            final(self).spec_response().spec_status() == old(self).spec_response().spec_status(),
            final(self).spec_response().spec_body() == old(self).spec_response().spec_body(),
            final(self).spec_now() == old(self).spec_now(),
            final(self).wf(),
    {
        self.response.insert_header(name, value);
    }

    /// The response as built so far.
    pub fn response(&self) -> (r: &Response)
        ensures
            *r == self.spec_response(),
    {
        &self.response
    }

    /// Replace the whole response.
    pub fn set_response(&mut self, response: Response)
        requires
            old(self).wf(),
            response.wf(),
        ensures
            final(self).spec_response() == response,
            final(self).spec_now() == old(self).spec_now(),
            final(self).wf(),
    {
        self.response = response;
    }

    /// Serialize the response and consume the writer. The token it
    /// returns is the proof that a response went out. A body that
    /// advertises more bytes than it holds is a short write: nothing is
    /// written, and the glitch carries the fault back to the driver.
    pub fn send(self) -> (r: Result<ResponseWritten, Glitch>)
        requires
            self.wf(),
        ensures
            r is Ok <==> !spec_short_write(
                self.spec_response().spec_body().spec_content(),
                match self.spec_response().spec_body().spec_length() {
                    Some(n) => Some(n as int),
                    None => None,
                },
            ),
            r matches Ok(w) ==> w.spec_data() == spec_encode_response(
                self.spec_response().spec_status(),
                self.spec_response().spec_headers(),
                self.spec_response().spec_body().spec_content(),
                match self.spec_response().spec_body().spec_length() {
                    Some(n) => Some(n as int),
                    None => None,
                },
                self.spec_now(),
            ) && w.spec_bytes_written() == w.spec_data().len(),
            r matches Err(g) ==> g.spec_status() is None && g.spec_message() is None
                && g.spec_headers() is None && g.spec_trace() == Some(
                "response body is shorter than its advertised length"@,
            ),
    {
        let now_secs = self.now_secs;
        let (status, version, headers, body) = self.response.into_parts();
        let inner = InnerResponse { status, headers, version, body };
        match inner.send(now_secs) {
            Ok(w) => Ok(w),
            Err(_) => {
                let mut g = Glitch::new();
                g.trace("response body is shorter than its advertised length");
                Err(g)
            },
        }
    }

    /// Set the status, then send.
    pub fn send_code(self, code: u16) -> (r: Result<ResponseWritten, Glitch>)
        requires
            self.wf(),
            100 <= code <= 999,
        ensures
            r is Ok <==> !spec_short_write(
                self.spec_response().spec_body().spec_content(),
                match self.spec_response().spec_body().spec_length() {
                    Some(n) => Some(n as int),
                    None => None,
                },
            ),
            r matches Ok(w) ==> w.spec_data() == spec_encode_response(
                code,
                self.spec_response().spec_headers(),
                self.spec_response().spec_body().spec_content(),
                match self.spec_response().spec_body().spec_length() {
                    Some(n) => Some(n as int),
                    None => None,
                },
                self.spec_now(),
            ),
    {
        let mut this = self;
        this.set_code(code);
        this.send()
    }
}

} // verus!
