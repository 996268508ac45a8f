//! The message payload: its bytes, the length the framing advertises,
//! and the trailers a chunked body delivered.

use vstd::prelude::*;
use vstd::utf8::{decode_utf8, valid_utf8};

use crate::ascii::{bytes_to_string, str_bytes};
use crate::trailers::Trailers;

verus! {

/// Error for the `Body` type.
#[derive(Debug)]
pub enum BodyError {
    /// The payload could not be converted to the requested form.
    Conversion(String),
    /// The trailer could not be delivered.
    Trailer(String),
}

/// A message payload.
///
/// `length` is what the framing advertises: `Some(n)` means fixed-length
/// framing, `None` means chunked framing when the body is sent.
pub struct Body {
    pub(crate) content: Vec<u8>,
    pub(crate) length: Option<usize>,
    pub(crate) trailers: Option<Trailers>,
    pub(crate) failed: bool,
}

impl Body {
    /// The payload bytes.
    pub closed spec fn spec_content(&self) -> Seq<u8> {
        self.content@
    }

    /// The advertised length, if the framing carries one.
    pub closed spec fn spec_length(&self) -> Option<usize> {
        self.length
    }

    /// The delivered trailer fields, if a chunked body carried any.
    pub closed spec fn spec_trailers(&self) -> Option<Seq<(Seq<u8>, Seq<u8>)>> {
        match self.trailers {
            Some(t) => Some(t.headers@),
            None => None,
        }
    }

    /// Whether the underlying stream failed before the body was whole.
    pub closed spec fn spec_failed(&self) -> bool {
        self.failed
    }

    pub open spec fn wf(&self) -> bool {
        match self.spec_trailers() {
            Some(t) => forall|i: int|
                0 <= i < t.len() ==> crate::headers::wf_entry(#[trigger] t[i]),
            None => true,
        }
    }

    /// The payload bytes.
    pub fn content(&self) -> (r: &Vec<u8>)
        ensures
            r@ == self.spec_content(),
    {
        &self.content
    }

    /// The advertised length.
    pub fn length(&self) -> (r: Option<usize>)
        ensures
            r == self.spec_length(),
    {
        self.length
    }

    /// An empty body of known zero length, with no trailer channel.
    pub fn empty() -> (r: Body)
        ensures
            r.spec_content() == Seq::<u8>::empty(),
            r.spec_length() == Some(0usize),
            r.spec_trailers() is None,
            !r.spec_failed(),
            r.wf(),
    {
        let r = Body { content: Vec::new(), length: Some(0), trailers: None, failed: false };
        proof {
            assert(r.spec_content() =~= Seq::<u8>::empty());
        }
        r
    }

    /// A body over a fixed buffer: its length is known and the trailer
    /// channel is closed.
    pub fn from_bytes(bytes: Vec<u8>) -> (r: Body)
        ensures
            r.spec_content() == bytes@,
            r.spec_length() == Some(bytes@.len() as usize),
            r.spec_trailers() is None,
            !r.spec_failed(),
            r.wf(),
    {
        let n = bytes.len();
        Body { content: bytes, length: Some(n), trailers: None, failed: false }
    }

    /// A body from buffered content with the advertised length chosen by
    /// the caller: `None` makes the encoder frame it chunked.
    pub fn from_parts(content: Vec<u8>, length: Option<usize>) -> (r: Body)
        ensures
            r.spec_content() == content@,
            r.spec_length() == length,
            r.spec_trailers() is None,
            !r.spec_failed(),
            r.wf(),
    {
        Body { content, length, trailers: None, failed: false }
    }

    /// A body holding UTF-8 text, length known.
    pub fn from_text(text: String) -> (r: Body)
        ensures
            r.spec_content() == vstd::utf8::encode_utf8(text@),
            r.spec_length() == Some(vstd::utf8::encode_utf8(text@).len() as usize),
            r.spec_trailers() is None,
            !r.spec_failed(),
            r.wf(),
    {
        let bytes = str_bytes(text.as_str());
        let n = bytes.len();
        Body { content: bytes, length: Some(n), trailers: None, failed: false }
    }

    /// Attach the trailers a chunked decode delivered.
    pub(crate) fn with_trailers(content: Vec<u8>, trailers: Trailers) -> (r: Body)
        requires
            trailers.headers.wf(),
        ensures
            r.spec_content() == content@,
            r.spec_length() is None,
            r.spec_trailers() == Some(trailers.headers@),
            !r.spec_failed(),
            r.wf(),
    {
        Body { content, length: None, trailers: Some(trailers), failed: false }
    }

    /// A body whose stream broke before the framing was complete: every
    /// read of it reports the fault.
    pub(crate) fn broken() -> (r: Body)
        ensures
            r.spec_failed(),
            r.spec_trailers() is None,
            r.wf(),
    {
        Body { content: Vec::new(), length: None, trailers: None, failed: true }
    }

    /// The payload as bytes. Fails exactly when the stream behind the
    /// body broke.
    pub fn into_bytes(self) -> (r: Result<Vec<u8>, BodyError>)
        ensures
            r is Ok <==> !self.spec_failed(),
            r is Ok ==> r->Ok_0@ == self.spec_content(),
    {
        if self.failed {
            Err(BodyError::Conversion(lost_message()))
        } else {
            Ok(self.content)
        }
    }

    /// The payload as text. Fails exactly when the stream broke or the
    /// bytes are not valid UTF-8.
    pub fn into_string(self) -> (r: Result<String, BodyError>)
        ensures
            r is Ok <==> !self.spec_failed() && valid_utf8(self.spec_content()),
            r is Ok ==> r->Ok_0@ == decode_utf8(self.spec_content()),
    {
        if self.failed {
            return Err(BodyError::Conversion(lost_message()));
        }
        match bytes_to_string(self.content) {
            Some(s) => Ok(s),
            None => Err(BodyError::Conversion(encoding_message())),
        }
    }

    /// The payload as bytes, together with the trailers the chunked
    /// decoder delivered, if any.
    pub fn into_bytes_with_trailer(self) -> (r: Result<
        (Vec<u8>, Option<Result<Trailers, BodyError>>),
        BodyError,
    >)
        ensures
            r is Ok <==> !self.spec_failed(),
            r is Ok ==> r->Ok_0.0@ == self.spec_content(),
            r is Ok ==> match r->Ok_0.1 {
                Some(t) => t is Ok && self.spec_trailers() == Some(t->Ok_0.headers@),
                None => self.spec_trailers() is None,
            },
    {
        if self.failed {
            return Err(BodyError::Conversion(lost_message()));
        }
        match self.trailers {
            Some(t) => Ok((self.content, Some(Ok(t)))),
            None => Ok((self.content, None)),
        }
    }

    /// The payload as text, together with the trailers the chunked
    /// decoder delivered, if any.
    pub fn into_string_with_trailer(self) -> (r: Result<
        (String, Option<Result<Trailers, BodyError>>),
        BodyError,
    >)
        ensures
            r is Ok <==> !self.spec_failed() && valid_utf8(self.spec_content()),
            r is Ok ==> r->Ok_0.0@ == decode_utf8(self.spec_content()),
            r is Ok ==> match r->Ok_0.1 {
                Some(t) => t is Ok && self.spec_trailers() == Some(t->Ok_0.headers@),
                None => self.spec_trailers() is None,
            },
    {
        if self.failed {
            return Err(BodyError::Conversion(lost_message()));
        }
        let text = match bytes_to_string(self.content) {
            Some(s) => s,
            None => {
                return Err(BodyError::Conversion(encoding_message()));
            },
        };
        match self.trailers {
            Some(t) => Ok((text, Some(Ok(t)))),
            None => Ok((text, None)),
        }
    }

    /// Take the trailers, if the chunked decoder delivered any. Yields a
    /// message at most once.
    pub fn recv_trailers(&mut self) -> (r: Option<Result<Trailers, BodyError>>)
        ensures
            match r {
                Some(t) => t is Ok && old(self).spec_trailers() == Some(t->Ok_0.headers@),
                None => old(self).spec_trailers() is None,
            },
            final(self).spec_trailers() is None,
            final(self).spec_content() == old(self).spec_content(),
            final(self).spec_length() == old(self).spec_length(),
            final(self).spec_failed() == old(self).spec_failed(),
    {
        match self.trailers.take() {
            Some(t) => Some(Ok(t)),
            None => None,
        }
    }
}

fn lost_message() -> String {
    "body stream broke before the framing was complete".to_owned()
}

fn encoding_message() -> String {
    "body bytes are not valid UTF-8".to_owned()
}

} // verus!
