//! The response as user code builds it: status, version, headers, body.

use vstd::prelude::*;

use crate::ascii::{all_field_bytes, all_tchars, lower};
use crate::body::Body;
use crate::headers::{remove_name, spec_get, Headers};
use crate::request::Version;

verus! {

/// A response under construction. A fresh one is `200 OK` with empty
/// headers and an empty body.
pub struct Response {
    pub(crate) status: u16,
    pub(crate) version: Version,
    pub(crate) headers: Headers,
    pub(crate) body: Body,
}

impl Response {
    pub closed spec fn spec_status(&self) -> u16 {
        self.status
    }

    pub closed spec fn spec_version(&self) -> Version {
        self.version
    }

    pub closed spec fn spec_headers(&self) -> Seq<(Seq<u8>, Seq<u8>)> {
        self.headers@
    }

    pub closed spec fn spec_body(&self) -> Body {
        self.body
    }

    pub open spec fn wf(&self) -> bool {
        &&& 100 <= self.spec_status() <= 999
        &&& forall|i: int|
            0 <= i < self.spec_headers().len() ==> crate::headers::wf_entry(
                #[trigger] self.spec_headers()[i],
            )
        &&& self.spec_body().wf()
    }

    /// A fresh `200 OK` response around the given body.
    pub fn new(body: Body) -> (r: Response)
        ensures
            r.spec_status() == 200,
            r.spec_version() == Version::Http11,
            r.spec_headers() == Seq::<(Seq<u8>, Seq<u8>)>::empty(),
            r.spec_body() == body,
            body.wf() ==> r.wf(),
    {
        let r = Response { status: 200, version: Version::Http11, headers: Headers::new(), body };
        proof {
            assert(r.spec_headers() =~= Seq::<(Seq<u8>, Seq<u8>)>::empty());
        }
        r
    }

    pub fn status(&self) -> (r: u16)
        ensures
            r == self.spec_status(),
    {
        self.status
    }

    /// Set the status code.
    pub fn set_status(&mut self, code: u16)
        requires
            100 <= code <= 999,
        ensures
            final(self).spec_status() == code,
            final(self).spec_version() == old(self).spec_version(),
            final(self).spec_headers() == old(self).spec_headers(),
            final(self).spec_body() == old(self).spec_body(),
    {
        self.status = code;
    }

    /// Replace the body.
    pub fn set_body(&mut self, body: Body)
        ensures
            final(self).spec_body() == body,
            final(self).spec_status() == old(self).spec_status(),
            final(self).spec_version() == old(self).spec_version(),
            final(self).spec_headers() == old(self).spec_headers(),
    {
        self.body = body;
    }

    pub fn headers(&self) -> (r: &Headers)
        ensures
            r@ == self.spec_headers(),
    {
        &self.headers
    }

    /// Add a header at the end, keeping others of the same name.
    pub fn append_header(&mut self, name: &[u8], value: Vec<u8>)
        requires
            name@.len() > 0,
            all_tchars(name@),
            all_field_bytes(value@),
        ensures
            final(self).spec_headers() == old(self).spec_headers().push((lower(name@), value@)),
            final(self).spec_status() == old(self).spec_status(),
            final(self).spec_version() == old(self).spec_version(),
            final(self).spec_body() == old(self).spec_body(),
            old(self).wf() ==> final(self).wf(),
    {
        self.headers.append(name, value);
        proof {
            if old(self).wf() {
                assert forall|i: int|
                    0 <= i < self.spec_headers().len() implies crate::headers::wf_entry(
                    #[trigger] self.spec_headers()[i],
                ) by {
                    crate::headers::lemma_lower_tchars(name@);
                    if i < old(self).spec_headers().len() {
                        assert(crate::headers::wf_entry(old(self).spec_headers()[i]));
                    }
                }
            }
        }
    }

    /// Set a header, replacing any of the same name.
    pub fn insert_header(&mut self, name: &[u8], value: Vec<u8>)
        requires
            name@.len() > 0,
            all_tchars(name@),
            all_field_bytes(value@),
        ensures
            final(self).spec_headers() == remove_name(old(self).spec_headers(), lower(name@)).push(
                (lower(name@), value@),
            ),
            final(self).spec_status() == old(self).spec_status(),
            final(self).spec_version() == old(self).spec_version(),
            final(self).spec_body() == old(self).spec_body(),
            old(self).wf() ==> final(self).wf(),
    {
        self.headers.insert(name, value);
        proof {
            if old(self).wf() {
                crate::headers::lemma_remove_name_wf(old(self).spec_headers(), crate::ascii::lower(name@));
                assert forall|i: int|
                    0 <= i < self.spec_headers().len() implies crate::headers::wf_entry(
                    #[trigger] self.spec_headers()[i],
                ) by {
                    crate::headers::lemma_lower_tchars(name@);
                    assert forall|k: int|
                        0 <= k < old(self).spec_headers().len() implies crate::headers::wf_entry(
                        #[trigger] old(self).spec_headers()[k],
                    ) by {}
                }
            }
        }
    }

    /// First value stored under this header name.
    pub fn header(&self, name: &[u8]) -> (r: Option<&Vec<u8>>)
        ensures
            match r {
                Some(v) => spec_get(self.spec_headers(), lower(name@)) == Some(v@),
                None => spec_get(self.spec_headers(), lower(name@)) is None,
            },
    {
        self.headers.get(name)
    }

    /// Replace all headers at once.
    pub(crate) fn replace_headers(&mut self, headers: Headers)
        ensures
            final(self).spec_headers() == headers@,
            final(self).spec_status() == old(self).spec_status(),
            final(self).spec_version() == old(self).spec_version(),
            final(self).spec_body() == old(self).spec_body(),
            old(self).wf() && headers.wf() ==> final(self).wf(),
    {
        self.headers = headers;
        proof {
            if old(self).wf() && self.headers.wf() {
                assert forall|i: int|
                    0 <= i < self.spec_headers().len() implies crate::headers::wf_entry(
                    #[trigger] self.spec_headers()[i],
                ) by {
                    assert(crate::headers::wf_entry(self.headers@[i]));
                }
            }
        }
    }

    /// Take the response apart.
    pub fn into_parts(self) -> (r: (u16, Version, Headers, Body))
        ensures
            r.0 == self.spec_status(),
            r.1 == self.spec_version(),
            r.2@ == self.spec_headers(),
            r.3 == self.spec_body(),
    {
        (self.status, self.version, self.headers, self.body)
    }
}

} // verus!
