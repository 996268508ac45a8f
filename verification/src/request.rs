//! The request as the endpoint sees it: method, target, version,
//! headers, and body.

use vstd::prelude::*;
use vstd::slice::{slice_subrange, slice_to_vec};

use crate::ascii::all_tchars;
use crate::body::Body;
use crate::headers::Headers;
use crate::parse::{find_byte, lemma_find_byte_props, spec_find_byte};

verus! {

pub const QUESTION: u8 = 63;
pub const SLASH: u8 = 47;

/// The HTTP version of a message. Only HTTP/1.1 is supported.
#[derive(Clone, Copy, Debug, PartialEq, Eq, Structural)]
pub enum Version {
    /// HTTP/1.1
    Http11,
}

/// A byte allowed in a request target: visible ASCII.
pub open spec fn is_target_byte(b: u8) -> bool {
    0x21 <= b <= 0x7e
}

pub open spec fn all_target_bytes(s: Seq<u8>) -> bool {
    forall|i: int| 0 <= i < s.len() ==> is_target_byte(#[trigger] s[i])
}

/// The path and optional query a request target carries.
///
/// An origin-form target (leading slash) splits at the first question
/// mark. An absolute-URI keeps its scheme and authority out of the path:
/// the path runs from the first slash after `://` (or is `/` when there
/// is none), the query follows the first question mark. Anything else is
/// not a supported target.
pub open spec fn spec_target_parts(t: Seq<u8>) -> Option<(Seq<u8>, Option<Seq<u8>>)> {
    if t.len() == 0 || !all_target_bytes(t) {
        None
    } else if t[0] == SLASH {
        Some(spec_split_query(t))
    } else {
        match spec_scheme_end(t) {
            None => None,
            Some(ce) => {
                let after = t.skip(ce + 3);
                match spec_find_byte(after, SLASH) {
                    None => {
                        if spec_find_byte(after, QUESTION) is None {
                            Some((seq![SLASH], None))
                        } else {
                            None
                        }
                    },
                    Some(si) => Some(spec_split_query(after.skip(si))),
                }
            },
        }
    }
}

/// Split a path-and-query at the first question mark.
pub open spec fn spec_split_query(s: Seq<u8>) -> (Seq<u8>, Option<Seq<u8>>) {
    match spec_find_byte(s, QUESTION) {
        None => (s, None),
        Some(qi) => (s.take(qi), Some(s.skip(qi + 1))),
    }
}

/// The authority of an absolute-URI target: the text between `://` and
/// the first slash (or, absent one, the whole remainder). An
/// origin-form target carries none.
pub open spec fn spec_target_authority(t: Seq<u8>) -> Option<Seq<u8>> {
    if t.len() == 0 || !all_target_bytes(t) {
        None
    } else if t[0] == SLASH {
        None
    } else {
        match spec_scheme_end(t) {
            None => None,
            Some(ce) => {
                let after = t.skip(ce + 3);
                match spec_find_byte(after, SLASH) {
                    None => Some(after),
                    Some(si) => Some(after.take(si)),
                }
            },
        }
    }
}

/// Position of the colon of `://`, when the target starts with a
/// nonempty scheme.
pub open spec fn spec_scheme_end(t: Seq<u8>) -> Option<int> {
    match spec_find_byte(t, crate::ascii::COLON) {
        None => None,
        Some(ce) => {
            if ce > 0 && ce + 3 <= t.len() && t[ce + 1] == SLASH && t[ce + 2] == SLASH {
                Some(ce)
            } else {
                None
            }
        },
    }
}

/// A request target, held literally, with its path and query read off.
pub struct Uri {
    pub(crate) raw: Vec<u8>,
    pub(crate) path: Vec<u8>,
    pub(crate) query: Option<Vec<u8>>,
    pub(crate) authority: Option<Vec<u8>>,
}

impl Uri {
    /// The literal request target.
    pub closed spec fn spec_raw(&self) -> Seq<u8> {
        self.raw@
    }

    /// The path part.
    pub closed spec fn spec_path(&self) -> Seq<u8> {
        self.path@
    }

    /// The query part, without its question mark.
    pub closed spec fn spec_query(&self) -> Option<Seq<u8>> {
        match self.query {
            Some(q) => Some(q@),
            None => None,
        }
    }

    /// The authority of an absolute-URI target.
    pub closed spec fn spec_authority(&self) -> Option<Seq<u8>> {
        match self.authority {
            Some(ref a) => Some(a@),
            None => None,
        }
    }

    /// Path, query and authority are the ones the literal target
    /// carries.
    pub open spec fn wf(&self) -> bool {
        &&& spec_target_parts(self.spec_raw()) == Some((self.spec_path(), self.spec_query()))
        &&& spec_target_authority(self.spec_raw()) == self.spec_authority()
    }

    /// Read a request target. Returns the parsed target exactly when it
    /// is a supported form (origin-form or absolute-URI) in visible
    /// ASCII.
    pub fn from_target(raw: Vec<u8>) -> (r: Option<Uri>)
        ensures
            match r {
                Some(u) => u.wf() && u.spec_raw() == raw@ && spec_target_parts(raw@) is Some,
                None => spec_target_parts(raw@) is None,
            },
    {
        let n = raw.len();
        if n == 0 {
            return None;
        }
        let mut i: usize = 0;
        while i < n
            invariant
                n == raw@.len(),
                0 <= i <= n,
                forall|j: int| 0 <= j < i ==> is_target_byte(#[trigger] raw@[j]),
            decreases n - i,
        {
            let b = raw[i];
            if !(0x21 <= b && b <= 0x7e) {
                assert(!is_target_byte(raw@[i as int]));
                return None;
            }
            i = i + 1;
        }
        if raw[0] == SLASH {
            let (path, query) = split_query(raw.as_slice());
            return Some(Uri { raw, path, query, authority: None });
        }
        let ce = match find_byte(raw.as_slice(), crate::ascii::COLON) {
            None => {
                return None;
            },
            Some(ce) => ce,
        };
        proof {
            lemma_find_byte_props(raw@, crate::ascii::COLON);
        }
        if !(ce > 0 && n >= 3 && ce <= n - 3 && raw[ce + 1] == SLASH && raw[ce + 2] == SLASH) {
            return None;
        }
        let after = slice_subrange(raw.as_slice(), ce + 3, n);
        proof {
            assert(after@ =~= raw@.skip(ce + 3));
        }
        match find_byte(after, SLASH) {
            None => {
                proof {
                    lemma_find_byte_props(after@, SLASH);
                }
                match find_byte(after, QUESTION) {
                    None => {
                        proof {
                            lemma_find_byte_props(after@, QUESTION);
                        }
                        let path: Vec<u8> = vec![SLASH];
                        let authority = slice_to_vec(after);
                        proof {
                            assert(path@ =~= seq![SLASH]);
                        }
                        Some(Uri { raw, path, query: None, authority: Some(authority) })
                    },
                    Some(_) => None,
                }
            },
            Some(si) => {
                proof {
                    lemma_find_byte_props(after@, SLASH);
                }
                let authority = slice_to_vec(slice_subrange(after, 0, si));
                let tail = slice_subrange(after, si, after.len());
                proof {
                    assert(authority@ =~= after@.take(si as int));
                    assert(tail@ =~= after@.skip(si as int));
                }
                let (path, query) = split_query(tail);
                Some(Uri { raw, path, query, authority: Some(authority) })
            },
        }
    }

    /// The path of the target.
    pub fn path(&self) -> (r: &Vec<u8>)
        ensures
            r@ == self.spec_path(),
    {
        &self.path
    }

    /// The query of the target, without its question mark.
    pub fn query(&self) -> (r: Option<&Vec<u8>>)
        ensures
            match r {
                Some(q) => self.spec_query() == Some(q@),
                None => self.spec_query() is None,
            },
    {
        match &self.query {
            Some(q) => Some(q),
            None => None,
        }
    }

    /// The authority of an absolute-URI target.
    pub fn authority(&self) -> (r: Option<&Vec<u8>>)
        ensures
            match r {
                Some(a) => self.spec_authority() == Some(a@),
                None => self.spec_authority() is None,
            },
    {
        match &self.authority {
            Some(a) => Some(a),
            None => None,
        }
    }

    /// The literal request target.
    pub fn raw(&self) -> (r: &Vec<u8>)
        ensures
            r@ == self.spec_raw(),
    {
        &self.raw
    }
}

/// Split a path-and-query slice at the first question mark.
fn split_query(s: &[u8]) -> (r: (Vec<u8>, Option<Vec<u8>>))
    ensures
        spec_split_query(s@) == (
            r.0@,
            match r.1 {
                Some(q) => Some(q@),
                None => None,
            },
        ),
{
    let n = s.len();
    match find_byte(s, QUESTION) {
        None => {
            let path = slice_to_vec(s);
            (path, None)
        },
        Some(qi) => {
            proof {
                lemma_find_byte_props(s@, QUESTION);
            }
            let path = slice_to_vec(slice_subrange(s, 0, qi));
            let query = slice_to_vec(slice_subrange(s, qi + 1, n));
            proof {
                assert(path@ =~= s@.take(qi as int));
                assert(query@ =~= s@.skip(qi + 1));
            }
            (path, Some(query))
        },
    }
}

/// A decoded request.
pub struct Request {
    pub(crate) method: Vec<u8>,
    pub(crate) uri: Uri,
    pub(crate) version: Version,
    pub(crate) headers: Headers,
    pub(crate) body: Body,
}

impl Request {
    pub closed spec fn spec_method(&self) -> Seq<u8> {
        self.method@
    }

    pub closed spec fn spec_uri(&self) -> Uri {
        self.uri
    }

    pub closed spec fn spec_version(&self) -> Version {
        self.version
    }

    pub closed spec fn spec_headers(&self) -> Seq<(Seq<u8>, Seq<u8>)> {
        self.headers@
    }

    pub closed spec fn spec_body(&self) -> Body {
        self.body
    }

    pub open spec fn wf(&self) -> bool {
        &&& self.spec_method().len() > 0
        &&& all_tchars(self.spec_method())
        &&& self.spec_uri().wf()
        &&& forall|i: int|
            0 <= i < self.spec_headers().len() ==> crate::headers::wf_entry(
                #[trigger] self.spec_headers()[i],
            )
        &&& self.spec_body().wf()
    }

    /// Assemble a request from its parts.
    pub fn new(method: Vec<u8>, uri: Uri, version: Version, headers: Headers, body: Body) -> (r:
        Request)
        ensures
            r.spec_method() == method@,
            r.spec_uri() == uri,
            r.spec_version() == version,
            r.spec_headers() == headers@,
            r.spec_body() == body,
    {
        Request { method, uri, version, headers, body }
    }

    pub fn method(&self) -> (r: &Vec<u8>)
        ensures
            r@ == self.spec_method(),
    {
        &self.method
    }

    pub fn uri(&self) -> (r: &Uri)
        ensures
            *r == self.spec_uri(),
    {
        &self.uri
    }

    pub fn version(&self) -> (r: Version)
        ensures
            r == self.spec_version(),
    {
        self.version
    }

    pub fn headers(&self) -> (r: &Headers)
        ensures
            r@ == self.spec_headers(),
    {
        &self.headers
    }

    /// First value stored under this header name.
    pub fn header(&self, name: &[u8]) -> (r: Option<&Vec<u8>>)
        ensures
            match r {
                Some(v) => crate::headers::spec_get(
                    self.spec_headers(),
                    crate::ascii::lower(name@),
                ) == Some(v@),
                None => crate::headers::spec_get(self.spec_headers(), crate::ascii::lower(name@))
                    is None,
            },
    {
        self.headers.get(name)
    }

    /// The advertised body length.
    pub fn body_length(&self) -> (r: Option<usize>)
        ensures
            r == self.spec_body().spec_length(),
    {
        self.body.length()
    }

    /// Take the body out of the request.
    pub fn into_body(self) -> (r: Body)
        ensures
            r == self.spec_body(),
    {
        self.body
    }
}

} // verus!
