//! Trailers: header fields delivered after a chunked body. The core
//! carries them through without interpreting them.

use vstd::prelude::*;

use crate::headers::Headers;

verus! {

/// A collection of trailing header fields.
pub struct Trailers {
    /// The fields of the trailer.
    pub headers: Headers,
}

impl Trailers {
    /// An empty trailer collection.
    pub fn new() -> (r: Trailers)
        ensures
            r.headers@.len() == 0,
            r.headers.wf(),
    {
        Trailers { headers: Headers::new() }
    }
}

} // verus!
