//! An embeddable HTTP/1.1 server core: request decoding, response encoding,
//! chunked transfer framing, and the per-connection request/response loop,
//! with machine-checked contracts on the wire format.

pub mod ascii;
pub mod headers;
pub mod date;
pub mod parse;
pub mod trailers;
pub mod chunked;
pub mod body;
pub mod request;
pub mod response;
pub mod error;
pub mod names;
pub mod server;
pub mod laws;
pub mod client;

use vstd::prelude::*;

verus! {

} // verus!
