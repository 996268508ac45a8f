//! A minimal HTTP/1.1 client codec: serialize a request, read a
//! response. The transport that carries the bytes is the host's.

pub mod decode;
pub mod encode;
pub mod error;

use vstd::prelude::*;

verus! {

} // verus!
