//! Errors that reach the caller of the library: closed or lost
//! connections, and failed body conversions. Failures that an endpoint
//! handles itself are a `Glitch` instead.

use vstd::prelude::*;

verus! {

/// Errors surfaced to the host program.
#[derive(Debug)]
pub enum Error {
    /// A value could not be converted into a body.
    BodyConversion(String),
    /// The connection was closed: the peer asked for a transfer
    /// encoding the library does not support.
    ConnectionClosedUnsupportedTransferEncoding,
    /// The connection was lost mid-exchange.
    ConnectionLost(String),
}

} // verus!
