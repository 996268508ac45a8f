//! Errors the server surfaces to its caller. Failures an endpoint
//! handles itself are a `Glitch` instead.

use vstd::prelude::*;

verus! {

/// Why the connection driver gave up on a connection.
#[derive(Debug)]
pub enum ServerError {
    /// The peer asked for a transfer encoding the server does not
    /// support; the connection is closed.
    ConnectionClosedUnsupportedTransferEncoding,
    /// The connection was lost mid-exchange.
    ConnectionLost(String),
}

} // verus!
