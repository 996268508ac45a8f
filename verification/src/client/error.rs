//! Error type for the client side.

use vstd::prelude::*;

verus! {

/// What went wrong on the client side.
#[derive(Debug)]
pub enum Kind {
    /// Building the request failed, with an optional note.
    Encode(Option<String>),
    /// Reading the response failed, with an optional note.
    Decode(Option<String>),
    /// The transport failed.
    Io,
}

/// A client-side error: its kind, and the text of an underlying error
/// when one exists.
#[derive(Debug)]
pub struct ClientError {
    pub(crate) kind: Kind,
    pub(crate) source: Option<String>,
}

impl ClientError {
    pub closed spec fn spec_kind(&self) -> Kind {
        self.kind
    }

    pub closed spec fn spec_source(&self) -> Option<Seq<char>> {
        match self.source {
            Some(ref s) => Some(s@),
            None => None,
        }
    }

    /// Assemble an error from its kind and underlying text.
    pub fn new(kind: Kind, err: Option<String>) -> (r: ClientError)
        ensures
            r.spec_kind() == kind,
            r.spec_source() == (match err {
                Some(e) => Some(e@),
                None => None::<Seq<char>>,
            }),
    {
        ClientError { kind, source: err }
    }
}

/// An encode failure with a note.
pub(crate) fn encode(msg: String) -> (r: ClientError)
    ensures
        r.spec_kind() matches Kind::Encode(m) && m == Some(msg),
        r.spec_source() is None,
{
    ClientError { kind: Kind::Encode(Some(msg)), source: None }
}

/// An encode failure wrapping an underlying error's text.
pub(crate) fn encode_io(err: String) -> (r: ClientError)
    ensures
        r.spec_kind() matches Kind::Encode(m) && m is None,
        r.spec_source() == Some(err@),
{
    ClientError { kind: Kind::Encode(None), source: Some(err) }
}

/// A decode failure with a note.
pub(crate) fn decode(msg: String) -> (r: ClientError)
    ensures
        r.spec_kind() matches Kind::Decode(m) && m == Some(msg),
        r.spec_source() is None,
{
    ClientError { kind: Kind::Decode(Some(msg)), source: None }
}

/// A decode failure wrapping an underlying error's text.
pub(crate) fn decode_err(err: String) -> (r: ClientError)
    ensures
        r.spec_kind() matches Kind::Decode(m) && m is None,
        r.spec_source() == Some(err@),
{
    ClientError { kind: Kind::Decode(None), source: Some(err) }
}

/// A transport failure wrapping an underlying error's text.
pub(crate) fn io(err: String) -> (r: ClientError)
    ensures
        r.spec_kind() is Io,
        r.spec_source() == Some(err@),
{
    ClientError { kind: Kind::Io, source: Some(err) }
}

} // verus!
