//! What can go wrong while a token is decoded or built.

use vstd::prelude::*;

verus! {

/// Why a token could not be cut into segments.
#[derive(Debug, Clone, Copy, PartialEq, Eq, Structural)]
pub enum FramingError {
    /// The token does not consist of exactly three segments.
    SegmentCount,
}

/// Why a segment could not be decoded.
#[derive(Debug, Clone, Copy, PartialEq, Eq, Structural)]
pub enum CodecError {
    /// The text is not the unpadded base64url encoding of any byte sequence.
    InvalidEncoding,
}

/// The class of an [`Error`], without what the error carries.
#[derive(Debug, Clone, Copy, PartialEq, Eq, Structural)]
pub enum ErrorKind {
    /// The input is not UTF-8 text.
    Encoding,
    /// The token does not consist of three segments.
    Framing,
    /// A segment is not base64url text.
    Codec,
    /// The payload, or the input to encode, is not JSON.
    Json,
    /// The token could not be signed.
    Jwt,
}

/// A failure of decoding or encoding. The first failure met is reported,
/// and nothing is produced beside it.
#[derive(Debug)]
pub enum Error {
    /// The input is not UTF-8 text.
    Encoding,
    /// The token does not consist of three segments.
    Framing(FramingError),
    /// A segment is not base64url text.
    Codec(CodecError),
    /// The payload, or the input to encode, is not JSON.
    Json(serde_json::Error),
    /// The token could not be signed.
    Jwt(jsonwebtoken::errors::Error),
}

impl Error {
    /// The class of this error.
    #[verifier::when_used_as_spec(spec_kind)]
    pub fn kind(&self) -> (k: ErrorKind)
        ensures
            k == self.spec_kind(),
    {
        match self {
            Error::Encoding => ErrorKind::Encoding,
            Error::Framing(_) => ErrorKind::Framing,
            Error::Codec(_) => ErrorKind::Codec,
            Error::Json(_) => ErrorKind::Json,
            Error::Jwt(_) => ErrorKind::Jwt,
        }
    }

    /// The class of this error.
    pub open spec fn spec_kind(&self) -> ErrorKind {
        match self {
            Error::Encoding => ErrorKind::Encoding,
            Error::Framing(_) => ErrorKind::Framing,
            Error::Codec(_) => ErrorKind::Codec,
            Error::Json(_) => ErrorKind::Json,
            Error::Jwt(_) => ErrorKind::Jwt,
        }
    }

    /// Whether the token itself is malformed: wrongly framed, or with a
    /// segment that is not base64url text.
    pub fn is_malformed(&self) -> (r: bool)
        ensures
            r == (self.kind() == ErrorKind::Framing || self.kind() == ErrorKind::Codec),
    {
        match self {
            Error::Framing(_) => true,
            Error::Codec(_) => true,
            _ => false,
        }
    }
}

} // verus!
