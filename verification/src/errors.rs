use vstd::prelude::*;

verus! {

/// The error taxonomy of the signing and verification engine.
///
/// `MalformedRequest` covers unusable inputs (an empty method or endpoint, an
/// ill-formed header set, or a signed request that lacks a header it claims to
/// have signed). `TimeFormatError` covers timestamps that do not render in or
/// parse from the fixed `YYYYMMDD'T'HHMMSS'Z'` form. `MissingSignedHeaders`
/// and `EmptySignedHeaders` are verifier-side parse failures on the untrusted
/// Authorization header. `SignatureMismatch` is the terminal verification
/// failure: the recomputed signature differs from the presented one.
#[derive(Clone, Copy, Debug, PartialEq, Eq, Structural)]
pub enum SigError {
    MalformedRequest,
    TimeFormatError,
    MissingSignedHeaders,
    EmptySignedHeaders,
    SignatureMismatch,
}

impl SigError {
    /// A short stable description, for diagnostics outside the engine.
    pub fn describe(&self) -> (r: &'static str)
        ensures
            r@ == match *self {
                SigError::MalformedRequest => "malformed request"@,
                SigError::TimeFormatError => "time format error"@,
                SigError::MissingSignedHeaders => "missing SignedHeaders component"@,
                SigError::EmptySignedHeaders => "empty SignedHeaders list"@,
                SigError::SignatureMismatch => "signature mismatch"@,
            },
    {
        match self {
            SigError::MalformedRequest => "malformed request",
            SigError::TimeFormatError => "time format error",
            SigError::MissingSignedHeaders => "missing SignedHeaders component",
            SigError::EmptySignedHeaders => "empty SignedHeaders list",
            SigError::SignatureMismatch => "signature mismatch",
        }
    }
}

} // verus!
