//! A mutually-understood HTTP request-signing and verification protocol in the
//! style of AWS Signature Version 4: a client signs outgoing requests with a
//! shared secret, and a server recomputes the expected signature from the same
//! material and accepts the request only on an exact match.

pub mod authparse;
pub mod bytes;
pub mod consts;
pub mod crypto;
pub mod engine;
pub mod errors;
pub mod laws;
pub mod signer;
pub mod timestamp;
pub mod verify;
