//! The ways an operation of this library can fail.
use vstd::prelude::*;

verus! {

/// The operating system's I/O error, carried through untouched.
#[verifier::external_type_specification]
#[verifier::external_body]
pub struct ExIoError(std::io::Error);

/// Why a session or one of its operations failed.
#[derive(Debug)]
pub enum Error {
    /// The transport failed; the session is lost.
    Io(std::io::Error),
    /// Received bytes break the frame grammar, overrun a bounded buffer,
    /// or hold a string that is not UTF-8.
    InvalidData,
    /// The handshake failed, or the connection was ready but gave nothing.
    ConnectionError,
    /// No device answered the discovery probe.
    DiscoveryError,
}

} // verus!
