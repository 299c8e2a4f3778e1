use vstd::prelude::*;

verus! {

/// Failures surfaced by the client core.
///
/// Every failure of a core operation is reported through one of these
/// variants; the core never retries on its own.
#[derive(Clone, Copy, PartialEq, Eq, Structural, Debug)]
pub enum ClientError {
    /// Transport dispatch failure at PUT/GET time.
    Io,
    /// The transport delivered a failure for a request.
    ResponseFailure,
    /// Deadline exceeded while awaiting a response.
    Timeout,
    /// Session pointer missing, or session-packet decryption failed;
    /// the two are indistinguishable to the caller.
    InvalidCredentials,
    /// Session pointer present but the latest version is absent or malformed.
    CorruptSession,
    /// Symmetric encrypt/decrypt or envelope parse error.
    CryptoFailure,
    /// A pending request was resolved because the owning client went away.
    ClientShutdown,
}

} // verus!
