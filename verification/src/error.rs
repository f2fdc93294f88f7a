//! The failures an envelope operation can report.

use vstd::prelude::*;

verus! {

/// Why an envelope operation was refused. Every variant is recoverable: the
/// caller keeps its input and decides what to do next.
#[derive(Debug, Clone, Copy, PartialEq, Eq, Structural)]
pub enum Error {
    /// The record's `version` field is absent or differs from the provider's.
    VersionMismatch,
    /// A required field is absent or has the wrong type, or the record
    /// cannot pass through the codec.
    MalformedRecord,
    /// A box did not authenticate under the given key. Wrong keys, wrong
    /// passwords and altered boxes are not told apart.
    AuthenticationFailure,
    /// A signature is present but does not match the record.
    SignatureInvalid,
    /// The signature, or the public key that goes with it, is not in the
    /// record.
    MissingSignature,
    /// Key material does not have the shape of a key: a stored key or tag of
    /// the wrong length, or a key that the primitive refuses.
    MalformedKey,
}

impl Error {
    /// A short description for people.
    pub fn describe(&self) -> (text: String)
        ensures
            text@ == match *self {
                Error::VersionMismatch => "version mismatch"@,
                Error::MalformedRecord => "malformed record"@,
                Error::AuthenticationFailure => "authentication failure"@,
                Error::SignatureInvalid => "signature invalid"@,
                Error::MissingSignature => "missing signature"@,
                Error::MalformedKey => "malformed key"@,
            },
    {
        match self {
            Error::VersionMismatch => "version mismatch".to_string(),
            Error::MalformedRecord => "malformed record".to_string(),
            Error::AuthenticationFailure => "authentication failure".to_string(),
            Error::SignatureInvalid => "signature invalid".to_string(),
            Error::MissingSignature => "missing signature".to_string(),
            Error::MalformedKey => "malformed key".to_string(),
        }
    }
}

} // verus!
