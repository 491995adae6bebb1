//! The errors that the operations report. Each is handed back to the caller;
//! none ends the process.

use vstd::prelude::*;
use vstd::string::StringExecFns;

verus! {

/// Why a signal operation failed.
#[derive(Clone, Copy, Debug, PartialEq, Eq, Structural)]
pub enum SignalError {
    /// The handle names no live subscription: it was never issued, or its
    /// subscription was unbound.
    UnknownHandle,
    /// The host cannot subscribe to the requested signal kind.
    UnsupportedSignalKind,
    /// The platform has no signal delivery to subscribe to.
    UnsupportedPlatform,
}

/// A domain name that cannot be converted to ASCII under the requested
/// strictness, with the diagnostic of the conversion.
#[derive(Debug, PartialEq, Eq)]
pub struct DomainEncodingError {
    pub diagnostic: String,
}

/// The text that opens the message of every [`DomainEncodingError`].
pub open spec fn encoding_error_prefix() -> Seq<char> {
    "Invalid IDNA encoded domain name: "@
}

impl DomainEncodingError {
    /// The message shown to the caller: a fixed opening, then the diagnostic.
    pub fn message(&self) -> (text: String)
        ensures
            text@ == encoding_error_prefix() + self.diagnostic@,
    {
        String::from_str("Invalid IDNA encoded domain name: ").concat(self.diagnostic.as_str())
    }
}

} // verus!
