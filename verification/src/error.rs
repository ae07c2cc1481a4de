//! The ways in which decryption fails.

use vstd::prelude::*;
use vstd::string::StringExecFns;

verus! {

/// The error that the base64 decoder reports: which byte or length it
/// rejected.
#[verifier::external_type_specification]
#[verifier::external_body]
pub struct ExDecodeError(base64::DecodeError);

/// The error that the UTF-8 check of `String::from_utf8` reports; it holds the
/// rejected bytes.
#[verifier::external_type_specification]
#[verifier::external_body]
pub struct ExFromUtf8Error(std::string::FromUtf8Error);

/// What went wrong, without the detail that the decoders add.
#[derive(Debug, Clone, Copy, PartialEq, Eq, Structural)]
pub enum ErrorKind {
    /// A raw ciphertext segment has an odd number of bytes.
    LengthMismatch,
    /// The envelope is shorter than marker and encrypted position together.
    TooShort,
    /// The envelope does not start with the marker.
    NoMagic,
    /// A unit failed its complement check: wrong key or altered ciphertext.
    Corrupt,
    /// The transport text is not valid base64.
    InvalidEncoding,
    /// The decrypted message is not valid UTF-8.
    InvalidUTF8,
}

/// What is said of a failure of each kind.
pub open spec fn message_text(kind: ErrorKind) -> Seq<char> {
    match kind {
        ErrorKind::LengthMismatch => "Length is not a multiple of 2 (something is missing)"@,
        ErrorKind::TooShort => "Length is too short"@,
        ErrorKind::NoMagic => "Magic bytes are missing or damaged"@,
        ErrorKind::Corrupt => "Complement check failed (wrong key, or damaged input)"@,
        ErrorKind::InvalidEncoding => "Invalid base-64 data (invalid characters in input)"@,
        ErrorKind::InvalidUTF8 => "Message contains invalid utf-8"@,
    }
}

/// What a user is advised after a failure of each kind. The advice names
/// what may have happened, not what did: a corrupt unit and invalid UTF-8
/// both come from a wrong key as well as from damaged input.
pub open spec fn hint_text(kind: ErrorKind) -> Seq<char> {
    match kind {
        ErrorKind::InvalidUTF8 => "\nThis may be caused by a key mismatch, or mistyped input"@,
        ErrorKind::Corrupt => "\nEither mistyped input or tampering was attempted!"@,
        _ => "\nLikely a mistyped or invalid input"@,
    }
}

/// The report of a failed decryption: a short sentence for a text that is
/// too short, and else a heading, the detail of the failure and the advice
/// for its kind.
pub open spec fn report_text(kind: ErrorKind, detail: Seq<char>) -> Seq<char> {
    if kind == ErrorKind::TooShort {
        "Too short to be decrypted"@
    } else {
        "Error in decryption:\n"@ + detail + hint_text(kind)
    }
}

/// Writes the report of a failed decryption for a user, from the kind of
/// the failure and its detail as the caller has rendered it.
pub fn failure_report(kind: ErrorKind, detail: &str) -> (report: String)
    ensures
        report@ == report_text(kind, detail@),
{
    if kind == ErrorKind::TooShort {
        return String::from_str("Too short to be decrypted");
    }
    let mut report = String::from_str("Error in decryption:\n");
    report.append(detail);
    report.append(kind.hint());
    report
}

impl ErrorKind {
    /// What is said of a failure of this kind.
    pub fn message(&self) -> (text: &'static str)
        ensures
            text@ == message_text(*self),
    {
        match self {
            ErrorKind::LengthMismatch => "Length is not a multiple of 2 (something is missing)",
            ErrorKind::TooShort => "Length is too short",
            ErrorKind::NoMagic => "Magic bytes are missing or damaged",
            ErrorKind::Corrupt => "Complement check failed (wrong key, or damaged input)",
            ErrorKind::InvalidEncoding => "Invalid base-64 data (invalid characters in input)",
            ErrorKind::InvalidUTF8 => "Message contains invalid utf-8",
        }
    }

    /// What a user is advised after a failure of this kind.
    pub fn hint(&self) -> (text: &'static str)
        ensures
            text@ == hint_text(*self),
    {
        match self {
            ErrorKind::InvalidUTF8 => "\nThis may be caused by a key mismatch, or mistyped input",
            ErrorKind::Corrupt => "\nEither mistyped input or tampering was attempted!",
            _ => "\nLikely a mistyped or invalid input",
        }
    }

    /// Whether a wrong key, and not only damaged input, can lead to this
    /// failure.
    pub fn may_be_key_mismatch(&self) -> (r: bool)
        ensures
            r == (*self == ErrorKind::Corrupt || *self == ErrorKind::InvalidUTF8),
    {
        match self {
            ErrorKind::Corrupt => true,
            ErrorKind::InvalidUTF8 => true,
            _ => false,
        }
    }
}

/// A failed decryption. None of these ends the process: each is returned to
/// the caller of the one call that failed.
#[derive(Debug)]
pub enum DecryptError {
    /// Length is not a multiple of 2 (something is missing).
    LengthMismatch,
    /// Length is too short.
    TooShort,
    /// Magic bytes are missing or damaged.
    NoMagic,
    /// A unit's high byte is not the complement of its low byte.
    Corrupt,
    /// Invalid base64 data (invalid characters in input).
    Base64Decode(base64::DecodeError),
    /// Message contains invalid UTF-8.
    InvalidUTF8(std::string::FromUtf8Error),
}

impl DecryptError {
    /// The kind of this failure.
    pub open spec fn spec_kind(&self) -> ErrorKind {
        match self {
            DecryptError::LengthMismatch => ErrorKind::LengthMismatch,
            DecryptError::TooShort => ErrorKind::TooShort,
            DecryptError::NoMagic => ErrorKind::NoMagic,
            DecryptError::Corrupt => ErrorKind::Corrupt,
            DecryptError::Base64Decode(_) => ErrorKind::InvalidEncoding,
            DecryptError::InvalidUTF8(_) => ErrorKind::InvalidUTF8,
        }
    }

    /// The kind of this failure.
    #[verifier::when_used_as_spec(spec_kind)]
    pub fn kind(&self) -> (k: ErrorKind)
        ensures
            k == self.spec_kind(),
    {
        match self {
            DecryptError::LengthMismatch => ErrorKind::LengthMismatch,
            DecryptError::TooShort => ErrorKind::TooShort,
            DecryptError::NoMagic => ErrorKind::NoMagic,
            DecryptError::Corrupt => ErrorKind::Corrupt,
            DecryptError::Base64Decode(_) => ErrorKind::InvalidEncoding,
            DecryptError::InvalidUTF8(_) => ErrorKind::InvalidUTF8,
        }
    }
}

} // verus!
