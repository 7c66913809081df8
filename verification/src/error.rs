use vstd::prelude::*;

verus! {

/// The field of the authenticator-data record or of the public-key document
/// that a failure refers to.
#[derive(Clone, Copy, Debug, PartialEq, Eq, Structural)]
pub enum Field {
    RpIdHash,
    Flags,
    SignCount,
    CredentialIdLength,
    CredentialId,
    KeyType,
    Algorithm,
    Curve,
    XCoordinate,
    YCoordinate,
}

/// Unified failure taxonomy shared by every decoder component.
#[derive(Clone, Copy, Debug, PartialEq, Eq, Structural)]
pub enum Error {
    /// Malformed structured-document bytes, or an invalid base64 string.
    EncodingError,
    /// Fewer bytes were available than the named fixed-length field requires.
    Truncation(Field),
    /// The named required key was absent from the public-key document.
    MissingField(Field),
    /// The outer envelope was not shaped as an attestation object, or its
    /// authenticator-data field was not a byte string.
    UnsupportedFormat,
    /// A coordinate byte string was shorter than the required length.
    MalformedInput,
}

impl Error {
    /// A short human-readable description of the failure.
    pub fn message(&self) -> (r: &'static str)
        ensures
            self is EncodingError ==> r@ == "malformed document encoding"@,
            self is Truncation ==> r@ == "unexpected end of input"@,
            self is MissingField ==> r@ == "required key missing"@,
            self is UnsupportedFormat ==> r@ == "cannot proceed without auth data"@,
            self is MalformedInput ==> r@ == "malformed coordinate"@,
    {
        match self {
            Error::EncodingError => "malformed document encoding",
            Error::Truncation(_) => "unexpected end of input",
            Error::MissingField(_) => "required key missing",
            Error::UnsupportedFormat => "cannot proceed without auth data",
            Error::MalformedInput => "malformed coordinate",
        }
    }
}

} // verus!
