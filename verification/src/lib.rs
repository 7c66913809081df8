//! Decoder for the binary attestation response an authenticator returns
//! during a WebAuthn registration ceremony: a verified binary parser for the
//! authenticator-data block, a structured-document parser for the envelope
//! and the embedded public key, and the disambiguation of elliptic-curve
//! point encodings.

pub mod attestation;
pub mod authdata;
pub mod constants;
pub mod document;
pub mod error;
pub mod pubkey;

pub use attestation::{AttestationObject, AttestationStatement, Message, RawAttestationObject};
pub use authdata::{AttestedCredentialData, AuthenticatorData};
pub use error::{Error, Field};
pub use pubkey::{Coordinates, CredentialPublicKey};
