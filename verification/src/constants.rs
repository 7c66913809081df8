use vstd::prelude::*;

verus! {

/// Length in bytes of a relying-party challenge.
pub const WEBAUTHN_CHALLENGE_LENGTH: usize = 32;

/// Default length in bytes of a credential identifier.
pub const WEBAUTHN_CREDENTIAL_ID_LENGTH: usize = 16;

/// COSE algorithm identifier for ECDSA with SHA-256.
pub const WEBAUTHN_COSE_ALGORITHM_IDENTIFIER_ES256: i64 = -7;

/// COSE algorithm identifier for RSASSA-PKCS1-v1_5 with SHA-256.
pub const WEBAUTHN_COSE_ALGORITHM_IDENTIFIER_RS256: i64 = -257;

/// SEC1 prefix byte for a compressed point whose Y coordinate is even.
pub const ECDSA_Y_PREFIX_POSITIVE: u8 = 0x02;

/// SEC1 prefix byte for a compressed point whose Y coordinate is odd.
pub const ECDSA_Y_PREFIX_NEGATIVE: u8 = 0x03;

} // verus!
