use vstd::prelude::*;
use crate::document::{
    be_val, lemma_be_val_bound, parse_document, pow256, sp_doc, DocV, Document,
};
use crate::error::{Error, Field};
use crate::pubkey::{sp_cpk, CredentialPublicKey};

verus! {

/// Credential material created during registration: the authenticator model
/// identifier, the credential identifier, and the credential public key.
#[derive(Clone, Debug)]
pub struct AttestedCredentialData {
    pub aaguid: Vec<u8>,
    pub credential_id: Vec<u8>,
    pub credential_public_key: CredentialPublicKey,
}

/// Mathematical model of `AttestedCredentialData`.
pub struct AcdV {
    pub aaguid: Seq<u8>,
    pub credential_id: Seq<u8>,
    pub credential_public_key: crate::pubkey::CpkV,
}

impl View for AttestedCredentialData {
    type V = AcdV;

    open spec fn view(&self) -> AcdV {
        AcdV {
            aaguid: self.aaguid@,
            credential_id: self.credential_id@,
            credential_public_key: self.credential_public_key@,
        }
    }
}

/// The parsed authenticator-data record: relying-party hash, flag bitmask,
/// signature counter, and optionally the newly created credential material.
#[derive(Clone, Debug)]
pub struct AuthenticatorData {
    pub rp_id_hash: Vec<u8>,
    pub flags: u8,
    pub sign_count: u32,
    pub attested_credential_data: Option<AttestedCredentialData>,
    pub extensions: Document,
}

/// Mathematical model of `AuthenticatorData`.
pub struct AuthDataV {
    pub rp_id_hash: Seq<u8>,
    pub flags: u8,
    pub sign_count: nat,
    pub attested_credential_data: Option<AcdV>,
    pub extensions: DocV,
}

impl View for AuthenticatorData {
    type V = AuthDataV;

    open spec fn view(&self) -> AuthDataV {
        AuthDataV {
            rp_id_hash: self.rp_id_hash@,
            flags: self.flags,
            sign_count: self.sign_count as nat,
            attested_credential_data: match self.attested_credential_data {
                Option::Some(a) => Option::Some(a@),
                Option::None => Option::None,
            },
            extensions: self.extensions.dview(),
        }
    }
}

/// What parsing a byte buffer as authenticator data yields, for every buffer:
/// 32 bytes of relying-party hash, one flag byte, a 4-byte big-endian
/// counter, and -- when more than 16 bytes remain -- an attested-credential
/// block whose trailing bytes must form the public-key document.
pub open spec fn sp_auth_data(b: Seq<u8>) -> Result<AuthDataV, Error> {
    if b.len() < 32 {
        Err(Error::Truncation(Field::RpIdHash))
    } else if b.len() < 33 {
        Err(Error::Truncation(Field::Flags))
    } else if b.len() < 37 {
        Err(Error::Truncation(Field::SignCount))
    } else if b.len() - 37 <= 16 {
        Ok(
            AuthDataV {
                rp_id_hash: b.subrange(0, 32),
                flags: b[32],
                sign_count: be_val(b.subrange(33, 37)),
                attested_credential_data: Option::None,
                extensions: DocV::Null,
            },
        )
    } else if b.len() < 55 {
        Err(Error::Truncation(Field::CredentialIdLength))
    } else {
        let l = be_val(b.subrange(53, 55));
        if b.len() < 55 + l {
            Err(Error::Truncation(Field::CredentialId))
        } else {
            match sp_doc(b.subrange((55 + l) as int, b.len() as int)) {
                None => Err(Error::EncodingError),
                Some(doc) => match sp_cpk(doc) {
                    Err(e) => Err(e),
                    Ok(cpk) => Ok(
                        AuthDataV {
                            rp_id_hash: b.subrange(0, 32),
                            flags: b[32],
                            sign_count: be_val(b.subrange(33, 37)),
                            attested_credential_data: Option::Some(
                                AcdV {
                                    aaguid: b.subrange(37, 53),
                                    credential_id: b.subrange(55, (55 + l) as int),
                                    credential_public_key: cpk,
                                },
                            ),
                            extensions: DocV::Null,
                        },
                    ),
                },
            }
        }
    }
}

impl AuthenticatorData {
    /// Parses an authenticator-data buffer, returning the structured record
    /// together with the entire original buffer, byte for byte.
    pub fn from_vec(data: Vec<u8>) -> (r: Result<(AuthenticatorData, Vec<u8>), Error>)
        ensures
            match sp_auth_data(data@) {
                Ok(v) => r is Ok && r.unwrap().0@ == v && r.unwrap().1@ == data@,
                Err(e) => r == Err::<(AuthenticatorData, Vec<u8>), Error>(e),
            },
            data@.len() < 37 ==> r is Err && r.unwrap_err() is Truncation,
            r is Ok ==> r.unwrap().1@ == data@,
            r is Ok ==> r.unwrap().0.rp_id_hash@ == data@.subrange(0, 32)
                && r.unwrap().0.flags == data@[32]
                && r.unwrap().0.sign_count == be_val(data@.subrange(33, 37)),
            r is Ok && r.unwrap().0.attested_credential_data is Some
                ==> r.unwrap().0.attested_credential_data.unwrap().credential_id@
                    == data@.subrange(55, (55 + be_val(data@.subrange(53, 55))) as int),
            data@.len() >= 55 && data@.len() < 55 + be_val(data@.subrange(53, 55))
                ==> r == Err::<(AuthenticatorData, Vec<u8>), Error>(
                    Error::Truncation(Field::CredentialId),
                ),
            r is Ok && data@.len() <= 53 ==> r.unwrap().0.attested_credential_data is None,
    {
        if data.len() < 32 {
            return Err(Error::Truncation(Field::RpIdHash));
        }
        if data.len() < 33 {
            return Err(Error::Truncation(Field::Flags));
        }
        if data.len() < 37 {
            return Err(Error::Truncation(Field::SignCount));
        }
        let rp_id_hash = vstd::slice::slice_to_vec(
            vstd::slice::slice_subrange(data.as_slice(), 0, 32),
        );
        let flags = data[32];
        let sc64 = crate::document::read_be(data.as_slice(), 33, 4);
        proof {
            lemma_be_val_bound(data@.subrange(33, 37));
            assert(pow256(4) == 256 * pow256(3));
            assert(pow256(3) == 256 * pow256(2));
            assert(pow256(2) == 256 * pow256(1));
            assert(pow256(1) == 256 * pow256(0));
            assert(pow256(0) == 1);
        }
        let sign_count = sc64 as u32;
        let attested_credential_data: Option<AttestedCredentialData> = if data.len() - 37 > 16 {
            let aaguid = vstd::slice::slice_to_vec(
                vstd::slice::slice_subrange(data.as_slice(), 37, 53),
            );
            if data.len() < 55 {
                return Err(Error::Truncation(Field::CredentialIdLength));
            }
            let l64 = crate::document::read_be(data.as_slice(), 53, 2);
            proof {
                lemma_be_val_bound(data@.subrange(53, 55));
                assert(pow256(2) == 256 * pow256(1));
                assert(pow256(1) == 256 * pow256(0));
                assert(pow256(0) == 1);
            }
            let l = l64 as usize;
            if data.len() - 55 < l {
                return Err(Error::Truncation(Field::CredentialId));
            }
            let credential_id = vstd::slice::slice_to_vec(
                vstd::slice::slice_subrange(data.as_slice(), 55, 55 + l),
            );
            let tail = vstd::slice::slice_subrange(data.as_slice(), 55 + l, data.len());
            let doc = match parse_document(tail) {
                Ok(d) => d,
                Err(e) => {
                    return Err(e);
                },
            };
            let cpk = match CredentialPublicKey::from_value(doc) {
                Ok(c) => c,
                Err(e) => {
                    return Err(e);
                },
            };
            Some(AttestedCredentialData { aaguid, credential_id, credential_public_key: cpk })
        } else {
            None
        };
        Ok(
            (
                AuthenticatorData {
                    rp_id_hash,
                    flags,
                    sign_count,
                    attested_credential_data,
                    extensions: Document::Null,
                },
                data,
            ),
        )
    }
}

} // verus!
