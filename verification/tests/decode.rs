use webauthn_decoder::attestation::{AttestationObject, Message};
use webauthn_decoder::authdata::AuthenticatorData;
use webauthn_decoder::constants::{
    ECDSA_Y_PREFIX_NEGATIVE, ECDSA_Y_PREFIX_POSITIVE, WEBAUTHN_CHALLENGE_LENGTH,
    WEBAUTHN_COSE_ALGORITHM_IDENTIFIER_ES256, WEBAUTHN_COSE_ALGORITHM_IDENTIFIER_RS256,
    WEBAUTHN_CREDENTIAL_ID_LENGTH,
};
use webauthn_decoder::document::Document;
use webauthn_decoder::error::{Error, Field};
use webauthn_decoder::pubkey::{Coordinates, CredentialPublicKey};

fn x_bytes() -> Vec<u8> {
    (0u8..32).map(|i| i.wrapping_mul(3).wrapping_add(1)).collect()
}

fn y_bytes() -> Vec<u8> {
    (0u8..32).map(|i| i.wrapping_mul(5).wrapping_add(2)).collect()
}

/// Encoded key map: {1: 2, 3: -7, -1: 1, -2: x, -3: y-ish tail}.
fn key_map_bytes(y_tail: &[u8]) -> Vec<u8> {
    let mut v = vec![0xa5, 0x01, 0x02, 0x03, 0x26, 0x20, 0x01, 0x21, 0x58, 0x20];
    v.extend_from_slice(&x_bytes());
    v.push(0x22);
    v.extend_from_slice(y_tail);
    v
}

fn uncompressed_y_tail() -> Vec<u8> {
    let mut v = vec![0x58, 0x20];
    v.extend_from_slice(&y_bytes());
    v
}

/// Authenticator data: 32-byte hash, one flag byte, 4-byte counter, then the
/// attested block with a 4-byte credential id and the key map.
fn auth_data_bytes() -> Vec<u8> {
    let mut v: Vec<u8> = (0u8..32).collect();
    v.push(0x41);
    v.extend_from_slice(&[0x01, 0x02, 0x03, 0x04]);
    v.extend_from_slice(&[0xa0; 16]);
    v.extend_from_slice(&[0x00, 0x04]);
    v.extend_from_slice(&[0xde, 0xad, 0xbe, 0xef]);
    v.extend_from_slice(&key_map_bytes(&uncompressed_y_tail()));
    v
}

fn minimal_auth_data() -> Vec<u8> {
    let mut v: Vec<u8> = (0u8..32).collect();
    v.push(0x45);
    v.extend_from_slice(&[0x00, 0x00, 0x00, 0x07]);
    v
}

/// Envelope: {"fmt": "packed", "attStmt": {"alg": -7, "sig": [1,2,3]},
/// "authData": auth_data}.
fn envelope_bytes(auth_data: &[u8]) -> Vec<u8> {
    let mut v = vec![0xa3];
    v.extend_from_slice(&[0x63, 0x66, 0x6d, 0x74]);
    v.extend_from_slice(&[0x66, 0x70, 0x61, 0x63, 0x6b, 0x65, 0x64]);
    v.extend_from_slice(&[0x67, 0x61, 0x74, 0x74, 0x53, 0x74, 0x6d, 0x74]);
    v.extend_from_slice(&[0xa2, 0x63, 0x61, 0x6c, 0x67, 0x26, 0x63, 0x73, 0x69, 0x67, 0x43, 0x01, 0x02, 0x03]);
    v.extend_from_slice(&[0x68, 0x61, 0x75, 0x74, 0x68, 0x44, 0x61, 0x74, 0x61]);
    assert!(auth_data.len() < 256);
    v.extend_from_slice(&[0x58, auth_data.len() as u8]);
    v.extend_from_slice(auth_data);
    v
}

fn key_map_document(y: Document) -> Document {
    Document::Dict(vec![
        (Document::Integer(1), Document::Integer(2)),
        (Document::Integer(3), Document::Integer(-7)),
        (Document::Integer(-1), Document::Integer(1)),
        (Document::Integer(-2), Document::Bytes(x_bytes())),
        (Document::Integer(-3), y),
    ])
}

#[test]
fn short_input_fails_with_truncation() {
    assert_eq!(
        AuthenticatorData::from_vec(Vec::new()).unwrap_err(),
        Error::Truncation(Field::RpIdHash)
    );
    assert_eq!(
        AuthenticatorData::from_vec(vec![0u8; 31]).unwrap_err(),
        Error::Truncation(Field::RpIdHash)
    );
    assert_eq!(
        AuthenticatorData::from_vec(vec![0u8; 32]).unwrap_err(),
        Error::Truncation(Field::Flags)
    );
    assert_eq!(
        AuthenticatorData::from_vec(vec![0u8; 36]).unwrap_err(),
        Error::Truncation(Field::SignCount)
    );
}

#[test]
fn fixed_fields_decode_exactly() {
    let input = minimal_auth_data();
    let (ad, raw) = AuthenticatorData::from_vec(input.clone()).unwrap();
    assert_eq!(ad.rp_id_hash, (0u8..32).collect::<Vec<u8>>());
    assert_eq!(ad.flags, 0x45);
    assert_eq!(ad.sign_count, 7);
    assert!(ad.attested_credential_data.is_none());
    assert_eq!(raw, input);
}

#[test]
fn sign_count_is_big_endian() {
    let mut input: Vec<u8> = (0u8..32).collect();
    input.push(0x00);
    input.extend_from_slice(&[0x01, 0x02, 0x03, 0x04]);
    let (ad, _) = AuthenticatorData::from_vec(input).unwrap();
    assert_eq!(ad.sign_count, 16909060);
}

#[test]
fn credential_id_consumes_declared_length() {
    let input = auth_data_bytes();
    let (ad, raw) = AuthenticatorData::from_vec(input.clone()).unwrap();
    let acd = ad.attested_credential_data.unwrap();
    assert_eq!(acd.aaguid, vec![0xa0; 16]);
    assert_eq!(acd.credential_id, vec![0xde, 0xad, 0xbe, 0xef]);
    assert_eq!(raw, input);
}

#[test]
fn truncated_credential_id_fails() {
    let mut input: Vec<u8> = (0u8..32).collect();
    input.push(0x41);
    input.extend_from_slice(&[0x00, 0x00, 0x00, 0x01]);
    input.extend_from_slice(&[0xa0; 16]);
    input.extend_from_slice(&[0x00, 0x09]);
    input.extend_from_slice(&[0x01, 0x02, 0x03]);
    assert_eq!(
        AuthenticatorData::from_vec(input).unwrap_err(),
        Error::Truncation(Field::CredentialId)
    );
}

#[test]
fn truncated_credential_id_length_fails() {
    let mut input: Vec<u8> = (0u8..32).collect();
    input.push(0x41);
    input.extend_from_slice(&[0x00, 0x00, 0x00, 0x01]);
    input.extend_from_slice(&[0xa0; 16]);
    input.push(0x00);
    assert_eq!(input.len(), 54);
    assert_eq!(
        AuthenticatorData::from_vec(input).unwrap_err(),
        Error::Truncation(Field::CredentialIdLength)
    );
}

#[test]
fn malformed_trailing_document_fails_with_encoding_error() {
    let mut input: Vec<u8> = (0u8..32).collect();
    input.push(0x41);
    input.extend_from_slice(&[0x00, 0x00, 0x00, 0x01]);
    input.extend_from_slice(&[0xa0; 16]);
    input.extend_from_slice(&[0x00, 0x00]);
    input.extend_from_slice(&[0xff, 0xff, 0xff]);
    assert_eq!(
        AuthenticatorData::from_vec(input).unwrap_err(),
        Error::EncodingError
    );
}

#[test]
fn uncompressed_key_decodes_with_matching_bytes() {
    let doc = key_map_document(Document::Bytes(y_bytes()));
    let key = CredentialPublicKey::from_value(doc).unwrap();
    assert_eq!(key.key_type, 2);
    assert_eq!(key.alg, -7);
    assert_eq!(key.curve, 1);
    match key.coords {
        Coordinates::Uncompressed { x, y } => {
            assert_eq!(x, x_bytes());
            assert_eq!(y, y_bytes());
        },
        _ => panic!("expected uncompressed coordinates"),
    }
}

#[test]
fn long_coordinates_take_first_32_bytes() {
    let mut long_x = x_bytes();
    long_x.extend_from_slice(&[9, 9, 9]);
    let doc = Document::Dict(vec![
        (Document::Integer(1), Document::Integer(2)),
        (Document::Integer(3), Document::Integer(-7)),
        (Document::Integer(-1), Document::Integer(1)),
        (Document::Integer(-2), Document::Bytes(long_x)),
        (Document::Integer(-3), Document::Bytes(y_bytes())),
    ]);
    let key = CredentialPublicKey::from_value(doc).unwrap();
    match key.coords {
        Coordinates::Uncompressed { x, .. } => assert_eq!(x, x_bytes()),
        _ => panic!("expected uncompressed coordinates"),
    }
}

#[test]
fn boolean_y_decodes_to_compressed_with_matching_sign() {
    let key_odd =
        CredentialPublicKey::from_value(key_map_document(Document::Bool(true))).unwrap();
    match key_odd.coords {
        Coordinates::Compressed { x, y } => {
            assert_eq!(x, x_bytes());
            assert_eq!(y, ECDSA_Y_PREFIX_NEGATIVE);
        },
        _ => panic!("expected compressed coordinates"),
    }
    let key_even =
        CredentialPublicKey::from_value(key_map_document(Document::Bool(false))).unwrap();
    match key_even.coords {
        Coordinates::Compressed { y, .. } => assert_eq!(y, ECDSA_Y_PREFIX_POSITIVE),
        _ => panic!("expected compressed coordinates"),
    }
}

#[test]
fn missing_keys_fail_with_missing_field() {
    let doc = Document::Dict(vec![
        (Document::Integer(3), Document::Integer(-7)),
        (Document::Integer(-1), Document::Integer(1)),
    ]);
    assert_eq!(
        CredentialPublicKey::from_value(doc).unwrap_err(),
        Error::MissingField(Field::KeyType)
    );
    let doc = Document::Dict(vec![(Document::Integer(1), Document::Integer(2))]);
    assert_eq!(
        CredentialPublicKey::from_value(doc).unwrap_err(),
        Error::MissingField(Field::Algorithm)
    );
    let doc = Document::Dict(vec![
        (Document::Integer(1), Document::Integer(2)),
        (Document::Integer(3), Document::Integer(-7)),
    ]);
    assert_eq!(
        CredentialPublicKey::from_value(doc).unwrap_err(),
        Error::MissingField(Field::Curve)
    );
    let doc = Document::Dict(vec![
        (Document::Integer(1), Document::Integer(2)),
        (Document::Integer(3), Document::Integer(-7)),
        (Document::Integer(-1), Document::Integer(1)),
    ]);
    assert_eq!(
        CredentialPublicKey::from_value(doc).unwrap_err(),
        Error::MissingField(Field::XCoordinate)
    );
    let doc = Document::Dict(vec![
        (Document::Integer(1), Document::Integer(2)),
        (Document::Integer(3), Document::Integer(-7)),
        (Document::Integer(-1), Document::Integer(1)),
        (Document::Integer(-2), Document::Bytes(x_bytes())),
    ]);
    assert_eq!(
        CredentialPublicKey::from_value(doc).unwrap_err(),
        Error::MissingField(Field::YCoordinate)
    );
    assert_eq!(
        CredentialPublicKey::from_value(Document::Null).unwrap_err(),
        Error::MissingField(Field::KeyType)
    );
}

#[test]
fn short_x_coordinate_fails_with_malformed_input() {
    let doc = Document::Dict(vec![
        (Document::Integer(1), Document::Integer(2)),
        (Document::Integer(3), Document::Integer(-7)),
        (Document::Integer(-1), Document::Integer(1)),
        (Document::Integer(-2), Document::Bytes(vec![0u8; 31])),
        (Document::Integer(-3), Document::Bytes(y_bytes())),
    ]);
    assert_eq!(
        CredentialPublicKey::from_value(doc).unwrap_err(),
        Error::MalformedInput
    );
}

#[test]
fn short_y_coordinate_fails_with_malformed_input() {
    let doc = key_map_document(Document::Bytes(vec![0u8; 31]));
    assert_eq!(
        CredentialPublicKey::from_value(doc).unwrap_err(),
        Error::MalformedInput
    );
}

#[test]
fn non_integer_identifier_reads_as_zero() {
    let doc = Document::Dict(vec![
        (Document::Integer(1), Document::Bytes(vec![1, 2, 3])),
        (Document::Integer(3), Document::Integer(-7)),
        (Document::Integer(-1), Document::Null),
        (Document::Integer(-2), Document::Bytes(x_bytes())),
        (Document::Integer(-3), Document::Bool(false)),
    ]);
    let key = CredentialPublicKey::from_value(doc).unwrap();
    assert_eq!(key.key_type, 0);
    assert_eq!(key.alg, -7);
    assert_eq!(key.curve, 0);
}

#[test]
fn later_duplicate_key_overrides_earlier() {
    let doc = Document::Dict(vec![
        (Document::Integer(1), Document::Integer(2)),
        (Document::Integer(1), Document::Integer(9)),
        (Document::Integer(3), Document::Integer(-7)),
        (Document::Integer(-1), Document::Integer(1)),
        (Document::Integer(-2), Document::Bytes(x_bytes())),
        (Document::Integer(-3), Document::Bool(true)),
    ]);
    let key = CredentialPublicKey::from_value(doc).unwrap();
    assert_eq!(key.key_type, 9);
}

#[test]
fn minimal_attestation_object_decodes() {
    let auth = minimal_auth_data();
    let env = envelope_bytes(&auth);
    let att = AttestationObject::from_bytes(&env).unwrap();
    assert_eq!(att.fmt, "packed");
    assert_eq!(att.att_stmt.alg, -7);
    assert_eq!(att.att_stmt.sig, vec![1, 2, 3]);
    assert!(att.att_stmt.x5c.is_none());
    assert!(att.att_stmt.ecdaa_key_id.is_none());
    assert!(att.auth_data.attested_credential_data.is_none());
    assert_eq!(att.auth_data.rp_id_hash, (0u8..32).collect::<Vec<u8>>());
    assert_eq!(att.auth_data.flags, 0x45);
    assert_eq!(att.auth_data.sign_count, 7);
    assert_eq!(att.raw_auth_data, auth);
}

#[test]
fn full_attestation_object_decodes() {
    let auth = auth_data_bytes();
    let env = envelope_bytes(&auth);
    let att = AttestationObject::from_bytes(&env).unwrap();
    assert_eq!(att.raw_auth_data, auth);
    let acd = att.auth_data.attested_credential_data.unwrap();
    assert_eq!(acd.credential_id, vec![0xde, 0xad, 0xbe, 0xef]);
    assert_eq!(acd.credential_public_key.alg, -7);
}

#[test]
fn auth_data_not_byte_string_is_unsupported() {
    let mut v = vec![0xa3];
    v.extend_from_slice(&[0x63, 0x66, 0x6d, 0x74]);
    v.extend_from_slice(&[0x66, 0x70, 0x61, 0x63, 0x6b, 0x65, 0x64]);
    v.extend_from_slice(&[0x67, 0x61, 0x74, 0x74, 0x53, 0x74, 0x6d, 0x74]);
    v.extend_from_slice(&[0xa2, 0x63, 0x61, 0x6c, 0x67, 0x26, 0x63, 0x73, 0x69, 0x67, 0x43, 0x01, 0x02, 0x03]);
    v.extend_from_slice(&[0x68, 0x61, 0x75, 0x74, 0x68, 0x44, 0x61, 0x74, 0x61]);
    v.push(0x07);
    let err = AttestationObject::from_bytes(&v).unwrap_err();
    assert_eq!(err, Error::UnsupportedFormat);
    assert_eq!(err.message(), "cannot proceed without auth data");
}

#[test]
fn missing_envelope_field_is_encoding_error() {
    let mut v = vec![0xa2];
    v.extend_from_slice(&[0x63, 0x66, 0x6d, 0x74]);
    v.extend_from_slice(&[0x66, 0x70, 0x61, 0x63, 0x6b, 0x65, 0x64]);
    v.extend_from_slice(&[0x67, 0x61, 0x74, 0x74, 0x53, 0x74, 0x6d, 0x74]);
    v.extend_from_slice(&[0xa2, 0x63, 0x61, 0x6c, 0x67, 0x26, 0x63, 0x73, 0x69, 0x67, 0x43, 0x01, 0x02, 0x03]);
    assert_eq!(
        AttestationObject::from_bytes(&v).unwrap_err(),
        Error::EncodingError
    );
}

#[test]
fn non_dictionary_envelope_is_unsupported() {
    assert_eq!(
        AttestationObject::from_bytes(&[0x43, 0x01, 0x02, 0x03]).unwrap_err(),
        Error::UnsupportedFormat
    );
}

#[test]
fn trailing_bytes_are_an_encoding_error() {
    let auth = minimal_auth_data();
    let mut env = envelope_bytes(&auth);
    env.push(0x00);
    assert_eq!(
        AttestationObject::from_bytes(&env).unwrap_err(),
        Error::EncodingError
    );
}

#[test]
fn unsupported_document_items_are_encoding_errors() {
    // A float item, an indefinite-length array, a tagged item, reserved
    // argument encodings, and an empty input are all refused.
    for bad in [
        vec![0xfa, 0x3f, 0x80, 0x00, 0x00],
        vec![0x9f, 0xff],
        vec![0xc0, 0x00],
        vec![0x1c],
        vec![0xf7],
        Vec::new(),
    ] {
        assert_eq!(
            AttestationObject::from_bytes(&bad).unwrap_err(),
            Error::EncodingError,
            "input {:?} should be refused",
            bad
        );
    }
}

#[test]
fn nesting_beyond_the_limit_is_an_encoding_error() {
    let mut v = vec![0x81u8; 200];
    v.push(0xf6);
    assert_eq!(
        AttestationObject::from_bytes(&v).unwrap_err(),
        Error::EncodingError
    );
}

#[test]
fn invalid_base64_fails_before_byte_parsing() {
    let s = String::from("!!!not base64!!!");
    assert_eq!(
        AttestationObject::from_base64(&s).unwrap_err(),
        Error::EncodingError
    );
}

#[test]
fn base64_entry_point_matches_byte_entry_point() {
    let auth = auth_data_bytes();
    let env = envelope_bytes(&auth);
    let encoded = base64::Engine::encode(&base64::engine::general_purpose::STANDARD, &env);
    let att = AttestationObject::from_base64(&encoded).unwrap();
    assert_eq!(att.fmt, "packed");
    assert_eq!(att.raw_auth_data, auth);
    let by_bytes = AttestationObject::from_bytes(&env).unwrap();
    assert_eq!(att.auth_data.sign_count, by_bytes.auth_data.sign_count);
}

#[test]
fn exported_constants_have_protocol_values() {
    assert_eq!(WEBAUTHN_CHALLENGE_LENGTH, 32);
    assert_eq!(WEBAUTHN_CREDENTIAL_ID_LENGTH, 16);
    assert_eq!(WEBAUTHN_COSE_ALGORITHM_IDENTIFIER_ES256, -7);
    assert_eq!(WEBAUTHN_COSE_ALGORITHM_IDENTIFIER_RS256, -257);
    assert_eq!(ECDSA_Y_PREFIX_POSITIVE, 0x02);
    assert_eq!(ECDSA_Y_PREFIX_NEGATIVE, 0x03);
}

#[test]
fn message_trait_decodes_like_the_inherent_functions() {
    let auth = minimal_auth_data();
    let env = envelope_bytes(&auth);
    let att: AttestationObject = Message::from_bytes(&env).unwrap();
    assert_eq!(att.fmt, "packed");
    let encoded = base64::Engine::encode(&base64::engine::general_purpose::STANDARD, &env);
    let att2: AttestationObject = Message::from_base64(&encoded).unwrap();
    assert_eq!(att2.auth_data.flags, 0x45);
}

fn envelope_with_statement(att_stmt: &[u8], auth_data: &[u8]) -> Vec<u8> {
    let mut v = vec![0xa3];
    v.extend_from_slice(&[0x63, 0x66, 0x6d, 0x74]);
    v.extend_from_slice(&[0x66, 0x70, 0x61, 0x63, 0x6b, 0x65, 0x64]);
    v.extend_from_slice(&[0x67, 0x61, 0x74, 0x74, 0x53, 0x74, 0x6d, 0x74]);
    v.extend_from_slice(att_stmt);
    v.extend_from_slice(&[0x68, 0x61, 0x75, 0x74, 0x68, 0x44, 0x61, 0x74, 0x61]);
    assert!(auth_data.len() < 256);
    v.extend_from_slice(&[0x58, auth_data.len() as u8]);
    v.extend_from_slice(auth_data);
    v
}

#[test]
fn statement_algorithm_out_of_range_is_encoding_error() {
    // attStmt with "alg" holding an unsigned integer beyond the 64-bit
    // signed range, and a well-formed "sig".
    let mut stmt = vec![0xa2, 0x63, 0x61, 0x6c, 0x67, 0x1b];
    stmt.extend_from_slice(&[0xff; 8]);
    stmt.extend_from_slice(&[0x63, 0x73, 0x69, 0x67, 0x43, 0x01, 0x02, 0x03]);
    let env = envelope_with_statement(&stmt, &minimal_auth_data());
    assert_eq!(
        AttestationObject::from_bytes(&env).unwrap_err(),
        Error::EncodingError
    );
}

#[test]
fn statement_passes_certificate_chain_through() {
    // attStmt with "alg", "sig", an "x5c" array of one byte string, and a
    // null "ecdaaKeyId", which reads as absent.
    let stmt = vec![
        0xa4, 0x63, 0x61, 0x6c, 0x67, 0x26, 0x63, 0x73, 0x69, 0x67, 0x43, 0x01, 0x02, 0x03,
        0x63, 0x78, 0x35, 0x63, 0x81, 0x42, 0xaa, 0xbb, 0x6a, 0x65, 0x63, 0x64, 0x61, 0x61,
        0x4b, 0x65, 0x79, 0x49, 0x64, 0xf6,
    ];
    let env = envelope_with_statement(&stmt, &minimal_auth_data());
    let att = AttestationObject::from_bytes(&env).unwrap();
    match att.att_stmt.x5c {
        Some(Document::Array(items)) => {
            assert_eq!(items.len(), 1);
            match &items[0] {
                Document::Bytes(b) => assert_eq!(b, &vec![0xaa, 0xbb]),
                _ => panic!("expected a byte string in the chain"),
            }
        },
        _ => panic!("expected the certificate chain to pass through"),
    }
    assert!(att.att_stmt.ecdaa_key_id.is_none());
}

#[test]
fn nesting_within_the_limit_decodes() {
    // attStmt whose "x5c" is a 100-deep nest of single-element arrays.
    let mut stmt = vec![
        0xa3, 0x63, 0x61, 0x6c, 0x67, 0x26, 0x63, 0x73, 0x69, 0x67, 0x43, 0x01, 0x02, 0x03,
        0x63, 0x78, 0x35, 0x63,
    ];
    stmt.extend_from_slice(&[0x81; 100]);
    stmt.push(0xf4);
    let env = envelope_with_statement(&stmt, &minimal_auth_data());
    let att = AttestationObject::from_bytes(&env).unwrap();
    assert!(att.att_stmt.x5c.is_some());
}

#[test]
fn every_error_kind_has_its_message() {
    assert_eq!(Error::EncodingError.message(), "malformed document encoding");
    assert_eq!(
        Error::Truncation(Field::RpIdHash).message(),
        "unexpected end of input"
    );
    assert_eq!(
        Error::MissingField(Field::KeyType).message(),
        "required key missing"
    );
    assert_eq!(Error::MalformedInput.message(), "malformed coordinate");
}
