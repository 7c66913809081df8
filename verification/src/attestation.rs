use vstd::prelude::*;
use crate::authdata::{sp_auth_data, AuthDataV, AuthenticatorData};
use crate::document::{
    dict_get, dview_pairs, lemma_dview_pairs, opt_rep, parse_document, sp_doc, DocV, Document,
};
use crate::error::Error;

verus! {

/// The bytes of the envelope key "fmt".
pub open spec fn key_fmt() -> Seq<u8> {
    seq![102u8, 109u8, 116u8]
}

/// The bytes of the envelope key "attStmt".
pub open spec fn key_att_stmt() -> Seq<u8> {
    seq![97u8, 116u8, 116u8, 83u8, 116u8, 109u8, 116u8]
}

/// The bytes of the envelope key "authData".
pub open spec fn key_auth_data() -> Seq<u8> {
    seq![97u8, 117u8, 116u8, 104u8, 68u8, 97u8, 116u8, 97u8]
}

/// The bytes of the statement key "alg".
pub open spec fn key_alg() -> Seq<u8> {
    seq![97u8, 108u8, 103u8]
}

/// The bytes of the statement key "sig".
pub open spec fn key_sig() -> Seq<u8> {
    seq![115u8, 105u8, 103u8]
}

/// The bytes of the statement key "x5c".
pub open spec fn key_x5c() -> Seq<u8> {
    seq![120u8, 53u8, 99u8]
}

/// The bytes of the statement key "ecdaaKeyId".
pub open spec fn key_ecdaa() -> Seq<u8> {
    seq![101u8, 99u8, 100u8, 97u8, 97u8, 75u8, 101u8, 121u8, 73u8, 100u8]
}

/// The attestation statement: passed through to the verifier unmodified.
#[derive(Clone, Debug)]
pub struct AttestationStatement {
    pub alg: i64,
    pub sig: Vec<u8>,
    pub x5c: Option<Document>,
    pub ecdaa_key_id: Option<Document>,
}

/// Mathematical model of `AttestationStatement`.
pub struct StmtV {
    pub alg: int,
    pub sig: Seq<u8>,
    pub x5c: Option<DocV>,
    pub ecdaa_key_id: Option<DocV>,
}

impl View for AttestationStatement {
    type V = StmtV;

    open spec fn view(&self) -> StmtV {
        StmtV {
            alg: self.alg as int,
            sig: self.sig@,
            x5c: match self.x5c {
                Option::Some(ref d) => Option::Some(d.dview()),
                Option::None => Option::None,
            },
            ecdaa_key_id: match self.ecdaa_key_id {
                Option::Some(ref d) => Option::Some(d.dview()),
                Option::None => Option::None,
            },
        }
    }
}

/// An optional pass-through entry: an absent or null entry reads as absent.
pub open spec fn opt_entry(o: Option<DocV>) -> Option<DocV> {
    match o {
        Option::None => Option::None,
        Option::Some(DocV::Null) => Option::None,
        Option::Some(v) => Option::Some(v),
    }
}

/// What reading a document as an attestation statement yields: the algorithm
/// entry must hold an integer in the 64-bit signed range, the signature entry
/// a byte string; the certificate chain and ECDAA key entries pass through.
pub open spec fn sp_statement(v: DocV) -> Result<StmtV, Error> {
    match v {
        DocV::Dict(entries) => {
            match (dict_get(entries, DocV::Text(key_alg())), dict_get(
                entries,
                DocV::Text(key_sig()),
            )) {
                (Some(DocV::Integer(i)), Some(DocV::Bytes(sg))) => {
                    if -9223372036854775808 <= i <= 9223372036854775807 {
                        Ok(
                            StmtV {
                                alg: i,
                                sig: sg,
                                x5c: opt_entry(dict_get(entries, DocV::Text(key_x5c()))),
                                ecdaa_key_id: opt_entry(
                                    dict_get(entries, DocV::Text(key_ecdaa())),
                                ),
                            },
                        )
                    } else {
                        Err(Error::EncodingError)
                    }
                },
                _ => Err(Error::EncodingError),
            }
        },
        _ => Err(Error::EncodingError),
    }
}

/// The characters a byte sequence forms when read as UTF-8, when it is valid
/// UTF-8; a function of the bytes alone.
pub uninterp spec fn utf8_chars(b: Seq<u8>) -> Option<Seq<char>>;

/// Relies on String::from_utf8: it returns the string formed by the bytes
/// exactly when they are valid UTF-8, and rejects them otherwise.
#[verifier::external_body]
fn string_from_utf8(v: Vec<u8>) -> (r: Result<String, Error>)
    ensures
        match r {
            Ok(s) => utf8_chars(v@) is Some && s@ == utf8_chars(v@).unwrap(),
            Err(e) => utf8_chars(v@) is None && e == Error::EncodingError,
        },
{
    match String::from_utf8(v) {
        Ok(s) => Ok(s),
        Err(_) => Err(Error::EncodingError),
    }
}

/// The bytes a string denotes in standard base64, when it is valid standard
/// base64; a function of the characters alone.
pub uninterp spec fn base64_decoded(s: Seq<char>) -> Option<Seq<u8>>;

/// Relies on base64's STANDARD engine: decoding returns the denoted bytes
/// exactly when the string is valid padded standard base64.
#[verifier::external_body]
fn decode_base64(s: &str) -> (r: Result<Vec<u8>, Error>)
    ensures
        match r {
            Ok(v) => base64_decoded(s@) is Some && v@ == base64_decoded(s@).unwrap(),
            Err(e) => base64_decoded(s@) is None && e == Error::EncodingError,
        },
{
    match base64::Engine::decode(&base64::engine::general_purpose::STANDARD, s) {
        Ok(v) => Ok(v),
        Err(_) => Err(Error::EncodingError),
    }
}

/// The outer envelope as decoded, before the authenticator-data bytes are
/// themselves parsed.
#[derive(Clone, Debug)]
pub struct RawAttestationObject {
    pub auth_data: Document,
    pub fmt: String,
    pub att_stmt: AttestationStatement,
}

/// Mathematical model of `RawAttestationObject`.
pub struct RawV {
    pub auth_data: DocV,
    pub fmt: Seq<char>,
    pub att_stmt: StmtV,
}

impl View for RawAttestationObject {
    type V = RawV;

    open spec fn view(&self) -> RawV {
        RawV { auth_data: self.auth_data.dview(), fmt: self.fmt@, att_stmt: self.att_stmt@ }
    }
}

/// What reading a document as the outer envelope yields: a dictionary with
/// "fmt" (text), "attStmt" (statement-shaped) and "authData" entries; a
/// non-dictionary outer document is an unsupported format.
pub open spec fn sp_envelope(v: DocV) -> Result<RawV, Error> {
    match v {
        DocV::Dict(entries) => {
            let f = dict_get(entries, DocV::Text(key_fmt()));
            let st = dict_get(entries, DocV::Text(key_att_stmt()));
            let ad = dict_get(entries, DocV::Text(key_auth_data()));
            if f is None || st is None || ad is None {
                Err(Error::EncodingError)
            } else {
                match f.unwrap() {
                    DocV::Text(fb) => match utf8_chars(fb) {
                        None => Err(Error::EncodingError),
                        Some(fc) => match sp_statement(st.unwrap()) {
                            Err(e) => Err(e),
                            Ok(sv) => Ok(
                                RawV { auth_data: ad.unwrap(), fmt: fc, att_stmt: sv },
                            ),
                        },
                    },
                    _ => Err(Error::EncodingError),
                }
            }
        },
        _ => Err(Error::UnsupportedFormat),
    }
}

/// The fully decoded attestation object.
#[derive(Clone, Debug)]
pub struct AttestationObject {
    pub auth_data: AuthenticatorData,
    pub raw_auth_data: Vec<u8>,
    pub fmt: String,
    pub att_stmt: AttestationStatement,
}

/// Mathematical model of `AttestationObject`.
pub struct AttV {
    pub auth_data: AuthDataV,
    pub raw_auth_data: Seq<u8>,
    pub fmt: Seq<char>,
    pub att_stmt: StmtV,
}

impl View for AttestationObject {
    type V = AttV;

    open spec fn view(&self) -> AttV {
        AttV {
            auth_data: self.auth_data@,
            raw_auth_data: self.raw_auth_data@,
            fmt: self.fmt@,
            att_stmt: self.att_stmt@,
        }
    }
}

/// What decoding an attestation object from envelope bytes yields, for every
/// byte sequence: the envelope must decode as one document, its
/// authenticator-data entry must be a byte string, and those bytes must parse
/// as authenticator data; the raw bytes are kept verbatim.
pub open spec fn sp_attestation(b: Seq<u8>) -> Result<AttV, Error> {
    match sp_doc(b) {
        None => Err(Error::EncodingError),
        Some(v) => match sp_envelope(v) {
            Err(e) => Err(e),
            Ok(raw) => match raw.auth_data {
                DocV::Bytes(ad) => match sp_auth_data(ad) {
                    Err(e) => Err(e),
                    Ok(adv) => Ok(
                        AttV {
                            auth_data: adv,
                            raw_auth_data: ad,
                            fmt: raw.fmt,
                            att_stmt: raw.att_stmt,
                        },
                    ),
                },
                _ => Err(Error::UnsupportedFormat),
            },
        },
    }
}

/// Which of the three envelope keys a dictionary key is: 1 for "fmt", 2 for
/// "attStmt", 3 for "authData", 0 for anything else.
fn env_key_index(k: &Document) -> (r: u8)
    ensures
        (r == 1) <==> k.dview() == DocV::Text(key_fmt()),
        (r == 2) <==> k.dview() == DocV::Text(key_att_stmt()),
        (r == 3) <==> k.dview() == DocV::Text(key_auth_data()),
        r == 0 || r == 1 || r == 2 || r == 3,
{
    match k {
        Document::Text(t) => {
            if t.len() == 3 && t[0] == 102 && t[1] == 109 && t[2] == 116 {
                proof {
                    assert(t@ =~= key_fmt());
                }
                1
            } else if t.len() == 7 && t[0] == 97 && t[1] == 116 && t[2] == 116 && t[3] == 83
                && t[4] == 116 && t[5] == 109 && t[6] == 116 {
                proof {
                    assert(t@ =~= key_att_stmt());
                }
                2
            } else if t.len() == 8 && t[0] == 97 && t[1] == 117 && t[2] == 116 && t[3] == 104
                && t[4] == 68 && t[5] == 97 && t[6] == 116 && t[7] == 97 {
                proof {
                    assert(t@ =~= key_auth_data());
                }
                3
            } else {
                0
            }
        },
        _ => 0,
    }
}

/// Which of the four statement keys a dictionary key is: 1 for "alg", 2 for
/// "sig", 3 for "x5c", 4 for "ecdaaKeyId", 0 for anything else.
fn stmt_key_index(k: &Document) -> (r: u8)
    ensures
        (r == 1) <==> k.dview() == DocV::Text(key_alg()),
        (r == 2) <==> k.dview() == DocV::Text(key_sig()),
        (r == 3) <==> k.dview() == DocV::Text(key_x5c()),
        (r == 4) <==> k.dview() == DocV::Text(key_ecdaa()),
        r == 0 || r == 1 || r == 2 || r == 3 || r == 4,
{
    match k {
        Document::Text(t) => {
            if t.len() == 3 && t[0] == 97 && t[1] == 108 && t[2] == 103 {
                proof {
                    assert(t@ =~= key_alg());
                }
                1
            } else if t.len() == 3 && t[0] == 115 && t[1] == 105 && t[2] == 103 {
                proof {
                    assert(t@ =~= key_sig());
                }
                2
            } else if t.len() == 3 && t[0] == 120 && t[1] == 53 && t[2] == 99 {
                proof {
                    assert(t@ =~= key_x5c());
                }
                3
            } else if t.len() == 10 && t[0] == 101 && t[1] == 99 && t[2] == 100 && t[3] == 97
                && t[4] == 97 && t[5] == 75 && t[6] == 101 && t[7] == 121 && t[8] == 73 && t[9]
                == 100 {
                proof {
                    assert(t@ =~= key_ecdaa());
                }
                4
            } else {
                0
            }
        },
        _ => 0,
    }
}

/// One pass over the envelope's entries, handing out the values of the three
/// envelope keys; a later duplicate key overrides an earlier one.
fn split_env_entries(entries: Vec<(Document, Document)>) -> (r: (
    Option<Document>,
    Option<Document>,
    Option<Document>,
))
    ensures
        opt_rep(r.0, dict_get(dview_pairs(entries@), DocV::Text(key_fmt()))),
        opt_rep(r.1, dict_get(dview_pairs(entries@), DocV::Text(key_att_stmt()))),
        opt_rep(r.2, dict_get(dview_pairs(entries@), DocV::Text(key_auth_data()))),
{
    let ghost orig = entries@;
    let ghost e0 = dview_pairs(entries@);
    let mut es = entries;
    let mut s1: Option<Document> = None;
    let mut s2: Option<Document> = None;
    let mut s3: Option<Document> = None;
    proof {
        lemma_dview_pairs(orig);
        assert(es@ =~= orig.subrange(0, es@.len() as int));
        assert(e0.subrange(e0.len() as int, e0.len() as int) =~= Seq::<(DocV, DocV)>::empty());
    }
    while es.len() > 0
        invariant
            e0 == dview_pairs(orig),
            e0.len() == orig.len(),
            es@.len() <= orig.len(),
            es@ == orig.subrange(0, es@.len() as int),
            opt_rep(
                s1,
                dict_get(e0.subrange(es@.len() as int, e0.len() as int), DocV::Text(key_fmt())),
            ),
            opt_rep(
                s2,
                dict_get(
                    e0.subrange(es@.len() as int, e0.len() as int),
                    DocV::Text(key_att_stmt()),
                ),
            ),
            opt_rep(
                s3,
                dict_get(
                    e0.subrange(es@.len() as int, e0.len() as int),
                    DocV::Text(key_auth_data()),
                ),
            ),
        decreases es@.len(),
    {
        let (k, v) = es.pop().unwrap();
        let ghost j = es@.len() as int;
        proof {
            lemma_dview_pairs(orig);
            assert(es@ =~= orig.subrange(0, j));
            assert((k, v) == orig[j]);
            assert(e0.subrange(j, e0.len() as int).drop_first() =~= e0.subrange(
                j + 1,
                e0.len() as int,
            ));
            assert(e0[j] == (orig[j].0.dview(), orig[j].1.dview()));
        }
        let idx = env_key_index(&k);
        if idx == 1 {
            if s1.is_none() {
                s1 = Some(v);
            }
        } else if idx == 2 {
            if s2.is_none() {
                s2 = Some(v);
            }
        } else if idx == 3 {
            if s3.is_none() {
                s3 = Some(v);
            }
        }
    }
    proof {
        assert(e0.subrange(0, e0.len() as int) =~= e0);
    }
    (s1, s2, s3)
}

/// One pass over the statement's entries, handing out the values of the four
/// statement keys; a later duplicate key overrides an earlier one.
fn split_stmt_entries(entries: Vec<(Document, Document)>) -> (r: (
    Option<Document>,
    Option<Document>,
    Option<Document>,
    Option<Document>,
))
    ensures
        opt_rep(r.0, dict_get(dview_pairs(entries@), DocV::Text(key_alg()))),
        opt_rep(r.1, dict_get(dview_pairs(entries@), DocV::Text(key_sig()))),
        opt_rep(r.2, dict_get(dview_pairs(entries@), DocV::Text(key_x5c()))),
        opt_rep(r.3, dict_get(dview_pairs(entries@), DocV::Text(key_ecdaa()))),
{
    let ghost orig = entries@;
    let ghost e0 = dview_pairs(entries@);
    let mut es = entries;
    let mut s1: Option<Document> = None;
    let mut s2: Option<Document> = None;
    let mut s3: Option<Document> = None;
    let mut s4: Option<Document> = None;
    proof {
        lemma_dview_pairs(orig);
        assert(es@ =~= orig.subrange(0, es@.len() as int));
        assert(e0.subrange(e0.len() as int, e0.len() as int) =~= Seq::<(DocV, DocV)>::empty());
    }
    while es.len() > 0
        invariant
            e0 == dview_pairs(orig),
            e0.len() == orig.len(),
            es@.len() <= orig.len(),
            es@ == orig.subrange(0, es@.len() as int),
            opt_rep(
                s1,
                dict_get(e0.subrange(es@.len() as int, e0.len() as int), DocV::Text(key_alg())),
            ),
            opt_rep(
                s2,
                dict_get(e0.subrange(es@.len() as int, e0.len() as int), DocV::Text(key_sig())),
            ),
            opt_rep(
                s3,
                dict_get(e0.subrange(es@.len() as int, e0.len() as int), DocV::Text(key_x5c())),
            ),
            opt_rep(
                s4,
                dict_get(
                    e0.subrange(es@.len() as int, e0.len() as int),
                    DocV::Text(key_ecdaa()),
                ),
            ),
        decreases es@.len(),
    {
        let (k, v) = es.pop().unwrap();
        let ghost j = es@.len() as int;
        proof {
            lemma_dview_pairs(orig);
            assert(es@ =~= orig.subrange(0, j));
            assert((k, v) == orig[j]);
            assert(e0.subrange(j, e0.len() as int).drop_first() =~= e0.subrange(
                j + 1,
                e0.len() as int,
            ));
            assert(e0[j] == (orig[j].0.dview(), orig[j].1.dview()));
        }
        let idx = stmt_key_index(&k);
        if idx == 1 {
            if s1.is_none() {
                s1 = Some(v);
            }
        } else if idx == 2 {
            if s2.is_none() {
                s2 = Some(v);
            }
        } else if idx == 3 {
            if s3.is_none() {
                s3 = Some(v);
            }
        } else if idx == 4 {
            if s4.is_none() {
                s4 = Some(v);
            }
        }
    }
    proof {
        assert(e0.subrange(0, e0.len() as int) =~= e0);
    }
    (s1, s2, s3, s4)
}

/// Reads a document as an attestation statement; fails exactly as
/// `sp_statement` says.
fn decode_statement(doc: Document) -> (r: Result<AttestationStatement, Error>)
    ensures
        match sp_statement(doc.dview()) {
            Ok(v) => r is Ok && r.unwrap()@ == v,
            Err(e) => r == Err::<AttestationStatement, Error>(e),
        },
{
    let entries = match doc {
        Document::Dict(es) => es,
        _ => {
            return Err(Error::EncodingError);
        },
    };
    let (alg_e, sig_e, x5c_e, ecdaa_e) = split_stmt_entries(entries);
    let alg: i64 = match alg_e {
        Some(Document::Integer(i)) => {
            if -9223372036854775808i128 <= i && i <= 9223372036854775807i128 {
                i as i64
            } else {
                return Err(Error::EncodingError);
            }
        },
        _ => {
            return Err(Error::EncodingError);
        },
    };
    let sig: Vec<u8> = match sig_e {
        Some(Document::Bytes(bv)) => bv,
        _ => {
            return Err(Error::EncodingError);
        },
    };
    let x5c: Option<Document> = match x5c_e {
        None => None,
        Some(Document::Null) => None,
        Some(d) => Some(d),
    };
    let ecdaa_key_id: Option<Document> = match ecdaa_e {
        None => None,
        Some(Document::Null) => None,
        Some(d) => Some(d),
    };
    Ok(AttestationStatement { alg, sig, x5c, ecdaa_key_id })
}

/// Reads a document as the outer envelope; fails exactly as `sp_envelope`
/// says.
fn decode_envelope(doc: Document) -> (r: Result<RawAttestationObject, Error>)
    ensures
        match sp_envelope(doc.dview()) {
            Ok(v) => r is Ok && r.unwrap()@ == v,
            Err(e) => r == Err::<RawAttestationObject, Error>(e),
        },
{
    let entries = match doc {
        Document::Dict(es) => es,
        _ => {
            return Err(Error::UnsupportedFormat);
        },
    };
    let (f, st, ad) = split_env_entries(entries);
    if f.is_none() || st.is_none() || ad.is_none() {
        return Err(Error::EncodingError);
    }
    let t: Vec<u8> = match f.unwrap() {
        Document::Text(t) => t,
        _ => {
            return Err(Error::EncodingError);
        },
    };
    let fmt = match string_from_utf8(t) {
        Ok(s) => s,
        Err(e) => {
            return Err(e);
        },
    };
    let att_stmt = match decode_statement(st.unwrap()) {
        Ok(s) => s,
        Err(e) => {
            return Err(e);
        },
    };
    Ok(RawAttestationObject { auth_data: ad.unwrap(), fmt, att_stmt })
}

impl AttestationObject {
    /// Decodes an attestation object from raw envelope bytes; the result and
    /// every failure are exactly those of `sp_attestation`.
    pub fn from_bytes(raw_values: &[u8]) -> (r: Result<AttestationObject, Error>)
        ensures
            match sp_attestation(raw_values@) {
                Ok(v) => r is Ok && r.unwrap()@ == v,
                Err(e) => r == Err::<AttestationObject, Error>(e),
            },
    {
        let doc = match parse_document(raw_values) {
            Ok(d) => d,
            Err(e) => {
                return Err(e);
            },
        };
        let raw = match decode_envelope(doc) {
            Ok(x) => x,
            Err(e) => {
                return Err(e);
            },
        };
        let data: Vec<u8> = match raw.auth_data {
            Document::Bytes(v) => v,
            _ => {
                return Err(Error::UnsupportedFormat);
            },
        };
        let (auth_data, raw_auth_data) = match AuthenticatorData::from_vec(data) {
            Ok(p) => p,
            Err(e) => {
                return Err(e);
            },
        };
        Ok(AttestationObject { auth_data, raw_auth_data, fmt: raw.fmt, att_stmt: raw.att_stmt })
    }

    /// Decodes an attestation object from a base64 string; an invalid string
    /// fails with an encoding error before any byte is parsed.
    pub fn from_base64(string: &String) -> (r: Result<AttestationObject, Error>)
        ensures
            match base64_decoded(string@) {
                None => r == Err::<AttestationObject, Error>(Error::EncodingError),
                Some(bytes) => match sp_attestation(bytes) {
                    Ok(v) => r is Ok && r.unwrap()@ == v,
                    Err(e) => r == Err::<AttestationObject, Error>(e),
                },
            },
    {
        let raw_values = match decode_base64(string.as_str()) {
            Ok(v) => v,
            Err(e) => {
                return Err(e);
            },
        };
        Self::from_bytes(raw_values.as_slice())
    }
}

/// Law: an attestation object whose authenticator-data entry is a 37-byte
/// buffer decodes with no attested credential block, with the raw bytes kept
/// verbatim, and with the three fixed fields read from the buffer exactly.
pub proof fn lemma_minimal_auth_data(b: Seq<u8>, env: RawV, ad: Seq<u8>)
    requires
        sp_doc(b) is Some,
        sp_envelope(sp_doc(b).unwrap()) == Ok::<RawV, Error>(env),
        env.auth_data == DocV::Bytes(ad),
        ad.len() == 37,
    ensures
        sp_attestation(b) is Ok,
        sp_attestation(b).unwrap().auth_data.attested_credential_data is None,
        sp_attestation(b).unwrap().raw_auth_data == ad,
        sp_attestation(b).unwrap().auth_data.rp_id_hash == ad.subrange(0, 32),
        sp_attestation(b).unwrap().auth_data.flags == ad[32],
        sp_attestation(b).unwrap().auth_data.sign_count == crate::document::be_val(
            ad.subrange(33, 37),
        ),
{
}

/// Law: an envelope whose authenticator-data entry is present but not a byte
/// string fails as an unsupported format.
pub proof fn lemma_auth_data_not_bytes(b: Seq<u8>, env: RawV)
    requires
        sp_doc(b) is Some,
        sp_envelope(sp_doc(b).unwrap()) == Ok::<RawV, Error>(env),
        !(env.auth_data is Bytes),
    ensures
        sp_attestation(b) == Err::<AttV, Error>(Error::UnsupportedFormat),
{
}

/// Something decodable from a base64 string or from raw envelope bytes.
pub trait Message: Sized {
    fn from_base64(string: &String) -> Result<Self, Error>;

    fn from_bytes(raw_values: &[u8]) -> Result<Self, Error>;
}

impl Message for AttestationObject {
    fn from_base64(string: &String) -> Result<Self, Error> {
        AttestationObject::from_base64(string)
    }

    fn from_bytes(raw_values: &[u8]) -> Result<Self, Error> {
        AttestationObject::from_bytes(raw_values)
    }
}

} // verus!
