use vstd::prelude::*;
use crate::constants::{ECDSA_Y_PREFIX_NEGATIVE, ECDSA_Y_PREFIX_POSITIVE};
use crate::document::{dict_get, dview_pairs, lemma_dview_pairs, opt_rep, DocV, Document};
use crate::error::{Error, Field};

verus! {

/// Elliptic-curve point encoding carried by a credential public key: either
/// the full coordinate pair, or the X coordinate with a SEC1 sign prefix.
#[derive(Clone, Debug)]
pub enum Coordinates {
    Compressed { x: Vec<u8>, y: u8 },
    Uncompressed { x: Vec<u8>, y: Vec<u8> },
}

/// Mathematical model of `Coordinates`.
pub enum CoordsV {
    Compressed { x: Seq<u8>, y: u8 },
    Uncompressed { x: Seq<u8>, y: Seq<u8> },
}

impl View for Coordinates {
    type V = CoordsV;

    open spec fn view(&self) -> CoordsV {
        match self {
            Coordinates::Compressed { x, y } => CoordsV::Compressed { x: x@, y: *y },
            Coordinates::Uncompressed { x, y } => CoordsV::Uncompressed { x: x@, y: y@ },
        }
    }
}

/// A decoded credential public key: COSE-convention integer identifiers and
/// the curve point coordinates.
#[derive(Clone, Debug)]
pub struct CredentialPublicKey {
    pub key_type: i64,
    pub alg: i64,
    pub curve: i64,
    pub coords: Coordinates,
}

/// Mathematical model of `CredentialPublicKey`.
pub struct CpkV {
    pub key_type: int,
    pub alg: int,
    pub curve: int,
    pub coords: CoordsV,
}

impl View for CredentialPublicKey {
    type V = CpkV;

    open spec fn view(&self) -> CpkV {
        CpkV {
            key_type: self.key_type as int,
            alg: self.alg as int,
            curve: self.curve as int,
            coords: self.coords@,
        }
    }
}

/// The numeric reading of a required identifier entry: the integer it holds,
/// truncated to the 64-bit signed range, or zero when the entry is present
/// but not an integer (the deliberately permissive coercion).
pub open spec fn coerce_int(v: DocV) -> i64 {
    match v {
        DocV::Integer(i) => i as i64,
        _ => 0,
    }
}

/// What interpreting a document as a public-key descriptor yields: the value
/// for every possible document, including the exact failure.
pub open spec fn sp_cpk(v: DocV) -> Result<CpkV, Error> {
    match v {
        DocV::Dict(entries) => {
            if dict_get(entries, DocV::Integer(1)) is None {
                Err(Error::MissingField(Field::KeyType))
            } else if dict_get(entries, DocV::Integer(3)) is None {
                Err(Error::MissingField(Field::Algorithm))
            } else if dict_get(entries, DocV::Integer(-1)) is None {
                Err(Error::MissingField(Field::Curve))
            } else {
                let key_type = coerce_int(dict_get(entries, DocV::Integer(1)).unwrap());
                let alg = coerce_int(dict_get(entries, DocV::Integer(3)).unwrap());
                let curve = coerce_int(dict_get(entries, DocV::Integer(-1)).unwrap());
                match dict_get(entries, DocV::Integer(-2)) {
                    None => Err(Error::MissingField(Field::XCoordinate)),
                    Some(xv) => match xv {
                        DocV::Bytes(xb) => if xb.len() >= 32 {
                            let x = xb.subrange(0, 32);
                            match dict_get(entries, DocV::Integer(-3)) {
                                None => Err(Error::MissingField(Field::YCoordinate)),
                                Some(yv) => match yv {
                                    DocV::Bytes(yb) => if yb.len() >= 32 {
                                        Ok(
                                            CpkV {
                                                key_type: key_type as int,
                                                alg: alg as int,
                                                curve: curve as int,
                                                coords: CoordsV::Uncompressed {
                                                    x,
                                                    y: yb.subrange(0, 32),
                                                },
                                            },
                                        )
                                    } else {
                                        Err(Error::MalformedInput)
                                    },
                                    DocV::Bool(bv) => Ok(
                                        CpkV {
                                            key_type: key_type as int,
                                            alg: alg as int,
                                            curve: curve as int,
                                            coords: CoordsV::Compressed {
                                                x,
                                                y: if bv {
                                                    ECDSA_Y_PREFIX_NEGATIVE
                                                } else {
                                                    ECDSA_Y_PREFIX_POSITIVE
                                                },
                                            },
                                        },
                                    ),
                                    _ => Err(Error::MissingField(Field::YCoordinate)),
                                },
                            }
                        } else {
                            Err(Error::MalformedInput)
                        },
                        _ => Err(Error::MalformedInput),
                    },
                }
            }
        },
        _ => Err(Error::MissingField(Field::KeyType)),
    }
}

/// Law: a key document holding the three identifier entries, an X entry that
/// is a byte string of at least 32 bytes and a Y entry that is a byte string
/// of at least 32 bytes decodes to the uncompressed coordinates made of the
/// first 32 bytes of each; with exactly 32 bytes the coordinates match the
/// entries byte for byte.
pub proof fn lemma_uncompressed_coordinates(entries: Seq<(DocV, DocV)>, xb: Seq<u8>, yb: Seq<u8>)
    requires
        dict_get(entries, DocV::Integer(1)) is Some,
        dict_get(entries, DocV::Integer(3)) is Some,
        dict_get(entries, DocV::Integer(-1)) is Some,
        dict_get(entries, DocV::Integer(-2)) == Some(DocV::Bytes(xb)),
        xb.len() >= 32,
        dict_get(entries, DocV::Integer(-3)) == Some(DocV::Bytes(yb)),
        yb.len() >= 32,
    ensures
        sp_cpk(DocV::Dict(entries)) is Ok,
        sp_cpk(DocV::Dict(entries)).unwrap().coords == (CoordsV::Uncompressed {
            x: xb.subrange(0, 32),
            y: yb.subrange(0, 32),
        }),
        xb.len() == 32 && yb.len() == 32 ==> sp_cpk(DocV::Dict(entries)).unwrap().coords == (
        CoordsV::Uncompressed { x: xb, y: yb }),
{
    if xb.len() == 32 {
        assert(xb.subrange(0, 32) =~= xb);
    }
    if yb.len() == 32 {
        assert(yb.subrange(0, 32) =~= yb);
    }
}

/// Law: the same document with the Y entry replaced by a boolean decodes to
/// compressed coordinates whose sign prefix is chosen by the boolean: the
/// odd-Y prefix for true, the even-Y prefix for false.
pub proof fn lemma_compressed_coordinates(entries: Seq<(DocV, DocV)>, xb: Seq<u8>, bv: bool)
    requires
        dict_get(entries, DocV::Integer(1)) is Some,
        dict_get(entries, DocV::Integer(3)) is Some,
        dict_get(entries, DocV::Integer(-1)) is Some,
        dict_get(entries, DocV::Integer(-2)) == Some(DocV::Bytes(xb)),
        xb.len() >= 32,
        dict_get(entries, DocV::Integer(-3)) == Some(DocV::Bool(bv)),
    ensures
        sp_cpk(DocV::Dict(entries)) is Ok,
        sp_cpk(DocV::Dict(entries)).unwrap().coords == (CoordsV::Compressed {
            x: xb.subrange(0, 32),
            y: if bv {
                ECDSA_Y_PREFIX_NEGATIVE
            } else {
                ECDSA_Y_PREFIX_POSITIVE
            },
        }),
{
}

/// Law: a key document holding the three identifier entries but no X entry
/// fails with the missing-field error for the X coordinate.
pub proof fn lemma_missing_x(entries: Seq<(DocV, DocV)>)
    requires
        dict_get(entries, DocV::Integer(1)) is Some,
        dict_get(entries, DocV::Integer(3)) is Some,
        dict_get(entries, DocV::Integer(-1)) is Some,
        dict_get(entries, DocV::Integer(-2)) is None,
    ensures
        sp_cpk(DocV::Dict(entries)) == Err::<CpkV, Error>(Error::MissingField(Field::XCoordinate)),
{
}

/// Law: a key document whose X entry is a byte string shorter than 32 bytes
/// fails as malformed input, never with a truncated coordinate.
pub proof fn lemma_short_x(entries: Seq<(DocV, DocV)>, xb: Seq<u8>)
    requires
        dict_get(entries, DocV::Integer(1)) is Some,
        dict_get(entries, DocV::Integer(3)) is Some,
        dict_get(entries, DocV::Integer(-1)) is Some,
        dict_get(entries, DocV::Integer(-2)) == Some(DocV::Bytes(xb)),
        xb.len() < 32,
    ensures
        sp_cpk(DocV::Dict(entries)) == Err::<CpkV, Error>(Error::MalformedInput),
{
}

/// One pass over a key map's entries, handing out the values of the five
/// COSE-convention keys; a later duplicate key overrides an earlier one.
fn split_key_entries(entries: Vec<(Document, Document)>) -> (r: (
    Option<Document>,
    Option<Document>,
    Option<Document>,
    Option<Document>,
    Option<Document>,
))
    ensures
        opt_rep(r.0, dict_get(dview_pairs(entries@), DocV::Integer(1))),
        opt_rep(r.1, dict_get(dview_pairs(entries@), DocV::Integer(3))),
        opt_rep(r.2, dict_get(dview_pairs(entries@), DocV::Integer(-1))),
        opt_rep(r.3, dict_get(dview_pairs(entries@), DocV::Integer(-2))),
        opt_rep(r.4, dict_get(dview_pairs(entries@), DocV::Integer(-3))),
{
    let ghost orig = entries@;
    let ghost e0 = dview_pairs(entries@);
    let mut es = entries;
    let mut s1: Option<Document> = None;
    let mut s2: Option<Document> = None;
    let mut s3: Option<Document> = None;
    let mut s4: Option<Document> = None;
    let mut s5: Option<Document> = None;
    proof {
        lemma_dview_pairs(orig);
        assert(es@ =~= orig.subrange(0, es@.len() as int));
        assert(e0.subrange(e0.len() as int, e0.len() as int) =~= Seq::<(DocV, DocV)>::empty());
    }
    while es.len() > 0
        invariant
            e0 == dview_pairs(orig),
            e0.len() == orig.len(),
            es@.len() <= orig.len(),
            es@ == orig.subrange(0, es@.len() as int),
            opt_rep(s1, dict_get(e0.subrange(es@.len() as int, e0.len() as int), DocV::Integer(1))),
            opt_rep(s2, dict_get(e0.subrange(es@.len() as int, e0.len() as int), DocV::Integer(3))),
            opt_rep(
                s3,
                dict_get(e0.subrange(es@.len() as int, e0.len() as int), DocV::Integer(-1)),
            ),
            opt_rep(
                s4,
                dict_get(e0.subrange(es@.len() as int, e0.len() as int), DocV::Integer(-2)),
            ),
            opt_rep(
                s5,
                dict_get(e0.subrange(es@.len() as int, e0.len() as int), DocV::Integer(-3)),
            ),
        decreases es@.len(),
    {
        let ghost before = es@;
        let (k, v) = es.pop().unwrap();
        let ghost j = es@.len() as int;
        proof {
            lemma_dview_pairs(orig);
            assert(es@ =~= orig.subrange(0, j));
            assert((k, v) == orig[j]);
            assert(e0.subrange(j, e0.len() as int).drop_first() =~= e0.subrange(
                j + 1,
                e0.len() as int,
            ));
            assert(e0[j] == (orig[j].0.dview(), orig[j].1.dview()));
        }
        match k {
            Document::Integer(i) => {
                if i == 1 {
                    if s1.is_none() {
                        s1 = Some(v);
                    }
                } else if i == 3 {
                    if s2.is_none() {
                        s2 = Some(v);
                    }
                } else if i == -1 {
                    if s3.is_none() {
                        s3 = Some(v);
                    }
                } else if i == -2 {
                    if s4.is_none() {
                        s4 = Some(v);
                    }
                } else if i == -3 {
                    if s5.is_none() {
                        s5 = Some(v);
                    }
                }
            },
            _ => {},
        }
    }
    proof {
        assert(e0.subrange(0, e0.len() as int) =~= e0);
    }
    (s1, s2, s3, s4, s5)
}

/// The integer an identifier entry holds, truncated to 64 bits; zero for an
/// entry of any other shape.
fn int_or_zero(d: Document) -> (r: i64)
    ensures
        r == coerce_int(d.dview()),
{
    match d {
        Document::Integer(i) => #[verifier::truncate] (i as i64),
        _ => 0,
    }
}

impl CredentialPublicKey {
    /// Interprets a document expected to be a key map as a credential public
    /// key, resolving the coordinate encoding; fails exactly as `sp_cpk` says.
    pub fn from_value(value: Document) -> (r: Result<CredentialPublicKey, Error>)
        ensures
            match sp_cpk(value.dview()) {
                Ok(v) => r is Ok && r.unwrap()@ == v,
                Err(e) => r == Err::<CredentialPublicKey, Error>(e),
            },
    {
        let entries = match value {
            Document::Dict(es) => es,
            _ => {
                return Err(Error::MissingField(Field::KeyType));
            },
        };
        let (kt, alg_v, crv, xv, yv) = split_key_entries(entries);
        let key_type = match kt {
            None => {
                return Err(Error::MissingField(Field::KeyType));
            },
            Some(d) => int_or_zero(d),
        };
        let alg = match alg_v {
            None => {
                return Err(Error::MissingField(Field::Algorithm));
            },
            Some(d) => int_or_zero(d),
        };
        let curve = match crv {
            None => {
                return Err(Error::MissingField(Field::Curve));
            },
            Some(d) => int_or_zero(d),
        };
        let x: Vec<u8> = match xv {
            None => {
                return Err(Error::MissingField(Field::XCoordinate));
            },
            Some(d) => match d {
                Document::Bytes(bv) => {
                    if bv.len() >= 32 {
                        let mut xb = bv;
                        xb.truncate(32);
                        xb
                    } else {
                        return Err(Error::MalformedInput);
                    }
                },
                _ => {
                    return Err(Error::MalformedInput);
                },
            },
        };
        let coords: Coordinates = match yv {
            None => {
                return Err(Error::MissingField(Field::YCoordinate));
            },
            Some(d) => match d {
                Document::Bytes(bv) => {
                    if bv.len() >= 32 {
                        let mut yb = bv;
                        yb.truncate(32);
                        Coordinates::Uncompressed { x, y: yb }
                    } else {
                        return Err(Error::MalformedInput);
                    }
                },
                Document::Bool(bb) => Coordinates::Compressed {
                    x,
                    y: if bb {
                        ECDSA_Y_PREFIX_NEGATIVE
                    } else {
                        ECDSA_Y_PREFIX_POSITIVE
                    },
                },
                _ => {
                    return Err(Error::MissingField(Field::YCoordinate));
                },
            },
        };
        Ok(CredentialPublicKey { key_type, alg, curve, coords })
    }
}

} // verus!
