use vstd::prelude::*;
use crate::error::Error;

verus! {

broadcast use vstd::std_specs::vec::group_vec_axioms;

/// Deepest nesting of arrays and dictionaries that the decoder accepts.
/// Anything deeper is treated as a malformed document.
pub const MAX_NESTING: u64 = 128;

/// A self-describing structured document: the tagged-union value model shared
/// by the outer attestation envelope and the embedded public-key map.
#[derive(Debug)]
pub enum Document {
    Null,
    Bool(bool),
    Integer(i128),
    Bytes(Vec<u8>),
    Text(Vec<u8>),
    Array(Vec<Document>),
    Dict(Vec<(Document, Document)>),
}

/// Mathematical model of a `Document`.
pub enum DocV {
    Null,
    Bool(bool),
    Integer(int),
    Bytes(Seq<u8>),
    Text(Seq<u8>),
    Array(Seq<DocV>),
    Dict(Seq<(DocV, DocV)>),
}

impl Document {
    pub open spec fn dview(self) -> DocV
        decreases self,
    {
        match self {
            Document::Null => DocV::Null,
            Document::Bool(b) => DocV::Bool(b),
            Document::Integer(i) => DocV::Integer(i as int),
            Document::Bytes(v) => DocV::Bytes(v@),
            Document::Text(v) => DocV::Text(v@),
            Document::Array(v) => DocV::Array(dview_seq(v@)),
            Document::Dict(v) => DocV::Dict(dview_pairs(v@)),
        }
    }
}

pub open spec fn dview_seq(s: Seq<Document>) -> Seq<DocV>
    decreases s,
{
    if s.len() == 0 {
        Seq::empty()
    } else {
        dview_seq(s.subrange(0, s.len() - 1)).push(s[s.len() - 1].dview())
    }
}

pub open spec fn dview_pairs(s: Seq<(Document, Document)>) -> Seq<(DocV, DocV)>
    decreases s,
{
    if s.len() == 0 {
        Seq::empty()
    } else {
        dview_pairs(s.subrange(0, s.len() - 1)).push(
            (s[s.len() - 1].0.dview(), s[s.len() - 1].1.dview()),
        )
    }
}

pub broadcast proof fn lemma_dview_seq(s: Seq<Document>)
    ensures
        (#[trigger] dview_seq(s)).len() == s.len(),
        forall|i: int| 0 <= i < s.len() ==> dview_seq(s)[i] == s[i].dview(),
    decreases s.len(),
{
    if s.len() > 0 {
        lemma_dview_seq(s.subrange(0, s.len() - 1));
    }
}

pub broadcast proof fn lemma_dview_pairs(s: Seq<(Document, Document)>)
    ensures
        (#[trigger] dview_pairs(s)).len() == s.len(),
        forall|i: int|
            0 <= i < s.len() ==> dview_pairs(s)[i] == (s[i].0.dview(), s[i].1.dview()),
    decreases s.len(),
{
    if s.len() > 0 {
        lemma_dview_pairs(s.subrange(0, s.len() - 1));
    }
}

/// Value of a byte sequence read as a big-endian unsigned integer.
pub open spec fn be_val(s: Seq<u8>) -> nat
    decreases s.len(),
{
    if s.len() == 0 {
        0
    } else {
        (be_val(s.subrange(0, s.len() - 1)) * 256 + s[s.len() - 1]) as nat
    }
}

/// 256 to the power `n`: the number of values of an `n`-byte field.
pub open spec fn pow256(n: nat) -> nat
    decreases n,
{
    if n == 0 {
        1
    } else {
        256 * pow256((n - 1) as nat)
    }
}

pub proof fn lemma_be_val_bound(s: Seq<u8>)
    ensures
        be_val(s) < pow256(s.len()),
    decreases s.len(),
{
    if s.len() > 0 {
        lemma_be_val_bound(s.subrange(0, s.len() - 1));
    }
}

/// The header argument of an item starting at `pos`: the count, length or
/// value carried by the first byte and its optional big-endian extension.
/// `None` when the encoding is one this decoder rejects (reserved or
/// indefinite-length arguments) or the bytes run out.
pub open spec fn sp_arg(b: Seq<u8>, pos: int) -> Option<(nat, int)>
    recommends
        0 <= pos < b.len(),
{
    let ai = b[pos] & 0x1f;
    if ai < 24 {
        Some((ai as nat, pos + 1))
    } else if ai == 24 {
        if pos + 2 <= b.len() {
            Some((b[pos + 1] as nat, pos + 2))
        } else {
            None
        }
    } else if ai == 25 {
        if pos + 3 <= b.len() {
            Some((be_val(b.subrange(pos + 1, pos + 3)), pos + 3))
        } else {
            None
        }
    } else if ai == 26 {
        if pos + 5 <= b.len() {
            Some((be_val(b.subrange(pos + 1, pos + 5)), pos + 5))
        } else {
            None
        }
    } else if ai == 27 {
        if pos + 9 <= b.len() {
            Some((be_val(b.subrange(pos + 1, pos + 9)), pos + 9))
        } else {
            None
        }
    } else {
        None
    }
}

/// The single document item starting at `pos`, together with the position
/// just past it. This is the grammar of the self-describing binary encoding
/// the decoder accepts: major type in the top three bits of the first byte,
/// argument in the rest, then the payload, elements or entries it announces.
pub open spec fn sp_value(b: Seq<u8>, pos: int, depth: nat) -> Option<(DocV, int)>
    decreases depth, 0int, 0int,
{
    if depth == 0 || !(0 <= pos < b.len()) {
        None
    } else {
        let ib = b[pos];
        let major = ib >> 5;
        if major == 7 {
            if ib == 0xf4 {
                Some((DocV::Bool(false), pos + 1))
            } else if ib == 0xf5 {
                Some((DocV::Bool(true), pos + 1))
            } else if ib == 0xf6 {
                Some((DocV::Null, pos + 1))
            } else {
                None
            }
        } else {
            match sp_arg(b, pos) {
                None => None,
                Some((val, p)) => {
                    if major == 0 {
                        Some((DocV::Integer(val as int), p))
                    } else if major == 1 {
                        Some((DocV::Integer(-1 - val), p))
                    } else if major == 2 {
                        if p + val <= b.len() {
                            Some((DocV::Bytes(b.subrange(p, p + val)), p + val))
                        } else {
                            None
                        }
                    } else if major == 3 {
                        if p + val <= b.len() {
                            Some((DocV::Text(b.subrange(p, p + val)), p + val))
                        } else {
                            None
                        }
                    } else if major == 4 {
                        match sp_items(b, p, val, (depth - 1) as nat) {
                            None => None,
                            Some((items, end)) => Some((DocV::Array(items), end)),
                        }
                    } else if major == 5 {
                        match sp_entries(b, p, val, (depth - 1) as nat) {
                            None => None,
                            Some((entries, end)) => Some((DocV::Dict(entries), end)),
                        }
                    } else {
                        None
                    }
                },
            }
        }
    }
}

/// `n` consecutive document items starting at `pos`.
pub open spec fn sp_items(b: Seq<u8>, pos: int, n: nat, depth: nat) -> Option<(Seq<DocV>, int)>
    decreases depth, 1int, n,
{
    if n == 0 {
        Some((Seq::empty(), pos))
    } else {
        match sp_value(b, pos, depth) {
            None => None,
            Some((d, p2)) => match sp_items(b, p2, (n - 1) as nat, depth) {
                None => None,
                Some((rest, end)) => Some((seq![d] + rest, end)),
            },
        }
    }
}

/// `n` consecutive key-value entry pairs starting at `pos`.
pub open spec fn sp_entries(b: Seq<u8>, pos: int, n: nat, depth: nat) -> Option<
    (Seq<(DocV, DocV)>, int),
>
    decreases depth, 1int, n,
{
    if n == 0 {
        Some((Seq::empty(), pos))
    } else {
        match sp_value(b, pos, depth) {
            None => None,
            Some((k, p2)) => match sp_value(b, p2, depth) {
                None => None,
                Some((v, p3)) => match sp_entries(b, p3, (n - 1) as nat, depth) {
                    None => None,
                    Some((rest, end)) => Some((seq![(k, v)] + rest, end)),
                },
            },
        }
    }
}

/// The document encoded by the whole of `b`: the single item starting at
/// position zero, with no bytes left over.
pub open spec fn sp_doc(b: Seq<u8>) -> Option<DocV> {
    match sp_value(b, 0, MAX_NESTING as nat) {
        None => None,
        Some((v, end)) => if end == b.len() {
            Some(v)
        } else {
            None
        },
    }
}

pub proof fn lemma_pow256_mono(a: nat, b: nat)
    requires
        a <= b,
    ensures
        pow256(a) <= pow256(b),
    decreases b,
{
    if a < b {
        lemma_pow256_mono(a, (b - 1) as nat);
    }
}

/// Reads the `n` bytes at `pos` as a big-endian unsigned integer.
pub fn read_be(b: &[u8], pos: usize, n: usize) -> (r: u64)
    requires
        pos + n <= b@.len(),
        1 <= n <= 8,
    ensures
        r == be_val(b@.subrange(pos as int, pos + n)),
{
    let blen: usize = b.len();
    let mut v: u64 = 0;
    let mut i: usize = 0;
    proof {
        assert(b@.subrange(pos as int, pos as int) =~= Seq::<u8>::empty());
    }
    while i < n
        invariant
            0 <= i <= n,
            1 <= n <= 8,
            pos + n <= b@.len(),
            blen == b@.len(),
            v == be_val(b@.subrange(pos as int, pos + i)),
            v < pow256(i as nat),
        decreases n - i,
    {
        proof {
            lemma_pow256_mono(i as nat, 7);
            assert(pow256(8) == 256 * pow256(7));
            assert(pow256(7) == 256 * pow256(6));
            assert(pow256(6) == 256 * pow256(5));
            assert(pow256(5) == 256 * pow256(4));
            assert(pow256(4) == 256 * pow256(3));
            assert(pow256(3) == 256 * pow256(2));
            assert(pow256(2) == 256 * pow256(1));
            assert(pow256(1) == 256 * pow256(0));
            assert(pow256(0) == 1);
            assert(v * 256 <= (pow256(7) - 1) * 256) by (nonlinear_arith)
                requires
                    v < pow256(7),
            ;
        }
        let ghost prev = b@.subrange(pos as int, pos + i);
        v = v * 256 + b[pos + i] as u64;
        i = i + 1;
        proof {
            let cur = b@.subrange(pos as int, pos + i);
            assert(cur.subrange(0, cur.len() - 1) =~= prev);
            assert(v == be_val(cur));
        }
    }
    proof {
        assert(b@.subrange(pos as int, pos + i) =~= b@.subrange(pos as int, pos + n));
    }
    v
}

/// Decodes the single document item starting at `pos`, returning it with the
/// position just past it; exactly the items described by `sp_value` decode.
fn parse_value(b: &[u8], pos: usize, depth: u64) -> (r: Result<(Document, usize), Error>)
    ensures
        match sp_value(b@, pos as int, depth as nat) {
            Some(p) => r is Ok && r.unwrap().0.dview() == p.0 && r.unwrap().1 as int == p.1,
            None => r == Err::<(Document, usize), Error>(Error::EncodingError),
        },
    decreases depth as int, 0int, 0int,
{
    if depth == 0 {
        return Err(Error::EncodingError);
    }
    if pos >= b.len() {
        return Err(Error::EncodingError);
    }
    let ib = b[pos];
    let major = ib >> 5;
    let ai = ib & 0x1f;
    if major == 7 {
        if ib == 0xf4 {
            Ok((Document::Bool(false), pos + 1))
        } else if ib == 0xf5 {
            Ok((Document::Bool(true), pos + 1))
        } else if ib == 0xf6 {
            Ok((Document::Null, pos + 1))
        } else {
            Err(Error::EncodingError)
        }
    } else {
        let rem = b.len() - pos;
        let (val, p): (u64, usize) = if ai < 24 {
            (ai as u64, pos + 1)
        } else if ai == 24 {
            if rem >= 2 {
                (b[pos + 1] as u64, pos + 2)
            } else {
                return Err(Error::EncodingError);
            }
        } else if ai == 25 {
            if rem >= 3 {
                (read_be(b, pos + 1, 2), pos + 3)
            } else {
                return Err(Error::EncodingError);
            }
        } else if ai == 26 {
            if rem >= 5 {
                (read_be(b, pos + 1, 4), pos + 5)
            } else {
                return Err(Error::EncodingError);
            }
        } else if ai == 27 {
            if rem >= 9 {
                (read_be(b, pos + 1, 8), pos + 9)
            } else {
                return Err(Error::EncodingError);
            }
        } else {
            return Err(Error::EncodingError);
        };
        if major == 0 {
            Ok((Document::Integer(val as i128), p))
        } else if major == 1 {
            Ok((Document::Integer(-1i128 - val as i128), p))
        } else if major == 2 || major == 3 {
            if val <= (b.len() - p) as u64 {
                let n = val as usize;
                let payload = vstd::slice::slice_to_vec(vstd::slice::slice_subrange(b, p, p + n));
                if major == 2 {
                    Ok((Document::Bytes(payload), p + n))
                } else {
                    Ok((Document::Text(payload), p + n))
                }
            } else {
                Err(Error::EncodingError)
            }
        } else if major == 4 {
            match parse_items(b, p, val, depth - 1) {
                Err(e) => Err(e),
                Ok((items, end)) => Ok((Document::Array(items), end)),
            }
        } else if major == 5 {
            match parse_entries(b, p, val, depth - 1) {
                Err(e) => Err(e),
                Ok((entries, end)) => Ok((Document::Dict(entries), end)),
            }
        } else {
            Err(Error::EncodingError)
        }
    }
}

/// Decodes `n` consecutive document items starting at `pos`. The items are
/// gathered iteratively, so only the nesting depth, never the item count,
/// grows the call stack.
#[verifier::loop_isolation(false)]
fn parse_items(b: &[u8], pos: usize, n: u64, depth: u64) -> (r: Result<(Vec<Document>, usize), Error>)
    ensures
        match sp_items(b@, pos as int, n as nat, depth as nat) {
            Some(p) => r is Ok && dview_seq(r.unwrap().0@) == p.0 && r.unwrap().1 as int == p.1,
            None => r == Err::<(Vec<Document>, usize), Error>(Error::EncodingError),
        },
    decreases depth as int, 1int, 0int,
{
    let mut acc: Vec<Document> = Vec::new();
    let mut cur: usize = pos;
    let mut k: u64 = 0;
    proof {
        assert(dview_seq(acc@) =~= Seq::<DocV>::empty());
    }
    while k < n
        invariant
            k <= n,
            acc@.len() == k,
            sp_items(b@, pos as int, n as nat, depth as nat) == (match sp_items(
                b@,
                cur as int,
                (n - k) as nat,
                depth as nat,
            ) {
                Some(p) => Some::<(Seq<DocV>, int)>((dview_seq(acc@) + p.0, p.1)),
                None => None::<(Seq<DocV>, int)>,
            }),
        decreases n - k,
    {
        let (d, p2) = match parse_value(b, cur, depth) {
            Ok(x) => x,
            Err(e) => {
                return Err(e);
            },
        };
        let ghost prev = acc@;
        acc.push(d);
        proof {
            assert(acc@.subrange(0, prev.len() as int) =~= prev);
            assert(dview_seq(acc@) == dview_seq(prev).push(d.dview()));
            let g = sp_items(b@, p2 as int, (n - k - 1) as nat, depth as nat);
            if g is Some {
                assert(dview_seq(prev) + (seq![d.dview()] + g.unwrap().0) =~= dview_seq(acc@)
                    + g.unwrap().0);
            }
        }
        cur = p2;
        k = k + 1;
    }
    proof {
        assert(dview_seq(acc@) + Seq::<DocV>::empty() =~= dview_seq(acc@));
    }
    Ok((acc, cur))
}

/// Decodes `n` consecutive key-value entry pairs starting at `pos`. The
/// pairs are gathered iteratively, so only the nesting depth, never the
/// entry count, grows the call stack.
#[verifier::loop_isolation(false)]
fn parse_entries(b: &[u8], pos: usize, n: u64, depth: u64) -> (r: Result<
    (Vec<(Document, Document)>, usize),
    Error,
>)
    ensures
        match sp_entries(b@, pos as int, n as nat, depth as nat) {
            Some(p) => r is Ok && dview_pairs(r.unwrap().0@) == p.0 && r.unwrap().1 as int == p.1,
            None => r == Err::<(Vec<(Document, Document)>, usize), Error>(Error::EncodingError),
        },
    decreases depth as int, 1int, 0int,
{
    let mut acc: Vec<(Document, Document)> = Vec::new();
    let mut cur: usize = pos;
    let mut k: u64 = 0;
    proof {
        assert(dview_pairs(acc@) =~= Seq::<(DocV, DocV)>::empty());
    }
    while k < n
        invariant
            k <= n,
            acc@.len() == k,
            sp_entries(b@, pos as int, n as nat, depth as nat) == (match sp_entries(
                b@,
                cur as int,
                (n - k) as nat,
                depth as nat,
            ) {
                Some(p) => Some::<(Seq<(DocV, DocV)>, int)>((dview_pairs(acc@) + p.0, p.1)),
                None => None::<(Seq<(DocV, DocV)>, int)>,
            }),
        decreases n - k,
    {
        let (kd, p2) = match parse_value(b, cur, depth) {
            Ok(x) => x,
            Err(e) => {
                return Err(e);
            },
        };
        let (vd, p3) = match parse_value(b, p2, depth) {
            Ok(x) => x,
            Err(e) => {
                return Err(e);
            },
        };
        let ghost prev = acc@;
        let ghost kv = kd.dview();
        let ghost vv = vd.dview();
        acc.push((kd, vd));
        proof {
            assert(acc@.subrange(0, prev.len() as int) =~= prev);
            assert(dview_pairs(acc@) == dview_pairs(prev).push((kv, vv)));
            let g = sp_entries(b@, p3 as int, (n - k - 1) as nat, depth as nat);
            if g is Some {
                assert(dview_pairs(prev) + (seq![(kv, vv)] + g.unwrap().0) =~= dview_pairs(acc@)
                    + g.unwrap().0);
            }
        }
        cur = p3;
        k = k + 1;
    }
    proof {
        assert(dview_pairs(acc@) + Seq::<(DocV, DocV)>::empty() =~= dview_pairs(acc@));
    }
    Ok((acc, cur))
}

/// Decodes the whole of `bytes` as one document; trailing bytes are refused.
pub fn parse_document(bytes: &[u8]) -> (r: Result<Document, Error>)
    ensures
        match sp_doc(bytes@) {
            Some(v) => r is Ok && r.unwrap().dview() == v,
            None => r == Err::<Document, Error>(Error::EncodingError),
        },
{
    match parse_value(bytes, 0, MAX_NESTING) {
        Err(e) => Err(e),
        Ok((d, end)) => if end == bytes.len() {
            Ok(d)
        } else {
            Err(Error::EncodingError)
        },
    }
}

/// Lookup in a dictionary's entry sequence: the value of the last entry whose
/// key equals `key`, matching a decoder that lets later duplicate keys
/// overwrite earlier ones.
pub open spec fn dict_get(entries: Seq<(DocV, DocV)>, key: DocV) -> Option<DocV>
    decreases entries.len(),
{
    if entries.len() == 0 {
        None
    } else {
        match dict_get(entries.drop_first(), key) {
            Some(v) => Some(v),
            None => if entries[0].0 == key {
                Some(entries[0].1)
            } else {
                None
            },
        }
    }
}

fn clone_bytes(v: &Vec<u8>) -> (r: Vec<u8>)
    ensures
        r@ == v@,
{
    vstd::slice::slice_to_vec(v.as_slice())
}

impl Clone for Document {
    /// A deep copy whose model equals the model of the value cloned.
    #[verifier::loop_isolation(false)]
    fn clone(&self) -> (r: Document)
        ensures
            r.dview() == self.dview(),
        decreases self,
    {
        match self {
            Document::Null => Document::Null,
            Document::Bool(b) => Document::Bool(*b),
            Document::Integer(i) => Document::Integer(*i),
            Document::Bytes(v) => Document::Bytes(clone_bytes(v)),
            Document::Text(v) => Document::Text(clone_bytes(v)),
            Document::Array(items) => {
                let mut out: Vec<Document> = Vec::new();
                let mut i: usize = 0;
                while i < items.len()
                    invariant
                        i <= items.len(),
                        out@.len() == i,
                        forall|j: int|
                            0 <= j < i ==> (#[trigger] out@[j]).dview() == items@[j].dview(),
                    decreases items@.len() - i,
                {
                    proof {
                        assert(decreases_to!(*self => *items));
                        assert(decreases_to!(*items => items@));
                        assert(decreases_to!(items@ => items@[i as int]));
                    }
                    out.push(items[i].clone());
                    i = i + 1;
                }
                proof {
                    lemma_dview_seq(out@);
                    lemma_dview_seq(items@);
                    assert(dview_seq(out@) =~= dview_seq(items@));
                }
                Document::Array(out)
            },
            Document::Dict(entries) => {
                let mut out: Vec<(Document, Document)> = Vec::new();
                let mut i: usize = 0;
                while i < entries.len()
                    invariant
                        i <= entries.len(),
                        out@.len() == i,
                        forall|j: int|
                            0 <= j < i ==> (#[trigger] out@[j]).0.dview() == entries@[j].0.dview()
                                && out@[j].1.dview() == entries@[j].1.dview(),
                    decreases entries@.len() - i,
                {
                    proof {
                        assert(decreases_to!(*self => *entries));
                        assert(decreases_to!(*entries => entries@));
                        assert(decreases_to!(entries@ => entries@[i as int]));
                        assert(decreases_to!(entries@[i as int] => entries@[i as int].0));
                        assert(decreases_to!(entries@[i as int] => entries@[i as int].1));
                    }
                    let k = entries[i].0.clone();
                    let v = entries[i].1.clone();
                    out.push((k, v));
                    i = i + 1;
                }
                proof {
                    lemma_dview_pairs(out@);
                    lemma_dview_pairs(entries@);
                    assert(dview_pairs(out@) =~= dview_pairs(entries@));
                }
                Document::Dict(out)
            },
        }
    }
}

/// Whether an optional owned document matches an optional modelled document.
pub open spec fn opt_rep(o: Option<Document>, s: Option<DocV>) -> bool {
    match (o, s) {
        (Option::None, Option::None) => true,
        (Option::Some(d), Option::Some(v)) => d.dview() == v,
        _ => false,
    }
}

} // verus!
