//! Content identifiers: the parts of a CID, its binary form, and its prefix (everything but the
//! digest), which Bitswap sends in front of each block.

use vstd::prelude::*;
use crate::varint::{varint, is_prefix, read_varint, encode_u64, lemma_varint_prefix_unique};

verus! {

/// Multicodec of DAG-PB, the codec that a version 0 CID implies.
pub const DAG_PB: u64 = 0x70;

/// Multihash code of SHA2-256, the hash that a version 0 CID implies.
pub const SHA2_256: u64 = 0x12;

/// Largest digest that a multihash here may carry.
pub const MAX_DIGEST: usize = 64;

#[derive(Clone, Copy, Debug, PartialEq, Eq, Structural)]
pub enum Version {
    V0,
    V1,
}

/// A multihash: hash function code and digest (its size is the digest's length).
#[derive(Clone, Debug)]
pub struct Multihash {
    pub code: u64,
    pub digest: Vec<u8>,
}

/// A content identifier.
#[derive(Clone, Debug)]
pub struct Cid {
    pub version: Version,
    pub codec: u64,
    pub hash: Multihash,
}

/// The mathematical value of a CID.
pub struct CidView {
    pub v1: bool,
    pub codec: u64,
    pub code: u64,
    pub digest: Seq<u8>,
}

impl CidView {
    /// A CID that can exist: its digest fits in a multihash, and a version 0 CID is a
    /// SHA2-256 DAG-PB CID.
    pub open spec fn wf(self) -> bool {
        &&& self.digest.len() <= MAX_DIGEST
        &&& !self.v1 ==> self.codec == DAG_PB && self.code == SHA2_256 && self.digest.len() == 32
    }

    /// The multihash bytes: code, digest size, digest.
    pub open spec fn multihash_bytes(self) -> Seq<u8> {
        multihash_bytes(self.code, self.digest)
    }

    /// The binary CID: a version 0 CID is its bare multihash; a version 1 CID is
    /// version, codec, multihash.
    pub open spec fn to_bytes(self) -> Seq<u8> {
        if self.v1 {
            varint(1) + varint(self.codec as nat) + self.multihash_bytes()
        } else {
            self.multihash_bytes()
        }
    }
}

impl View for Cid {
    type V = CidView;

    open spec fn view(&self) -> CidView {
        CidView {
            v1: self.version == Version::V1,
            codec: self.codec,
            code: self.hash.code,
            digest: self.hash.digest@,
        }
    }
}

/// The binary multihash: code, digest size, digest.
pub open spec fn multihash_bytes(code: u64, digest: Seq<u8>) -> Seq<u8> {
    varint(code as nat) + varint(digest.len()) + digest
}

/// The CID that `s` starts with, if any.
pub open spec fn parse_cid(s: Seq<u8>) -> Option<CidView> {
    if exists|c: CidView| c.wf() && is_prefix(c.to_bytes(), s) {
        Some(choose|c: CidView| c.wf() && is_prefix(c.to_bytes(), s))
    } else {
        None
    }
}

proof fn lemma_prefix_join(a: Seq<u8>, b: Seq<u8>, s: Seq<u8>)
    requires
        is_prefix(a, s),
        is_prefix(b, s.subrange(a.len() as int, s.len() as int)),
    ensures
        is_prefix(a + b, s),
{
    assert(s.subrange(0, (a + b).len() as int) =~= a + b) by {
        assert forall|i: int| 0 <= i < (a + b).len() implies s[i] == (a + b)[i] by {
            if i < a.len() {
                assert(s.subrange(0, a.len() as int)[i] == a[i]);
            } else {
                let t = s.subrange(a.len() as int, s.len() as int);
                assert(t.subrange(0, b.len() as int)[i - a.len()] == b[i - a.len()]);
            }
        }
    }
}

proof fn lemma_prefix_split(a: Seq<u8>, b: Seq<u8>, s: Seq<u8>)
    requires
        is_prefix(a + b, s),
    ensures
        is_prefix(a, s),
        is_prefix(b, s.subrange(a.len() as int, s.len() as int)),
{
    assert(s.subrange(0, a.len() as int) =~= a) by {
        assert forall|i: int| 0 <= i < a.len() implies s[i] == a[i] by {
            assert(s.subrange(0, (a + b).len() as int)[i] == (a + b)[i]);
        }
    }
    let t = s.subrange(a.len() as int, s.len() as int);
    assert(t.subrange(0, b.len() as int) =~= b) by {
        assert forall|i: int| 0 <= i < b.len() implies t[i] == b[i] by {
            assert(s.subrange(0, (a + b).len() as int)[a.len() + i] == (a + b)[a.len() + i]);
        }
    }
}

/// At most one CID starts a byte string.
pub proof fn lemma_cid_prefix_unique(c: CidView, d: CidView, s: Seq<u8>)
    requires
        c.wf(),
        d.wf(),
        is_prefix(c.to_bytes(), s),
        is_prefix(d.to_bytes(), s),
    ensures
        c == d,
{
    let mc = c.multihash_bytes();
    let md = d.multihash_bytes();
    let mut sc = s;
    let mut sd = s;
    if c.v1 {
        lemma_prefix_split(varint(1) + varint(c.codec as nat), mc, s);
        lemma_prefix_split(varint(1), varint(c.codec as nat), s);
        sc = s.subrange((varint(1) + varint(c.codec as nat)).len() as int, s.len() as int);
    }
    if d.v1 {
        lemma_prefix_split(varint(1) + varint(d.codec as nat), md, s);
        lemma_prefix_split(varint(1), varint(d.codec as nat), s);
        sd = s.subrange((varint(1) + varint(d.codec as nat)).len() as int, s.len() as int);
    }
    if c.v1 != d.v1 {
        // A version 0 CID starts with SHA2-256's code, which is no version.
        let v0 = if c.v1 { d } else { c };
        lemma_prefix_split(varint(v0.code as nat) + varint(v0.digest.len()), v0.digest, s);
        lemma_prefix_split(varint(v0.code as nat), varint(v0.digest.len()), s);
        lemma_varint_prefix_unique(1, v0.code as nat, s);
    } else {
        if c.v1 {
            let t = s.subrange(varint(1).len() as int, s.len() as int);
            lemma_varint_prefix_unique(c.codec as nat, d.codec as nat, t);
            assert(sc == sd);
        }
        lemma_prefix_split(varint(c.code as nat) + varint(c.digest.len()), c.digest, sc);
        lemma_prefix_split(varint(c.code as nat), varint(c.digest.len()), sc);
        lemma_prefix_split(varint(d.code as nat) + varint(d.digest.len()), d.digest, sc);
        lemma_prefix_split(varint(d.code as nat), varint(d.digest.len()), sc);
        lemma_varint_prefix_unique(c.code as nat, d.code as nat, sc);
        let u = sc.subrange(varint(c.code as nat).len() as int, sc.len() as int);
        lemma_varint_prefix_unique(c.digest.len(), d.digest.len(), u);
        assert(c.digest =~= d.digest);
    }
}

pub(crate) fn append(r: &mut Vec<u8>, b: &Vec<u8>)
    ensures
        final(r)@ == old(r)@ + b@,
{
    let mut i: usize = 0;
    while i < b.len()
        invariant
            i <= b@.len(),
            r@ == old(r)@ + b@.subrange(0, i as int),
        decreases b@.len() - i,
    {
        r.push(b[i]);
        i = i + 1;
        assert(r@ =~= old(r)@ + b@.subrange(0, i as int));
    }
    assert(b@.subrange(0, b@.len() as int) =~= b@);
}

impl Multihash {
    /// The multihash's binary form.
    pub fn to_bytes(&self) -> (r: Vec<u8>)
        ensures
            r@ == multihash_bytes(self.code, self.digest@),
    {
        let mut r = encode_u64(self.code);
        append(&mut r, &encode_u64(self.digest.len() as u64));
        append(&mut r, &self.digest);
        r
    }
}

impl Cid {
    /// The CID's binary form.
    pub fn to_bytes(&self) -> (r: Vec<u8>)
        ensures
            r@ == self@.to_bytes(),
    {
        let mh = self.hash.to_bytes();
        match self.version {
            Version::V0 => mh,
            Version::V1 => {
                let mut r = encode_u64(1);
                append(&mut r, &encode_u64(self.codec));
                append(&mut r, &mh);
                proof {
                    assert(r@ =~= self@.to_bytes());
                }
                r
            },
        }
    }
}

/// All the metadata of a CID, without the digest.
pub struct CidPrefix {
    pub version: Version,
    pub codec: u64,
    pub hash_code: u64,
    pub hash_size: u8,
}

/// The binary prefix: version and codec unless the version is 0, then hash code and digest
/// size.
pub open spec fn prefix_bytes(v1: bool, codec: u64, hash_code: u64, hash_size: nat) -> Seq<u8> {
    if v1 {
        varint(1) + varint(codec as nat) + varint(hash_code as nat) + varint(hash_size)
    } else {
        varint(hash_code as nat) + varint(hash_size)
    }
}

impl CidPrefix {
    /// Returns the encoded bytes of the CID prefix.
    pub fn to_bytes(&self) -> (r: Vec<u8>)
        ensures
            r@ == prefix_bytes(
                self.version == Version::V1,
                self.codec,
                self.hash_code,
                self.hash_size as nat,
            ),
    {
        let mut res: Vec<u8> = Vec::with_capacity(8);
        if self.version != Version::V0 {
            append(&mut res, &encode_u64(1));
            append(&mut res, &encode_u64(self.codec));
        }
        append(&mut res, &encode_u64(self.hash_code));
        append(&mut res, &encode_u64(self.hash_size as u64));
        proof {
            assert(res@ =~= prefix_bytes(
                self.version == Version::V1,
                self.codec,
                self.hash_code,
                self.hash_size as nat,
            ));
        }
        res
    }

    /// The prefix of a CID: its version, codec, hash code and digest size.
    pub fn from_cid(cid: &Cid) -> (r: CidPrefix)
        requires
            cid@.wf(),
        ensures
            r.version == cid.version,
            r.codec == cid.codec,
            r.hash_code == cid.hash.code,
            r.hash_size as nat == cid.hash.digest@.len(),
    {
        CidPrefix {
            version: cid.version,
            codec: cid.codec,
            hash_code: cid.hash.code,
            hash_size: cid.hash.digest.len() as u8,
        }
    }
}

/// The encoded prefix of a CID is the CID's own binary form without the digest, so it is a
/// prefix of the CID's bytes.
pub proof fn lemma_prefix_of_cid(c: CidView)
    requires
        c.wf(),
    ensures
        prefix_bytes(c.v1, c.codec, c.code, c.digest.len()) + c.digest == c.to_bytes(),
        is_prefix(prefix_bytes(c.v1, c.codec, c.code, c.digest.len()), c.to_bytes()),
{
    let p = prefix_bytes(c.v1, c.codec, c.code, c.digest.len());
    assert(p + c.digest =~= c.to_bytes());
    assert(c.to_bytes().subrange(0, p.len() as int) =~= p);
}

/// Copies `len` bytes of `b` from `pos` on.
fn copy_bytes(b: &[u8], pos: usize, len: usize) -> (r: Vec<u8>)
    requires
        pos + len <= b@.len(),
    ensures
        r@ == b@.subrange(pos as int, pos + len),
{
    let blen = b.len();
    let mut r: Vec<u8> = Vec::with_capacity(len);
    let mut i: usize = 0;
    while i < len
        invariant
            i <= len,
            blen == b@.len(),
            pos + len <= b@.len(),
            r@ == b@.subrange(pos as int, pos + i),
        decreases len - i,
    {
        r.push(b[pos + i]);
        i = i + 1;
        assert(r@ =~= b@.subrange(pos as int, pos + i));
    }
    r
}

/// Reads the multihash that starts `b` at `pos`: its code, its digest, and where it ends.
fn read_multihash(b: &[u8], pos: usize) -> (r: Option<(u64, Vec<u8>, usize)>)
    requires
        pos <= b@.len(),
    ensures
        match r {
            Some((code, digest, end)) => {
                &&& digest@.len() <= MAX_DIGEST
                &&& is_prefix(multihash_bytes(code, digest@), b@.subrange(pos as int, b@.len() as int))
                &&& end == pos + multihash_bytes(code, digest@).len()
            },
            None => forall|code: u64, digest: Seq<u8>|
                digest.len() <= MAX_DIGEST ==> !is_prefix(
                    #[trigger] multihash_bytes(code, digest),
                    b@.subrange(pos as int, b@.len() as int),
                ),
        },
{
    let ghost s = b@.subrange(pos as int, b@.len() as int);
    let _blen = b.len();
    let (code, l1) = match read_varint(b, pos) {
        Some(x) => x,
        None => {
            proof {
                assert forall|code: u64, digest: Seq<u8>|
                    digest.len() <= MAX_DIGEST implies !is_prefix(
                        #[trigger] multihash_bytes(code, digest),
                        s,
                    ) by {
                    if is_prefix(multihash_bytes(code, digest), s) {
                        lemma_prefix_split(varint(code as nat) + varint(digest.len()), digest, s);
                        lemma_prefix_split(varint(code as nat), varint(digest.len()), s);
                    }
                }
            }
            return None;
        },
    };
    let ghost t = b@.subrange((pos + l1) as int, b@.len() as int);
    assert(t =~= s.subrange(l1 as int, s.len() as int));
    let (size, l2) = match read_varint(b, pos + l1) {
        Some(x) => x,
        None => {
            proof {
                assert forall|c: u64, digest: Seq<u8>|
                    digest.len() <= MAX_DIGEST implies !is_prefix(
                        #[trigger] multihash_bytes(c, digest),
                        s,
                    ) by {
                    if is_prefix(multihash_bytes(c, digest), s) {
                        lemma_prefix_split(varint(c as nat) + varint(digest.len()), digest, s);
                        lemma_prefix_split(varint(c as nat), varint(digest.len()), s);
                        lemma_varint_prefix_unique(c as nat, code as nat, s);
                        assert(varint(digest.len() as u64 as nat) == varint(digest.len()));
                    }
                }
            }
            return None;
        },
    };
    let start = pos + l1 + l2;
    if size > MAX_DIGEST as u64 || size as usize > b.len() - start {
        proof {
            assert forall|c: u64, digest: Seq<u8>|
                digest.len() <= MAX_DIGEST implies !is_prefix(
                    #[trigger] multihash_bytes(c, digest),
                    s,
                ) by {
                if is_prefix(multihash_bytes(c, digest), s) {
                    lemma_prefix_split(varint(c as nat) + varint(digest.len()), digest, s);
                    lemma_prefix_split(varint(c as nat), varint(digest.len()), s);
                    lemma_varint_prefix_unique(c as nat, code as nat, s);
                    lemma_varint_prefix_unique(digest.len(), size as nat, t);
                }
            }
        }
        return None;
    }
    let digest = copy_bytes(b, start, size as usize);
    proof {
        let u = b@.subrange(start as int, b@.len() as int);
        assert(u =~= t.subrange(l2 as int, t.len() as int));
        assert(is_prefix(digest@, u)) by {
            assert(u.subrange(0, digest@.len() as int) =~= digest@);
        }
        lemma_prefix_join(varint(size as nat), digest@, t);
        lemma_prefix_join(varint(code as nat), varint(size as nat) + digest@, s);
        assert(varint(code as nat) + (varint(size as nat) + digest@) =~= multihash_bytes(code, digest@));
    }
    Some((code, digest, start + size as usize))
}

/// Reads the CID that `b` starts with. Bytes after it are ignored.
pub fn read_cid(b: &[u8]) -> (r: Option<Cid>)
    ensures
        match r {
            Some(c) => c@.wf() && is_prefix(c@.to_bytes(), b@),
            None => forall|c: CidView| c.wf() ==> !is_prefix(#[trigger] c.to_bytes(), b@),
        },
        r is None <==> parse_cid(b@) is None,
        r matches Some(c) ==> parse_cid(b@) == Some(c@),
{
    let r = read_cid_parts(b);
    proof {
        if r is Some {
            let c = r->Some_0;
            assert(parse_cid(b@) is Some);
            lemma_cid_prefix_unique(c@, parse_cid(b@)->Some_0, b@);
        }
    }
    r
}

fn read_cid_parts(b: &[u8]) -> (r: Option<Cid>)
    ensures
        match r {
            Some(c) => c@.wf() && is_prefix(c@.to_bytes(), b@),
            None => forall|c: CidView| c.wf() ==> !is_prefix(#[trigger] c.to_bytes(), b@),
        },
{
    assert(b@.subrange(0, b@.len() as int) =~= b@);
    let _blen = b.len();
    let (version, l1) = match read_varint(b, 0) {
        Some(x) => x,
        None => {
            proof {
                assert forall|c: CidView| c.wf() implies !is_prefix(#[trigger] c.to_bytes(), b@) by {
                    if is_prefix(c.to_bytes(), b@) {
                        if c.v1 {
                            lemma_prefix_split(varint(1) + varint(c.codec as nat), c.multihash_bytes(), b@);
                            lemma_prefix_split(varint(1), varint(c.codec as nat), b@);
                            assert(varint(1u64 as nat) == varint(1));
                        } else {
                            lemma_prefix_split(varint(c.code as nat) + varint(c.digest.len()), c.digest, b@);
                            lemma_prefix_split(varint(c.code as nat), varint(c.digest.len()), b@);
                        }
                    }
                }
            }
            return None;
        },
    };
    if version == 1 {
        let (codec, l2) = match read_varint(b, l1) {
            Some(x) => x,
            None => {
                proof {
                    assert forall|c: CidView| c.wf() implies !is_prefix(#[trigger] c.to_bytes(), b@) by {
                        if is_prefix(c.to_bytes(), b@) {
                            lemma_version_one_is_v1(c, b@);
                            lemma_prefix_split(varint(1) + varint(c.codec as nat), c.multihash_bytes(), b@);
                            lemma_prefix_split(varint(1), varint(c.codec as nat), b@);
                        }
                    }
                }
                return None;
            },
        };
        let ghost hs = b@.subrange((l1 + l2) as int, b@.len() as int);
        let (code, digest, _end) = match read_multihash(b, l1 + l2) {
            Some(x) => x,
            None => {
                proof {
                    assert forall|c: CidView| c.wf() implies !is_prefix(#[trigger] c.to_bytes(), b@) by {
                        if is_prefix(c.to_bytes(), b@) {
                            lemma_version_one_is_v1(c, b@);
                            lemma_prefix_split(varint(1) + varint(c.codec as nat), c.multihash_bytes(), b@);
                            lemma_prefix_split(varint(1), varint(c.codec as nat), b@);
                            let t = b@.subrange(l1 as int, b@.len() as int);
                            lemma_varint_prefix_unique(c.codec as nat, codec as nat, t);
                            assert(hs =~= t.subrange(l2 as int, t.len() as int));
                            assert(multihash_bytes(c.code, c.digest) == c.multihash_bytes());
                        }
                    }
                }
                return None;
            },
        };
        let c = Cid { version: Version::V1, codec, hash: Multihash { code, digest } };
        proof {
            let t = b@.subrange(l1 as int, b@.len() as int);
            assert(hs =~= t.subrange(l2 as int, t.len() as int));
            lemma_prefix_join(varint(codec as nat), c@.multihash_bytes(), t);
            lemma_prefix_join(varint(1), varint(codec as nat) + c@.multihash_bytes(), b@);
            assert(varint(1) + (varint(codec as nat) + c@.multihash_bytes()) =~= c@.to_bytes());
        }
        return Some(c);
    }
    if version != SHA2_256 {
        proof {
            assert forall|c: CidView| c.wf() implies !is_prefix(#[trigger] c.to_bytes(), b@) by {
                if is_prefix(c.to_bytes(), b@) {
                    if c.v1 {
                        lemma_prefix_split(varint(1) + varint(c.codec as nat), c.multihash_bytes(), b@);
                        lemma_prefix_split(varint(1), varint(c.codec as nat), b@);
                        lemma_varint_prefix_unique(1, version as nat, b@);
                    } else {
                        lemma_prefix_split(varint(c.code as nat) + varint(c.digest.len()), c.digest, b@);
                        lemma_prefix_split(varint(c.code as nat), varint(c.digest.len()), b@);
                        lemma_varint_prefix_unique(c.code as nat, version as nat, b@);
                    }
                }
            }
        }
        return None;
    }
    // A version 0 CID: the bare SHA2-256 multihash of a DAG-PB node.
    match read_multihash(b, 0) {
        Some((code, digest, _end)) => {
            if digest.len() == 32 {
                let c = Cid { version: Version::V0, codec: DAG_PB, hash: Multihash { code, digest } };
                proof {
                    lemma_prefix_split(varint(code as nat) + varint(32), digest@, b@);
                    lemma_prefix_split(varint(code as nat), varint(32), b@);
                    lemma_varint_prefix_unique(code as nat, version as nat, b@);
                }
                Some(c)
            } else {
                proof {
                    assert forall|c: CidView| c.wf() implies !is_prefix(#[trigger] c.to_bytes(), b@) by {
                        if is_prefix(c.to_bytes(), b@) {
                            lemma_other_version_is_v0(c, version, b@);
                            assert(c.multihash_bytes() == multihash_bytes(c.code, c.digest));
                            lemma_multihash_unique(c.code, c.digest, code, digest@, b@);
                        }
                    }
                }
                None
            }
        },
        None => {
            proof {
                assert forall|c: CidView| c.wf() implies !is_prefix(#[trigger] c.to_bytes(), b@) by {
                    if is_prefix(c.to_bytes(), b@) {
                        lemma_other_version_is_v0(c, version, b@);
                        assert(c.multihash_bytes() == multihash_bytes(c.code, c.digest));
                    }
                }
            }
            None
        },
    }
}

/// A CID whose bytes start with the varint 1 is a version 1 CID.
proof fn lemma_version_one_is_v1(c: CidView, s: Seq<u8>)
    requires
        c.wf(),
        is_prefix(c.to_bytes(), s),
        is_prefix(varint(1), s),
    ensures
        c.v1,
{
    if !c.v1 {
        lemma_prefix_split(varint(c.code as nat) + varint(c.digest.len()), c.digest, s);
        lemma_prefix_split(varint(c.code as nat), varint(c.digest.len()), s);
        lemma_varint_prefix_unique(1, c.code as nat, s);
    }
}

/// A CID whose bytes start with a varint other than 1 is a version 0 CID.
proof fn lemma_other_version_is_v0(c: CidView, version: u64, s: Seq<u8>)
    requires
        c.wf(),
        is_prefix(c.to_bytes(), s),
        is_prefix(varint(version as nat), s),
        version != 1,
    ensures
        !c.v1,
{
    if c.v1 {
        lemma_prefix_split(varint(1) + varint(c.codec as nat), c.multihash_bytes(), s);
        lemma_prefix_split(varint(1), varint(c.codec as nat), s);
        lemma_varint_prefix_unique(1, version as nat, s);
    }
}

proof fn lemma_multihash_unique(c1: u64, d1: Seq<u8>, c2: u64, d2: Seq<u8>, s: Seq<u8>)
    requires
        is_prefix(multihash_bytes(c1, d1), s),
        is_prefix(multihash_bytes(c2, d2), s),
    ensures
        c1 == c2,
        d1 == d2,
{
    lemma_prefix_split(varint(c1 as nat) + varint(d1.len()), d1, s);
    lemma_prefix_split(varint(c1 as nat), varint(d1.len()), s);
    lemma_prefix_split(varint(c2 as nat) + varint(d2.len()), d2, s);
    lemma_prefix_split(varint(c2 as nat), varint(d2.len()), s);
    lemma_varint_prefix_unique(c1 as nat, c2 as nat, s);
    let u = s.subrange(varint(c1 as nat).len() as int, s.len() as int);
    lemma_varint_prefix_unique(d1.len(), d2.len(), u);
    let k = (varint(c1 as nat) + varint(d1.len())).len() as int;
    assert(d1 =~= d2) by {
        assert forall|i: int| 0 <= i < d1.len() implies d1[i] == d2[i] by {
            let w = s.subrange(k, s.len() as int);
            assert(w.subrange(0, d1.len() as int)[i] == d1[i]);
            assert(w.subrange(0, d2.len() as int)[i] == d2[i]);
        }
    }
}

} // verus!
