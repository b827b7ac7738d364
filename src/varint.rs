//! Unsigned LEB128 varints, as used by CIDs and multihashes.

use vstd::prelude::*;

verus! {

/// The minimal unsigned-varint encoding of `n`: seven bits per byte, least significant first,
/// the high bit set on every byte but the last.
pub open spec fn varint(n: nat) -> Seq<u8>
    decreases n,
{
    if n < 128 {
        seq![n as u8]
    } else {
        seq![((n % 128) + 128) as u8] + varint(n / 128)
    }
}

/// `p` is a prefix of `s`.
pub open spec fn is_prefix(p: Seq<u8>, s: Seq<u8>) -> bool {
    p.len() <= s.len() && s.subrange(0, p.len() as int) == p
}

/// The varint encoding is prefix-free: at most one value's encoding starts a byte string.
pub proof fn lemma_varint_prefix_unique(a: nat, b: nat, s: Seq<u8>)
    requires
        is_prefix(varint(a), s),
        is_prefix(varint(b), s),
    ensures
        a == b,
    decreases a,
{
    assert(s[0] == varint(a)[0]);
    assert(s[0] == varint(b)[0]);
    if a < 128 {
        if b >= 128 {
            assert(varint(b)[0] >= 128);
        }
    } else {
        if b < 128 {
            assert(varint(a)[0] >= 128);
        } else {
            let t = s.subrange(1, s.len() as int);
            let va = varint(a);
            let vb = varint(b);
            assert(va == seq![((a % 128) + 128) as u8] + varint(a / 128));
            assert(vb == seq![((b % 128) + 128) as u8] + varint(b / 128));
            assert(t.subrange(0, varint(a / 128).len() as int) =~= varint(a / 128)) by {
                assert forall|i: int| 0 <= i < varint(a / 128).len() implies t[i] == varint(a / 128)[i] by {
                    assert(s.subrange(0, va.len() as int)[i + 1] == va[i + 1]);
                }
            }
            assert(t.subrange(0, varint(b / 128).len() as int) =~= varint(b / 128)) by {
                assert forall|i: int| 0 <= i < varint(b / 128).len() implies t[i] == varint(b / 128)[i] by {
                    assert(s.subrange(0, vb.len() as int)[i + 1] == vb[i + 1]);
                }
            }
            lemma_varint_prefix_unique(a / 128, b / 128, t);
            assert(a % 128 == b % 128);
        }
    }
}

/// Relies on unsigned_varint::encode::u64: it writes the minimal varint of `n`.
#[verifier::external_body]
pub(crate) fn encode_u64(n: u64) -> (r: Vec<u8>)
    ensures
        r@ == varint(n as nat),
{
    let mut buf = unsigned_varint::encode::u64_buffer();
    unsigned_varint::encode::u64(n, &mut buf).to_vec()
}

/// Relies on unsigned_varint::decode::u64: a minimal varint at the front of `b` decodes to its
/// value.
#[verifier::external_body]
fn decode_u64(b: &[u8]) -> (r: Option<u64>)
    ensures
        forall|n: u64| #[trigger] is_prefix(varint(n as nat), b@) ==> r == Some(n),
{
    match unsigned_varint::decode::u64(b) {
        Ok((n, _)) => Some(n),
        Err(_) => None,
    }
}

/// Reads the minimal varint that starts `b` at `pos`, returning its value and length.
pub fn read_varint(b: &[u8], pos: usize) -> (r: Option<(u64, usize)>)
    requires
        pos <= b@.len(),
    ensures
        match r {
            Some((n, len)) => len == varint(n as nat).len() && is_prefix(
                varint(n as nat),
                b@.subrange(pos as int, b@.len() as int),
            ),
            None => forall|n: u64|
                !is_prefix(#[trigger] varint(n as nat), b@.subrange(pos as int, b@.len() as int)),
        },
{
    let rest = vstd::slice::slice_subrange(b, pos, b.len());
    let n = match decode_u64(rest) {
        Some(n) => n,
        None => {
            return None;
        },
    };
    let enc = encode_u64(n);
    if enc.len() > rest.len() {
        proof {
            assert forall|m: u64| !is_prefix(#[trigger] varint(m as nat), rest@) by {
                if is_prefix(varint(m as nat), rest@) {
                    assert(n == m);
                }
            }
        }
        return None;
    }
    let mut i: usize = 0;
    while i < enc.len()
        invariant
            i <= enc@.len() <= rest@.len(),
            forall|j: int| 0 <= j < i ==> rest@[j] == enc@[j],
            enc@ == varint(n as nat),
            rest@ == b@.subrange(pos as int, b@.len() as int),
            forall|m: u64| #[trigger] is_prefix(varint(m as nat), rest@) ==> m == n,
        decreases enc@.len() - i,
    {
        if rest[i] != enc[i] {
            proof {
                assert forall|m: u64| !is_prefix(#[trigger] varint(m as nat), rest@) by {
                    if is_prefix(varint(m as nat), rest@) {
                        assert(n == m);
                        assert(rest@.subrange(0, enc@.len() as int)[i as int] == enc@[i as int]);
                    }
                }
            }
            return None;
        }
        i = i + 1;
    }
    assert(rest@.subrange(0, enc@.len() as int) =~= enc@);
    Some((n, enc.len()))
}

} // verus!
