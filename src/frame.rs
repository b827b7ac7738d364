//! Length-prefixed framing of Bitswap messages on a substream: an unsigned varint holding the
//! body's length, then the body.

use vstd::prelude::*;
use crate::cid::append;
use crate::handler::MAX_MESSAGE_SIZE;
use crate::varint::{varint, is_prefix, read_varint, encode_u64};

verus! {

/// What the front of an inbound buffer holds.
#[derive(Clone, Copy, Debug, PartialEq, Eq, Structural)]
pub enum Frame {
    /// Not a whole frame yet.
    Pending,
    /// The announced body is larger than `MAX_MESSAGE_SIZE`: the substream is to be reset.
    TooLarge,
    /// A whole frame: its body is `len` bytes after a `header`-byte length prefix.
    Complete { header: usize, len: usize },
}

/// Reads the frame at the front of `buf`.
pub fn read_frame(buf: &[u8]) -> (r: Frame)
    ensures
        match r {
            Frame::Complete { header, len } => {
                &&& is_prefix(varint(len as nat), buf@)
                &&& header == varint(len as nat).len()
                &&& len <= MAX_MESSAGE_SIZE
                &&& header + len <= buf@.len()
            },
            Frame::TooLarge => exists|n: u64| #[trigger] is_prefix(varint(n as nat), buf@) && n > MAX_MESSAGE_SIZE,
            Frame::Pending => forall|n: u64| #[trigger] is_prefix(varint(n as nat), buf@) ==> n <= MAX_MESSAGE_SIZE
                && varint(n as nat).len() + n > buf@.len(),
        },
{
    assert(buf@.subrange(0, buf@.len() as int) =~= buf@);
    match read_varint(buf, 0) {
        None => Frame::Pending,
        Some((n, header)) => {
            proof {
                assert forall|m: u64| #[trigger] is_prefix(varint(m as nat), buf@) implies m == n by {
                    crate::varint::lemma_varint_prefix_unique(m as nat, n as nat, buf@);
                }
            }
            if n > MAX_MESSAGE_SIZE as u64 {
                Frame::TooLarge
            } else if n as usize > buf.len() - header {
                Frame::Pending
            } else {
                Frame::Complete { header, len: n as usize }
            }
        },
    }
}

/// A frame holding `body`.
pub fn length_prefixed(body: &Vec<u8>) -> (r: Vec<u8>)
    ensures
        r@ == varint(body@.len()) + body@,
{
    let mut r = encode_u64(body.len() as u64);
    append(&mut r, body);
    r
}

} // verus!
