//! The Bitswap 1.2.0 message, as plain values. Its protobuf encoding lives outside the library.

use vstd::prelude::*;

verus! {

/// `want_type` of an entry that asks for the block itself.
pub const WANT_BLOCK: i32 = 0;

/// `want_type` of an entry that asks whether we have the block.
pub const WANT_HAVE: i32 = 1;

/// Presence type: we have the block.
pub const PRESENCE_HAVE: i32 = 0;

/// Presence type: we do not have the block.
pub const PRESENCE_DONT_HAVE: i32 = 1;

/// One entry of a peer's want-list.
#[derive(Clone, Debug)]
pub struct Entry {
    /// CID bytes.
    pub block: Vec<u8>,
    /// Accepted and ignored.
    pub priority: i32,
    pub cancel: bool,
    pub want_type: i32,
    pub send_dont_have: bool,
}

/// A peer's want-list; `full` replaces everything it wanted before.
#[derive(Clone, Debug)]
pub struct Wantlist {
    pub entries: Vec<Entry>,
    pub full: bool,
}

/// A block sent with its CID prefix.
#[derive(Clone, Debug)]
pub struct Block {
    pub prefix: Vec<u8>,
    pub data: Vec<u8>,
}

/// Whether we have the block with the given CID.
#[derive(Clone, Debug)]
pub struct BlockPresence {
    pub cid: Vec<u8>,
    pub presence_type: i32,
}

/// A Bitswap message.
#[derive(Clone, Debug)]
pub struct Message {
    pub wantlist: Option<Wantlist>,
    /// Legacy field, never sent.
    pub blocks: Vec<Vec<u8>>,
    pub payload: Vec<Block>,
    pub block_presences: Vec<BlockPresence>,
    pub pending_bytes: i32,
}

} // verus!
