//! The per-connection Bitswap responder: it takes in a peer's want-lists, keeps the replies it
//! owes in two fair-ordered queues, and builds outbound messages from their fronts.

use vstd::prelude::*;
use crate::block_provider::BlockProvider;
use crate::cid::{Cid, CidView, CidPrefix, parse_cid, prefix_bytes, read_cid, lemma_cid_prefix_unique};
use crate::queue::{
    PresenceQueue, BlockQueue, presence_entries, block_entries, unique_keys, unique_items, has_key,
    key_index,
    replace_entry, remove_entry, replace_item, remove_item, lemma_replace_entry, lemma_remove_entry,
    lemma_replace_item, lemma_remove_item, presences_new, presences_len, presences_clear,
    presences_remove, presences_replace, presences_pop_front, blocks_new, blocks_len, blocks_clear,
    blocks_remove, blocks_replace, blocks_pop_front,
};
use crate::schema::{
    Entry, Wantlist, Block, BlockPresence, Message, WANT_BLOCK, WANT_HAVE, PRESENCE_HAVE,
    PRESENCE_DONT_HAVE,
};
use crate::varint::is_prefix;

verus! {

/// Most presences in one outbound message.
pub const MAX_PRESENCES_PER_OUT_MESSAGE: usize = 100;

/// Most blocks in one outbound message.
pub const MAX_BLOCKS_PER_OUT_MESSAGE: usize = 1;

/// The two queues as values: presences (CID bytes, "we have it") and blocks (CID bytes), front
/// first.
pub struct Queues {
    pub presences: Seq<(Seq<u8>, bool)>,
    pub blocks: Seq<Seq<u8>>,
}

/// Both queues empty.
pub open spec fn empty_queues() -> Queues {
    Queues { presences: Seq::empty(), blocks: Seq::empty() }
}

/// `k` is the binary form of a CID.
pub open spec fn valid_key(k: Seq<u8>) -> bool {
    parse_cid(k) matches Some(c) && c.to_bytes() == k
}

/// Queues that a responder can hold: no CID twice in one queue, each key a CID.
pub open spec fn queues_wf(q: Queues) -> bool {
    &&& unique_keys(q.presences)
    &&& unique_items(q.blocks)
    &&& forall|i: int| 0 <= i < q.presences.len() ==> valid_key(#[trigger] q.presences[i].0)
    &&& forall|i: int| 0 <= i < q.blocks.len() ==> valid_key(#[trigger] q.blocks[i])
}

/// The effect of one want-list entry, given the block provider's answer `have` for its CID
/// (the answer matters only for a want that is not a cancel).
pub open spec fn apply_entry(q: Queues, e: Entry, have: bool) -> Queues {
    match parse_cid(e.block@) {
        None => q,
        Some(c) => {
            let k = c.to_bytes();
            if e.cancel {
                Queues { presences: remove_entry(q.presences, k), blocks: remove_item(q.blocks, k) }
            } else if e.want_type == WANT_BLOCK {
                if have {
                    Queues { presences: q.presences, blocks: replace_item(q.blocks, k) }
                } else {
                    q
                }
            } else if e.want_type == WANT_HAVE {
                if have || e.send_dont_have {
                    Queues { presences: replace_entry(q.presences, k, have), blocks: q.blocks }
                } else {
                    q
                }
            } else {
                q
            }
        },
    }
}

/// The effect of entries in order, `haves[i]` being the provider's answer for entry `i`.
pub open spec fn apply_entries(q: Queues, es: Seq<Entry>, haves: Seq<bool>) -> Queues
    decreases es.len(),
{
    if es.len() == 0 {
        q
    } else {
        apply_entry(apply_entries(q, es.drop_last(), haves), es.last(), haves[es.len() - 1])
    }
}

/// The queues after a want-list: a full one first clears both.
pub open spec fn apply_wantlist(q: Queues, wl: Wantlist, haves: Seq<bool>) -> Queues {
    apply_entries(if wl.full { empty_queues() } else { q }, wl.entries@, haves)
}

/// The presence type sent for a stored "we have it" flag.
pub open spec fn presence_code(have: bool) -> i32 {
    if have { PRESENCE_HAVE } else { PRESENCE_DONT_HAVE }
}

/// `m` is a message of presences for exactly `ps`, in order.
pub open spec fn presence_message(m: Message, ps: Seq<(Seq<u8>, bool)>) -> bool {
    &&& m.wantlist is None
    &&& m.blocks@.len() == 0
    &&& m.payload@.len() == 0
    &&& m.pending_bytes == 0
    &&& m.block_presences@.len() == ps.len()
    &&& forall|i: int| 0 <= i < ps.len() ==> {
        &&& (#[trigger] m.block_presences@[i]).cid@ == ps[i].0
        &&& m.block_presences@[i].presence_type == presence_code(ps[i].1)
    }
}

/// `m` is a message that carries one block with the prefix of the CID `c`.
pub open spec fn block_message(m: Message, c: CidView) -> bool {
    &&& m.wantlist is None
    &&& m.blocks@.len() == 0
    &&& m.block_presences@.len() == 0
    &&& m.pending_bytes == 0
    &&& m.payload@.len() == 1
    &&& m.payload@[0].prefix@ == prefix_bytes(c.v1, c.codec, c.code, c.digest.len())
}

/// Per-connection responder state.
pub struct Core<P: BlockProvider> {
    peer_id: Vec<u8>,
    block_provider: P,
    /// Presences to send, front first, with whether we had the block when it was asked for.
    pending_presences: PresenceQueue,
    /// Blocks to send, front first. They may have left the provider since.
    pending_blocks: BlockQueue,
}

impl<P: BlockProvider> Core<P> {
    /// The queues as values.
    pub closed spec fn queues(&self) -> Queues {
        Queues {
            presences: presence_entries(self.pending_presences),
            blocks: block_entries(self.pending_blocks),
        }
    }

    pub open spec fn wf(&self) -> bool {
        queues_wf(self.queues())
    }

    pub closed spec fn peer(&self) -> Seq<u8> {
        self.peer_id@
    }

    pub fn new(peer_id: Vec<u8>, block_provider: P) -> (r: Self)
        ensures
            r.wf(),
            r.queues() == empty_queues(),
            r.peer() == peer_id@,
    {
        let r = Core {
            peer_id,
            block_provider,
            pending_presences: presences_new(),
            pending_blocks: blocks_new(),
        };
        assert(r.queues() =~= empty_queues());
        r
    }

    pub fn peer_id(&self) -> (r: &Vec<u8>)
        ensures
            r@ == self.peer(),
    {
        &self.peer_id
    }

    /// Returns the number of pending blocks and presences (saturating).
    pub fn num_pending(&self) -> (r: usize)
        ensures
            r as int == if self.queues().presences.len() + self.queues().blocks.len() > usize::MAX {
                usize::MAX as int
            } else {
                (self.queues().presences.len() + self.queues().blocks.len()) as int
            },
            self.queues().presences.len() + self.queues().blocks.len() <= usize::MAX ==> r
                == self.queues().presences.len() + self.queues().blocks.len(),
    {
        presences_len(&self.pending_presences).saturating_add(blocks_len(&self.pending_blocks))
    }

    /// Returns `true` if there are any pending blocks or presences.
    pub fn any_pending(&self) -> (r: bool)
        ensures
            r == (self.queues().presences.len() > 0 || self.queues().blocks.len() > 0),
    {
        presences_len(&self.pending_presences) != 0 || blocks_len(&self.pending_blocks) != 0
    }

    /// Applies one entry whose CID is `cid`.
    fn apply_parsed(&mut self, cid: &Cid, entry: &Entry, have: bool)
        requires
            old(self).wf(),
            parse_cid(entry.block@) == Some(cid@),
        ensures
            final(self).wf(),
            final(self).peer() == old(self).peer(),
            final(self).queues() == apply_entry(old(self).queues(), *entry, have),
    {
        let key = cid.to_bytes();
        let ghost q = self.queues();
        proof {
            lemma_parsed_key_valid(cid@, entry.block@);
        }
        if entry.cancel {
            proof {
                lemma_remove_entry(q.presences, key@);
                lemma_remove_item(q.blocks, key@);
            }
            presences_remove(&mut self.pending_presences, &key);
            blocks_remove(&mut self.pending_blocks, &key);
            proof {
                lemma_keys_after_remove(q, key@);
            }
        } else if entry.want_type == WANT_BLOCK {
            if have {
                proof {
                    lemma_replace_item(q.blocks, key@);
                }
                blocks_replace(&mut self.pending_blocks, key);
                proof {
                    lemma_keys_after_replace_block(q, cid@.to_bytes());
                }
            }
        } else if entry.want_type == WANT_HAVE {
            if have || entry.send_dont_have {
                proof {
                    lemma_replace_entry(q.presences, key@, have);
                }
                presences_replace(&mut self.pending_presences, key, have);
                proof {
                    lemma_keys_after_replace_presence(q, cid@.to_bytes(), have);
                }
            }
        }
    }

    /// Applies a want-list given the provider's answer for each entry, without asking the
    /// provider.
    pub fn apply_wantlist(&mut self, wantlist: &Wantlist, haves: &Vec<bool>)
        requires
            old(self).wf(),
            haves@.len() == wantlist.entries@.len(),
        ensures
            final(self).wf(),
            final(self).peer() == old(self).peer(),
            final(self).queues() == apply_wantlist(old(self).queues(), *wantlist, haves@),
    {
        let ghost q0 = self.queues();
        if wantlist.full {
            presences_clear(&mut self.pending_presences);
            blocks_clear(&mut self.pending_blocks);
            assert(self.queues() =~= empty_queues());
        }
        let ghost start = self.queues();
        let mut i: usize = 0;
        while i < wantlist.entries.len()
            invariant
                self.wf(),
                self.peer() == old(self).peer(),
                i <= wantlist.entries@.len(),
                haves@.len() == wantlist.entries@.len(),
                start == (if wantlist.full { empty_queues() } else { q0 }),
                self.queues() == apply_entries(start, wantlist.entries@.take(i as int), haves@),
            decreases wantlist.entries@.len() - i,
        {
            let entry = &wantlist.entries[i];
            let ghost before = self.queues();
            match read_cid(entry.block.as_slice()) {
                Some(cid) => {
                    self.apply_parsed(&cid, entry, haves[i]);
                },
                None => {},
            }
            proof {
                let es = wantlist.entries@.take(i + 1);
                assert(es.drop_last() =~= wantlist.entries@.take(i as int));
            }
            i = i + 1;
        }
        assert(wantlist.entries@.take(i as int) =~= wantlist.entries@);
    }

    /// Handles an inbound message: applies its want-list, asking the provider about each CID
    /// that a non-cancel entry wants. The answers may change from call to call; whatever they
    /// are, the queues end as `apply_wantlist` says for them.
    pub fn handle_message(&mut self, message: Message)
        requires
            old(self).wf(),
        ensures
            final(self).wf(),
            final(self).peer() == old(self).peer(),
            message.wantlist is None ==> final(self).queues() == old(self).queues(),
            message.wantlist matches Some(wl) ==> exists|haves: Seq<bool>|
                haves.len() == wl.entries@.len() && #[trigger] apply_wantlist(old(self).queues(), wl, haves)
                    == final(self).queues(),
    {
        let wantlist = match message.wantlist {
            Some(wl) => wl,
            None => {
                return;
            },
        };
        let ghost q0 = self.queues();
        if wantlist.full {
            presences_clear(&mut self.pending_presences);
            blocks_clear(&mut self.pending_blocks);
            assert(self.queues() =~= empty_queues());
        }
        let ghost start = self.queues();
        let ghost mut haves: Seq<bool> = Seq::empty();
        let mut i: usize = 0;
        while i < wantlist.entries.len()
            invariant
                self.wf(),
                self.peer() == old(self).peer(),
                i <= wantlist.entries@.len(),
                haves.len() == i,
                start == (if wantlist.full { empty_queues() } else { q0 }),
                self.queues() == apply_entries(start, wantlist.entries@.take(i as int), haves),
            decreases wantlist.entries@.len() - i,
        {
            let entry = &wantlist.entries[i];
            let mut have = false;
            match read_cid(entry.block.as_slice()) {
                Some(cid) => {
                    if !entry.cancel && (entry.want_type == WANT_BLOCK || entry.want_type == WANT_HAVE) {
                        have = self.block_provider.have(&cid.hash);
                    }
                    self.apply_parsed(&cid, entry, have);
                },
                None => {},
            }
            proof {
                let es = wantlist.entries@.take(i + 1);
                assert(es.drop_last() =~= wantlist.entries@.take(i as int));
                lemma_apply_entries_haves(start, wantlist.entries@.take(i as int), haves, haves.push(have));
                haves = haves.push(have);
            }
            i = i + 1;
        }
        assert(wantlist.entries@.take(i as int) =~= wantlist.entries@);
        assert(apply_wantlist(q0, wantlist, haves) == self.queues());
    }

    /// Tries to build an outbound message: up to a hundred presences from the front of the
    /// presence queue; if there are none, the block at the front of the block queue. A block
    /// that has left the provider is dropped without a reply.
    pub fn try_build_message(&mut self) -> (r: Option<Message>)
        requires
            old(self).wf(),
        ensures
            final(self).wf(),
            final(self).peer() == old(self).peer(),
            ({
                let ps = old(self).queues().presences;
                let bs = old(self).queues().blocks;
                let n = if ps.len() < MAX_PRESENCES_PER_OUT_MESSAGE { ps.len() as int } else {
                    MAX_PRESENCES_PER_OUT_MESSAGE as int
                };
                &&& ps.len() > 0 ==> {
                    &&& final(self).queues().presences == ps.skip(n)
                    &&& final(self).queues().blocks == bs
                    &&& r matches Some(m) && presence_message(m, ps.take(n))
                }
                &&& ps.len() == 0 && bs.len() == 0 ==> r is None && final(self).queues() == old(self).queues()
                &&& ps.len() == 0 && bs.len() > 0 ==> {
                    &&& final(self).queues().presences == ps
                    &&& final(self).queues().blocks == bs.drop_first()
                    &&& r matches Some(m) ==> block_message(m, parse_cid(bs[0])->Some_0)
                }
            }),
            r matches Some(m) ==> {
                &&& m.block_presences@.len() <= MAX_PRESENCES_PER_OUT_MESSAGE
                &&& m.payload@.len() <= MAX_BLOCKS_PER_OUT_MESSAGE
                &&& m.block_presences@.len() == 0 || m.payload@.len() == 0
            },
    {
        let ghost ps = self.queues().presences;
        let ghost bs = self.queues().blocks;
        let mut presences: Vec<BlockPresence> = Vec::new();
        while presences.len() < MAX_PRESENCES_PER_OUT_MESSAGE
            invariant
                self.wf(),
                self.peer() == old(self).peer(),
                presences@.len() <= MAX_PRESENCES_PER_OUT_MESSAGE,
                presences@.len() <= ps.len(),
                self.queues().presences == ps.skip(presences@.len() as int),
                self.queues().blocks == bs,
                forall|i: int| 0 <= i < presences@.len() ==> {
                    &&& (#[trigger] presences@[i]).cid@ == ps[i].0
                    &&& presences@[i].presence_type == presence_code(ps[i].1)
                },
            ensures
                self.wf(),
                self.peer() == old(self).peer(),
                presences@.len() == MAX_PRESENCES_PER_OUT_MESSAGE || presences@.len() == ps.len(),
                presences@.len() <= ps.len(),
                presences@.len() <= MAX_PRESENCES_PER_OUT_MESSAGE,
                self.queues().presences == ps.skip(presences@.len() as int),
                self.queues().blocks == bs,
                forall|i: int| 0 <= i < presences@.len() ==> {
                    &&& (#[trigger] presences@[i]).cid@ == ps[i].0
                    &&& presences@[i].presence_type == presence_code(ps[i].1)
                },
            decreases MAX_PRESENCES_PER_OUT_MESSAGE - presences@.len(),
        {
            let ghost before = self.queues();
            match presences_pop_front(&mut self.pending_presences) {
                Some((cid, have)) => {
                    let presence_type = if have { PRESENCE_HAVE } else { PRESENCE_DONT_HAVE };
                    presences.push(BlockPresence { cid, presence_type });
                    proof {
                        lemma_drop_first_wf(before);
                        assert(ps.skip(presences@.len() as int) =~= before.presences.drop_first());
                    }
                },
                None => {
                    assert(ps.skip(presences@.len() as int).len() == 0);
                    break;
                },
            }
        }
        let n = presences.len();
        if n > 0 {
            let m = Message {
                wantlist: None,
                blocks: Vec::new(),
                payload: Vec::new(),
                block_presences: presences,
                pending_bytes: 0,
            };
            assert(m.block_presences@.len() == ps.take(n as int).len());
            return Some(m);
        }
        assert(ps.skip(0) =~= ps);
        let ghost before = self.queues();
        match blocks_pop_front(&mut self.pending_blocks) {
            Some(key) => {
                proof {
                    lemma_drop_first_blocks_wf(before);
                }
                match read_cid(key.as_slice()) {
                    Some(cid) => block_reply(&cid, self.block_provider.get(&cid.hash)),
                    None => None,
                }
            },
            None => None,
        }
    }
}

/// The reply to a want for the block `cid`, given what the provider returned for it: one
/// block with the CID's prefix, or nothing if the block is gone.
pub fn block_reply(cid: &Cid, data: Option<Vec<u8>>) -> (r: Option<Message>)
    requires
        cid@.wf(),
    ensures
        data is None ==> r is None,
        data matches Some(d) ==> (r matches Some(m) && block_message(m, cid@) && m.payload@[0].data@ == d@),
{
    match data {
        Some(data) => {
            let prefix = CidPrefix::from_cid(cid).to_bytes();
            let mut payload: Vec<Block> = Vec::new();
            payload.push(Block { prefix, data });
            Some(Message {
                wantlist: None,
                blocks: Vec::new(),
                payload,
                block_presences: Vec::new(),
                pending_bytes: 0,
            })
        },
        None => None,
    }
}

/// The binary form of a CID read from `s` is itself a valid key.
proof fn lemma_parsed_key_valid(c: CidView, s: Seq<u8>)
    requires
        parse_cid(s) == Some(c),
    ensures
        valid_key(c.to_bytes()),
        c.wf(),
{
    let k = c.to_bytes();
    assert(c.wf() && is_prefix(c.to_bytes(), s)) by {
        let w = choose|w: CidView| w.wf() && is_prefix(w.to_bytes(), s);
        assert(w == c);
    }
    assert(k.subrange(0, k.len() as int) =~= k);
    assert(parse_cid(k) is Some);
    lemma_cid_prefix_unique(c, parse_cid(k)->Some_0, k);
}

proof fn lemma_keys_after_remove(q: Queues, k: Seq<u8>)
    requires
        queues_wf(q),
    ensures
        queues_wf(Queues { presences: remove_entry(q.presences, k), blocks: remove_item(q.blocks, k) }),
{
    lemma_remove_entry(q.presences, k);
    lemma_remove_item(q.blocks, k);
    let r = Queues { presences: remove_entry(q.presences, k), blocks: remove_item(q.blocks, k) };
    assert forall|i: int| 0 <= i < r.presences.len() implies valid_key(#[trigger] r.presences[i].0) by {
        assert(has_key(r.presences, r.presences[i].0));
        let t = choose|t: int| 0 <= t < q.presences.len() && #[trigger] q.presences[t].0 == r.presences[i].0;
    }
    assert forall|i: int| 0 <= i < r.blocks.len() implies valid_key(#[trigger] r.blocks[i]) by {
        assert(r.blocks.contains(r.blocks[i]));
        let t = choose|t: int| 0 <= t < q.blocks.len() && q.blocks[t] == r.blocks[i];
    }
}

proof fn lemma_keys_after_replace_block(q: Queues, k: Seq<u8>)
    requires
        queues_wf(q),
        valid_key(k),
    ensures
        queues_wf(Queues { presences: q.presences, blocks: replace_item(q.blocks, k) }),
{
    lemma_replace_item(q.blocks, k);
    let r = replace_item(q.blocks, k);
    assert forall|i: int| 0 <= i < r.len() implies valid_key(#[trigger] r[i]) by {
        assert(r.contains(r[i]));
        if r[i] != k {
            let t = choose|t: int| 0 <= t < q.blocks.len() && q.blocks[t] == r[i];
        }
    }
}

proof fn lemma_keys_after_replace_presence(q: Queues, k: Seq<u8>, v: bool)
    requires
        queues_wf(q),
        valid_key(k),
    ensures
        queues_wf(Queues { presences: replace_entry(q.presences, k, v), blocks: q.blocks }),
{
    lemma_replace_entry(q.presences, k, v);
    let r = replace_entry(q.presences, k, v);
    assert forall|i: int| 0 <= i < r.len() implies valid_key(#[trigger] r[i].0) by {
        assert(has_key(r, r[i].0));
        if r[i].0 != k {
            let t = choose|t: int| 0 <= t < q.presences.len() && #[trigger] q.presences[t].0 == r[i].0;
        }
    }
}

proof fn lemma_drop_first_wf(q: Queues)
    requires
        queues_wf(q),
        q.presences.len() > 0,
    ensures
        queues_wf(Queues { presences: q.presences.drop_first(), blocks: q.blocks }),
{
    let r = q.presences.drop_first();
    assert forall|a: int, b: int| 0 <= a < r.len() && 0 <= b < r.len() && a != b implies #[trigger] r[a].0 != #[trigger] r[b].0 by {
        assert(r[a] == q.presences[a + 1]);
        assert(r[b] == q.presences[b + 1]);
    }
    assert forall|i: int| 0 <= i < r.len() implies valid_key(#[trigger] r[i].0) by {
        assert(r[i] == q.presences[i + 1]);
    }
}

proof fn lemma_drop_first_blocks_wf(q: Queues)
    requires
        queues_wf(q),
        q.blocks.len() > 0,
    ensures
        queues_wf(Queues { presences: q.presences, blocks: q.blocks.drop_first() }),
        valid_key(q.blocks[0]),
{
    let r = q.blocks.drop_first();
    assert forall|a: int, b: int| 0 <= a < r.len() && 0 <= b < r.len() && a != b implies #[trigger] r[a] != #[trigger] r[b] by {
        assert(r[a] == q.blocks[a + 1]);
        assert(r[b] == q.blocks[b + 1]);
    }
    assert forall|i: int| 0 <= i < r.len() implies valid_key(#[trigger] r[i]) by {
        assert(r[i] == q.blocks[i + 1]);
    }
}

/// One entry keeps the queues well formed.
pub proof fn lemma_apply_entry_wf(q: Queues, e: Entry, have: bool)
    requires
        queues_wf(q),
    ensures
        queues_wf(apply_entry(q, e, have)),
{
    if let Some(c) = parse_cid(e.block@) {
        lemma_parsed_key_valid(c, e.block@);
        let k = c.to_bytes();
        lemma_keys_after_remove(q, k);
        lemma_keys_after_replace_block(q, k);
        lemma_keys_after_replace_presence(q, k, have);
    }
}

/// Entries keep the queues well formed.
pub proof fn lemma_apply_entries_wf(q: Queues, es: Seq<Entry>, haves: Seq<bool>)
    requires
        queues_wf(q),
        es.len() <= haves.len(),
    ensures
        queues_wf(apply_entries(q, es, haves)),
    decreases es.len(),
{
    if es.len() > 0 {
        lemma_apply_entries_wf(q, es.drop_last(), haves);
        lemma_apply_entry_wf(apply_entries(q, es.drop_last(), haves), es.last(), haves[es.len() - 1]);
    }
}

/// An entry for another CID, or a cancel, does not bring `k` into the queues.
proof fn lemma_absent_step(q: Queues, e: Entry, have: bool, c: CidView)
    requires
        queues_wf(q),
        c.wf(),
        !has_key(q.presences, c.to_bytes()),
        !q.blocks.contains(c.to_bytes()),
        parse_cid(e.block@) == Some(c) ==> e.cancel,
    ensures
        !has_key(apply_entry(q, e, have).presences, c.to_bytes()),
        !apply_entry(q, e, have).blocks.contains(c.to_bytes()),
{
    let k = c.to_bytes();
    if let Some(d) = parse_cid(e.block@) {
        lemma_parsed_key_valid(d, e.block@);
        let kd = d.to_bytes();
        lemma_remove_entry(q.presences, kd);
        lemma_remove_item(q.blocks, kd);
        lemma_replace_entry(q.presences, kd, have);
        lemma_replace_item(q.blocks, kd);
        if kd == k {
            assert(k.subrange(0, k.len() as int) =~= k);
            lemma_cid_prefix_unique(c, d, k);
        }
    }
}

proof fn lemma_cancel_absent_from(q: Queues, es: Seq<Entry>, haves: Seq<bool>, i: int, n: int, c: CidView)
    requires
        queues_wf(q),
        es.len() <= haves.len(),
        0 <= i < n <= es.len(),
        es[i].cancel,
        parse_cid(es[i].block@) == Some(c),
        forall|j: int| i < j < es.len() && parse_cid(#[trigger] es[j].block@) == Some(c) ==> es[j].cancel,
    ensures
        !has_key(apply_entries(q, es.take(n), haves).presences, c.to_bytes()),
        !apply_entries(q, es.take(n), haves).blocks.contains(c.to_bytes()),
    decreases n,
{
    lemma_parsed_key_valid(c, es[i].block@);
    let prev = apply_entries(q, es.take(n - 1), haves);
    assert(es.take(n).drop_last() =~= es.take(n - 1));
    assert(es.take(n).last() == es[n - 1]);
    lemma_apply_entries_wf(q, es.take(n - 1), haves);
    if n - 1 == i {
        let k = c.to_bytes();
        lemma_remove_entry(prev.presences, k);
        lemma_remove_item(prev.blocks, k);
    } else {
        lemma_cancel_absent_from(q, es, haves, i, n - 1, c);
        lemma_absent_step(prev, es[n - 1], haves[n - 1], c);
    }
}

/// After a want-list, the CID of a cancel entry is in neither queue, unless a later entry of
/// the same list wants it again.
pub proof fn lemma_cancel_removes(q: Queues, wl: Wantlist, haves: Seq<bool>, i: int)
    requires
        queues_wf(q),
        haves.len() == wl.entries@.len(),
        0 <= i < wl.entries@.len(),
        wl.entries@[i].cancel,
        parse_cid(wl.entries@[i].block@) is Some,
        forall|j: int|
            i < j < wl.entries@.len() && parse_cid(#[trigger] wl.entries@[j].block@) == parse_cid(
                wl.entries@[i].block@,
            ) ==> wl.entries@[j].cancel,
    ensures
        ({
            let k = parse_cid(wl.entries@[i].block@)->Some_0.to_bytes();
            let r = apply_wantlist(q, wl, haves);
            !has_key(r.presences, k) && !r.blocks.contains(k)
        }),
{
    let es = wl.entries@;
    let start = if wl.full { empty_queues() } else { q };
    assert(queues_wf(empty_queues()));
    lemma_cancel_absent_from(start, es, haves, i, es.len() as int, parse_cid(es[i].block@)->Some_0);
    assert(es.take(es.len() as int) =~= es);
}

/// After a full want-list, what the queues held before makes no difference: they depend only
/// on that want-list's entries and the provider's answers.
pub proof fn lemma_full_wantlist_forgets(q1: Queues, q2: Queues, wl: Wantlist, haves: Seq<bool>)
    requires
        wl.full,
    ensures
        apply_wantlist(q1, wl, haves) == apply_wantlist(q2, wl, haves),
{
}

/// Asking again for a presence already queued changes its value, not its place; every other
/// entry stays where it was.
pub proof fn lemma_presence_keeps_position(s: Seq<(Seq<u8>, bool)>, i: int, v: bool)
    requires
        unique_keys(s),
        0 <= i < s.len(),
    ensures
        replace_entry(s, s[i].0, v).len() == s.len(),
        replace_entry(s, s[i].0, v)[i] == (s[i].0, v),
        forall|j: int| 0 <= j < s.len() && j != i ==> #[trigger] replace_entry(s, s[i].0, v)[j] == s[j],
{
    let k = s[i].0;
    assert(has_key(s, k));
    let t = choose|t: int| 0 <= t < s.len() && #[trigger] s[t].0 == k;
    assert(t == i);
}

/// Asking again for a block already queued leaves the block queue as it was.
pub proof fn lemma_block_keeps_position(s: Seq<Seq<u8>>, i: int)
    requires
        unique_items(s),
        0 <= i < s.len(),
    ensures
        replace_item(s, s[i]) == s,
{
    assert(s.contains(s[i]));
}

/// `a` stands before `b` in a presence queue.
pub open spec fn presence_before(s: Seq<(Seq<u8>, bool)>, a: Seq<u8>, b: Seq<u8>) -> bool {
    exists|i: int, j: int| 0 <= i < j < s.len() && #[trigger] s[i].0 == a && #[trigger] s[j].0 == b
}

/// `a` stands before `b` in a block queue.
pub open spec fn block_before(s: Seq<Seq<u8>>, a: Seq<u8>, b: Seq<u8>) -> bool {
    exists|i: int, j: int| 0 <= i < j < s.len() && #[trigger] s[i] == a && #[trigger] s[j] == b
}

/// The entry does not cancel the CID with bytes `k`.
pub open spec fn does_not_cancel(e: Entry, k: Seq<u8>) -> bool {
    e.cancel && parse_cid(e.block@) is Some ==> parse_cid(e.block@)->Some_0.to_bytes() != k
}

proof fn lemma_presence_order_step(s: Seq<(Seq<u8>, bool)>, k: Seq<u8>, v: bool, a: Seq<u8>, b: Seq<u8>)
    requires
        unique_keys(s),
        presence_before(s, a, b),
    ensures
        presence_before(replace_entry(s, k, v), a, b),
        a != k && b != k ==> presence_before(remove_entry(s, k), a, b),
{
    let (i, j) = choose|i: int, j: int| 0 <= i < j < s.len() && #[trigger] s[i].0 == a && #[trigger] s[j].0 == b;
    let r = replace_entry(s, k, v);
    assert(r[i].0 == a && r[j].0 == b);
    if a != k && b != k && has_key(s, k) {
        let t = key_index(s, k);
        let d = remove_entry(s, k);
        let i2 = if i < t { i } else { i - 1 };
        let j2 = if j < t { j } else { j - 1 };
        assert(d[i2].0 == a && d[j2].0 == b);
    }
}

proof fn lemma_block_order_step(s: Seq<Seq<u8>>, k: Seq<u8>, a: Seq<u8>, b: Seq<u8>)
    requires
        unique_items(s),
        block_before(s, a, b),
    ensures
        block_before(replace_item(s, k), a, b),
        a != k && b != k ==> block_before(remove_item(s, k), a, b),
{
    let (i, j) = choose|i: int, j: int| 0 <= i < j < s.len() && #[trigger] s[i] == a && #[trigger] s[j] == b;
    let r = replace_item(s, k);
    assert(r[i] == a && r[j] == b);
    if a != k && b != k && s.contains(k) {
        let t = s.index_of(k);
        let d = remove_item(s, k);
        let i2 = if i < t { i } else { i - 1 };
        let j2 = if j < t { j } else { j - 1 };
        assert(d[i2] == a && d[j2] == b);
    }
}

proof fn lemma_entry_keeps_order(q: Queues, e: Entry, have: bool, a: Seq<u8>, b: Seq<u8>)
    requires
        queues_wf(q),
        does_not_cancel(e, a),
        does_not_cancel(e, b),
    ensures
        presence_before(q.presences, a, b) ==> presence_before(apply_entry(q, e, have).presences, a, b),
        block_before(q.blocks, a, b) ==> block_before(apply_entry(q, e, have).blocks, a, b),
{
    if let Some(c) = parse_cid(e.block@) {
        let k = c.to_bytes();
        if presence_before(q.presences, a, b) {
            lemma_presence_order_step(q.presences, k, have, a, b);
        }
        if block_before(q.blocks, a, b) {
            lemma_block_order_step(q.blocks, k, a, b);
        }
    }
}

proof fn lemma_entries_keep_order(q: Queues, es: Seq<Entry>, haves: Seq<bool>, a: Seq<u8>, b: Seq<u8>)
    requires
        queues_wf(q),
        es.len() <= haves.len(),
        forall|i: int| 0 <= i < es.len() ==> does_not_cancel(#[trigger] es[i], a) && does_not_cancel(es[i], b),
    ensures
        presence_before(q.presences, a, b) ==> presence_before(apply_entries(q, es, haves).presences, a, b),
        block_before(q.blocks, a, b) ==> block_before(apply_entries(q, es, haves).blocks, a, b),
    decreases es.len(),
{
    if es.len() > 0 {
        let prev = es.drop_last();
        assert forall|i: int| 0 <= i < prev.len() implies does_not_cancel(#[trigger] prev[i], a) && does_not_cancel(prev[i], b) by {
            assert(prev[i] == es[i]);
        }
        lemma_entries_keep_order(q, prev, haves, a, b);
        lemma_apply_entries_wf(q, prev, haves);
        assert(es.last() == es[es.len() - 1]);
        lemma_entry_keeps_order(apply_entries(q, prev, haves), es.last(), haves[es.len() - 1], a, b);
    }
}

/// Over a whole want-list that is not full, two queued CIDs that no entry of it cancels keep
/// their order in each queue: asking again for a queued CID never moves it.
pub proof fn lemma_wantlist_keeps_order(q: Queues, wl: Wantlist, haves: Seq<bool>, a: Seq<u8>, b: Seq<u8>)
    requires
        queues_wf(q),
        !wl.full,
        haves.len() == wl.entries@.len(),
        forall|i: int| 0 <= i < wl.entries@.len() ==> does_not_cancel(#[trigger] wl.entries@[i], a)
            && does_not_cancel(wl.entries@[i], b),
    ensures
        presence_before(q.presences, a, b) ==> presence_before(apply_wantlist(q, wl, haves).presences, a, b),
        block_before(q.blocks, a, b) ==> block_before(apply_wantlist(q, wl, haves).blocks, a, b),
{
    lemma_entries_keep_order(q, wl.entries@, haves, a, b);
}

/// Answers past the entries given do not matter.
proof fn lemma_apply_entries_haves(q: Queues, es: Seq<Entry>, h1: Seq<bool>, h2: Seq<bool>)
    requires
        es.len() <= h1.len(),
        es.len() <= h2.len(),
        forall|i: int| 0 <= i < es.len() ==> h1[i] == h2[i],
    ensures
        apply_entries(q, es, h1) == apply_entries(q, es, h2),
    decreases es.len(),
{
    if es.len() > 0 {
        lemma_apply_entries_haves(q, es.drop_last(), h1, h2);
    }
}

} // verus!
