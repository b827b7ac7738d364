use ipfs_serve::bitswap::Core;
use ipfs_serve::block_provider::BlockProvider;
use ipfs_serve::cid::{Cid, CidPrefix, Multihash, Version};
use ipfs_serve::schema::{Entry, Message, Wantlist, PRESENCE_DONT_HAVE, PRESENCE_HAVE, WANT_BLOCK, WANT_HAVE};

struct TestProvider {
    blocks: Vec<(Vec<u8>, Vec<u8>)>,
    lose_blocks: bool,
}

impl BlockProvider for TestProvider {
    fn have(&self, multihash: &Multihash) -> bool {
        self.blocks.iter().any(|(d, _)| *d == multihash.digest)
    }

    fn get(&self, multihash: &Multihash) -> Option<Vec<u8>> {
        if self.lose_blocks {
            return None;
        }
        self.blocks.iter().find(|(d, _)| *d == multihash.digest).map(|(_, b)| b.clone())
    }
}

fn cid(n: u8) -> Cid {
    Cid { version: Version::V1, codec: 0x55, hash: Multihash { code: 0x12, digest: vec![n; 32] } }
}

fn provider(have: &[u8]) -> TestProvider {
    TestProvider { blocks: have.iter().map(|n| (vec![*n; 32], vec![*n, 0xAA, 0xBB])).collect(), lose_blocks: false }
}

fn entry(c: &Cid, want_type: i32, cancel: bool, send_dont_have: bool) -> Entry {
    Entry { block: c.to_bytes(), priority: 1, cancel, want_type, send_dont_have }
}

fn message(full: bool, entries: Vec<Entry>) -> Message {
    Message {
        wantlist: Some(Wantlist { entries, full }),
        blocks: vec![],
        payload: vec![],
        block_presences: vec![],
        pending_bytes: 0,
    }
}

fn responder(have: &[u8]) -> Core<TestProvider> {
    Core::new(vec![1, 2, 3], provider(have))
}

#[test]
fn want_have_hit() {
    let h = cid(7);
    let mut c = responder(&[7]);
    c.handle_message(message(true, vec![entry(&h, WANT_HAVE, false, false)]));
    let m = c.try_build_message().unwrap();
    assert_eq!(m.block_presences.len(), 1);
    assert_eq!(m.block_presences[0].cid, h.to_bytes());
    assert_eq!(m.block_presences[0].presence_type, PRESENCE_HAVE);
    assert!(m.payload.is_empty());
    assert!(m.wantlist.is_none());
    assert_eq!(m.pending_bytes, 0);
}

#[test]
fn want_have_miss_without_send_dont_have() {
    let h = cid(7);
    let mut c = responder(&[]);
    c.handle_message(message(true, vec![entry(&h, WANT_HAVE, false, false)]));
    assert!(c.try_build_message().is_none());
    assert!(c.try_build_message().is_none());
    assert!(!c.any_pending());
}

#[test]
fn want_have_miss_with_send_dont_have() {
    let h = cid(7);
    let mut c = responder(&[]);
    c.handle_message(message(true, vec![entry(&h, WANT_HAVE, false, true)]));
    let m = c.try_build_message().unwrap();
    assert_eq!(m.block_presences.len(), 1);
    assert_eq!(m.block_presences[0].cid, h.to_bytes());
    assert_eq!(m.block_presences[0].presence_type, PRESENCE_DONT_HAVE);
    assert!(c.try_build_message().is_none());
}

#[test]
fn want_block_hit() {
    let h = cid(9);
    let mut c = responder(&[9]);
    c.handle_message(message(false, vec![entry(&h, WANT_BLOCK, false, false)]));
    let m = c.try_build_message().unwrap();
    assert!(m.block_presences.is_empty());
    assert_eq!(m.payload.len(), 1);
    assert_eq!(m.payload[0].prefix, CidPrefix::from_cid(&h).to_bytes());
    assert_eq!(m.payload[0].prefix, vec![0x01, 0x55, 0x12, 0x20]);
    assert_eq!(m.payload[0].data, vec![9, 0xAA, 0xBB]);
    assert!(!c.any_pending());
}

#[test]
fn want_block_miss_is_dropped_even_with_send_dont_have() {
    let h = cid(9);
    let mut c = responder(&[]);
    c.handle_message(message(false, vec![entry(&h, WANT_BLOCK, false, true)]));
    assert!(!c.any_pending());
    assert!(c.try_build_message().is_none());
}

#[test]
fn vanished_block_is_dropped_without_reply() {
    let h = cid(9);
    let mut c = Core::new(vec![], TestProvider { blocks: vec![(vec![9; 32], vec![1])], lose_blocks: true });
    c.handle_message(message(false, vec![entry(&h, WANT_BLOCK, false, false)]));
    assert_eq!(c.num_pending(), 1);
    assert!(c.try_build_message().is_none());
    assert_eq!(c.num_pending(), 0);
}

#[test]
fn cancel_empties_queues() {
    let h = cid(3);
    let mut c = responder(&[3]);
    c.handle_message(message(false, vec![entry(&h, WANT_HAVE, false, false)]));
    assert!(c.any_pending());
    c.handle_message(message(false, vec![entry(&h, WANT_HAVE, true, false)]));
    assert!(!c.any_pending());
}

#[test]
fn cancel_removes_from_both_queues() {
    let h = cid(3);
    let mut c = responder(&[3]);
    c.handle_message(message(false, vec![entry(&h, WANT_HAVE, false, false), entry(&h, WANT_BLOCK, false, false)]));
    assert_eq!(c.num_pending(), 2);
    c.handle_message(message(false, vec![entry(&h, WANT_BLOCK, true, false)]));
    assert_eq!(c.num_pending(), 0);
}

#[test]
fn full_wantlist_wipes() {
    let (a, b, cc) = (cid(1), cid(2), cid(3));
    let mut c = responder(&[1, 2, 3]);
    c.handle_message(message(false, vec![entry(&a, WANT_HAVE, false, false), entry(&b, WANT_HAVE, false, false)]));
    assert_eq!(c.num_pending(), 2);
    c.handle_message(message(true, vec![entry(&cc, WANT_HAVE, false, false)]));
    assert_eq!(c.num_pending(), 1);
    let m = c.try_build_message().unwrap();
    assert_eq!(m.block_presences.len(), 1);
    assert_eq!(m.block_presences[0].cid, cc.to_bytes());
    assert!(c.try_build_message().is_none());
}

#[test]
fn full_wantlist_result_ignores_earlier_state() {
    let (a, b) = (cid(1), cid(2));
    let mut c1 = responder(&[1, 2]);
    let mut c2 = responder(&[1, 2]);
    c1.handle_message(message(false, vec![entry(&a, WANT_HAVE, false, false), entry(&a, WANT_BLOCK, false, false)]));
    c1.handle_message(message(true, vec![entry(&b, WANT_HAVE, false, false)]));
    c2.handle_message(message(true, vec![entry(&b, WANT_HAVE, false, false)]));
    assert_eq!(c1.num_pending(), c2.num_pending());
    let m1 = c1.try_build_message().unwrap();
    let m2 = c2.try_build_message().unwrap();
    assert_eq!(m1.block_presences[0].cid, m2.block_presences[0].cid);
    assert!(c1.try_build_message().is_none());
}

#[test]
fn replacement_keeps_position() {
    let (a, b) = (cid(1), cid(2));
    let mut c = responder(&[2]);
    c.handle_message(message(false, vec![entry(&a, WANT_HAVE, false, true), entry(&b, WANT_HAVE, false, true)]));
    // Asking for `a` again keeps it in front of `b`.
    c.handle_message(message(false, vec![entry(&a, WANT_HAVE, false, true)]));
    assert_eq!(c.num_pending(), 2);
    let m = c.try_build_message().unwrap();
    assert_eq!(m.block_presences.len(), 2);
    assert_eq!(m.block_presences[0].cid, a.to_bytes());
    assert_eq!(m.block_presences[1].cid, b.to_bytes());
    assert_eq!(m.block_presences[1].presence_type, PRESENCE_HAVE);
}

#[test]
fn num_pending_counts_both_queues() {
    let (a, b) = (cid(1), cid(2));
    let mut c = responder(&[1, 2]);
    assert_eq!(c.num_pending(), 0);
    c.handle_message(message(false, vec![
        entry(&a, WANT_HAVE, false, false),
        entry(&a, WANT_BLOCK, false, false),
        entry(&b, WANT_BLOCK, false, false),
    ]));
    assert_eq!(c.num_pending(), 3);
    c.try_build_message().unwrap();
    assert_eq!(c.num_pending(), 2);
    c.try_build_message().unwrap();
    assert_eq!(c.num_pending(), 1);
}

#[test]
fn message_limits() {
    let mut c = responder(&[]);
    let entries: Vec<Entry> = (0..101u8).map(|n| entry(&cid(n), WANT_HAVE, false, true)).collect();
    c.handle_message(message(false, entries));
    assert_eq!(c.num_pending(), 101);
    let m = c.try_build_message().unwrap();
    assert_eq!(m.block_presences.len(), 100);
    assert!(m.payload.is_empty());
    assert_eq!(m.block_presences[99].cid, cid(99).to_bytes());
    let m = c.try_build_message().unwrap();
    assert_eq!(m.block_presences.len(), 1);
    assert_eq!(m.block_presences[0].cid, cid(100).to_bytes());
}

#[test]
fn presences_go_before_blocks_one_block_per_message() {
    let (a, b) = (cid(1), cid(2));
    let mut c = responder(&[1, 2]);
    c.handle_message(message(false, vec![
        entry(&a, WANT_BLOCK, false, false),
        entry(&b, WANT_BLOCK, false, false),
        entry(&b, WANT_HAVE, false, false),
    ]));
    let m = c.try_build_message().unwrap();
    assert_eq!(m.block_presences.len(), 1);
    assert!(m.payload.is_empty());
    let m = c.try_build_message().unwrap();
    assert!(m.block_presences.is_empty());
    assert_eq!(m.payload.len(), 1);
    assert_eq!(m.payload[0].data, vec![1, 0xAA, 0xBB]);
    let m = c.try_build_message().unwrap();
    assert_eq!(m.payload.len(), 1);
    assert_eq!(m.payload[0].data, vec![2, 0xAA, 0xBB]);
    assert!(c.try_build_message().is_none());
}

#[test]
fn bad_cid_and_unknown_want_type_are_skipped() {
    let a = cid(1);
    let mut c = responder(&[1]);
    let bad = Entry { block: vec![0x01, 0x55], priority: 0, cancel: false, want_type: WANT_HAVE, send_dont_have: true };
    c.handle_message(message(false, vec![bad, entry(&a, 7, false, true)]));
    assert!(!c.any_pending());
}

#[test]
fn message_without_wantlist_is_ignored() {
    let a = cid(1);
    let mut c = responder(&[1]);
    c.handle_message(message(false, vec![entry(&a, WANT_HAVE, false, false)]));
    c.handle_message(Message { wantlist: None, blocks: vec![], payload: vec![], block_presences: vec![], pending_bytes: 0 });
    assert_eq!(c.num_pending(), 1);
}

#[test]
fn apply_wantlist_uses_given_answers() {
    let (a, b) = (cid(1), cid(2));
    let mut c = responder(&[]);
    let wl = Wantlist { entries: vec![entry(&a, WANT_HAVE, false, false), entry(&b, WANT_BLOCK, false, false)], full: false };
    c.apply_wantlist(&wl, &vec![true, true]);
    assert_eq!(c.num_pending(), 2);
    let m = c.try_build_message().unwrap();
    assert_eq!(m.block_presences[0].presence_type, PRESENCE_HAVE);
    c.apply_wantlist(&wl, &vec![false, false]);
    assert_eq!(c.num_pending(), 1);
}

#[test]
fn peer_id_is_kept() {
    let c = responder(&[]);
    assert_eq!(c.peer_id(), &vec![1, 2, 3]);
}

#[test]
fn block_reply_carries_prefix_and_data() {
    let c = cid(4);
    assert!(ipfs_serve::bitswap::block_reply(&c, None).is_none());
    let m = ipfs_serve::bitswap::block_reply(&c, Some(vec![1, 2, 3])).unwrap();
    assert_eq!(m.payload.len(), 1);
    assert_eq!(m.payload[0].prefix, vec![0x01, 0x55, 0x12, 0x20]);
    assert_eq!(m.payload[0].data, vec![1, 2, 3]);
    assert!(m.block_presences.is_empty());
}
