use ipfs_serve::block_provider::{try_from_multihash, BlakeTwo256, BlockProvider, IndexedTransactions, TransactionIndex};
use ipfs_serve::cid::Multihash;
use ipfs_serve::dht::{
    is_global_addr, on_change, on_new_external_addr, provider_key, should_add_self_reported_address, should_bootstrap,
    AddrHead, Change, DhtAction, DhtState,
};
use ipfs_serve::handler::{
    admit_inbound_substream, keep_alive_after_poll, outbound_step, should_read_inbound, KeepAlive, OutAction,
    OutSubstream,
};
use std::sync::Arc;

#[test]
fn idle_keep_alive() {
    let k = keep_alive_after_poll(false, OutSubstream::Idle, KeepAlive::Yes, 1_000);
    assert_eq!(k, KeepAlive::Until(6_000));
    // Armed once: a later poll keeps the same deadline, so the connection may close after it.
    assert_eq!(keep_alive_after_poll(false, OutSubstream::Idle, k, 4_000), KeepAlive::Until(6_000));
    assert_eq!(keep_alive_after_poll(false, OutSubstream::Closed, KeepAlive::Yes, u64::MAX), KeepAlive::Until(u64::MAX));
    assert_eq!(keep_alive_after_poll(true, OutSubstream::Idle, k, 4_000), KeepAlive::Yes);
    assert_eq!(keep_alive_after_poll(false, OutSubstream::Writing, k, 4_000), KeepAlive::Yes);
}

#[test]
fn backpressure_gate() {
    assert!(should_read_inbound(0));
    assert!(should_read_inbound(999));
    assert!(!should_read_inbound(1000));
    assert!(!should_read_inbound(5000));
}

#[test]
fn outbound_steps() {
    assert_eq!(outbound_step(OutSubstream::Closed, true), (OutSubstream::Opening, OutAction::RequestSubstream));
    assert_eq!(outbound_step(OutSubstream::Closed, false), (OutSubstream::Closed, OutAction::Wait));
    assert_eq!(outbound_step(OutSubstream::Opening, true), (OutSubstream::Opening, OutAction::Wait));
    assert_eq!(outbound_step(OutSubstream::Idle, false), (OutSubstream::Idle, OutAction::BuildMessage));
    assert_eq!(outbound_step(OutSubstream::Writing, false), (OutSubstream::Writing, OutAction::PollWrite));
    assert_eq!(outbound_step(OutSubstream::UpgradeError, false), (OutSubstream::UpgradeError, OutAction::CloseUpgrade));
}

#[test]
fn inbound_substream_limit() {
    assert!(admit_inbound_substream(3));
    assert!(!admit_inbound_substream(4));
}

#[test]
fn dht_gating() {
    let s = DhtState::WaitingForAddr;
    assert!(!should_bootstrap(s, true));
    assert_eq!(on_new_external_addr(s, AddrHead::Ip4(0xac10_0a41)), (DhtState::WaitingForAddr, false));
    assert_eq!(on_new_external_addr(s, AddrHead::Other), (DhtState::WaitingForAddr, false));
    let (s, subscribe) = on_new_external_addr(s, AddrHead::Ip4(0x5009_0c03));
    assert_eq!((s, subscribe), (DhtState::Ready, true));
    assert!(should_bootstrap(s, true));
    assert!(!should_bootstrap(s, false));
    assert_eq!(on_new_external_addr(s, AddrHead::Dns), (DhtState::Ready, false));
}

#[test]
fn dht_provider_mirror() {
    let mh = Multihash { code: 0xb220, digest: vec![4; 32] };
    let (s, a) = on_change(DhtState::Ready, Some(Change::Added(mh.clone())));
    assert_eq!(s, DhtState::Ready);
    let start = match a {
        DhtAction::StartProviding(k) => k,
        _ => panic!("expected start_providing"),
    };
    let (s, a) = on_change(s, Some(Change::Removed(mh.clone())));
    let stop = match a {
        DhtAction::StopProviding(k) => k,
        _ => panic!("expected stop_providing"),
    };
    assert_eq!(start, stop);
    assert_eq!(start, provider_key(&mh));
    assert_eq!(&start[..4], &[0xa0, 0xe4, 0x02, 0x20]);
    let (s, a) = on_change(s, None);
    assert_eq!(s, DhtState::Dead);
    assert!(matches!(a, DhtAction::Nothing));
    assert!(matches!(on_change(s, Some(Change::Added(mh))), (DhtState::Dead, DhtAction::Nothing)));
}

#[test]
fn global_addresses() {
    assert!(is_global_addr(AddrHead::Dns));
    assert!(is_global_addr(AddrHead::Ip4(0x5009_0c03)));
    assert!(!is_global_addr(AddrHead::Ip4(0xac10_0a41)));
    assert!(!is_global_addr(AddrHead::Other));
    assert!(!is_global_addr(AddrHead::Ip4(0)));
    assert!(!is_global_addr(AddrHead::Ip4(0x7f00_0001)));
    assert!(is_global_addr(AddrHead::Ip4(0xc000_0009)));
    assert!(!is_global_addr(AddrHead::Ip6(1)));
    assert!(is_global_addr(AddrHead::Ip6(0x0000_0000_01c9_0000_0000_afc8_0000_0001)));
}

#[test]
fn adapter_rejects_foreign_multihashes_without_asking() {
    struct Panics;
    impl TransactionIndex for Panics {
        fn has_indexed_transaction(&self, _hash: &Vec<u8>) -> Result<bool, String> {
            panic!("client asked")
        }
        fn indexed_transaction(&self, _hash: &Vec<u8>) -> Result<Option<Vec<u8>>, String> {
            panic!("client asked")
        }
    }
    let p = IndexedTransactions::new(Arc::new(Panics));
    assert!(!p.have(&Multihash { code: 0x12, digest: vec![1; 32] }));
    assert_eq!(p.get(&Multihash { code: 0xb220, digest: vec![1; 33] }), None);
}

#[test]
fn self_reported_addresses() {
    let kad = vec![b"/ipfs/kad/1.0.0".to_vec()];
    let good = vec![b"/other".to_vec(), b"/ipfs/kad/1.0.0".to_vec()];
    let bad = vec![b"/ipfs/kad/1.0.1".to_vec()];
    assert!(should_add_self_reported_address(AddrHead::Ip4(0x5009_0c03), &good, &kad));
    assert!(!should_add_self_reported_address(AddrHead::Ip4(0xac10_0a41), &good, &kad));
    assert!(!should_add_self_reported_address(AddrHead::Dns, &bad, &kad));
    assert!(!should_add_self_reported_address(AddrHead::Dns, &vec![], &kad));
}

#[test]
fn multihash_to_native_hash() {
    let ok = Multihash { code: 0xb220, digest: vec![7; 32] };
    assert_eq!(try_from_multihash::<BlakeTwo256>(&ok), Some(vec![7; 32]));
    assert_eq!(try_from_multihash::<BlakeTwo256>(&Multihash { code: 0x12, digest: vec![7; 32] }), None);
    assert_eq!(try_from_multihash::<BlakeTwo256>(&Multihash { code: 0xb220, digest: vec![7; 31] }), None);
}

struct Index {
    fail: bool,
}

impl TransactionIndex for Index {
    fn has_indexed_transaction(&self, hash: &Vec<u8>) -> Result<bool, String> {
        if self.fail {
            return Err("backend".to_string());
        }
        Ok(hash[0] == 1)
    }

    fn indexed_transaction(&self, hash: &Vec<u8>) -> Result<Option<Vec<u8>>, String> {
        if self.fail {
            return Err("backend".to_string());
        }
        Ok(if hash[0] == 1 { Some(vec![42]) } else { None })
    }
}

#[test]
fn indexed_transactions() {
    let p = IndexedTransactions::new(Arc::new(Index { fail: false }));
    let one = Multihash { code: 0xb220, digest: vec![1; 32] };
    assert!(p.have(&one));
    assert_eq!(p.get(&one), Some(vec![42]));
    assert!(!p.have(&Multihash { code: 0xb220, digest: vec![2; 32] }));
    assert!(!p.have(&Multihash { code: 0x12, digest: vec![1; 32] }));
    assert_eq!(p.get(&Multihash { code: 0xb220, digest: vec![1; 20] }), None);
    let broken = IndexedTransactions::new(Arc::new(Index { fail: true }));
    assert!(!broken.have(&one));
    assert_eq!(broken.get(&one), None);
}
