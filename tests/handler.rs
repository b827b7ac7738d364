use ipfs_serve::behaviour::Behaviour;
use ipfs_serve::block_provider::BlockProvider;
use ipfs_serve::cid::{Cid, Multihash, Version};
use ipfs_serve::dht::{AddrHead, Change, DhtAction, DhtState};
use ipfs_serve::handler::{ConnectionEvent, Error, Handler, InSubstreams, KeepAlive, OutCommand, OutSubstream};
use ipfs_serve::schema::{Entry, Message, Wantlist, WANT_HAVE};

#[derive(Clone)]
struct Nothing;

impl BlockProvider for Nothing {
    fn have(&self, _multihash: &Multihash) -> bool {
        false
    }

    fn get(&self, _multihash: &Multihash) -> Option<Vec<u8>> {
        None
    }
}

fn cid16(n: u16) -> Vec<u8> {
    let mut digest = vec![0u8; 32];
    digest[0] = (n >> 8) as u8;
    digest[1] = n as u8;
    Cid { version: Version::V1, codec: 0x55, hash: Multihash { code: 0x12, digest } }.to_bytes()
}

fn dont_have_wants(range: std::ops::Range<u16>) -> Message {
    let entries = range
        .map(|n| Entry { block: cid16(n), priority: 0, cancel: false, want_type: WANT_HAVE, send_dont_have: true })
        .collect();
    Message {
        wantlist: Some(Wantlist { entries, full: false }),
        blocks: vec![],
        payload: vec![],
        block_presences: vec![],
        pending_bytes: 0,
    }
}

#[test]
fn handler_idle_keep_alive() {
    let mut h = Handler::new(vec![1], Nothing);
    assert_eq!(h.connection_keep_alive(), KeepAlive::Yes);
    h.finish_poll(10_000);
    assert_eq!(h.connection_keep_alive(), KeepAlive::Until(15_000));
    h.finish_poll(12_000);
    assert_eq!(h.connection_keep_alive(), KeepAlive::Until(15_000));
    h.on_inbound_message(dont_have_wants(0..1));
    assert_eq!(h.connection_keep_alive(), KeepAlive::Yes);
    h.finish_poll(20_000);
    assert_eq!(h.connection_keep_alive(), KeepAlive::Yes);
}

#[test]
fn handler_backpressure_gate() {
    let mut h = Handler::new(vec![1], Nothing);
    h.on_inbound_message(dont_have_wants(0..999));
    assert!(h.wants_inbound());
    h.on_inbound_message(dont_have_wants(999..1200));
    assert_eq!(h.responder().num_pending(), 1200);
    assert!(!h.wants_inbound());
    assert!(matches!(h.outbound_step(), OutCommand::RequestSubstream));
    h.on_connection_event(ConnectionEvent::FullyNegotiatedOutbound);
    for _ in 0..3 {
        assert!(matches!(h.outbound_step(), OutCommand::Write(_)));
        assert!(matches!(h.outbound_step(), OutCommand::PollWrite));
        assert_eq!(h.on_write_done(true), None);
    }
    assert_eq!(h.responder().num_pending(), 900);
    assert!(h.wants_inbound());
}

#[test]
fn handler_outbound_cycle() {
    let mut h = Handler::new(vec![1], Nothing);
    assert!(matches!(h.outbound_step(), OutCommand::Wait));
    h.on_inbound_message(dont_have_wants(0..2));
    assert!(matches!(h.outbound_step(), OutCommand::RequestSubstream));
    assert!(matches!(h.outbound_step(), OutCommand::Wait));
    h.on_connection_event(ConnectionEvent::AddressChange);
    h.on_connection_event(ConnectionEvent::FullyNegotiatedOutbound);
    match h.outbound_step() {
        OutCommand::Write(m) => assert_eq!(m.block_presences.len(), 2),
        _ => panic!("expected a write"),
    }
    h.finish_poll(0);
    assert_eq!(h.connection_keep_alive(), KeepAlive::Yes);
    assert_eq!(h.on_write_done(true), None);
    assert!(matches!(h.outbound_step(), OutCommand::Wait));
    h.finish_poll(0);
    assert_eq!(h.connection_keep_alive(), KeepAlive::Until(5_000));
}

#[test]
fn handler_errors_close() {
    let mut h = Handler::new(vec![1], Nothing);
    h.on_connection_event(ConnectionEvent::DialUpgradeError);
    assert!(matches!(h.outbound_step(), OutCommand::Close(Error::Upgrade)));
    let mut h = Handler::new(vec![1], Nothing);
    h.on_inbound_message(dont_have_wants(0..1));
    h.outbound_step();
    h.on_connection_event(ConnectionEvent::FullyNegotiatedOutbound);
    h.outbound_step();
    assert_eq!(h.on_write_done(false), Some(Error::Io));
}

#[test]
fn in_substreams_limit() {
    let mut s = InSubstreams::new();
    for _ in 0..4 {
        assert!(s.push());
    }
    assert!(!s.push());
    assert_eq!(s.len(), 4);
    s.remove();
    assert!(s.push());
}

#[test]
fn behaviour_dht_lifecycle() {
    let mut b = Behaviour::new(Nothing);
    assert_eq!(b.dht.state(), DhtState::WaitingForAddr);
    assert!(!b.dht.should_bootstrap(true));
    assert!(!b.dht.on_new_external_addr(AddrHead::Ip4(0xac10_0a41)));
    assert!(b.dht.on_new_external_addr(AddrHead::Dns));
    assert!(b.dht.should_bootstrap(true));
    assert!(!b.dht.on_new_external_addr(AddrHead::Dns));
    let mh = Multihash { code: 0x12, digest: vec![3; 32] };
    assert!(matches!(b.dht.on_change(Some(Change::Added(mh.clone()))), DhtAction::StartProviding(_)));
    assert!(matches!(b.dht.on_change(Some(Change::Removed(mh))), DhtAction::StopProviding(_)));
    assert!(matches!(b.dht.on_change(None), DhtAction::Nothing));
    assert_eq!(b.dht.state(), DhtState::Dead);
    assert!(!b.dht.should_bootstrap(true));
    let kad = vec![b"/ipfs/kad/1.0.0".to_vec()];
    assert!(b.add_self_reported_address(AddrHead::Ip4(0x5009_0c03), &kad, &kad));
    let h = b.bitswap.new_handler(vec![9]);
    assert_eq!(h.responder().peer_id(), &vec![9]);
    assert_eq!(h.responder().num_pending(), 0);
    let _ = OutSubstream::Closed;
}
