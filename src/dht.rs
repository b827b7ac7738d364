//! The decisions of the DHT advertiser: it waits for a global external address, then
//! bootstraps periodically and mirrors the block inventory into provider records, until the
//! inventory's change stream ends.

use vstd::prelude::*;
use crate::cid::{Multihash, multihash_bytes};

verus! {

/// Period between DHT bootstraps, in seconds.
pub const BOOTSTRAP_PERIOD_SECS: u64 = 300;

/// The advertiser's state.
#[derive(Clone, Copy, Debug, PartialEq, Eq, Structural)]
pub enum DhtState {
    /// No global external address known yet: no bootstrap, nothing published.
    WaitingForAddr,
    /// Normal operation.
    Ready,
    /// The change stream ended; nothing more is done.
    Dead,
}

/// Whether ip_network counts the IPv4 address `a` (a single-address network) as globally
/// routable.
pub uninterp spec fn ipv4_global(a: u32) -> bool;

/// Whether ip_network counts the IPv6 address `a` (a single-address network) as globally
/// routable.
pub uninterp spec fn ipv6_global(a: u128) -> bool;

/// Relies on ip_network's `Ipv4Network::is_global`, on the /32 network of `a`; its result
/// depends on the address alone.
#[verifier::external_body]
fn ipv4_is_global(a: u32) -> (r: bool)
    ensures
        r == ipv4_global(a),
{
    match ip_network::IpNetwork::new(a.to_be_bytes(), 32) {
        Ok(network) => network.is_global(),
        Err(_) => false,
    }
}

/// Relies on ip_network's `Ipv6Network::is_global`, on the /128 network of `a`; its result
/// depends on the address alone.
#[verifier::external_body]
fn ipv6_is_global(a: u128) -> (r: bool)
    ensures
        r == ipv6_global(a),
{
    match ip_network::IpNetwork::new(a.to_be_bytes(), 128) {
        Ok(network) => network.is_global(),
        Err(_) => false,
    }
}

/// The first component of a multiaddress, as far as globality goes.
#[derive(Clone, Copy, Debug, PartialEq, Eq, Structural)]
pub enum AddrHead {
    /// An IPv4 address, most significant byte first.
    Ip4(u32),
    /// An IPv6 address, most significant byte first.
    Ip6(u128),
    /// A DNS, DNS4 or DNS6 name, taken as global.
    Dns,
    /// Anything else, or nothing.
    Other,
}

/// A change of the block inventory.
#[derive(Clone, Debug)]
pub enum Change {
    Added(Multihash),
    Removed(Multihash),
}

/// What the caller does with the DHT after a change.
#[derive(Clone, Debug)]
pub enum DhtAction {
    Nothing,
    /// Start providing the record with this key.
    StartProviding(Vec<u8>),
    /// Stop providing the record with this key.
    StopProviding(Vec<u8>),
}

/// Whether an address counts as global.
pub fn is_global_addr(head: AddrHead) -> (r: bool)
    ensures
        r == is_global_addr_spec(head),
{
    match head {
        AddrHead::Ip4(a) => ipv4_is_global(a),
        AddrHead::Ip6(a) => ipv6_is_global(a),
        AddrHead::Dns => true,
        AddrHead::Other => false,
    }
}

/// On a new external address: the new state, and whether to start the bootstrap timer and
/// subscribe to the inventory's changes.
pub fn on_new_external_addr(state: DhtState, head: AddrHead) -> (r: (DhtState, bool))
    ensures
        state == DhtState::WaitingForAddr && is_global_addr_spec(head) ==> r == (DhtState::Ready, true),
        !(state == DhtState::WaitingForAddr && is_global_addr_spec(head)) ==> r == (state, false),
{
    if state == DhtState::WaitingForAddr && is_global_addr(head) {
        (DhtState::Ready, true)
    } else {
        (state, false)
    }
}

/// An address is global if its IP address is, or if it is a DNS name.
pub open spec fn is_global_addr_spec(head: AddrHead) -> bool {
    match head {
        AddrHead::Ip4(a) => ipv4_global(a),
        AddrHead::Ip6(a) => ipv6_global(a),
        AddrHead::Dns => true,
        AddrHead::Other => false,
    }
}

/// Whether to bootstrap now: only when ready and the timer has fired.
pub fn should_bootstrap(state: DhtState, timer_fired: bool) -> (r: bool)
    ensures
        r == (state == DhtState::Ready && timer_fired),
{
    state == DhtState::Ready && timer_fired
}

/// The record key of a multihash: its binary form.
pub fn provider_key(multihash: &Multihash) -> (r: Vec<u8>)
    ensures
        r@ == multihash_bytes(multihash.code, multihash.digest@),
{
    multihash.to_bytes()
}

/// On an item of the change stream (`None`: the stream ended): the new state and the DHT call.
pub fn on_change(state: DhtState, change: Option<Change>) -> (r: (DhtState, DhtAction))
    ensures
        state != DhtState::Ready ==> r.0 == state && r.1 is Nothing,
        state == DhtState::Ready ==> match change {
            None => r.0 == DhtState::Dead && r.1 is Nothing,
            Some(Change::Added(mh)) => r.0 == DhtState::Ready && (r.1 matches DhtAction::StartProviding(k)
                && k@ == multihash_bytes(mh.code, mh.digest@)),
            Some(Change::Removed(mh)) => r.0 == DhtState::Ready && (r.1 matches DhtAction::StopProviding(k)
                && k@ == multihash_bytes(mh.code, mh.digest@)),
        },
{
    if state != DhtState::Ready {
        return (state, DhtAction::Nothing);
    }
    match change {
        None => (DhtState::Dead, DhtAction::Nothing),
        Some(Change::Added(mh)) => (DhtState::Ready, DhtAction::StartProviding(provider_key(&mh))),
        Some(Change::Removed(mh)) => (DhtState::Ready, DhtAction::StopProviding(provider_key(&mh))),
    }
}

/// Whether some protocol of `supported` is one of `dht_protocols`.
pub fn shares_protocol(supported: &Vec<Vec<u8>>, dht_protocols: &Vec<Vec<u8>>) -> (r: bool)
    ensures
        r == exists|i: int, j: int|
            0 <= i < supported@.len() && 0 <= j < dht_protocols@.len() && (#[trigger] supported@[i])@
                == (#[trigger] dht_protocols@[j])@,
{
    let mut i: usize = 0;
    while i < supported.len()
        invariant
            i <= supported@.len(),
            forall|a: int, b: int|
                0 <= a < i && 0 <= b < dht_protocols@.len() ==> (#[trigger] supported@[a])@
                    != (#[trigger] dht_protocols@[b])@,
        decreases supported@.len() - i,
    {
        let mut j: usize = 0;
        while j < dht_protocols.len()
            invariant
                i < supported@.len(),
                j <= dht_protocols@.len(),
                forall|a: int, b: int|
                    0 <= a < i && 0 <= b < dht_protocols@.len() ==> (#[trigger] supported@[a])@
                        != (#[trigger] dht_protocols@[b])@,
                forall|b: int| 0 <= b < j ==> supported@[i as int]@ != (#[trigger] dht_protocols@[b])@,
            decreases dht_protocols@.len() - j,
        {
            if bytes_eq(&supported[i], &dht_protocols[j]) {
                return true;
            }
            j = j + 1;
        }
        i = i + 1;
    }
    false
}

fn bytes_eq(a: &Vec<u8>, b: &Vec<u8>) -> (r: bool)
    ensures
        r == (a@ == b@),
{
    if a.len() != b.len() {
        return false;
    }
    let mut i: usize = 0;
    while i < a.len()
        invariant
            i <= a@.len() == b@.len(),
            forall|k: int| 0 <= k < i ==> a@[k] == b@[k],
        decreases a@.len() - i,
    {
        if a[i] != b[i] {
            return false;
        }
        i = i + 1;
    }
    assert(a@ =~= b@);
    true
}

/// Whether a peer's self-reported address goes into the DHT's routing table: the address must
/// be global and the peer must speak one of the DHT's protocols.
pub fn should_add_self_reported_address(head: AddrHead, supported: &Vec<Vec<u8>>, dht_protocols: &Vec<Vec<u8>>) -> (r: bool)
    ensures
        r == (is_global_addr_spec(head) && exists|i: int, j: int|
            0 <= i < supported@.len() && 0 <= j < dht_protocols@.len() && (#[trigger] supported@[i])@
                == (#[trigger] dht_protocols@[j])@),
{
    is_global_addr(head) && shares_protocol(supported, dht_protocols)
}

/// The DHT advertiser's state machine. The caller owns the Kademlia instance, the bootstrap
/// timer and the change stream, and performs what the methods decide.
pub struct Behaviour {
    state: DhtState,
}

impl Behaviour {
    pub closed spec fn state_spec(&self) -> DhtState {
        self.state
    }

    pub fn new() -> (r: Self)
        ensures
            r.state_spec() == DhtState::WaitingForAddr,
    {
        Behaviour { state: DhtState::WaitingForAddr }
    }

    pub fn state(&self) -> (r: DhtState)
        ensures
            r == self.state_spec(),
    {
        self.state
    }

    /// A new external address was seen. Returns `true` when the caller must now start the
    /// bootstrap timer at zero and subscribe to the inventory's changes.
    pub fn on_new_external_addr(&mut self, head: AddrHead) -> (r: bool)
        ensures
            r == (old(self).state_spec() == DhtState::WaitingForAddr && is_global_addr_spec(head)),
            final(self).state_spec() == if r { DhtState::Ready } else { old(self).state_spec() },
    {
        let (state, subscribe) = on_new_external_addr(self.state, head);
        self.state = state;
        subscribe
    }

    /// Whether to bootstrap now, the timer having fired or not.
    pub fn should_bootstrap(&self, timer_fired: bool) -> (r: bool)
        ensures
            r == (self.state_spec() == DhtState::Ready && timer_fired),
    {
        should_bootstrap(self.state, timer_fired)
    }

    /// An item of the change stream (`None`: it ended): the DHT call to make.
    pub fn on_change(&mut self, change: Option<Change>) -> (r: DhtAction)
        ensures
            old(self).state_spec() != DhtState::Ready ==> final(self).state_spec() == old(self).state_spec()
                && r is Nothing,
            old(self).state_spec() == DhtState::Ready ==> match change {
                None => final(self).state_spec() == DhtState::Dead && r is Nothing,
                Some(Change::Added(mh)) => final(self).state_spec() == DhtState::Ready && (r matches DhtAction::StartProviding(k)
                    && k@ == multihash_bytes(mh.code, mh.digest@)),
                Some(Change::Removed(mh)) => final(self).state_spec() == DhtState::Ready && (r matches DhtAction::StopProviding(k)
                    && k@ == multihash_bytes(mh.code, mh.digest@)),
            },
    {
        let (state, action) = on_change(self.state, change);
        self.state = state;
        action
    }

    /// Whether a peer's self-reported address goes into the routing table.
    pub fn add_self_reported_address(&self, head: AddrHead, supported_protocols: &Vec<Vec<u8>>, dht_protocols: &Vec<Vec<u8>>) -> (r: bool)
        ensures
            r == (is_global_addr_spec(head) && exists|i: int, j: int|
                0 <= i < supported_protocols@.len() && 0 <= j < dht_protocols@.len() && (
                #[trigger] supported_protocols@[i])@ == (#[trigger] dht_protocols@[j])@),
    {
        should_add_self_reported_address(head, supported_protocols, dht_protocols)
    }
}

} // verus!
