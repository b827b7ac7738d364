//! The IPFS serving behaviour: Bitswap responder and DHT advertiser side by side.

use vstd::prelude::*;
use crate::block_provider::BlockProvider;
use crate::dht::{AddrHead, DhtState, is_global_addr_spec};
use crate::handler::Behaviour as BitswapBehaviour;
use crate::dht::Behaviour as DhtBehaviour;

verus! {

pub struct Behaviour<P: BlockProvider + Clone> {
    pub bitswap: BitswapBehaviour<P>,
    pub dht: DhtBehaviour,
}

impl<P: BlockProvider + Clone> Behaviour<P> {
    pub fn new(block_provider: P) -> (r: Self)
        ensures
            r.dht.state_spec() == DhtState::WaitingForAddr,
    {
        Behaviour { bitswap: BitswapBehaviour::new(block_provider), dht: DhtBehaviour::new() }
    }

    /// Whether a peer's self-reported address goes into the DHT's routing table: it must be
    /// global, and the peer must speak one of the DHT's protocols.
    pub fn add_self_reported_address(&self, head: AddrHead, supported_protocols: &Vec<Vec<u8>>, dht_protocols: &Vec<Vec<u8>>) -> (r: bool)
        ensures
            r == (is_global_addr_spec(head) && exists|i: int, j: int|
                0 <= i < supported_protocols@.len() && 0 <= j < dht_protocols@.len() && (
                #[trigger] supported_protocols@[i])@ == (#[trigger] dht_protocols@[j])@),
    {
        self.dht.add_self_reported_address(head, supported_protocols, dht_protocols)
    }
}

} // verus!
