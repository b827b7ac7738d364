//! Where served blocks come from, and the adapter that serves a chain's indexed transactions.

use vstd::prelude::*;
use std::sync::Arc;
use crate::cid::Multihash;

verus! {

/// Provides blocks to be served over IPFS.
pub trait BlockProvider {
    /// Returns `true` if we have the block with the given hash. May return `false` on a backend
    /// error.
    fn have(&self, multihash: &Multihash) -> bool;

    /// Returns the block with the given hash if possible, otherwise `None`.
    fn get(&self, multihash: &Multihash) -> Option<Vec<u8>>;
}

/// A hasher with its multihash code and output length.
pub trait HasMultihashCode {
    spec fn code_spec() -> u64;

    spec fn output_len_spec() -> nat;

    /// The multihash code for the hasher.
    fn multihash_code() -> (r: u64)
        ensures
            r == Self::code_spec(),
    ;

    /// The length of the hasher's output, in bytes.
    fn output_len() -> (r: usize)
        ensures
            r == Self::output_len_spec(),
    ;
}

/// BLAKE2b with a 256-bit output, the chain's hasher.
pub struct BlakeTwo256;

/// Multihash code of BLAKE2b-256.
pub const BLAKE2B_256: u64 = 0xb220;

impl HasMultihashCode for BlakeTwo256 {
    open spec fn code_spec() -> u64 {
        BLAKE2B_256
    }

    open spec fn output_len_spec() -> nat {
        32
    }

    fn multihash_code() -> (r: u64) {
        BLAKE2B_256
    }

    fn output_len() -> (r: usize) {
        32
    }
}

/// The native hash inside a multihash: its digest, if the code is the hasher's and the digest
/// has the hasher's output length.
pub fn try_from_multihash<H: HasMultihashCode>(multihash: &Multihash) -> (r: Option<Vec<u8>>)
    ensures
        multihash.code == H::code_spec() && multihash.digest@.len() == H::output_len_spec() ==> (r
            matches Some(h) && h@ == multihash.digest@),
        !(multihash.code == H::code_spec() && multihash.digest@.len() == H::output_len_spec()) ==> r is None,
{
    if multihash.code != H::multihash_code() {
        return None;
    }
    if multihash.digest.len() != H::output_len() {
        return None;
    }
    Some(multihash.digest.clone())
}

/// Access to a chain's indexed transactions by their native hash.
pub trait TransactionIndex {
    /// Whether the transaction with this hash is indexed; `Err` on a backend error.
    fn has_indexed_transaction(&self, hash: &Vec<u8>) -> Result<bool, String>;

    /// The indexed transaction with this hash, if any; `Err` on a backend error.
    fn indexed_transaction(&self, hash: &Vec<u8>) -> Result<Option<Vec<u8>>, String>;
}

/// Implements [`BlockProvider`], providing access to indexed transactions in the wrapped client.
pub struct IndexedTransactions<C> {
    client: Arc<C>,
}

impl<C> IndexedTransactions<C> {
    /// Create a new `IndexedTransactions` wrapper over the given client.
    pub fn new(client: Arc<C>) -> (r: Self)
        ensures
            r.client() == client,
    {
        IndexedTransactions { client }
    }

    pub closed spec fn client(&self) -> Arc<C> {
        self.client
    }
}

impl<C: TransactionIndex> BlockProvider for IndexedTransactions<C> {
    /// A multihash that is not a BLAKE2b-256 hash of the right length is never had; otherwise
    /// the client answers, and a client error counts as not had.
    fn have(&self, multihash: &Multihash) -> (r: bool)
        ensures
            !(multihash.code == BLAKE2B_256 && multihash.digest@.len() == 32) ==> !r,
    {
        let hash = match try_from_multihash::<BlakeTwo256>(multihash) {
            Some(h) => h,
            None => {
                return false;
            },
        };
        match self.client.has_indexed_transaction(&hash) {
            Ok(have) => have,
            Err(_) => false,
        }
    }

    /// A multihash that is not a BLAKE2b-256 hash of the right length gives nothing; otherwise
    /// the client answers, and a client error gives nothing.
    fn get(&self, multihash: &Multihash) -> (r: Option<Vec<u8>>)
        ensures
            !(multihash.code == BLAKE2B_256 && multihash.digest@.len() == 32) ==> r is None,
    {
        let hash = match try_from_multihash::<BlakeTwo256>(multihash) {
            Some(h) => h,
            None => {
                return None;
            },
        };
        match self.client.indexed_transaction(&hash) {
            Ok(block) => block,
            Err(_) => None,
        }
    }
}

} // verus!
