//! Indexer errors, stored records and transaction-id text.

use vstd::prelude::*;

verus! {

/// Why the rune indexer could not mint.
#[derive(Clone, Debug)]
pub enum MintError {
    Cap(u128),
    End(u64),
    Start(u64),
    Unmintable,
}

/// A failure of the indexer's own remote calls.
#[derive(Clone, Debug)]
pub enum RpcError {
    Io(String, String, String),
    Decode(String, String, String),
    Endpoint(String, String, String),
}

/// An error reported by the rune indexer.
#[derive(Clone, Debug)]
pub enum OrdError {
    Params(String),
    Overflow,
    BlockVerification(u32),
    Index(MintError),
    Rpc(RpcError),
}


/// The partitions of the persistent store.
#[derive(Clone, Copy, Debug, PartialEq, Eq, Structural)]
pub enum MemoryIds {
    Config,
    RunicMap,
    BtcMap,
    UserMapping,
    PoolMapping,
    AssociatedPoolMapping,
    RuneEntries,
}

impl MemoryIds {
    /// Number of the partition in the store.
    pub fn id(&self) -> (r: u8)
        ensures
            r == match *self {
                MemoryIds::Config => 0u8,
                MemoryIds::RunicMap => 1u8,
                MemoryIds::BtcMap => 2u8,
                MemoryIds::UserMapping => 3u8,
                MemoryIds::PoolMapping => 4u8,
                MemoryIds::AssociatedPoolMapping => 5u8,
                MemoryIds::RuneEntries => 6u8,
            },
    {
        match self {
            MemoryIds::Config => 0,
            MemoryIds::RunicMap => 1,
            MemoryIds::BtcMap => 2,
            MemoryIds::UserMapping => 3,
            MemoryIds::PoolMapping => 4,
            MemoryIds::AssociatedPoolMapping => 5,
            MemoryIds::RuneEntries => 6,
        }
    }
}

/// What the service records about a rune.
#[derive(Clone, Copy, Debug, PartialEq, Eq, Structural)]
pub struct RuneEntry {
    pub divisibility: u8,
}

/// What the service records about a user: the pools it provides liquidity
/// to, and its native-token balance.
#[derive(Clone, Debug)]
pub struct UserDetails {
    pub lp_positions: Vec<u128>,
    pub icp_balance: u64,
}

/// A user's native-token balance and liquidity positions, as reported.
#[derive(Clone, Debug)]
pub struct UserHoldings {
    pub icp: u64,
    pub holdings: Vec<u128>,
}

/// Raw block headers as returned by the Bitcoin facility.
#[derive(Clone, Debug)]
pub struct GetBlockHeadersResponse {
    pub tip_height: u32,
    pub block_headers: Vec<Vec<u8>>,
}

/// Lowercase hexadecimal digit of `d` (below 16).
pub open spec fn hex_digit(d: int) -> char {
    if d < 10 {
        (('0' as int) + d) as char
    } else {
        (('a' as int) + d - 10) as char
    }
}

/// Lowercase hexadecimal text of `b`, two digits per byte.
pub open spec fn hex_of(b: Seq<u8>) -> Seq<char>
    decreases b.len(),
{
    if b.len() == 0 {
        Seq::empty()
    } else {
        hex_of(b.drop_last()) + seq![hex_digit(b.last() as int / 16), hex_digit(b.last() as int % 16)]
    }
}

/// Relies on hex::encode: two lowercase hexadecimal digits for each byte.
#[verifier::external_body]
fn hex_encode(b: &Vec<u8>) -> (r: String)
    ensures
        r@ == hex_of(b@),
{
    hex::encode(b.as_slice())
}

/// `t` in the order of display: transaction ids are shown byte-reversed.
pub open spec fn display_order(t: Seq<u8>) -> Seq<u8> {
    Seq::new(t.len(), |i: int| t[t.len() - 1 - i])
}

/// The usual text of a transaction id: hexadecimal of its bytes in reverse.
pub fn txid_to_string(txid: &[u8; 32]) -> (r: String)
    ensures
        r@ == hex_of(display_order(txid@)),
{
    let mut rev: Vec<u8> = Vec::new();
    let mut i: usize = 0;
    while i < 32
        invariant
            txid@.len() == 32,
            i <= 32,
            rev@.len() == i,
            forall|k: int| 0 <= k < i ==> rev@[k] == txid@[31 - k],
        decreases 32 - i,
    {
        rev.push(txid[31 - i]);
        i = i + 1;
    }
    proof {
        assert(rev@ =~= display_order(txid@));
    }
    hex_encode(&rev)
}

} // verus!
