//! Identifiers, tokens and outputs shared by every module.

use vstd::prelude::*;

verus! {

/// Identifies a rune etching: the block it was etched in and the index of the
/// etching transaction within that block.
#[derive(Clone, Copy, Debug, PartialEq, Eq, Structural, PartialOrd, Ord, Hash)]
pub struct RuneId {
    pub block: u64,
    pub tx: u32,
}

/// The kinds of token that a pool can hold.
#[derive(Clone, Copy, Debug, PartialEq, Eq, Structural, PartialOrd, Ord, Hash)]
pub enum TokenType {
    Bitcoin,
    Icp,
    CkBTC,
    Runestone(RuneId),
}

/// A rune balance held by one output, as reported by the rune indexer.
#[derive(Clone, Copy, Debug, PartialEq, Eq, Structural)]
pub struct RuneBalance {
    pub id: RuneId,
    pub balance: u128,
}

/// Identifier of a transaction submitted on one of the supported chains.
#[derive(Clone, Debug)]
pub enum SubmittedTxidType {
    Bitcoin { txid: String },
    Ic { txid: u64 },
    Icrc1 { txid: u128 },
}

pub fn tokens_equal(a: &TokenType, b: &TokenType) -> (r: bool)
    ensures
        r == (*a == *b),
{
    match (a, b) {
        (TokenType::Bitcoin, TokenType::Bitcoin) => true,
        (TokenType::Icp, TokenType::Icp) => true,
        (TokenType::CkBTC, TokenType::CkBTC) => true,
        (TokenType::Runestone(x), TokenType::Runestone(y)) => x.block == y.block && x.tx == y.tx,
        _ => false,
    }
}

/// A transaction output reference: the creating transaction and the output index.
#[derive(Clone, Copy, Debug)]
pub struct OutPoint {
    pub txid: [u8; 32],
    pub vout: u32,
}

/// An unspent transaction output.
#[derive(Clone, Copy, Debug)]
pub struct Utxo {
    pub outpoint: OutPoint,
    pub value: u64,
    pub height: u32,
}

/// An unspent output that carries `balance` units of one rune.
#[derive(Clone, Copy, Debug)]
pub struct RunicUtxo {
    pub utxo: Utxo,
    pub balance: u128,
}

} // verus!
