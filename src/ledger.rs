//! Amounts of native-ledger transfers.

use vstd::prelude::*;

verus! {

/// Relies on ic_ledger_types::DEFAULT_FEE: the native ledger charges 10_000
/// e8s per transfer.
#[verifier::external_body]
fn default_fee() -> (r: u64)
    ensures
        r == 10_000,
{
    ic_ledger_types::DEFAULT_FEE.e8s()
}

/// The amount a native-ledger transfer names for moving `amount`: all of it
/// when the sender pays the fee on top, `amount` less the fee when the
/// receiver bears it; `None` when the amount does not cover the fee.
pub fn ledger_transfer_amount(amount: u64, paid_by_sender: bool) -> (r: Option<u64>)
    ensures
        r == if paid_by_sender {
            Some(amount)
        } else if amount >= 10_000 {
            Some((amount - 10_000) as u64)
        } else {
            None::<u64>
        },
{
    let fee = default_fee();
    if paid_by_sender {
        Some(amount)
    } else if amount >= fee {
        Some(amount - fee)
    } else {
        None
    }
}

} // verus!
