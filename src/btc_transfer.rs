//! Composition of plain bitcoin transfers.

use vstd::prelude::*;

use crate::composer::{
    lemma_value_sum_multiset, lemma_value_sum_push, pays, spends, unsigned_inputs, TransactionType,
    TransferError, DUST_THRESHOLD,
};
use crate::selection::{lemma_record_disjoint, select_btc};
use crate::tx::{
    compute_fee_cap, fee_cap, fee_for, fee_of, lemma_fee_within_cap, out_len, out_size_of, output_size,
    outputs_size, Transaction, TxOut,
};
use crate::types::Utxo;
use crate::utxo_manager::UtxoManager;
use crate::utxo_set::{btc_before, btc_unique, value_sum};

verus! {

broadcast use vstd::seq_lib::group_to_multiset_ensures, vstd::seq_lib::lemma_multiset_commutative;

/// A plain bitcoin transfer.
pub struct BtcTransferArgs {
    /// Address whose outputs are spent (and that receives the change).
    pub sender: String,
    pub sender_script: Vec<u8>,
    pub receiver_script: Vec<u8>,
    pub amount: u64,
    pub paid_by_sender: bool,
    /// Fee rate, in millisatoshi per virtual byte.
    pub fee_per_vbytes: u64,
    /// Public key that will sign the sender's inputs.
    pub sender_pubkey: Vec<u8>,
}

/// Amount that the sender's outputs must cover.
pub open spec fn btc_required(args: BtcTransferArgs, fee: u64) -> int {
    if args.paid_by_sender {
        args.amount + fee
    } else {
        args.amount as int
    }
}

/// `t` is the draft for `args` that spends `sel` and embeds `fee`.
pub open spec fn btc_draft(t: Transaction, sel: Seq<Utxo>, args: BtcTransferArgs, fee: u64) -> bool {
    let change = value_sum(sel) - btc_required(args, fee);
    &&& t.version == 2
    &&& t.lock_time == 0
    &&& spends(t.input@, sel)
    &&& t.output@.len() == if change > DUST_THRESHOLD { 2int } else { 1int }
    &&& pays(
        t.output@[0],
        args.receiver_script@,
        if args.paid_by_sender { args.amount as int } else { args.amount - fee },
    )
    &&& change > DUST_THRESHOLD ==> pays(t.output@[1], args.sender_script@, change)
}

/// Selects the sender's outputs for `args` with `fee` embedded and drafts
/// the transaction. On failure the selected outputs are back in the index.
fn build_transaction_with_fee(m: &mut UtxoManager, args: &BtcTransferArgs, fee: u64) -> (r: Result<
    (Transaction, Vec<Utxo>),
    TransferError,
>)
    requires
        old(m).wf(),
        args.amount > 0,
    ensures
        final(m).wf(),
        old(m).btc_frame(final(m), args.sender@),
        match r {
            Ok((t, sel)) => {
                &&& btc_draft(t, sel@, *args, fee)
                &&& sel@.len() > 0
                &&& value_sum(sel@) >= btc_required(*args, fee)
                &&& value_sum(sel@.drop_last()) < btc_required(*args, fee)
                &&& btc_unique(final(m).btc(args.sender@) + sel@)
                &&& (final(m).btc(args.sender@) + sel@).to_multiset() == old(m).btc(
                    args.sender@,
                ).to_multiset()
                &&& forall|x: int, k: int|
                    0 <= x < final(m).btc(args.sender@).len() && 0 <= k < sel@.len() ==> !btc_before(
                        #[trigger] final(m).btc(args.sender@)[x],
                        #[trigger] sel@[k],
                    )
            },
            Err(e) => {
                &&& final(m).btc(args.sender@).to_multiset() == old(m).btc(args.sender@).to_multiset()
                &&& e == if !args.paid_by_sender && fee > args.amount {
                    TransferError::AmountBelowFee { fee }
                } else {
                    TransferError::InsufficientBitcoin { required: btc_required(*args, fee) as u128 }
                }
                &&& !(!args.paid_by_sender && fee > args.amount) ==> value_sum(
                    old(m).btc(args.sender@),
                ) < btc_required(*args, fee)
            },
        },
{
    if !args.paid_by_sender && fee > args.amount {
        return Err(TransferError::AmountBelowFee { fee });
    }
    let total: u128 = if args.paid_by_sender {
        args.amount as u128 + fee as u128
    } else {
        args.amount as u128
    };
    let mut sel: Vec<Utxo> = Vec::new();
    let mut spent: u128 = 0;
    proof {
        assert(old(m).btc(args.sender@) + sel@ =~= old(m).btc(args.sender@));
    }
    select_btc(m, args.sender.as_str(), total, &mut sel, &mut spent);
    if spent < total {
        let ghost rest = m.btc(args.sender@);
        proof {
            lemma_record_disjoint(rest, sel@);
            assert(rest.len() == 0);
            assert(rest + sel@ =~= sel@);
            assert(value_sum(old(m).btc(args.sender@)) < total) by {
                lemma_value_sum_multiset(sel@, old(m).btc(args.sender@));
            }
        }
        m.record_btc_utxos(args.sender.as_str(), sel);
        return Err(TransferError::InsufficientBitcoin { required: total });
    }
    proof {
        assert(sel@.len() > 0);
        lemma_value_sum_push(sel@.drop_last(), sel@.last());
        assert(sel@.drop_last().push(sel@.last()) =~= sel@);
    }
    let input = unsigned_inputs(&sel);
    let mut output: Vec<TxOut> = Vec::new();
    let to_receiver: u64 = if args.paid_by_sender { args.amount } else { args.amount - fee };
    output.push(TxOut { value: to_receiver, script_pubkey: args.receiver_script.clone() });
    let change: u128 = spent - total;
    if change > DUST_THRESHOLD as u128 {
        output.push(TxOut { value: change as u64, script_pubkey: args.sender_script.clone() });
    }
    let txn = Transaction { version: 2, lock_time: 0, input, output };
    Ok((txn, sel))
}

/// Largest fee that a draft of `args` can owe when the sender has `n`
/// outputs: every output spent, and both the receiver's and the change output.
pub open spec fn btc_fee_cap(n: int, args: BtcTransferArgs) -> int {
    fee_cap(
        n,
        2,
        out_size_of(args.receiver_script@.len() as int) + out_size_of(args.sender_script@.len() as int),
        args.sender_pubkey@,
        args.fee_per_vbytes,
    )
}

/// A draft owes no more than the cap.
proof fn lemma_btc_draft_within_cap(t: Transaction, sel: Seq<Utxo>, args: BtcTransferArgs, fee: u64, n: int)
    requires
        btc_draft(t, sel, args, fee),
        sel.len() <= n,
    ensures
        0 <= fee_for(t, args.sender_pubkey@, args.fee_per_vbytes) <= btc_fee_cap(n, args),
{
    let o = t.output@;
    let rs = out_size_of(args.receiver_script@.len() as int);
    let ss = out_size_of(args.sender_script@.len() as int);
    assert(o.drop_last().len() == o.len() - 1);
    if o.len() == 1 {
        assert(o.drop_last().len() == 0);
        assert(outputs_size(o.drop_last()) == 0);
        assert(o.last() == o[0]);
        assert(outputs_size(o) == output_size(o[0]));
    } else {
        assert(o.drop_last().drop_last().len() == 0);
        assert(o.drop_last()[0] == o[0]);
        assert(outputs_size(o.drop_last().drop_last()) == 0);
        assert(o.drop_last().last() == o[0]);
        assert(o.last() == o[1]);
        assert(outputs_size(o.drop_last()) == output_size(o[0]));
        assert(outputs_size(o) == output_size(o[0]) + output_size(o[1]));
    }
    assert(ss >= 0 && rs >= 0);
    lemma_fee_within_cap(t, args.sender_pubkey@, args.fee_per_vbytes, n, 2, rs + ss);
}

/// Composes a plain bitcoin transfer. Rounds of selection repeat until the
/// embedded fee equals the fee owed by the signed transaction, at most once
/// more than the sender has outputs; if the fee has not settled by then,
/// the transfer embeds the largest fee any of its drafts can owe. Between
/// rounds, and on every failure, the selected outputs return to the index.
pub fn transfer(m: &mut UtxoManager, args: &BtcTransferArgs) -> (r: Result<
    TransactionType,
    TransferError,
>)
    requires
        old(m).wf(),
        args.sender_pubkey@.len() < 0x10000,
    ensures
        final(m).wf(),
        old(m).btc_frame(final(m), args.sender@),
        match r {
            Ok(TransactionType::Bitcoin { txn, utxos, sender, fee }) => {
                &&& sender@ == args.sender@
                &&& btc_draft(txn, utxos@, *args, fee)
                &&& fee == fee_for(txn, args.sender_pubkey@, args.fee_per_vbytes) || (fee
                    == btc_fee_cap(old(m).btc(args.sender@).len() as int, *args) && fee_for(
                    txn,
                    args.sender_pubkey@,
                    args.fee_per_vbytes,
                ) <= fee)
                &&& value_sum(utxos@) >= btc_required(*args, fee)
                &&& value_sum(utxos@.drop_last()) < btc_required(*args, fee)
                &&& (final(m).btc(args.sender@) + utxos@).to_multiset() == old(m).btc(
                    args.sender@,
                ).to_multiset()
                &&& forall|x: int, k: int|
                    0 <= x < final(m).btc(args.sender@).len() && 0 <= k < utxos@.len()
                        ==> !btc_before(#[trigger] final(m).btc(args.sender@)[x], #[trigger] utxos@[k])
            },
            Ok(_) => false,
            Err(e) => {
                &&& final(m).btc(args.sender@).to_multiset() == old(m).btc(args.sender@).to_multiset()
                &&& (e == TransferError::ZeroAmount <==> args.amount == 0)
                &&& e matches TransferError::InsufficientBitcoin { required } ==> value_sum(
                    old(m).btc(args.sender@),
                ) < required
                &&& e matches TransferError::AmountBelowFee { fee } ==> !args.paid_by_sender && fee
                    > args.amount
            },
        },
        0 < args.amount && value_sum(old(m).btc(args.sender@)) < args.amount ==> r == Err::<
            TransactionType,
            TransferError,
        >(TransferError::InsufficientBitcoin { required: args.amount as u128 }),
        ({
            let cap = btc_fee_cap(old(m).btc(args.sender@).len() as int, *args);
            0 < args.amount && cap <= u64::MAX && value_sum(old(m).btc(args.sender@))
                >= btc_required(*args, cap as u64) && (args.paid_by_sender || args.amount >= cap)
        }) ==> r is Ok,
{
    if args.amount == 0 {
        return Err(TransferError::ZeroAmount);
    }
    let ghost m0 = *m;
    let count = m.btc_count(args.sender.as_str());
    let ghost n = count as int;
    let ghost cap_spec = btc_fee_cap(n, *args);
    let ghost funded = cap_spec <= u64::MAX && value_sum(m0.btc(args.sender@)) >= btc_required(*args, cap_spec as u64)
        && (args.paid_by_sender || args.amount >= cap_spec);
    let out_bytes: u128 = out_len(args.receiver_script.len()) + out_len(args.sender_script.len());
    let cap = compute_fee_cap(count as u128, 2, out_bytes, &args.sender_pubkey, args.fee_per_vbytes);
    let mut rounds: usize = if count < usize::MAX { count + 1 } else { count };
    let ghost rounds0 = rounds;
    let mut fee: u64 = 0;
    proof {
        vstd::arithmetic::div_mod::lemma_div_pos_is_pos(0int, 1000);
    }
    while rounds > 0
        invariant
            m.wf(),
            m0 == *old(m),
            n == m0.btc(args.sender@).len(),
            cap_spec == btc_fee_cap(n, *args),
            cap == if cap_spec <= u64::MAX { Some(cap_spec as u64) } else { None::<u64> },
            funded == (cap_spec <= u64::MAX && value_sum(m0.btc(args.sender@)) >= btc_required(*args, cap_spec as u64)
                && (args.paid_by_sender || args.amount >= cap_spec)),
            funded ==> fee <= cap_spec,
            rounds0 >= 1,
            value_sum(m0.btc(args.sender@)) >= args.amount || (fee == 0 && rounds == rounds0),
            args.amount > 0,
            args.sender_pubkey@.len() < 0x10000,
            m0.btc_frame(m, args.sender@),
            m.btc(args.sender@).to_multiset() == m0.btc(args.sender@).to_multiset(),
        decreases rounds,
    {
        let ghost before = *m;
        let res = build_transaction_with_fee(m, args, fee);
        proof {
            crate::utxo_manager::lemma_btc_frame_trans(&m0, &before, m, args.sender@);
            lemma_value_sum_multiset(before.btc(args.sender@), m0.btc(args.sender@));
        }
        let (txn, sel) = match res {
            Ok(d) => d,
            Err(e) => {
                return Err(e);
            },
        };
        let ghost built = *m;
        proof {
            lemma_value_sum_multiset(built.btc(args.sender@) + sel@, m0.btc(args.sender@));
            lemma_value_sum_concat(built.btc(args.sender@), sel@);
            crate::selection::lemma_value_sum_nonneg(built.btc(args.sender@));
            assert((built.btc(args.sender@) + sel@).to_multiset().len() == (built.btc(args.sender@) + sel@).len());
            assert(m0.btc(args.sender@).to_multiset().len() == n);
            assert((built.btc(args.sender@) + sel@).len() == n);
            lemma_btc_draft_within_cap(txn, sel@, *args, fee, n);
        }
        let owed = match fee_of(&txn, &args.sender_pubkey, args.fee_per_vbytes) {
            Some(f) => f,
            None => {
                proof {
                    lemma_record_disjoint(m.btc(args.sender@), sel@);
                }
                m.record_btc_utxos(args.sender.as_str(), sel);
                proof {
                    crate::utxo_manager::lemma_btc_frame_trans(&m0, &built, m, args.sender@);
                }
                return Err(TransferError::Overflow);
            },
        };
        if owed == fee {
            return Ok(TransactionType::Bitcoin { txn, utxos: sel, sender: args.sender.clone(), fee });
        }
        proof {
            lemma_record_disjoint(m.btc(args.sender@), sel@);
        }
        m.record_btc_utxos(args.sender.as_str(), sel);
        proof {
            crate::utxo_manager::lemma_btc_frame_trans(&m0, &built, m, args.sender@);
        }
        fee = owed;
        rounds = rounds - 1;
    }
    let c = match cap {
        Some(c) => c,
        None => {
            return Err(TransferError::FeeNotConverged);
        },
    };
    let ghost before = *m;
    let res = build_transaction_with_fee(m, args, c);
    proof {
        crate::utxo_manager::lemma_btc_frame_trans(&m0, &before, m, args.sender@);
        lemma_value_sum_multiset(before.btc(args.sender@), m0.btc(args.sender@));
    }
    match res {
        Ok((txn, sel)) => {
            proof {
                let built = *m;
                assert((built.btc(args.sender@) + sel@).to_multiset().len() == (built.btc(args.sender@) + sel@).len());
            assert(m0.btc(args.sender@).to_multiset().len() == n);
            assert((built.btc(args.sender@) + sel@).len() == n);
                lemma_btc_draft_within_cap(txn, sel@, *args, c, n);
            }
            Ok(TransactionType::Bitcoin { txn, utxos: sel, sender: args.sender.clone(), fee: c })
        },
        Err(e) => Err(e),
    }
}

/// The value of two lists of outputs together is the sum of their values.
pub proof fn lemma_value_sum_concat(a: Seq<Utxo>, b: Seq<Utxo>)
    ensures
        value_sum(a + b) == value_sum(a) + value_sum(b),
    decreases b.len(),
{
    if b.len() > 0 {
        lemma_value_sum_concat(a, b.drop_last());
        assert((a + b).drop_last() =~= a + b.drop_last());
    } else {
        assert(a + b =~= a);
    }
}

} // verus!
