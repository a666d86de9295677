//! Composition of rune transfers.

use vstd::prelude::*;

use crate::composer::{
    lemma_value_sum_multiset, lemma_btc_shortfall, lemma_outputs_size_small, lemma_balance_sum_multiset, lemma_runic_enough, lemma_runic_shortfall, lemma_balance_sum_push, lemma_touches_from_btc, lemma_touches_from_runic, lemma_touches_trans,
    lemma_value_sum_push, pays, postage_of, push_btc_inputs, push_rune_outputs, push_runic_inputs,
    needs_rune_change, required_postage, round_bound, rune_outputs_ok, runic_inputs, spends,
    touches_only, TransactionType, TransferError, DEFAULT_POSTAGE, DUST_THRESHOLD,
};
use crate::selection::{lemma_record_disjoint, lemma_runic_record_disjoint, select_btc, select_runic};
use crate::tx::{
    compute_fee_cap, fee_cap, fee_for, fee_of, lemma_fee_within_cap, out_len, out_size_of, Transaction, TxIn, TxOut,
};
use crate::runestone::runestone_script_of;
use crate::types::{RuneId, RunicUtxo, Utxo};
use crate::utxo_manager::UtxoManager;
use crate::utxo_set::{balance_sum, btc_unique, runic_unique, runic_value_sum, value_sum};

verus! {

broadcast use vstd::seq_lib::group_to_multiset_ensures, vstd::seq_lib::lemma_multiset_commutative;

/// A transfer of rune `runeid` whose postage and fee `fee_payer` pays.
pub struct RuneTransferArgs {
    pub runeid: RuneId,
    pub amount: u128,
    pub sender: String,
    pub sender_script: Vec<u8>,
    pub receiver_script: Vec<u8>,
    pub fee_payer: String,
    pub fee_payer_script: Vec<u8>,
    pub postage: Option<u64>,
    /// Fee rate, in millisatoshi per virtual byte.
    pub fee_per_vbytes: u64,
    /// Public key of the signers' length, used to size the signed transaction.
    pub signer_pubkey: Vec<u8>,
}

/// `t` is the draft of the rune transfer `args` spending `rsel` and `fsel`
/// and embedding `fee`.
pub open spec fn rune_draft(
    t: Transaction,
    rsel: Seq<RunicUtxo>,
    fsel: Seq<Utxo>,
    args: RuneTransferArgs,
    fee: u64,
) -> bool {
    let postage = postage_of(args.postage);
    let need_change = needs_rune_change(rsel.len() as int, balance_sum(rsel), args.amount as int);
    let req = required_postage(need_change, postage, runic_value_sum(rsel));
    let change = value_sum(fsel) - fee - req;
    let n = if need_change { 3int } else { 1int };
    &&& t.version == 2
    &&& t.lock_time == 0
    &&& t.input@.len() == rsel.len() + fsel.len()
    &&& runic_inputs(t.input@.subrange(0, rsel.len() as int), rsel)
    &&& spends(t.input@.subrange(rsel.len() as int, t.input@.len() as int), fsel)
    &&& rune_outputs_ok(t.output@, args.runeid, args.amount, args.sender_script@, args.receiver_script@, postage, need_change)
    &&& t.output@.len() == if change > DUST_THRESHOLD { n + 1 } else { n }
    &&& change > DUST_THRESHOLD ==> pays(t.output@[n], args.fee_payer_script@, change)
}

/// Selects the outputs of the rune transfer `args` with `fee` embedded and
/// drafts it. On failure the selected outputs are back in the index.
fn build_transaction_with_fee(m: &mut UtxoManager, args: &RuneTransferArgs, fee: u64) -> (r: Result<
    (Transaction, Vec<RunicUtxo>, Vec<Utxo>),
    TransferError,
>)
    requires
        old(m).wf(),
        args.amount > 0,
    ensures
        final(m).wf(),
        touches_only(*old(m), *final(m), args.fee_payer@, args.fee_payer@, args.sender@, args.runeid),
        match r {
            Ok((t, rsel, fsel)) => {
                &&& rune_draft(t, rsel@, fsel@, *args, fee)
                &&& rsel@.len() > 0
                &&& balance_sum(rsel@) >= args.amount
                &&& balance_sum(rsel@.drop_last()) < args.amount
                &&& fsel@.len() > 0 ==> value_sum(fsel@.drop_last()) < fee + required_postage(
                    needs_rune_change(rsel@.len() as int, balance_sum(rsel@), args.amount as int),
                    postage_of(args.postage),
                    runic_value_sum(rsel@),
                )
                &&& runic_unique(final(m).runic(args.sender@, args.runeid) + rsel@)
                &&& (final(m).runic(args.sender@, args.runeid) + rsel@).to_multiset() == old(m).runic(
                    args.sender@,
                    args.runeid,
                ).to_multiset()
                &&& btc_unique(final(m).btc(args.fee_payer@) + fsel@)
                &&& (final(m).btc(args.fee_payer@) + fsel@).to_multiset() == old(m).btc(
                    args.fee_payer@,
                ).to_multiset()
            },
            Err(e) => {
                &&& final(m).runic(args.sender@, args.runeid).to_multiset() == old(m).runic(
                    args.sender@,
                    args.runeid,
                ).to_multiset()
                &&& final(m).btc(args.fee_payer@).to_multiset() == old(m).btc(args.fee_payer@).to_multiset()
                &&& (e matches TransferError::InsufficientRune { required } && required == args.amount)
                    || (e matches TransferError::InsufficientBitcoin { .. })
                    || e == TransferError::Overflow
                &&& (e matches TransferError::InsufficientRune { .. } <==> balance_sum(
                    old(m).runic(args.sender@, args.runeid),
                ) < args.amount)
                &&& (e matches TransferError::InsufficientBitcoin { .. } || e == TransferError::Overflow)
                    ==> value_sum(old(m).btc(args.fee_payer@)) < fee + 2 * postage_of(args.postage)
            },
        },
        r is Ok ==> balance_sum(old(m).runic(args.sender@, args.runeid)) >= args.amount,
{
    let ghost m0 = *m;
    let postage: u64 = match args.postage {
        Some(p) => p,
        None => DEFAULT_POSTAGE,
    };
    let mut rsel: Vec<RunicUtxo> = Vec::new();
    let mut rtotal: u128 = 0;
    let mut rsats: u128 = 0;
    select_runic(m, args.sender.as_str(), args.runeid, args.amount, &mut rsel, &mut rtotal, &mut rsats);
    let ghost m1 = *m;
    proof {
        lemma_touches_from_runic(m0, m1, args.fee_payer@, args.fee_payer@, args.sender@, args.runeid);
    }
    if rtotal < args.amount {
        proof {
            lemma_runic_shortfall(m.runic(args.sender@, args.runeid), rsel@, m0.runic(args.sender@, args.runeid), args.amount as int);
            lemma_runic_record_disjoint(m.runic(args.sender@, args.runeid), rsel@);
        }
        m.record_runic_utxos(args.sender.as_str(), args.runeid, rsel);
        proof {
            lemma_touches_from_runic(m1, *m, args.fee_payer@, args.fee_payer@, args.sender@, args.runeid);
            lemma_touches_trans(m0, m1, *m, args.fee_payer@, args.fee_payer@, args.sender@, args.runeid);
        }
        return Err(TransferError::InsufficientRune { required: args.amount });
    }
    proof {
        assert(rsel@.len() > 0);
        lemma_balance_sum_push(rsel@.drop_last(), rsel@.last());
        assert(rsel@.drop_last().push(rsel@.last()) =~= rsel@);
        crate::selection::lemma_runic_sums_nonneg(rsel@.drop_last());
    }
    proof {
        lemma_runic_enough(m.runic(args.sender@, args.runeid), rsel@, m0.runic(args.sender@, args.runeid), args.amount as int);
    }
    let need_change = rsel.len() > 1 || rtotal > args.amount;
    let want: u128 = if need_change { 2 * (postage as u128) } else { postage as u128 };
    let req: u128 = if want > rsats { want - rsats } else { 0 };
    let target: u128 = fee as u128 + req;
    let mut fsel: Vec<Utxo> = Vec::new();
    let mut ftotal: u128 = 0;
    proof {
        assert(m.btc(args.fee_payer@) + fsel@ =~= m.btc(args.fee_payer@));
    }
    select_btc(m, args.fee_payer.as_str(), target, &mut fsel, &mut ftotal);
    let ghost m2 = *m;
    proof {
        lemma_touches_from_btc(m1, m2, args.fee_payer@, args.fee_payer@, args.sender@, args.runeid);
        lemma_touches_trans(m0, m1, m2, args.fee_payer@, args.fee_payer@, args.sender@, args.runeid);
    }
    if ftotal < target {
        proof {
            lemma_runic_record_disjoint(m.runic(args.sender@, args.runeid), rsel@);
        }
        m.record_runic_utxos(args.sender.as_str(), args.runeid, rsel);
        let ghost m3 = *m;
        proof {
            lemma_touches_from_runic(m2, m3, args.fee_payer@, args.fee_payer@, args.sender@, args.runeid);
            lemma_touches_trans(m0, m2, m3, args.fee_payer@, args.fee_payer@, args.sender@, args.runeid);
            lemma_record_disjoint(m.btc(args.fee_payer@), fsel@);
            assert(m.btc(args.fee_payer@) == m2.btc(args.fee_payer@));
        }
        m.record_btc_utxos(args.fee_payer.as_str(), fsel);
        proof {
            lemma_touches_from_btc(m3, *m, args.fee_payer@, args.fee_payer@, args.sender@, args.runeid);
            lemma_touches_trans(m0, m3, *m, args.fee_payer@, args.fee_payer@, args.sender@, args.runeid);
        }
        proof {
            lemma_btc_shortfall(m2.btc(args.fee_payer@), fsel@, m0.btc(args.fee_payer@));
        }
        if target > u64::MAX as u128 {
            return Err(TransferError::Overflow);
        }
        return Err(TransferError::InsufficientBitcoin { required: target });
    }
    proof {
        if fsel@.len() > 0 {
            lemma_value_sum_push(fsel@.drop_last(), fsel@.last());
            assert(fsel@.drop_last().push(fsel@.last()) =~= fsel@);
        }
    }
    let mut input: Vec<TxIn> = Vec::new();
    push_runic_inputs(&mut input, &rsel);
    let ghost after_runic = input@;
    push_btc_inputs(&mut input, &fsel);
    proof {
        assert(input@.subrange(0, rsel@.len() as int) =~= after_runic.subrange(0, rsel@.len() as int));
        assert(after_runic.subrange(0, 0) =~= Seq::<TxIn>::empty());
        assert(after_runic.subrange(0, after_runic.len() as int) =~= after_runic);
    }
    let mut output: Vec<TxOut> = Vec::new();
    push_rune_outputs(&mut output, args.runeid, args.amount, &args.sender_script, &args.receiver_script, postage, need_change);
    let change: u128 = ftotal - target;
    if change > DUST_THRESHOLD as u128 {
        output.push(TxOut { value: change as u64, script_pubkey: args.fee_payer_script.clone() });
    }
    let txn = Transaction { version: 2, lock_time: 0, input, output };
    Ok((txn, rsel, fsel))
}

/// Largest fee that a draft of `args` can owe when the sender has `nr`
/// runic outputs of the rune and the fee payer `np` plain ones.
pub open spec fn rune_fee_cap(nr: int, np: int, args: RuneTransferArgs) -> int {
    fee_cap(
        nr + np,
        4,
        out_size_of(runestone_script_of(args.runeid.block, args.runeid.tx, args.amount, 2).len() as int)
            + out_size_of(args.sender_script@.len() as int) + out_size_of(args.receiver_script@.len() as int)
            + out_size_of(args.fee_payer_script@.len() as int),
        args.signer_pubkey@,
        args.fee_per_vbytes,
    )
}

/// A draft owes no more than the cap.
proof fn lemma_rune_draft_within_cap(
    t: Transaction,
    rsel: Seq<RunicUtxo>,
    fsel: Seq<Utxo>,
    args: RuneTransferArgs,
    fee: u64,
    nr: int,
    np: int,
)
    requires
        rune_draft(t, rsel, fsel, args, fee),
        rsel.len() <= nr,
        fsel.len() <= np,
    ensures
        0 <= fee_for(t, args.signer_pubkey@, args.fee_per_vbytes) <= rune_fee_cap(nr, np, args),
{
    let o = t.output@;
    lemma_outputs_size_small(o);
    let so = out_size_of(runestone_script_of(args.runeid.block, args.runeid.tx, args.amount, 2).len() as int);
    let ss = out_size_of(args.sender_script@.len() as int);
    let sr = out_size_of(args.receiver_script@.len() as int);
    let sp = out_size_of(args.fee_payer_script@.len() as int);
    assert(so >= 0 && ss >= 0 && sr >= 0 && sp >= 0);
    lemma_fee_within_cap(t, args.signer_pubkey@, args.fee_per_vbytes, nr + np, 4, so + ss + sr + sp);
}

/// Composes a rune transfer: the same fee loop as for plain transfers, over
/// the runic outputs of the sender and the plain outputs of the fee payer.
pub fn transfer(m: &mut UtxoManager, args: &RuneTransferArgs) -> (r: Result<
    TransactionType,
    TransferError,
>)
    requires
        old(m).wf(),
        args.signer_pubkey@.len() < 0x10000,
    ensures
        final(m).wf(),
        touches_only(*old(m), *final(m), args.fee_payer@, args.fee_payer@, args.sender@, args.runeid),
        match r {
            Ok(TransactionType::Rune { txn, runeid, rune_amount, runic_utxos, sender, fee_payer, fee_utxos, fee, postage }) => {
                &&& runeid == args.runeid && rune_amount == args.amount
                &&& sender@ == args.sender@ && fee_payer@ == args.fee_payer@
                &&& postage == postage_of(args.postage)
                &&& rune_draft(txn, runic_utxos@, fee_utxos@, *args, fee)
                &&& fee == fee_for(txn, args.signer_pubkey@, args.fee_per_vbytes) || (fee
                    == rune_fee_cap(
                    old(m).runic(args.sender@, args.runeid).len() as int,
                    old(m).btc(args.fee_payer@).len() as int,
                    *args,
                ) && fee_for(txn, args.signer_pubkey@, args.fee_per_vbytes) <= fee)
                &&& balance_sum(runic_utxos@) >= args.amount
                &&& balance_sum(runic_utxos@.drop_last()) < args.amount
                &&& fee_utxos@.len() > 0 ==> value_sum(fee_utxos@.drop_last()) < fee + required_postage(
                    needs_rune_change(runic_utxos@.len() as int, balance_sum(runic_utxos@), args.amount as int),
                    postage_of(args.postage),
                    runic_value_sum(runic_utxos@),
                )
                &&& (final(m).runic(args.sender@, args.runeid) + runic_utxos@).to_multiset() == old(m).runic(
                    args.sender@,
                    args.runeid,
                ).to_multiset()
                &&& (final(m).btc(args.fee_payer@) + fee_utxos@).to_multiset() == old(m).btc(
                    args.fee_payer@,
                ).to_multiset()
            },
            Ok(_) => false,
            Err(e) => {
                &&& final(m).runic(args.sender@, args.runeid).to_multiset() == old(m).runic(
                    args.sender@,
                    args.runeid,
                ).to_multiset()
                &&& final(m).btc(args.fee_payer@).to_multiset() == old(m).btc(args.fee_payer@).to_multiset()
                &&& (e == TransferError::ZeroAmount <==> args.amount == 0)
            },
        },
        0 < args.amount ==> (r == Err::<TransactionType, TransferError>(
            TransferError::InsufficientRune { required: args.amount },
        ) <==> balance_sum(old(m).runic(args.sender@, args.runeid)) < args.amount),
        ({
            let cap = rune_fee_cap(
                old(m).runic(args.sender@, args.runeid).len() as int,
                old(m).btc(args.fee_payer@).len() as int,
                *args,
            );
            0 < args.amount && cap <= u64::MAX && balance_sum(old(m).runic(args.sender@, args.runeid))
                >= args.amount && value_sum(old(m).btc(args.fee_payer@)) >= cap + 2 * postage_of(
                args.postage,
            )
        }) ==> r is Ok,
{
    if args.amount == 0 {
        proof {
            lemma_touches_from_btc(*m, *m, args.fee_payer@, args.fee_payer@, args.sender@, args.runeid);
        }
        return Err(TransferError::ZeroAmount);
    }
    let ghost m0 = *m;
    let postage: u64 = match args.postage {
        Some(p) => p,
        None => DEFAULT_POSTAGE,
    };
    let nr = m.runic_count(args.sender.as_str(), args.runeid);
    let np = m.btc_count(args.fee_payer.as_str());
    let mut rounds = round_bound(nr, np);
    let ghost rounds0 = rounds;
    let ghost cap_spec = rune_fee_cap(nr as int, np as int, *args);
    let ghost funded = cap_spec <= u64::MAX && balance_sum(m0.runic(args.sender@, args.runeid)) >= args.amount
        && value_sum(m0.btc(args.fee_payer@)) >= cap_spec + 2 * postage_of(args.postage);
    let opret = crate::runestone::transfer_script(args.runeid.block, args.runeid.tx, args.amount, 2);
    let out_bytes: u128 = out_len(opret.len()) + out_len(args.sender_script.len()) + out_len(
        args.receiver_script.len(),
    ) + out_len(args.fee_payer_script.len());
    let cap = compute_fee_cap(nr as u128 + np as u128, 4, out_bytes, &args.signer_pubkey, args.fee_per_vbytes);
    let mut fee: u64 = 0;
    proof {
        lemma_touches_from_btc(m0, *m, args.fee_payer@, args.fee_payer@, args.sender@, args.runeid);
    }
    while rounds > 0
        invariant
            m.wf(),
            rounds0 >= 1,
            balance_sum(m0.runic(args.sender@, args.runeid)) >= args.amount || rounds == rounds0,
            m0 == *old(m),
            args.amount > 0,
            args.signer_pubkey@.len() < 0x10000,
            postage == postage_of(args.postage),
            nr == m0.runic(args.sender@, args.runeid).len(),
            np == m0.btc(args.fee_payer@).len(),
            cap_spec == rune_fee_cap(nr as int, np as int, *args),
            funded == (cap_spec <= u64::MAX && balance_sum(m0.runic(args.sender@, args.runeid)) >= args.amount
                && value_sum(m0.btc(args.fee_payer@)) >= cap_spec + 2 * postage_of(args.postage)),
            funded ==> cap == Some(cap_spec as u64),
            funded ==> fee <= cap_spec,
            touches_only(m0, *m, args.fee_payer@, args.fee_payer@, args.sender@, args.runeid),
            m.runic(args.sender@, args.runeid).to_multiset() == m0.runic(args.sender@, args.runeid).to_multiset(),
            m.btc(args.fee_payer@).to_multiset() == m0.btc(args.fee_payer@).to_multiset(),
        decreases rounds,
    {
        let ghost before = *m;
        let res = build_transaction_with_fee(m, args, fee);
        proof {
            lemma_touches_trans(m0, before, *m, args.fee_payer@, args.fee_payer@, args.sender@, args.runeid);
            lemma_value_sum_multiset(before.btc(args.fee_payer@), m0.btc(args.fee_payer@));
        }
        let (txn, rsel, fsel) = match res {
            Ok(d) => d,
            Err(e) => {
                proof {
                    lemma_balance_sum_multiset(before.runic(args.sender@, args.runeid), m0.runic(args.sender@, args.runeid));
                }
                return Err(e);
            },
        };
        let ghost built = *m;
        proof {
            lemma_balance_sum_multiset(before.runic(args.sender@, args.runeid), m0.runic(args.sender@, args.runeid));
            let rr = built.runic(args.sender@, args.runeid) + rsel@;
            let bb = built.btc(args.fee_payer@) + fsel@;
            assert(rr.to_multiset().len() == rr.len() && bb.to_multiset().len() == bb.len());
            assert(m0.runic(args.sender@, args.runeid).to_multiset().len() == nr);
            assert(m0.btc(args.fee_payer@).to_multiset().len() == np);
            assert(rsel@.len() <= nr && fsel@.len() <= np);
            lemma_rune_draft_within_cap(txn, rsel@, fsel@, *args, fee, nr as int, np as int);
        }
        let owed_opt = fee_of(&txn, &args.signer_pubkey, args.fee_per_vbytes);
        if owed_opt == Some(fee) {
            return Ok(
                TransactionType::Rune {
                    txn,
                    runeid: args.runeid,
                    rune_amount: args.amount,
                    runic_utxos: rsel,
                    sender: args.sender.clone(),
                    fee_payer: args.fee_payer.clone(),
                    fee_utxos: fsel,
                    fee,
                    postage,
                },
            );
        }
        proof {
            lemma_runic_record_disjoint(m.runic(args.sender@, args.runeid), rsel@);
        }
        m.record_runic_utxos(args.sender.as_str(), args.runeid, rsel);
        let ghost m3 = *m;
        proof {
            lemma_touches_from_runic(built, m3, args.fee_payer@, args.fee_payer@, args.sender@, args.runeid);
            lemma_touches_trans(m0, built, m3, args.fee_payer@, args.fee_payer@, args.sender@, args.runeid);
            lemma_record_disjoint(m.btc(args.fee_payer@), fsel@);
            assert(m.btc(args.fee_payer@) == built.btc(args.fee_payer@));
        }
        m.record_btc_utxos(args.fee_payer.as_str(), fsel);
        proof {
            lemma_touches_from_btc(m3, *m, args.fee_payer@, args.fee_payer@, args.sender@, args.runeid);
            lemma_touches_trans(m0, m3, *m, args.fee_payer@, args.fee_payer@, args.sender@, args.runeid);
            assert(m.runic(args.sender@, args.runeid) == m3.runic(args.sender@, args.runeid));
        }
        match owed_opt {
            Some(f) => {
                fee = f;
            },
            None => {
                return Err(TransferError::Overflow);
            },
        }
        rounds = rounds - 1;
    }
    let c = match cap {
        Some(c) => c,
        None => {
            return Err(TransferError::FeeNotConverged);
        },
    };
    let ghost before = *m;
    let res = build_transaction_with_fee(m, args, c);
    proof {
        lemma_touches_trans(m0, before, *m, args.fee_payer@, args.fee_payer@, args.sender@, args.runeid);
        lemma_balance_sum_multiset(before.runic(args.sender@, args.runeid), m0.runic(args.sender@, args.runeid));
        lemma_value_sum_multiset(before.btc(args.fee_payer@), m0.btc(args.fee_payer@));
    }
    match res {
        Ok((txn, rsel, fsel)) => {
            proof {
                let built = *m;
                let rr = built.runic(args.sender@, args.runeid) + rsel@;
                let bb = built.btc(args.fee_payer@) + fsel@;
                assert(rr.to_multiset().len() == rr.len() && bb.to_multiset().len() == bb.len());
                assert(m0.runic(args.sender@, args.runeid).to_multiset().len() == nr);
                assert(m0.btc(args.fee_payer@).to_multiset().len() == np);
                lemma_rune_draft_within_cap(txn, rsel@, fsel@, *args, c, nr as int, np as int);
            }
            Ok(
                TransactionType::Rune {
                    txn,
                    runeid: args.runeid,
                    rune_amount: args.amount,
                    runic_utxos: rsel,
                    sender: args.sender.clone(),
                    fee_payer: args.fee_payer.clone(),
                    fee_utxos: fsel,
                    fee: c,
                    postage,
                },
            )
        },
        Err(e) => Err(e),
    }
}

} // verus!
