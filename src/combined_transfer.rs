//! Composition of a rune transfer and a bitcoin transfer in one transaction.

use vstd::prelude::*;

use crate::composer::{
    lemma_btc_shortfall, lemma_outputs_size_small, lemma_value_sum_multiset, lemma_balance_sum_multiset, lemma_runic_enough, lemma_runic_shortfall, lemma_balance_sum_push, lemma_touches_from_btc, lemma_touches_from_runic, lemma_touches_trans,
    lemma_value_sum_push, pays, postage_of, push_btc_inputs, push_rune_outputs, push_runic_inputs,
    needs_rune_change, required_postage, round_bound, rune_outputs_ok, runic_inputs, spends,
    touches_only, TransactionType, TransferError, DEFAULT_POSTAGE, DUST_THRESHOLD,
};
use crate::selection::{lemma_record_disjoint, lemma_runic_record_disjoint, sat128, select_btc, select_runic};
use crate::tx::{
    compute_fee_cap, fee_cap, fee_for, fee_of, lemma_fee_within_cap, out_len, out_size_of, Transaction, TxIn, TxOut,
};
use crate::runestone::runestone_script_of;
use crate::types::{RuneId, RunicUtxo, Utxo};
use crate::utxo_manager::UtxoManager;
use crate::utxo_set::{balance_sum, btc_unique, runic_unique, runic_value_sum, value_sum};

verus! {

broadcast use vstd::seq_lib::group_to_multiset_ensures, vstd::seq_lib::lemma_multiset_commutative;

/// A rune transfer and a bitcoin transfer in one transaction.
pub struct CombinedTransactionArgs {
    pub runeid: RuneId,
    pub rune_amount: u128,
    pub rune_sender: String,
    pub rune_sender_script: Vec<u8>,
    pub rune_receiver_script: Vec<u8>,
    pub btc_amount: u64,
    pub bitcoin_sender: String,
    pub bitcoin_sender_script: Vec<u8>,
    pub bitcoin_receiver_script: Vec<u8>,
    pub fee_payer: String,
    pub fee_payer_script: Vec<u8>,
    pub postage: Option<u64>,
    /// Fee rate, in millisatoshi per virtual byte.
    pub fee_per_vbytes: u64,
    /// Public key of the signers' length, used to size the signed transaction.
    pub signer_pubkey: Vec<u8>,
}

/// `t` is the draft of the combined transfer `args` spending `rsel`, `bsel`
/// and `fsel` and embedding `fee`. When the fee payer is the bitcoin sender,
/// the bitcoin inputs also cover the fee and the postage; otherwise the
/// bitcoin sender's change and the fee payer's change come back to each.
pub open spec fn combined_draft(
    t: Transaction,
    rsel: Seq<RunicUtxo>,
    bsel: Seq<Utxo>,
    fsel: Seq<Utxo>,
    args: CombinedTransactionArgs,
    fee: u64,
) -> bool {
    let postage = postage_of(args.postage);
    let need_change = needs_rune_change(rsel.len() as int, balance_sum(rsel), args.rune_amount as int);
    let req = required_postage(need_change, postage, runic_value_sum(rsel));
    let same = args.fee_payer@ == args.bitcoin_sender@;
    let n = if need_change { 3int } else { 1int };
    let btc_change = if same {
        value_sum(bsel) - args.btc_amount - fee - req
    } else {
        value_sum(bsel) - args.btc_amount
    };
    let fee_change = value_sum(fsel) - fee - req;
    let kb = if btc_change > DUST_THRESHOLD { 1int } else { 0int };
    let kf = if !same && fee_change > DUST_THRESHOLD { 1int } else { 0int };
    let nr = rsel.len() as int;
    let nb = bsel.len() as int;
    &&& t.version == 2
    &&& t.lock_time == 0
    &&& same ==> fsel.len() == 0
    &&& t.input@.len() == nr + nb + fsel.len()
    &&& runic_inputs(t.input@.subrange(0, nr), rsel)
    &&& spends(t.input@.subrange(nr, nr + nb), bsel)
    &&& spends(t.input@.subrange(nr + nb, t.input@.len() as int), fsel)
    &&& rune_outputs_ok(
        t.output@,
        args.runeid,
        args.rune_amount,
        args.rune_sender_script@,
        args.rune_receiver_script@,
        postage,
        need_change,
    )
    &&& t.output@.len() == n + 1 + kb + kf
    &&& pays(t.output@[n], args.bitcoin_receiver_script@, args.btc_amount as int)
    &&& kb == 1 ==> pays(t.output@[n + 1], args.bitcoin_sender_script@, btc_change)
    &&& kf == 1 ==> pays(t.output@[n + 1 + kb], args.fee_payer_script@, fee_change)
}

/// The three sets that a combined transfer draws from hold the same outputs
/// in `a` as in `b`.
pub open spec fn combined_restored(a: UtxoManager, b: UtxoManager, args: CombinedTransactionArgs) -> bool {
    &&& b.runic(args.rune_sender@, args.runeid).to_multiset() == a.runic(
        args.rune_sender@,
        args.runeid,
    ).to_multiset()
    &&& b.btc(args.bitcoin_sender@).to_multiset() == a.btc(args.bitcoin_sender@).to_multiset()
    &&& b.btc(args.fee_payer@).to_multiset() == a.btc(args.fee_payer@).to_multiset()
}

/// The outputs selected by a combined transfer, with what is left in `b`,
/// are what `a` held.
pub open spec fn combined_taken(
    a: UtxoManager,
    b: UtxoManager,
    args: CombinedTransactionArgs,
    rsel: Seq<RunicUtxo>,
    bsel: Seq<Utxo>,
    fsel: Seq<Utxo>,
) -> bool {
    &&& runic_unique(b.runic(args.rune_sender@, args.runeid) + rsel)
    &&& (b.runic(args.rune_sender@, args.runeid) + rsel).to_multiset() == a.runic(
        args.rune_sender@,
        args.runeid,
    ).to_multiset()
    &&& btc_unique(b.btc(args.bitcoin_sender@) + bsel)
    &&& (b.btc(args.bitcoin_sender@) + bsel).to_multiset() == a.btc(args.bitcoin_sender@).to_multiset()
    &&& args.fee_payer@ != args.bitcoin_sender@ ==> btc_unique(b.btc(args.fee_payer@) + fsel)
        && (b.btc(args.fee_payer@) + fsel).to_multiset() == a.btc(args.fee_payer@).to_multiset()
}

/// Puts the selected outputs of a combined transfer back into the index.
fn return_combined(
    m: &mut UtxoManager,
    args: &CombinedTransactionArgs,
    rsel: Vec<RunicUtxo>,
    bsel: Vec<Utxo>,
    fsel: Vec<Utxo>,
    Ghost(a): Ghost<UtxoManager>,
)
    requires
        old(m).wf(),
        combined_taken(a, *old(m), *args, rsel@, bsel@, fsel@),
        args.fee_payer@ == args.bitcoin_sender@ ==> fsel@.len() == 0,
    ensures
        final(m).wf(),
        touches_only(*old(m), *final(m), args.bitcoin_sender@, args.fee_payer@, args.rune_sender@, args.runeid),
        combined_restored(a, *final(m), *args),
{
    let ghost m0 = *m;
    proof {
        lemma_runic_record_disjoint(m.runic(args.rune_sender@, args.runeid), rsel@);
    }
    m.record_runic_utxos(args.rune_sender.as_str(), args.runeid, rsel);
    let ghost m1 = *m;
    proof {
        lemma_touches_from_runic(m0, m1, args.bitcoin_sender@, args.fee_payer@, args.rune_sender@, args.runeid);
        lemma_record_disjoint(m.btc(args.bitcoin_sender@), bsel@);
    }
    m.record_btc_utxos(args.bitcoin_sender.as_str(), bsel);
    let ghost m2 = *m;
    proof {
        lemma_touches_from_btc(m1, m2, args.bitcoin_sender@, args.fee_payer@, args.rune_sender@, args.runeid);
        lemma_touches_trans(m0, m1, m2, args.bitcoin_sender@, args.fee_payer@, args.rune_sender@, args.runeid);
    }
    if args.fee_payer != args.bitcoin_sender {
        proof {
            lemma_record_disjoint(m.btc(args.fee_payer@), fsel@);
        }
        m.record_btc_utxos(args.fee_payer.as_str(), fsel);
        proof {
            lemma_touches_from_btc(m2, *m, args.bitcoin_sender@, args.fee_payer@, args.rune_sender@, args.runeid);
            lemma_touches_trans(m0, m2, *m, args.bitcoin_sender@, args.fee_payer@, args.rune_sender@, args.runeid);
        }
    } else {
        proof {
            assert(fsel@ =~= Seq::<Utxo>::empty());
        }
    }
}

/// What a combined transfer selected, with the sums it needs.
pub open spec fn combined_selection_ok(
    args: CombinedTransactionArgs,
    fee: u64,
    rsel: Seq<RunicUtxo>,
    bsel: Seq<Utxo>,
    fsel: Seq<Utxo>,
) -> bool {
    let need_change = needs_rune_change(rsel.len() as int, balance_sum(rsel), args.rune_amount as int);
    let req = required_postage(need_change, postage_of(args.postage), runic_value_sum(rsel));
    let same = args.fee_payer@ == args.bitcoin_sender@;
    &&& rsel.len() > 0
    &&& balance_sum(rsel) >= args.rune_amount
    &&& balance_sum(rsel.drop_last()) < args.rune_amount
    &&& same ==> fsel.len() == 0
    &&& same ==> args.btc_amount + fee + req <= value_sum(bsel) <= args.btc_amount + fee + req
        + u64::MAX
    &&& !same ==> args.btc_amount <= value_sum(bsel) <= args.btc_amount + u64::MAX
    &&& !same ==> fee + req <= value_sum(fsel) <= fee + req + u64::MAX
}

/// The bitcoin side of `m` covers a combined transfer `args` that embeds
/// `fee`, whatever postage it needs.
pub open spec fn combined_funded_at(m: UtxoManager, args: CombinedTransactionArgs, fee: int) -> bool {
    let p = 2 * postage_of(args.postage);
    if args.fee_payer@ == args.bitcoin_sender@ {
        value_sum(m.btc(args.bitcoin_sender@)) >= args.btc_amount + fee + p
    } else {
        value_sum(m.btc(args.bitcoin_sender@)) >= args.btc_amount && value_sum(m.btc(args.fee_payer@))
            >= fee + p
    }
}

/// Selects the outputs of the combined transfer `args` with `fee` embedded.
/// On failure the selected outputs are back in the index.
fn select_combined(m: &mut UtxoManager, args: &CombinedTransactionArgs, fee: u64) -> (r: Result<
    (Vec<RunicUtxo>, Vec<Utxo>, Vec<Utxo>, u128, u128, u128, u128),
    TransferError,
>)
    requires
        old(m).wf(),
        args.rune_amount > 0,
    ensures
        final(m).wf(),
        touches_only(*old(m), *final(m), args.bitcoin_sender@, args.fee_payer@, args.rune_sender@, args.runeid),
        match r {
            Ok((rsel, bsel, fsel, rtotal, rsats, btotal, ftotal)) => {
                &&& combined_selection_ok(*args, fee, rsel@, bsel@, fsel@)
                &&& combined_taken(*old(m), *final(m), *args, rsel@, bsel@, fsel@)
                &&& rtotal == sat128(balance_sum(rsel@))
                &&& rsats == sat128(runic_value_sum(rsel@))
                &&& btotal == value_sum(bsel@)
                &&& ftotal == value_sum(fsel@)
            },
            Err(e) => {
                &&& combined_restored(*old(m), *final(m), *args)
                &&& e != TransferError::ZeroAmount
                &&& (e matches TransferError::InsufficientRune { required } ==> required
                    == args.rune_amount)
                &&& (e matches TransferError::InsufficientRune { .. } <==> balance_sum(
                    old(m).runic(args.rune_sender@, args.runeid),
                ) < args.rune_amount)
                &&& (e matches TransferError::InsufficientRune { .. }) || !combined_funded_at(
                    *old(m),
                    *args,
                    fee as int,
                )
            },
        },
        r is Ok ==> balance_sum(old(m).runic(args.rune_sender@, args.runeid)) >= args.rune_amount,
{
    let ghost m0 = *m;
    let postage: u64 = match args.postage {
        Some(p) => p,
        None => DEFAULT_POSTAGE,
    };
    let same = args.fee_payer == args.bitcoin_sender;
    let mut rsel: Vec<RunicUtxo> = Vec::new();
    let mut rtotal: u128 = 0;
    let mut rsats: u128 = 0;
    select_runic(m, args.rune_sender.as_str(), args.runeid, args.rune_amount, &mut rsel, &mut rtotal, &mut rsats);
    let ghost m1 = *m;
    proof {
        lemma_touches_from_runic(m0, m1, args.bitcoin_sender@, args.fee_payer@, args.rune_sender@, args.runeid);
        assert(m1.btc(args.bitcoin_sender@) + Seq::<Utxo>::empty() =~= m1.btc(args.bitcoin_sender@));
        assert(m1.btc(args.fee_payer@) + Seq::<Utxo>::empty() =~= m1.btc(args.fee_payer@));
    }
    if rtotal < args.rune_amount {
        proof {
            lemma_runic_shortfall(m.runic(args.rune_sender@, args.runeid), rsel@, m0.runic(args.rune_sender@, args.runeid), args.rune_amount as int);
        }
        return_combined(m, args, rsel, Vec::new(), Vec::new(), Ghost(m0));
        proof {
            lemma_touches_trans(m0, m1, *m, args.bitcoin_sender@, args.fee_payer@, args.rune_sender@, args.runeid);
        }
        return Err(TransferError::InsufficientRune { required: args.rune_amount });
    }
    proof {
        lemma_balance_sum_push(rsel@.drop_last(), rsel@.last());
        assert(rsel@.drop_last().push(rsel@.last()) =~= rsel@);
        crate::selection::lemma_runic_sums_nonneg(rsel@.drop_last());
    }
    proof {
        lemma_runic_enough(m.runic(args.rune_sender@, args.runeid), rsel@, m0.runic(args.rune_sender@, args.runeid), args.rune_amount as int);
    }
    let need_change = rsel.len() > 1 || rtotal > args.rune_amount;
    let want: u128 = if need_change { 2 * (postage as u128) } else { postage as u128 };
    let req: u128 = if want > rsats { want - rsats } else { 0 };
    let mut bsel: Vec<Utxo> = Vec::new();
    let mut btotal: u128 = 0;
    select_btc(m, args.bitcoin_sender.as_str(), args.btc_amount as u128, &mut bsel, &mut btotal);
    let ghost m2 = *m;
    proof {
        lemma_touches_from_btc(m1, m2, args.bitcoin_sender@, args.fee_payer@, args.rune_sender@, args.runeid);
        lemma_touches_trans(m0, m1, m2, args.bitcoin_sender@, args.fee_payer@, args.rune_sender@, args.runeid);
        if !same {
            assert(m2.btc(args.fee_payer@) == m0.btc(args.fee_payer@));
        }
    }
    if btotal < args.btc_amount as u128 {
        proof {
            lemma_btc_shortfall(m2.btc(args.bitcoin_sender@), bsel@, m1.btc(args.bitcoin_sender@));
        }
        return_combined(m, args, rsel, bsel, Vec::new(), Ghost(m0));
        proof {
            lemma_touches_trans(m0, m2, *m, args.bitcoin_sender@, args.fee_payer@, args.rune_sender@, args.runeid);
        }
        return Err(TransferError::InsufficientBitcoin { required: args.btc_amount as u128 });
    }
    proof {
        if bsel@.len() > 0 {
            lemma_value_sum_push(bsel@.drop_last(), bsel@.last());
            assert(bsel@.drop_last().push(bsel@.last()) =~= bsel@);
        }
    }
    let fee_target: u128 = fee as u128 + req;
    let mut fsel: Vec<Utxo> = Vec::new();
    let mut ftotal: u128 = 0;
    let ghost bsel_before = bsel@;
    if same {
        let target: u128 = args.btc_amount as u128 + fee_target;
        select_btc(m, args.bitcoin_sender.as_str(), target, &mut bsel, &mut btotal);
        let ghost m3 = *m;
        proof {
            lemma_touches_from_btc(m2, m3, args.bitcoin_sender@, args.fee_payer@, args.rune_sender@, args.runeid);
            lemma_touches_trans(m0, m2, m3, args.bitcoin_sender@, args.fee_payer@, args.rune_sender@, args.runeid);
        }
        if btotal < target {
            proof {
                lemma_btc_shortfall(m3.btc(args.bitcoin_sender@), bsel@, m0.btc(args.bitcoin_sender@));
            }
            return_combined(m, args, rsel, bsel, fsel, Ghost(m0));
            proof {
                lemma_touches_trans(m0, m3, *m, args.bitcoin_sender@, args.fee_payer@, args.rune_sender@, args.runeid);
            }
            return Err(TransferError::InsufficientBitcoin { required: target });
        }
        proof {
            if bsel@.len() > bsel_before.len() {
                lemma_value_sum_push(bsel@.drop_last(), bsel@.last());
                assert(bsel@.drop_last().push(bsel@.last()) =~= bsel@);
            } else {
                assert(bsel@ =~= bsel_before);
            }
        }
    } else {
        proof {
            assert(m.btc(args.fee_payer@) + fsel@ =~= m.btc(args.fee_payer@));
        }
        select_btc(m, args.fee_payer.as_str(), fee_target, &mut fsel, &mut ftotal);
        let ghost m3 = *m;
        proof {
            lemma_touches_from_btc(m2, m3, args.bitcoin_sender@, args.fee_payer@, args.rune_sender@, args.runeid);
            lemma_touches_trans(m0, m2, m3, args.bitcoin_sender@, args.fee_payer@, args.rune_sender@, args.runeid);
            assert(m3.btc(args.bitcoin_sender@) == m2.btc(args.bitcoin_sender@));
        }
        if ftotal < fee_target {
            proof {
                lemma_btc_shortfall(m3.btc(args.fee_payer@), fsel@, m2.btc(args.fee_payer@));
            }
            return_combined(m, args, rsel, bsel, fsel, Ghost(m0));
            proof {
                lemma_touches_trans(m0, m3, *m, args.bitcoin_sender@, args.fee_payer@, args.rune_sender@, args.runeid);
            }
            return Err(TransferError::InsufficientBitcoin { required: fee_target });
        }
        proof {
            if fsel@.len() > 0 {
                lemma_value_sum_push(fsel@.drop_last(), fsel@.last());
                assert(fsel@.drop_last().push(fsel@.last()) =~= fsel@);
            }
        }
    }
    Ok((rsel, bsel, fsel, rtotal, rsats, btotal, ftotal))
}

/// Drafts the combined transfer `args` from what `select_combined` chose.
fn assemble_combined(
    args: &CombinedTransactionArgs,
    fee: u64,
    rsel: &Vec<RunicUtxo>,
    bsel: &Vec<Utxo>,
    fsel: &Vec<Utxo>,
    rtotal: u128,
    rsats: u128,
    btotal: u128,
    ftotal: u128,
) -> (t: Transaction)
    requires
        combined_selection_ok(*args, fee, rsel@, bsel@, fsel@),
        rtotal == sat128(balance_sum(rsel@)),
        rsats == sat128(runic_value_sum(rsel@)),
        btotal == value_sum(bsel@),
        ftotal == value_sum(fsel@),
    ensures
        combined_draft(t, rsel@, bsel@, fsel@, *args, fee),
{
    proof {
        crate::selection::lemma_runic_sums_nonneg(rsel@);
        if rsel@.len() == 1 {
            assert(balance_sum(rsel@.drop_last()) == 0);
            assert(rsel@.last() == rsel@[0]);
            assert(balance_sum(rsel@) == balance_sum(rsel@.drop_last()) + rsel@.last().balance);
        }
    }
    let postage: u64 = match args.postage {
        Some(p) => p,
        None => DEFAULT_POSTAGE,
    };
    let same = args.fee_payer == args.bitcoin_sender;
    let need_change = rsel.len() > 1 || rtotal > args.rune_amount;
    let want: u128 = if need_change { 2 * (postage as u128) } else { postage as u128 };
    let req: u128 = if want > rsats { want - rsats } else { 0 };
    let fee_target: u128 = fee as u128 + req;
    let mut input: Vec<TxIn> = Vec::new();
    push_runic_inputs(&mut input, rsel);
    let ghost in1 = input@;
    push_btc_inputs(&mut input, bsel);
    let ghost in2 = input@;
    push_btc_inputs(&mut input, fsel);
    proof {
        let nr = rsel@.len() as int;
        let nb = bsel@.len() as int;
        assert(in1.subrange(0, 0) =~= Seq::<TxIn>::empty());
        assert(in1.subrange(0, in1.len() as int) =~= in1);
        assert(input@.subrange(0, nr) =~= in1.subrange(0, nr));
        assert(input@.subrange(nr, nr + nb) =~= in2.subrange(nr, nr + nb));
    }
    let mut output: Vec<TxOut> = Vec::new();
    push_rune_outputs(
        &mut output,
        args.runeid,
        args.rune_amount,
        &args.rune_sender_script,
        &args.rune_receiver_script,
        postage,
        need_change,
    );
    let ghost ro = output@;
    output.push(TxOut { value: args.btc_amount, script_pubkey: args.bitcoin_receiver_script.clone() });
    let btc_change: u128 = if same {
        btotal - args.btc_amount as u128 - fee_target
    } else {
        btotal - args.btc_amount as u128
    };
    if btc_change > DUST_THRESHOLD as u128 {
        output.push(TxOut { value: btc_change as u64, script_pubkey: args.bitcoin_sender_script.clone() });
    }
    if !same {
        let fee_change: u128 = ftotal - fee_target;
        if fee_change > DUST_THRESHOLD as u128 {
            output.push(TxOut { value: fee_change as u64, script_pubkey: args.fee_payer_script.clone() });
        }
    }
    proof {
        assert forall|k: int| 0 <= k < ro.len() implies output@[k] == ro[k] by {}
        if need_change {
            assert(output@[0] == ro[0] && output@[1] == ro[1] && output@[2] == ro[2]);
        } else {
            assert(output@[0] == ro[0]);
        }
    }
    Transaction { version: 2, lock_time: 0, input, output }
}

/// Largest fee that a draft of `args` can owe when the rune sender has `nr`
/// runic outputs of the rune, the bitcoin sender `nb` plain ones and the fee
/// payer `np`.
pub open spec fn combined_fee_cap(nr: int, nb: int, np: int, args: CombinedTransactionArgs) -> int {
    fee_cap(
        nr + nb + np,
        6,
        out_size_of(runestone_script_of(args.runeid.block, args.runeid.tx, args.rune_amount, 2).len() as int)
            + out_size_of(args.rune_sender_script@.len() as int) + out_size_of(
            args.rune_receiver_script@.len() as int,
        ) + out_size_of(args.bitcoin_receiver_script@.len() as int) + out_size_of(
            args.bitcoin_sender_script@.len() as int,
        ) + out_size_of(args.fee_payer_script@.len() as int),
        args.signer_pubkey@,
        args.fee_per_vbytes,
    )
}

/// A draft owes no more than the cap.
proof fn lemma_combined_draft_within_cap(
    t: Transaction,
    rsel: Seq<RunicUtxo>,
    bsel: Seq<Utxo>,
    fsel: Seq<Utxo>,
    args: CombinedTransactionArgs,
    fee: u64,
    nr: int,
    nb: int,
    np: int,
)
    requires
        combined_draft(t, rsel, bsel, fsel, args, fee),
        rsel.len() <= nr,
        bsel.len() <= nb,
        fsel.len() <= np,
    ensures
        0 <= fee_for(t, args.signer_pubkey@, args.fee_per_vbytes) <= combined_fee_cap(nr, nb, np, args),
{
    let o = t.output@;
    lemma_outputs_size_small(o);
    let s0 = out_size_of(runestone_script_of(args.runeid.block, args.runeid.tx, args.rune_amount, 2).len() as int);
    let s1 = out_size_of(args.rune_sender_script@.len() as int);
    let s2 = out_size_of(args.rune_receiver_script@.len() as int);
    let s3 = out_size_of(args.bitcoin_receiver_script@.len() as int);
    let s4 = out_size_of(args.bitcoin_sender_script@.len() as int);
    let s5 = out_size_of(args.fee_payer_script@.len() as int);
    assert(s0 >= 0 && s1 >= 0 && s2 >= 0 && s3 >= 0 && s4 >= 0 && s5 >= 0);
    lemma_fee_within_cap(t, args.signer_pubkey@, args.fee_per_vbytes, nr + nb + np, 6, s0 + s1 + s2 + s3 + s4 + s5);
}

/// The multiset lengths of what a combined transfer took bound its inputs.
proof fn lemma_combined_counts(
    a: UtxoManager,
    b: UtxoManager,
    args: CombinedTransactionArgs,
    rsel: Seq<RunicUtxo>,
    bsel: Seq<Utxo>,
    fsel: Seq<Utxo>,
)
    requires
        combined_taken(a, b, args, rsel, bsel, fsel),
        args.fee_payer@ == args.bitcoin_sender@ ==> fsel.len() == 0,
    ensures
        rsel.len() <= a.runic(args.rune_sender@, args.runeid).len(),
        bsel.len() <= a.btc(args.bitcoin_sender@).len(),
        fsel.len() <= a.btc(args.fee_payer@).len(),
{
    let rr = b.runic(args.rune_sender@, args.runeid) + rsel;
    let bb = b.btc(args.bitcoin_sender@) + bsel;
    let ff = b.btc(args.fee_payer@) + fsel;
    assert(rr.to_multiset().len() == rr.len());
    assert(bb.to_multiset().len() == bb.len());
    assert(a.runic(args.rune_sender@, args.runeid).to_multiset().len() == a.runic(args.rune_sender@, args.runeid).len());
    assert(a.btc(args.bitcoin_sender@).to_multiset().len() == a.btc(args.bitcoin_sender@).len());
    if args.fee_payer@ != args.bitcoin_sender@ {
        assert(ff.to_multiset().len() == ff.len());
        assert(a.btc(args.fee_payer@).to_multiset().len() == a.btc(args.fee_payer@).len());
    }
}

/// Composes a rune transfer and a bitcoin transfer as one transaction, with
/// the same fee loop as the other transfers.
pub fn transfer(m: &mut UtxoManager, args: &CombinedTransactionArgs) -> (r: Result<
    TransactionType,
    TransferError,
>)
    requires
        old(m).wf(),
        args.signer_pubkey@.len() < 0x10000,
    ensures
        final(m).wf(),
        touches_only(*old(m), *final(m), args.bitcoin_sender@, args.fee_payer@, args.rune_sender@, args.runeid),
        match r {
            Ok(TransactionType::Combined { txn, runeid, rune_amount, rune_sender, runic_utxos, btc_amount, btc_sender, btc_utxos, fee_payer, fee_utxos, fee, postage }) => {
                &&& runeid == args.runeid && rune_amount == args.rune_amount && btc_amount == args.btc_amount
                &&& rune_sender@ == args.rune_sender@ && btc_sender@ == args.bitcoin_sender@
                &&& fee_payer@ == args.fee_payer@
                &&& postage == postage_of(args.postage)
                &&& combined_draft(txn, runic_utxos@, btc_utxos@, fee_utxos@, *args, fee)
                &&& combined_selection_ok(*args, fee, runic_utxos@, btc_utxos@, fee_utxos@)
                &&& fee == fee_for(txn, args.signer_pubkey@, args.fee_per_vbytes) || (fee
                    == combined_fee_cap(
                    old(m).runic(args.rune_sender@, args.runeid).len() as int,
                    old(m).btc(args.bitcoin_sender@).len() as int,
                    old(m).btc(args.fee_payer@).len() as int,
                    *args,
                ) && fee_for(txn, args.signer_pubkey@, args.fee_per_vbytes) <= fee)
                &&& combined_taken(*old(m), *final(m), *args, runic_utxos@, btc_utxos@, fee_utxos@)
            },
            Ok(_) => false,
            Err(e) => {
                &&& combined_restored(*old(m), *final(m), *args)
                &&& (e == TransferError::ZeroAmount <==> args.rune_amount == 0)
            },
        },
        0 < args.rune_amount ==> (r == Err::<TransactionType, TransferError>(
            TransferError::InsufficientRune { required: args.rune_amount },
        ) <==> balance_sum(old(m).runic(args.rune_sender@, args.runeid)) < args.rune_amount),
        ({
            let cap = combined_fee_cap(
                old(m).runic(args.rune_sender@, args.runeid).len() as int,
                old(m).btc(args.bitcoin_sender@).len() as int,
                old(m).btc(args.fee_payer@).len() as int,
                *args,
            );
            0 < args.rune_amount && cap <= u64::MAX && balance_sum(old(m).runic(args.rune_sender@, args.runeid))
                >= args.rune_amount && combined_funded_at(*old(m), *args, cap)
        }) ==> r is Ok,
{
    if args.rune_amount == 0 {
        proof {
            lemma_touches_from_btc(*m, *m, args.bitcoin_sender@, args.fee_payer@, args.rune_sender@, args.runeid);
        }
        return Err(TransferError::ZeroAmount);
    }
    let ghost m0 = *m;
    let postage: u64 = match args.postage {
        Some(p) => p,
        None => DEFAULT_POSTAGE,
    };
    let c1 = m.runic_count(args.rune_sender.as_str(), args.runeid);
    let c2 = m.btc_count(args.bitcoin_sender.as_str());
    let c3 = m.btc_count(args.fee_payer.as_str());
    let mut rounds = round_bound(c1, if c2 < usize::MAX - c3 { c2 + c3 } else { usize::MAX });
    let ghost rounds0 = rounds;
    let ghost cap_spec = combined_fee_cap(c1 as int, c2 as int, c3 as int, *args);
    let ghost funded = cap_spec <= u64::MAX && balance_sum(m0.runic(args.rune_sender@, args.runeid))
        >= args.rune_amount && combined_funded_at(m0, *args, cap_spec);
    let opret = crate::runestone::transfer_script(args.runeid.block, args.runeid.tx, args.rune_amount, 2);
    let out_bytes: u128 = out_len(opret.len()) + out_len(args.rune_sender_script.len()) + out_len(
        args.rune_receiver_script.len(),
    ) + out_len(args.bitcoin_receiver_script.len()) + out_len(args.bitcoin_sender_script.len()) + out_len(
        args.fee_payer_script.len(),
    );
    let cap = compute_fee_cap(c1 as u128 + c2 as u128 + c3 as u128, 6, out_bytes, &args.signer_pubkey, args.fee_per_vbytes);
    let mut fee: u64 = 0;
    proof {
        lemma_touches_from_btc(m0, *m, args.bitcoin_sender@, args.fee_payer@, args.rune_sender@, args.runeid);
    }
    while rounds > 0
        invariant
            m.wf(),
            rounds0 >= 1,
            balance_sum(m0.runic(args.rune_sender@, args.runeid)) >= args.rune_amount || rounds == rounds0,
            m0 == *old(m),
            args.rune_amount > 0,
            args.signer_pubkey@.len() < 0x10000,
            postage == postage_of(args.postage),
            c1 == m0.runic(args.rune_sender@, args.runeid).len(),
            c2 == m0.btc(args.bitcoin_sender@).len(),
            c3 == m0.btc(args.fee_payer@).len(),
            cap_spec == combined_fee_cap(c1 as int, c2 as int, c3 as int, *args),
            funded == (cap_spec <= u64::MAX && balance_sum(m0.runic(args.rune_sender@, args.runeid))
                >= args.rune_amount && combined_funded_at(m0, *args, cap_spec)),
            funded ==> cap == Some(cap_spec as u64),
            funded ==> fee <= cap_spec,
            touches_only(m0, *m, args.bitcoin_sender@, args.fee_payer@, args.rune_sender@, args.runeid),
            combined_restored(m0, *m, *args),
        decreases rounds,
    {
        let ghost before = *m;
        let res = select_combined(m, args, fee);
        proof {
            lemma_touches_trans(m0, before, *m, args.bitcoin_sender@, args.fee_payer@, args.rune_sender@, args.runeid);
        }
        proof {
            lemma_balance_sum_multiset(before.runic(args.rune_sender@, args.runeid), m0.runic(args.rune_sender@, args.runeid));
            lemma_value_sum_multiset(before.btc(args.bitcoin_sender@), m0.btc(args.bitcoin_sender@));
            lemma_value_sum_multiset(before.btc(args.fee_payer@), m0.btc(args.fee_payer@));
        }
        let (rsel, bsel, fsel, rtotal, rsats, btotal, ftotal) = match res {
            Ok(d) => d,
            Err(e) => {
                return Err(e);
            },
        };
        let ghost built = *m;
        proof {
            assert(combined_taken(m0, built, *args, rsel@, bsel@, fsel@));
        }
        let txn = assemble_combined(args, fee, &rsel, &bsel, &fsel, rtotal, rsats, btotal, ftotal);
        proof {
            lemma_combined_counts(m0, built, *args, rsel@, bsel@, fsel@);
            lemma_combined_draft_within_cap(txn, rsel@, bsel@, fsel@, *args, fee, c1 as int, c2 as int, c3 as int);
        }
        let owed_opt = fee_of(&txn, &args.signer_pubkey, args.fee_per_vbytes);
        if owed_opt == Some(fee) {
            return Ok(
                TransactionType::Combined {
                    txn,
                    runeid: args.runeid,
                    rune_amount: args.rune_amount,
                    rune_sender: args.rune_sender.clone(),
                    runic_utxos: rsel,
                    btc_amount: args.btc_amount,
                    btc_sender: args.bitcoin_sender.clone(),
                    btc_utxos: bsel,
                    fee_payer: args.fee_payer.clone(),
                    fee_utxos: fsel,
                    fee,
                    postage,
                },
            );
        }
        proof {
            assert(combined_taken(before, built, *args, rsel@, bsel@, fsel@));
        }
        return_combined(m, args, rsel, bsel, fsel, Ghost(before));
        proof {
            lemma_touches_trans(m0, built, *m, args.bitcoin_sender@, args.fee_payer@, args.rune_sender@, args.runeid);
        }
        match owed_opt {
            Some(f) => {
                fee = f;
            },
            None => {
                return Err(TransferError::Overflow);
            },
        }
        rounds = rounds - 1;
    }
    let c = match cap {
        Some(c) => c,
        None => {
            return Err(TransferError::FeeNotConverged);
        },
    };
    let ghost before = *m;
    let res = select_combined(m, args, c);
    proof {
        lemma_touches_trans(m0, before, *m, args.bitcoin_sender@, args.fee_payer@, args.rune_sender@, args.runeid);
        lemma_balance_sum_multiset(before.runic(args.rune_sender@, args.runeid), m0.runic(args.rune_sender@, args.runeid));
        lemma_value_sum_multiset(before.btc(args.bitcoin_sender@), m0.btc(args.bitcoin_sender@));
        lemma_value_sum_multiset(before.btc(args.fee_payer@), m0.btc(args.fee_payer@));
    }
    let (rsel, bsel, fsel, rtotal, rsats, btotal, ftotal) = match res {
        Ok(d) => d,
        Err(e) => {
            return Err(e);
        },
    };
    let ghost built = *m;
    proof {
        assert(combined_taken(m0, built, *args, rsel@, bsel@, fsel@));
    }
    let txn = assemble_combined(args, c, &rsel, &bsel, &fsel, rtotal, rsats, btotal, ftotal);
    proof {
        lemma_combined_counts(m0, built, *args, rsel@, bsel@, fsel@);
        lemma_combined_draft_within_cap(txn, rsel@, bsel@, fsel@, *args, c, c1 as int, c2 as int, c3 as int);
    }
    Ok(
        TransactionType::Combined {
            txn,
            runeid: args.runeid,
            rune_amount: args.rune_amount,
            rune_sender: args.rune_sender.clone(),
            runic_utxos: rsel,
            btc_amount: args.btc_amount,
            btc_sender: args.bitcoin_sender.clone(),
            btc_utxos: bsel,
            fee_payer: args.fee_payer.clone(),
            fee_utxos: fsel,
            fee: c,
            postage,
        },
    )
}

} // verus!
