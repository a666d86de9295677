//! What the transaction composers share: errors, the composed transaction, input and output builders, and frame lemmas.

use vstd::prelude::*;

use crate::tx::{output_size, outputs_size, Transaction, TxIn, TxOut, SEQUENCE_MAX};
use crate::runestone::{runestone_script_of, transfer_script};
use crate::types::{RuneId, RunicUtxo, Utxo};
use crate::utxo_manager::UtxoManager;
use crate::utxo_set::{balance_sum, btc_record, runic_record, runic_value_sum, value_sum};

verus! {

broadcast use vstd::seq_lib::group_to_multiset_ensures, vstd::seq_lib::lemma_multiset_commutative;


/// Change at or below this many satoshis is left to the miners.
pub const DUST_THRESHOLD: u64 = 1000;

/// Satoshis attached to each output that carries runes, unless told otherwise.
pub const DEFAULT_POSTAGE: u64 = 10000;

/// Why a transfer could not be composed.
#[derive(Clone, Copy, Debug, PartialEq, Eq, Structural)]
pub enum TransferError {
    /// The plain outputs fall short of the amount (fee and postage included).
    InsufficientBitcoin { required: u128 },
    /// The runic outputs fall short of the rune amount.
    InsufficientRune { required: u128 },
    /// Nothing to transfer.
    ZeroAmount,
    /// The receiver pays the fee, and the fee exceeds the amount.
    AmountBelowFee { fee: u64 },
    /// The fee did not settle within the bound on rounds.
    FeeNotConverged,
    /// A fee or amount does not fit in 64 bits.
    Overflow,
}

/// A composed transaction, with the outputs it spends, ready to be signed.
pub enum TransactionType {
    Bitcoin { txn: Transaction, utxos: Vec<Utxo>, sender: String, fee: u64 },
    Rune {
        txn: Transaction,
        runeid: RuneId,
        rune_amount: u128,
        runic_utxos: Vec<RunicUtxo>,
        sender: String,
        fee_payer: String,
        fee_utxos: Vec<Utxo>,
        fee: u64,
        postage: u64,
    },
    Combined {
        txn: Transaction,
        runeid: RuneId,
        rune_amount: u128,
        rune_sender: String,
        runic_utxos: Vec<RunicUtxo>,
        btc_amount: u64,
        btc_sender: String,
        btc_utxos: Vec<Utxo>,
        fee_payer: String,
        fee_utxos: Vec<Utxo>,
        fee: u64,
        postage: u64,
    },
}

/// The inputs of `t` spend exactly `sel`, in order, unsigned.
pub open spec fn spends(inputs: Seq<TxIn>, sel: Seq<Utxo>) -> bool {
    inputs.len() == sel.len() && forall|k: int|
        0 <= k < sel.len() ==> (#[trigger] inputs[k]).previous_output == sel[k].outpoint
            && inputs[k].script_sig@.len() == 0 && inputs[k].sequence == SEQUENCE_MAX
}

pub open spec fn pays(o: TxOut, script: Seq<u8>, value: int) -> bool {
    o.script_pubkey@ == script && o.value == value
}

/// Inputs spending `sel`, unsigned.
pub fn unsigned_inputs(sel: &Vec<Utxo>) -> (r: Vec<TxIn>)
    ensures
        spends(r@, sel@),
{
    let mut out: Vec<TxIn> = Vec::new();
    let mut i: usize = 0;
    while i < sel.len()
        invariant
            i <= sel@.len(),
            out@.len() == i,
            forall|k: int|
                0 <= k < i ==> (#[trigger] out@[k]).previous_output == sel@[k].outpoint
                    && out@[k].script_sig@.len() == 0 && out@[k].sequence == SEQUENCE_MAX,
        decreases sel@.len() - i,
    {
        out.push(
            TxIn { previous_output: sel[i].outpoint, script_sig: Vec::new(), sequence: SEQUENCE_MAX },
        );
        i = i + 1;
    }
    out
}

pub(crate) proof fn lemma_value_sum_push(s: Seq<Utxo>, u: Utxo)
    ensures
        value_sum(s.push(u)) == value_sum(s) + u.value,
{
    assert(s.push(u).drop_last() =~= s);
}

/// Two orderings of the same outputs have the same total value.
pub proof fn lemma_value_sum_multiset(a: Seq<Utxo>, b: Seq<Utxo>)
    requires
        a.to_multiset() == b.to_multiset(),
    ensures
        value_sum(a) == value_sum(b),
    decreases a.len(),
{
    if a.len() > 0 {
        let x = a.last();
        assert(a.to_multiset().count(x) > 0) by {
            assert(a.drop_last().push(x) =~= a);
        }
        assert(b.contains(x));
        let j = choose|j: int| 0 <= j < b.len() && b[j] == x;
        assert(a.drop_last().to_multiset() == b.remove(j).to_multiset()) by {
            assert(a.drop_last().push(x) =~= a);
            assert(a.to_multiset() == a.drop_last().to_multiset().insert(x));
            assert(b.remove(j).to_multiset() == b.to_multiset().remove(x));
            assert(a.drop_last().to_multiset() =~= a.to_multiset().remove(x));
        }
        lemma_value_sum_multiset(a.drop_last(), b.remove(j));
        crate::utxo_set::lemma_value_sum_remove(b, j);
    } else {
        assert(b.to_multiset().len() == 0);
    }
}

pub open spec fn postage_of(p: Option<u64>) -> int {
    match p {
        Some(v) => v as int,
        None => DEFAULT_POSTAGE as int,
    }
}

/// Whether the rune inputs leave some rune to return to the sender.
pub open spec fn needs_rune_change(count: int, spent: int, amount: int) -> bool {
    count > 1 || spent > amount
}

/// Satoshis the fee payer adds so that the rune outputs carry their postage
/// (zero when the runic inputs already carry enough).
pub open spec fn required_postage(need_change: bool, postage: int, runic_sats: int) -> int {
    let want = if need_change { 2 * postage } else { postage };
    if want > runic_sats { want - runic_sats } else { 0 }
}

/// The rune outputs of a transfer of `amount` of `runeid` from
/// `sender_script` to `receiver_script`: with change, the runestone at index
/// 0 with an edict to output 2, the sender's change at 1 and the receiver at
/// 2; without, the receiver alone.
pub open spec fn rune_outputs_ok(
    o: Seq<TxOut>,
    runeid: RuneId,
    amount: u128,
    sender_script: Seq<u8>,
    receiver_script: Seq<u8>,
    postage: int,
    need_change: bool,
) -> bool {
    if need_change {
        &&& o.len() >= 3
        &&& pays(o[0], runestone_script_of(runeid.block, runeid.tx, amount, 2), 0)
        &&& pays(o[1], sender_script, postage)
        &&& pays(o[2], receiver_script, postage)
    } else {
        &&& o.len() >= 1
        &&& pays(o[0], receiver_script, postage)
    }
}

pub open spec fn runic_inputs(inputs: Seq<TxIn>, sel: Seq<RunicUtxo>) -> bool {
    inputs.len() == sel.len() && forall|k: int|
        0 <= k < sel.len() ==> (#[trigger] inputs[k]).previous_output == sel[k].utxo.outpoint
            && inputs[k].script_sig@.len() == 0 && inputs[k].sequence == SEQUENCE_MAX
}

/// Appends unsigned inputs spending `sel`.
pub(crate) fn push_runic_inputs(input: &mut Vec<TxIn>, sel: &Vec<RunicUtxo>)
    ensures
        final(input)@.len() == old(input)@.len() + sel@.len(),
        final(input)@.subrange(0, old(input)@.len() as int) == old(input)@,
        runic_inputs(final(input)@.subrange(old(input)@.len() as int, final(input)@.len() as int), sel@),
{
    let ghost start = input@;
    let mut i: usize = 0;
    while i < sel.len()
        invariant
            i <= sel@.len(),
            input@.len() == start.len() + i,
            input@.subrange(0, start.len() as int) == start,
            forall|k: int|
                0 <= k < i ==> (#[trigger] input@[start.len() + k]).previous_output == sel@[k].utxo.outpoint
                    && input@[start.len() + k].script_sig@.len() == 0 && input@[start.len() + k].sequence == SEQUENCE_MAX,
        decreases sel@.len() - i,
    {
        input.push(TxIn { previous_output: sel[i].utxo.outpoint, script_sig: Vec::new(), sequence: SEQUENCE_MAX });
        proof {
            assert(input@.subrange(0, start.len() as int) =~= start);
        }
        i = i + 1;
    }
    proof {
        let t = input@.subrange(start.len() as int, input@.len() as int);
        assert forall|k: int| 0 <= k < sel@.len() implies (#[trigger] t[k]).previous_output == sel@[k].utxo.outpoint
            && t[k].script_sig@.len() == 0 && t[k].sequence == SEQUENCE_MAX by {
            assert(t[k] == input@[start.len() + k]);
        }
    }
}

/// Appends unsigned inputs spending `sel`.
pub(crate) fn push_btc_inputs(input: &mut Vec<TxIn>, sel: &Vec<Utxo>)
    ensures
        final(input)@.len() == old(input)@.len() + sel@.len(),
        final(input)@.subrange(0, old(input)@.len() as int) == old(input)@,
        spends(final(input)@.subrange(old(input)@.len() as int, final(input)@.len() as int), sel@),
{
    let ghost start = input@;
    let mut i: usize = 0;
    while i < sel.len()
        invariant
            i <= sel@.len(),
            input@.len() == start.len() + i,
            input@.subrange(0, start.len() as int) == start,
            forall|k: int|
                0 <= k < i ==> (#[trigger] input@[start.len() + k]).previous_output == sel@[k].outpoint
                    && input@[start.len() + k].script_sig@.len() == 0 && input@[start.len() + k].sequence == SEQUENCE_MAX,
        decreases sel@.len() - i,
    {
        input.push(TxIn { previous_output: sel[i].outpoint, script_sig: Vec::new(), sequence: SEQUENCE_MAX });
        proof {
            assert(input@.subrange(0, start.len() as int) =~= start);
        }
        i = i + 1;
    }
    proof {
        let t = input@.subrange(start.len() as int, input@.len() as int);
        assert forall|k: int| 0 <= k < sel@.len() implies (#[trigger] t[k]).previous_output == sel@[k].outpoint
            && t[k].script_sig@.len() == 0 && t[k].sequence == SEQUENCE_MAX by {
            assert(t[k] == input@[start.len() + k]);
        }
    }
}

/// Appends the rune outputs of a transfer.
pub(crate) fn push_rune_outputs(
    output: &mut Vec<TxOut>,
    runeid: RuneId,
    amount: u128,
    sender_script: &Vec<u8>,
    receiver_script: &Vec<u8>,
    postage: u64,
    need_change: bool,
)
    requires
        old(output)@.len() == 0,
    ensures
        rune_outputs_ok(final(output)@, runeid, amount, sender_script@, receiver_script@, postage as int, need_change),
        final(output)@.len() == if need_change { 3int } else { 1int },
{
    if need_change {
        output.push(TxOut { value: 0, script_pubkey: transfer_script(runeid.block, runeid.tx, amount, 2) });
        output.push(TxOut { value: postage, script_pubkey: sender_script.clone() });
        output.push(TxOut { value: postage, script_pubkey: receiver_script.clone() });
    } else {
        output.push(TxOut { value: postage, script_pubkey: receiver_script.clone() });
    }
}

pub(crate) proof fn lemma_balance_sum_push(s: Seq<RunicUtxo>, u: RunicUtxo)
    ensures
        balance_sum(s.push(u)) == balance_sum(s) + u.balance,
        runic_value_sum(s.push(u)) == runic_value_sum(s) + u.utxo.value,
{
    assert(s.push(u).drop_last() =~= s);
}

/// `b` differs from `a` at most in the plain sets of `x1` and `x2` and in the
/// runic set of `(ra, r)`.
pub open spec fn touches_only(
    a: UtxoManager,
    b: UtxoManager,
    x1: Seq<char>,
    x2: Seq<char>,
    ra: Seq<char>,
    r: RuneId,
) -> bool {
    &&& forall|x: Seq<char>| x != x1 && x != x2 ==> #[trigger] b.btc(x) == a.btc(x)
    &&& forall|x: Seq<char>, q: RuneId| !(x == ra && q == r) ==> #[trigger] b.runic(x, q) == a.runic(x, q)
}

pub(crate) proof fn lemma_touches_trans(
    a: UtxoManager,
    b: UtxoManager,
    c: UtxoManager,
    x1: Seq<char>,
    x2: Seq<char>,
    ra: Seq<char>,
    r: RuneId,
)
    requires
        touches_only(a, b, x1, x2, ra, r),
        touches_only(b, c, x1, x2, ra, r),
    ensures
        touches_only(a, c, x1, x2, ra, r),
{
    assert forall|x: Seq<char>| x != x1 && x != x2 implies #[trigger] c.btc(x) == a.btc(x) by {
        assert(b.btc(x) == a.btc(x));
    }
    assert forall|x: Seq<char>, q: RuneId| !(x == ra && q == r) implies #[trigger] c.runic(x, q)
        == a.runic(x, q) by {
        assert(b.runic(x, q) == a.runic(x, q));
    }
}

pub(crate) proof fn lemma_touches_from_btc(a: UtxoManager, b: UtxoManager, x1: Seq<char>, x2: Seq<char>, ra: Seq<char>, r: RuneId)
    requires
        a.btc_frame(&b, x1) || a.btc_frame(&b, x2),
    ensures
        touches_only(a, b, x1, x2, ra, r),
{
    assert forall|x: Seq<char>| x != x1 && x != x2 implies #[trigger] b.btc(x) == a.btc(x) by {}
    assert forall|x: Seq<char>, q: RuneId| !(x == ra && q == r) implies #[trigger] b.runic(x, q)
        == a.runic(x, q) by {}
}

pub(crate) proof fn lemma_touches_from_runic(a: UtxoManager, b: UtxoManager, x1: Seq<char>, x2: Seq<char>, ra: Seq<char>, r: RuneId)
    requires
        a.runic_frame(&b, ra, r),
    ensures
        touches_only(a, b, x1, x2, ra, r),
{
    assert forall|x: Seq<char>| x != x1 && x != x2 implies #[trigger] b.btc(x) == a.btc(x) by {}
    assert forall|x: Seq<char>, q: RuneId| !(x == ra && q == r) implies #[trigger] b.runic(x, q)
        == a.runic(x, q) by {}
}

/// Number of rounds the fee loop may take: one more than the outputs it can
/// select from.
pub(crate) fn round_bound(a: usize, b: usize) -> (r: usize)
    ensures
        r >= 1,
{
    if a < usize::MAX - 1 && b < usize::MAX - 1 - a {
        a + b + 1
    } else {
        usize::MAX
    }
}

/// Whose key signs an input.
#[derive(Clone, Copy, Debug, PartialEq, Eq, Structural)]
pub enum Signer {
    RuneSender,
    BitcoinSender,
    FeePayer,
}

/// `n` copies of `s`, appended to `v`.
pub(crate) fn push_signers(v: &mut Vec<Signer>, s: Signer, n: usize)
    ensures
        final(v)@ == old(v)@ + Seq::new(n as nat, |i: int| s),
{
    let ghost start = v@;
    let mut i: usize = 0;
    while i < n
        invariant
            i <= n,
            v@ == start + Seq::new(i as nat, |k: int| s),
        decreases n - i,
    {
        v.push(s);
        i = i + 1;
        assert(v@ =~= start + Seq::new(i as nat, |k: int| s));
    }
}

impl TransactionType {
    /// Who signs each input, in input order: the inputs of a rune transfer
    /// come runic first, then the fee payer's; those of a combined transfer
    /// runic, then the bitcoin sender's, then the fee payer's.
    pub fn input_signers(&self) -> (r: Vec<Signer>)
        ensures
            r@ == match *self {
                TransactionType::Bitcoin { utxos, .. } => Seq::new(utxos@.len(), |i: int| Signer::BitcoinSender),
                TransactionType::Rune { runic_utxos, fee_utxos, .. } => Seq::new(
                    runic_utxos@.len(),
                    |i: int| Signer::RuneSender,
                ) + Seq::new(fee_utxos@.len(), |i: int| Signer::FeePayer),
                TransactionType::Combined { runic_utxos, btc_utxos, fee_utxos, .. } => Seq::new(
                    runic_utxos@.len(),
                    |i: int| Signer::RuneSender,
                ) + Seq::new(btc_utxos@.len(), |i: int| Signer::BitcoinSender) + Seq::new(
                    fee_utxos@.len(),
                    |i: int| Signer::FeePayer,
                ),
            },
    {
        let mut v: Vec<Signer> = Vec::new();
        match self {
            TransactionType::Bitcoin { utxos, .. } => {
                push_signers(&mut v, Signer::BitcoinSender, utxos.len());
                assert(v@ =~= Seq::new(utxos@.len(), |i: int| Signer::BitcoinSender));
            },
            TransactionType::Rune { runic_utxos, fee_utxos, .. } => {
                push_signers(&mut v, Signer::RuneSender, runic_utxos.len());
                push_signers(&mut v, Signer::FeePayer, fee_utxos.len());
                assert(Seq::<Signer>::empty() + Seq::new(runic_utxos@.len(), |i: int| Signer::RuneSender)
                    =~= Seq::new(runic_utxos@.len(), |i: int| Signer::RuneSender));
            },
            TransactionType::Combined { runic_utxos, btc_utxos, fee_utxos, .. } => {
                push_signers(&mut v, Signer::RuneSender, runic_utxos.len());
                push_signers(&mut v, Signer::BitcoinSender, btc_utxos.len());
                push_signers(&mut v, Signer::FeePayer, fee_utxos.len());
                assert(Seq::<Signer>::empty() + Seq::new(runic_utxos@.len(), |i: int| Signer::RuneSender)
                    =~= Seq::new(runic_utxos@.len(), |i: int| Signer::RuneSender));
            },
        }
        v
    }

    /// Gives the outputs that this transaction would have spent back to the
    /// index, for a transaction that will not be broadcast.
    pub fn cancel(self, m: &mut UtxoManager)
        requires
            old(m).wf(),
        ensures
            final(m).wf(),
            match self {
                TransactionType::Bitcoin { utxos, sender, .. } => final(m).btc(sender@) == btc_record(
                    old(m).btc(sender@),
                    utxos@,
                ),
                TransactionType::Rune { runeid, runic_utxos, sender, fee_payer, fee_utxos, .. } => {
                    &&& final(m).runic(sender@, runeid) == runic_record(old(m).runic(sender@, runeid), runic_utxos@)
                    &&& final(m).btc(fee_payer@) == btc_record(old(m).btc(fee_payer@), fee_utxos@)
                },
                TransactionType::Combined { runeid, rune_sender, runic_utxos, btc_sender, btc_utxos, fee_payer, fee_utxos, .. } => {
                    &&& final(m).runic(rune_sender@, runeid) == runic_record(old(m).runic(rune_sender@, runeid), runic_utxos@)
                    &&& btc_sender@ != fee_payer@ ==> final(m).btc(btc_sender@) == btc_record(old(m).btc(btc_sender@), btc_utxos@)
                        && final(m).btc(fee_payer@) == btc_record(old(m).btc(fee_payer@), fee_utxos@)
                    &&& btc_sender@ == fee_payer@ ==> final(m).btc(btc_sender@) == btc_record(
                        btc_record(old(m).btc(btc_sender@), btc_utxos@),
                        fee_utxos@,
                    )
                },
            },
    {
        match self {
            TransactionType::Bitcoin { utxos, sender, .. } => {
                m.record_btc_utxos(sender.as_str(), utxos);
            },
            TransactionType::Rune { runeid, runic_utxos, sender, fee_payer, fee_utxos, .. } => {
                m.record_runic_utxos(sender.as_str(), runeid, runic_utxos);
                let ghost mid = *m;
                m.record_btc_utxos(fee_payer.as_str(), fee_utxos);
                proof {
                    assert(m.runic(sender@, runeid) == mid.runic(sender@, runeid));
                }
            },
            TransactionType::Combined { runeid, rune_sender, runic_utxos, btc_sender, btc_utxos, fee_payer, fee_utxos, .. } => {
                m.record_runic_utxos(rune_sender.as_str(), runeid, runic_utxos);
                let ghost m1 = *m;
                m.record_btc_utxos(btc_sender.as_str(), btc_utxos);
                let ghost m2 = *m;
                m.record_btc_utxos(fee_payer.as_str(), fee_utxos);
                proof {
                    assert(m.runic(rune_sender@, runeid) == m1.runic(rune_sender@, runeid));
                    if btc_sender@ != fee_payer@ {
                        assert(m.btc(btc_sender@) == m2.btc(btc_sender@));
                        assert(m2.btc(fee_payer@) == m1.btc(fee_payer@));
                    }
                }
            },
        }
    }
}


/// Two orderings of the same runic outputs hold the same rune balance.
pub proof fn lemma_balance_sum_multiset(a: Seq<RunicUtxo>, b: Seq<RunicUtxo>)
    requires
        a.to_multiset() == b.to_multiset(),
    ensures
        balance_sum(a) == balance_sum(b),
    decreases a.len(),
{
    if a.len() > 0 {
        let x = a.last();
        assert(a.to_multiset().count(x) > 0) by {
            assert(a.drop_last().push(x) =~= a);
        }
        assert(b.contains(x));
        let j = choose|j: int| 0 <= j < b.len() && b[j] == x;
        assert(a.drop_last().to_multiset() == b.remove(j).to_multiset()) by {
            assert(a.drop_last().push(x) =~= a);
            assert(a.to_multiset() == a.drop_last().to_multiset().insert(x));
            assert(b.remove(j).to_multiset() == b.to_multiset().remove(x));
            assert(a.drop_last().to_multiset() =~= a.to_multiset().remove(x));
        }
        lemma_balance_sum_multiset(a.drop_last(), b.remove(j));
        crate::utxo_set::lemma_balance_sum_remove(b, j);
    } else {
        assert(b.to_multiset().len() == 0);
    }
}

/// The rune balance of two lists of outputs together is the sum of theirs.
pub proof fn lemma_balance_sum_concat(a: Seq<RunicUtxo>, b: Seq<RunicUtxo>)
    ensures
        balance_sum(a + b) == balance_sum(a) + balance_sum(b),
    decreases b.len(),
{
    if b.len() > 0 {
        lemma_balance_sum_concat(a, b.drop_last());
        assert((a + b).drop_last() =~= a + b.drop_last());
    } else {
        assert(a + b =~= a);
    }
}

/// A selection that stopped short of `target` with nothing left took the
/// whole set, so the set itself falls short.
pub proof fn lemma_runic_shortfall(rest: Seq<RunicUtxo>, sel: Seq<RunicUtxo>, all: Seq<RunicUtxo>, target: int)
    requires
        rest.len() == 0,
        (rest + sel).to_multiset() == all.to_multiset(),
        crate::selection::sat128(balance_sum(sel)) < target,
        target <= u128::MAX,
    ensures
        balance_sum(all) < target,
{
    assert(rest + sel =~= sel);
    lemma_balance_sum_multiset(sel, all);
}

/// A selection that reached `target` came out of a set that holds at least
/// `target`.
pub proof fn lemma_runic_enough(rest: Seq<RunicUtxo>, sel: Seq<RunicUtxo>, all: Seq<RunicUtxo>, target: int)
    requires
        (rest + sel).to_multiset() == all.to_multiset(),
        balance_sum(sel) >= target,
    ensures
        balance_sum(all) >= target,
{
    lemma_balance_sum_multiset(rest + sel, all);
    lemma_balance_sum_concat(rest, sel);
    crate::selection::lemma_runic_sums_nonneg(rest);
}


/// Size of up to six outputs, one by one.
pub proof fn lemma_outputs_size_small(o: Seq<TxOut>)
    requires
        o.len() <= 6,
    ensures
        outputs_size(o) == (if o.len() > 0 { output_size(o[0]) } else { 0 }) + (if o.len() > 1 {
            output_size(o[1])
        } else {
            0
        }) + (if o.len() > 2 { output_size(o[2]) } else { 0 }) + (if o.len() > 3 {
            output_size(o[3])
        } else {
            0
        }) + (if o.len() > 4 { output_size(o[4]) } else { 0 }) + (if o.len() > 5 {
            output_size(o[5])
        } else {
            0
        }),
    decreases o.len(),
{
    if o.len() > 0 {
        let p = o.drop_last();
        lemma_outputs_size_small(p);
        assert forall|i: int| 0 <= i < p.len() implies p[i] == o[i] by {}
        assert(o.last() == o[o.len() - 1]);
    }
}

/// A shortfall of a selection that emptied the set is a shortfall of the set.
pub proof fn lemma_btc_shortfall(rest: Seq<Utxo>, sel: Seq<Utxo>, all: Seq<Utxo>)
    requires
        rest.len() == 0,
        (rest + sel).to_multiset() == all.to_multiset(),
    ensures
        value_sum(all) == value_sum(sel),
{
    assert(rest + sel =~= sel);
    lemma_value_sum_multiset(sel, all);
}

} // verus!
